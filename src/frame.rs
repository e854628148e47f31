//! Frame upload: segments a row-major height x width x 3 pixel buffer into
//! an ordered stream of feature reports for the device's LED matrix.
//!
//! Every check runs before the first packet is built, so a frame that would
//! overflow a counter or an index is refused whole and nothing is sent.

use vstd::prelude::*;
use vstd::arithmetic::div_mod::lemma_fundamental_div_mod_converse;

use crate::crc::{checksum_of, fast_crc_impl};
use crate::error::{HidError, ProtocolErrorKind};
use crate::report::{remaining_of, ARGS_OFFSET, CRC_OFFSET, DATA_SIZE};

verus! {

/// Bytes per pixel.
pub const CHANNELS: usize = 3;

/// Header length of the legacy frame packet: frame id, row, start, stop.
pub const LEGACY_PREFIX_LEN: usize = 4;

/// Header length of the extended frame packet: 0, 0, row, start, stop.
pub const EXTENDED_PREFIX_LEN: usize = 5;

pub const COMMAND_CLASS_LEGACY: u8 = 0x03;

pub const COMMAND_ID_FRAME_MATRIX: u8 = 0x0B;

pub const COMMAND_CLASS_EXTENDED: u8 = 0x0F;

pub const COMMAND_ID_FRAME_EXTENDED: u8 = 0x03;

/// Largest packet count the 16-bit remaining counter can carry.
pub const MAX_PACKETS: usize = 0xFFFF;

/// Largest value of a one-byte row or column index, plus one.
pub const INDEX_LIMIT: usize = 256;

/// Geometry of one frame upload, recomputed for every call.
#[derive(Clone, Copy, Debug, PartialEq, Eq, Structural)]
pub struct FramePlan {
    pub height: usize,
    pub width: usize,
    pub is_extended: bool,
    /// Packet header length inside the argument region.
    pub prefix_len: usize,
    /// Pixels one packet carries.
    pub max_cols: usize,
    pub segments_per_row: usize,
    pub total_packets: usize,
}

pub open spec fn prefix_len_for(is_extended: bool) -> int {
    if is_extended {
        EXTENDED_PREFIX_LEN as int
    } else {
        LEGACY_PREFIX_LEN as int
    }
}

/// Pixels per packet: what is left of the argument region after the header.
pub open spec fn max_cols_for(is_extended: bool) -> int {
    (DATA_SIZE - prefix_len_for(is_extended)) / CHANNELS as int
}

/// Packets per row: `width / max_cols`, rounded up.
pub open spec fn segments_for(width: int, max_cols: int) -> int {
    width / max_cols + if width % max_cols == 0 {
        0int
    } else {
        1int
    }
}

/// The plan for a geometry (its packet count is meaningful where it fits).
pub open spec fn plan_for(height: usize, width: usize, is_extended: bool) -> FramePlan {
    let spr = segments_for(width as int, max_cols_for(is_extended));
    FramePlan {
        height,
        width,
        is_extended,
        prefix_len: prefix_len_for(is_extended) as usize,
        max_cols: max_cols_for(is_extended) as usize,
        segments_per_row: spr as usize,
        total_packets: (height * spr) as usize,
    }
}

impl FramePlan {
    /// The plan for a frame of `height` rows of `width` pixels; refused when
    /// the packets it needs do not fit in the 16-bit remaining counter.
    pub fn new(height: usize, width: usize, is_extended: bool) -> (r: Result<FramePlan, HidError>)
        ensures
            r is Ok <==> height * segments_for(width as int, max_cols_for(is_extended))
                <= MAX_PACKETS,
            r matches Ok(plan) ==> plan == plan_for(height, width, is_extended),
            r is Err ==> r == Err::<FramePlan, HidError>(
                HidError::ProtocolError(ProtocolErrorKind::PacketCountTooLarge),
            ),
    {
        let prefix_len: usize = if is_extended {
            EXTENDED_PREFIX_LEN
        } else {
            LEGACY_PREFIX_LEN
        };
        let max_cols: usize = (DATA_SIZE - prefix_len) / CHANNELS;
        assert(max_cols == 25);
        assert(width / 25 <= width) by (nonlinear_arith);
        let segments_per_row: usize = width / max_cols + if width % max_cols == 0 {
            0
        } else {
            1
        };
        match height.checked_mul(segments_per_row) {
            Some(total_packets) => {
                if total_packets > MAX_PACKETS {
                    Err(HidError::ProtocolError(ProtocolErrorKind::PacketCountTooLarge))
                } else {
                    Ok(
                        FramePlan {
                            height,
                            width,
                            is_extended,
                            prefix_len,
                            max_cols,
                            segments_per_row,
                            total_packets,
                        },
                    )
                }
            },
            None => Err(HidError::ProtocolError(ProtocolErrorKind::PacketCountTooLarge)),
        }
    }

    /// Command class of the frame packets.
    pub fn command_class(&self) -> (r: u8)
        ensures
            r == command_class_for(self.is_extended),
    {
        if self.is_extended {
            COMMAND_CLASS_EXTENDED
        } else {
            COMMAND_CLASS_LEGACY
        }
    }

    /// Command id of the frame packets.
    pub fn command_id(&self) -> (r: u8)
        ensures
            r == command_id_for(self.is_extended),
    {
        if self.is_extended {
            COMMAND_ID_FRAME_EXTENDED
        } else {
            COMMAND_ID_FRAME_MATRIX
        }
    }
}

pub open spec fn command_class_for(is_extended: bool) -> u8 {
    if is_extended {
        COMMAND_CLASS_EXTENDED
    } else {
        COMMAND_CLASS_LEGACY
    }
}

pub open spec fn command_id_for(is_extended: bool) -> u8 {
    if is_extended {
        COMMAND_ID_FRAME_EXTENDED
    } else {
        COMMAND_ID_FRAME_MATRIX
    }
}

/// The row offset table as a sequence, if there is one.
pub open spec fn offsets_view(offsets: Option<Vec<u8>>) -> Option<Seq<u8>> {
    match offsets {
        Some(v) => Some(v@),
        None => None,
    }
}

/// Start-column offset of a row: its entry in the table, or 0 without one.
pub open spec fn row_offset(offsets: Option<Seq<u8>>, row: int) -> int {
    match offsets {
        Some(o) => if 0 <= row < o.len() {
            o[row] as int
        } else {
            0
        },
        None => 0,
    }
}

/// Why a frame is refused, checked in this order, or `None` when it can be
/// uploaded.
pub open spec fn frame_check(
    len: int,
    height: int,
    width: int,
    channels: int,
    offsets: Option<Seq<u8>>,
    is_extended: bool,
) -> Option<ProtocolErrorKind> {
    if channels != CHANNELS || height * width * CHANNELS != len {
        Some(ProtocolErrorKind::FrameShape)
    } else if height == 0 || width == 0 {
        None
    } else if offsets matches Some(o) && o.len() < height {
        Some(ProtocolErrorKind::RowOffsetsLength)
    } else if height * segments_for(width, max_cols_for(is_extended)) > MAX_PACKETS {
        Some(ProtocolErrorKind::PacketCountTooLarge)
    } else if height > INDEX_LIMIT {
        Some(ProtocolErrorKind::RowIndexOverflow)
    } else if exists|row: int| 0 <= row < height && row_offset(offsets, row) + width > INDEX_LIMIT {
        Some(ProtocolErrorKind::ColumnIndexOverflow)
    } else {
        None
    }
}

/// Pixels carried by segment `seg` of a row.
pub open spec fn segment_width(plan: FramePlan, seg: int) -> int {
    let rest = plan.width - seg * plan.max_cols;
    if rest < plan.max_cols {
        rest
    } else {
        plan.max_cols as int
    }
}

/// The packet header inside the argument region.
pub open spec fn packet_header(
    is_extended: bool,
    frame_id: u8,
    row: int,
    start_col: int,
    stop_col: int,
) -> Seq<u8> {
    if is_extended {
        seq![0u8, 0u8, row as u8, start_col as u8, stop_col as u8]
    } else {
        seq![frame_id, row as u8, start_col as u8, stop_col as u8]
    }
}

/// The first eight bytes of a frame packet.
pub open spec fn packet_lead(
    plan: FramePlan,
    transaction_id: u8,
    remaining: int,
    data_size: int,
) -> Seq<u8> {
    seq![
        0u8,
        transaction_id,
        (remaining % 256) as u8,
        (remaining / 256) as u8,
        0u8,
        data_size as u8,
        command_class_for(plan.is_extended),
        command_id_for(plan.is_extended),
    ]
}

/// Index of the first byte of segment `seg` of `row` in the pixel buffer.
pub open spec fn segment_source(plan: FramePlan, row: int, seg: int) -> int {
    (row * plan.width + seg * plan.max_cols) * CHANNELS
}

/// The argument region of a frame packet: header, pixels, zero padding.
pub open spec fn packet_args(
    plan: FramePlan,
    frame: Seq<u8>,
    frame_id: u8,
    offset: int,
    row: int,
    seg: int,
) -> Seq<u8> {
    let sw = segment_width(plan, seg);
    let start_col = offset + seg * plan.max_cols;
    let src = segment_source(plan, row, seg);
    let body = packet_header(plan.is_extended, frame_id, row, start_col, start_col + sw - 1)
        + frame.subrange(src, src + sw * CHANNELS);
    body + Seq::new((DATA_SIZE - body.len()) as nat, |i: int| 0u8)
}

/// A frame packet before its checksum is filled in.
pub open spec fn unsummed_packet(
    plan: FramePlan,
    frame: Seq<u8>,
    frame_id: u8,
    transaction_id: u8,
    offset: int,
    row: int,
    seg: int,
) -> Seq<u8> {
    let index = row * plan.segments_per_row + seg;
    let remaining = plan.total_packets - 1 - index;
    let data_size = plan.prefix_len + segment_width(plan, seg) * CHANNELS;
    packet_lead(plan, transaction_id, remaining, data_size) + packet_args(
        plan,
        frame,
        frame_id,
        offset,
        row,
        seg,
    ) + seq![0u8, 0u8]
}

/// Segment `seg` of `row`, whose columns start at `offset`, as the 90 bytes sent.
pub open spec fn frame_packet(
    plan: FramePlan,
    frame: Seq<u8>,
    frame_id: u8,
    transaction_id: u8,
    offset: int,
    row: int,
    seg: int,
) -> Seq<u8> {
    let u = unsummed_packet(plan, frame, frame_id, transaction_id, offset, row, seg);
    u.update(CRC_OFFSET as int, checksum_of(u))
}


/// The plan fits the remaining counter and the frame fits the one-byte
/// row and column indices.
pub open spec fn plan_fits(plan: FramePlan) -> bool {
    &&& plan == plan_for(plan.height, plan.width, plan.is_extended)
    &&& 0 < plan.width
    &&& plan.height <= INDEX_LIMIT
    &&& plan.height * plan.segments_per_row <= MAX_PACKETS
}

proof fn lemma_segment_bounds(plan: FramePlan, row: int, seg: int)
    requires
        plan_fits(plan),
        0 <= row < plan.height,
        0 <= seg < plan.segments_per_row,
    ensures
        plan.max_cols == 25,
        plan.total_packets == plan.height * plan.segments_per_row,
        seg * plan.max_cols < plan.width,
        0 < segment_width(plan, seg) <= plan.max_cols,
        seg * plan.max_cols + segment_width(plan, seg) <= plan.width,
        row * plan.segments_per_row + seg < plan.total_packets,
        row * plan.width + plan.width <= plan.height * plan.width,
        plan.segments_per_row <= plan.width,
        plan.height * plan.width <= INDEX_LIMIT * plan.width,
{
    let w = plan.width as int;
    let spr = plan.segments_per_row as int;
    let h = plan.height as int;
    assert(plan.max_cols == 25);
    vstd::arithmetic::div_mod::lemma_fundamental_div_mod(w, 25);
    assert(seg * 25 < w) by (nonlinear_arith)
        requires
            w == 25 * (w / 25) + w % 25,
            0 <= w % 25 < 25,
            spr == w / 25 + if w % 25 == 0 {
                0int
            } else {
                1int
            },
            0 <= seg < spr,
    ;
    assert(spr <= w) by (nonlinear_arith)
        requires
            w == 25 * (w / 25) + w % 25,
            0 <= w % 25 < 25,
            0 < w,
            spr == w / 25 + if w % 25 == 0 {
                0int
            } else {
                1int
            },
    ;
    assert(row * spr + seg < h * spr) by (nonlinear_arith)
        requires
            0 <= row < h,
            0 <= seg < spr,
    ;
    assert(row * w + w <= h * w) by (nonlinear_arith)
        requires
            0 <= row < h,
            0 < w,
    ;
    assert(h * w <= INDEX_LIMIT * w) by (nonlinear_arith)
        requires
            h <= INDEX_LIMIT,
            0 < w,
    ;
}

/// Builds segment `seg` of `row`.
#[verifier::rlimit(40)]
fn build_segment(
    plan: &FramePlan,
    frame: &[u8],
    frame_id: u8,
    transaction_id: u8,
    offset: usize,
    row: usize,
    seg: usize,
) -> (p: Vec<u8>)
    requires
        plan_fits(*plan),
        row < plan.height,
        seg < plan.segments_per_row,
        frame@.len() == plan.height * plan.width * CHANNELS,
        offset + plan.width <= INDEX_LIMIT,
    ensures
        p@ == frame_packet(
            *plan,
            frame@,
            frame_id,
            transaction_id,
            offset as int,
            row as int,
            seg as int,
        ),
{
    proof {
        lemma_segment_bounds(*plan, row as int, seg as int);
        assert(plan.height * plan.width * CHANNELS == (plan.height * plan.width) * CHANNELS);
        assert(row * plan.width <= INDEX_LIMIT * INDEX_LIMIT) by (nonlinear_arith)
            requires
                row < INDEX_LIMIT,
                plan.width <= INDEX_LIMIT,
        ;
    }
    let start = seg * plan.max_cols;
    let rest = plan.width - start;
    let sw: usize = if rest < plan.max_cols {
        rest
    } else {
        plan.max_cols
    };
    let index = row * plan.segments_per_row + seg;
    let remaining = plan.total_packets - 1 - index;
    let data_len = sw * CHANNELS;
    let data_size = plan.prefix_len + data_len;
    let start_col = offset + start;
    let stop_col = start_col + sw - 1;
    let src = (row * plan.width + start) * CHANNELS;
    proof {
        assert((row * plan.width + start + sw) * CHANNELS <= (plan.height * plan.width)
            * CHANNELS) by (nonlinear_arith)
            requires
                row * plan.width + plan.width <= plan.height * plan.width,
                start + sw <= plan.width,
        ;
    }
    let ghost lead = packet_lead(*plan, transaction_id, remaining as int, data_size as int);
    let ghost header = packet_header(
        plan.is_extended,
        frame_id,
        row as int,
        start_col as int,
        stop_col as int,
    );
    let mut p: Vec<u8> = Vec::new();
    p.push(0);
    p.push(transaction_id);
    p.push((remaining % 256) as u8);
    p.push((remaining / 256) as u8);
    p.push(0);
    p.push(data_size as u8);
    p.push(plan.command_class());
    p.push(plan.command_id());
    if plan.is_extended {
        p.push(0);
        p.push(0);
        p.push(row as u8);
        p.push(start_col as u8);
        p.push(stop_col as u8);
    } else {
        p.push(frame_id);
        p.push(row as u8);
        p.push(start_col as u8);
        p.push(stop_col as u8);
    }
    assert(p@ =~= lead + header);
    let mut j: usize = 0;
    while j < data_len
        invariant
            j <= data_len,
            src + data_len <= frame.len(),
            p@ =~= lead + header + frame@.subrange(src as int, src + j),
        decreases data_len - j,
    {
        p.push(frame[src + j]);
        j = j + 1;
    }
    let ghost body = header + frame@.subrange(src as int, src + data_len);
    assert(body.len() == plan.prefix_len + data_len);
    while p.len() < CRC_OFFSET
        invariant
            ARGS_OFFSET + body.len() <= p@.len() <= CRC_OFFSET,
            p@ =~= lead + body + Seq::new((p@.len() - ARGS_OFFSET - body.len()) as nat, |i: int| 0u8),
        decreases CRC_OFFSET - p.len(),
    {
        p.push(0);
    }
    p.push(0);
    p.push(0);
    assert(p@ =~= unsummed_packet(
        *plan,
        frame@,
        frame_id,
        transaction_id,
        offset as int,
        row as int,
        seg as int,
    ));
    let crc = fast_crc_impl(p.as_slice());
    p.set(CRC_OFFSET, crc);
    p
}

/// Packet `p` of a frame, in upload order: segment `p % segments_per_row`
/// of row `p / segments_per_row`.
pub open spec fn frame_packet_at(
    plan: FramePlan,
    frame: Seq<u8>,
    frame_id: u8,
    transaction_id: u8,
    offsets: Option<Seq<u8>>,
    p: int,
) -> Seq<u8> {
    let row = p / plan.segments_per_row as int;
    let seg = p % plan.segments_per_row as int;
    frame_packet(plan, frame, frame_id, transaction_id, row_offset(offsets, row), row, seg)
}

/// Segments a row-major `height` x `width` x `channels` pixel buffer into
/// the ordered packets of one frame upload.
///
/// Each packet carries its row, its start and stop columns shifted by the
/// row's offset, the pixels of its segment, the command class and id of
/// the legacy or extended format, a fresh checksum, and the number of
/// packets that follow it, which is 0 only on the last. Every check runs
/// before the first packet is built.
pub fn build_frame_packets(
    frame: &[u8],
    height: usize,
    width: usize,
    channels: usize,
    frame_id: u8,
    transaction_id: u8,
    is_extended: bool,
    row_offsets: Option<Vec<u8>>,
) -> (r: Result<Vec<Vec<u8>>, HidError>)
    ensures
        frame_check(
            frame@.len() as int,
            height as int,
            width as int,
            channels as int,
            offsets_view(row_offsets),
            is_extended,
        ) matches Some(e) ==> r == Err::<Vec<Vec<u8>>, HidError>(HidError::ProtocolError(e)),
        frame_check(
            frame@.len() as int,
            height as int,
            width as int,
            channels as int,
            offsets_view(row_offsets),
            is_extended,
        ) is None ==> r is Ok,
        r matches Ok(packets) ==> {
            let plan = plan_for(height, width, is_extended);
            &&& (height == 0 || width == 0) ==> packets.len() == 0
            &&& (height > 0 && width > 0) ==> packets.len() == height
                * plan.segments_per_row
            &&& forall|p: int|
                0 <= p < packets.len() ==> #[trigger] packets[p]@ == frame_packet_at(
                    plan,
                    frame@,
                    frame_id,
                    transaction_id,
                    offsets_view(row_offsets),
                    p,
                )
            &&& forall|p: int|
                0 <= p < packets.len() ==> remaining_of(#[trigger] packets[p]@) == packets.len()
                    - 1 - p
            &&& forall|p: int|
                0 <= p < packets.len() ==> (remaining_of(#[trigger] packets[p]@) == 0 <==> p
                    == packets.len() - 1)
        },
{
    let ghost offs = offsets_view(row_offsets);
    if channels != CHANNELS {
        return Err(HidError::ProtocolError(ProtocolErrorKind::FrameShape));
    }
    let area: usize = match height.checked_mul(width) {
        Some(a) => a,
        None => {
            assert(height * width * CHANNELS != frame@.len()) by (nonlinear_arith)
                requires
                    height * width > usize::MAX,
                    frame@.len() == frame.len(),
                    frame.len() <= usize::MAX,
            ;
            return Err(HidError::ProtocolError(ProtocolErrorKind::FrameShape));
        },
    };
    let len: usize = match area.checked_mul(CHANNELS) {
        Some(n) => n,
        None => {
            assert(height * width * CHANNELS != frame@.len()) by (nonlinear_arith)
                requires
                    area * CHANNELS > usize::MAX,
                    area == height * width,
                    frame@.len() == frame.len(),
                    frame.len() <= usize::MAX,
            ;
            return Err(HidError::ProtocolError(ProtocolErrorKind::FrameShape));
        },
    };
    if len != frame.len() {
        return Err(HidError::ProtocolError(ProtocolErrorKind::FrameShape));
    }
    if height == 0 || width == 0 {
        return Ok(Vec::new());
    }
    match &row_offsets {
        Some(vals) => {
            if vals.len() < height {
                return Err(HidError::ProtocolError(ProtocolErrorKind::RowOffsetsLength));
            }
        },
        None => {},
    }
    let plan = match FramePlan::new(height, width, is_extended) {
        Ok(plan) => plan,
        Err(e) => {
            return Err(e);
        },
    };
    proof {
        assert(width / 25 <= width) by (nonlinear_arith);
        assert(plan.segments_per_row == segments_for(width as int, max_cols_for(is_extended)));
    }
    if height > INDEX_LIMIT {
        return Err(HidError::ProtocolError(ProtocolErrorKind::RowIndexOverflow));
    }
    let mut row: usize = 0;
    while row < height
        invariant
            row <= height,
            channels == CHANNELS,
            height * width * CHANNELS == frame@.len(),
            0 < height <= INDEX_LIMIT,
            0 < width,
            height * segments_for(width as int, max_cols_for(is_extended)) <= MAX_PACKETS,
            offsets_view(row_offsets) == offs,
            offs matches Some(o) ==> o.len() >= height,
            forall|k: int| 0 <= k < row ==> row_offset(offs, k) + width <= INDEX_LIMIT,
        decreases height - row,
    {
        let off: usize = match &row_offsets {
            Some(vals) => vals[row] as usize,
            None => 0,
        };
        if width > INDEX_LIMIT - off {
            assert(row_offset(offs, row as int) + width > INDEX_LIMIT);
            return Err(HidError::ProtocolError(ProtocolErrorKind::ColumnIndexOverflow));
        }
        row = row + 1;
    }
    assert(frame_check(
        frame@.len() as int,
        height as int,
        width as int,
        channels as int,
        offs,
        is_extended,
    ) is None);
    let spr = plan.segments_per_row;
    let total = plan.total_packets;
    proof {
        assert(spr > 0) by (nonlinear_arith)
            requires
                height * spr <= MAX_PACKETS,
                spr == width / 25 + if width % 25 == 0 {
                    0int
                } else {
                    1int
                },
                width > 0,
        ;
    }
    let mut packets: Vec<Vec<u8>> = Vec::new();
    let mut index: usize = 0;
    let mut row: usize = 0;
    let mut seg: usize = 0;
    while index < total
        invariant
            plan_fits(plan),
            plan == plan_for(height, width, is_extended),
            spr == plan.segments_per_row,
            total == plan.total_packets,
            total == height * spr,
            0 < spr,
            index == row * spr + seg,
            seg < spr,
            index <= total,
            packets@.len() == index,
            frame@.len() == height * width * CHANNELS,
            offsets_view(row_offsets) == offs,
            offs matches Some(o) ==> o.len() >= height,
            forall|k: int| 0 <= k < height ==> row_offset(offs, k) + width <= INDEX_LIMIT,
            forall|p: int|
                0 <= p < index ==> #[trigger] packets@[p]@ == frame_packet_at(
                    plan,
                    frame@,
                    frame_id,
                    transaction_id,
                    offs,
                    p,
                ),
            forall|p: int|
                0 <= p < index ==> remaining_of(#[trigger] packets@[p]@) == total - 1 - p,
        decreases total - index,
    {
        proof {
            assert(row < height) by (nonlinear_arith)
                requires
                    row * spr + seg < height * spr,
                    0 <= seg,
                    0 < spr,
            ;
        }
        let off: usize = match &row_offsets {
            Some(vals) => vals[row] as usize,
            None => 0,
        };
        assert(off == row_offset(offs, row as int));
        let pk = build_segment(&plan, frame, frame_id, transaction_id, off, row, seg);
        proof {
            lemma_fundamental_div_mod_converse(index as int, spr as int, row as int, seg as int);
            let rem = total - 1 - index;
            vstd::arithmetic::div_mod::lemma_fundamental_div_mod(rem, 256);
            assert(pk@[2] == (rem % 256) as u8);
            assert(pk@[3] == (rem / 256) as u8);
        }
        packets.push(pk);
        index = index + 1;
        seg = seg + 1;
        if seg == spr {
            proof {
                assert((row + 1) * spr == row * spr + spr) by (nonlinear_arith);
            }
            seg = 0;
            row = row + 1;
        }
    }
    Ok(packets)
}

/// Delays around packet `index` of `total`: the pre-delay before the first
/// packet only, the post-delay after the last only, none between packets.
pub fn packet_delays(index: usize, total: usize, pre_delay_ms: u64, post_delay_ms: u64) -> (r: (
    u64,
    u64,
))
    ensures
        r.0 == if index == 0 {
            pre_delay_ms
        } else {
            0
        },
        r.1 == if index + 1 == total {
            post_delay_ms
        } else {
            0
        },
{
    let pre = if index == 0 {
        pre_delay_ms
    } else {
        0
    };
    let post = if total > 0 && index == total - 1 {
        post_delay_ms
    } else {
        0
    };
    (pre, post)
}
} // verus!
