//! The fixed 90-byte feature report: argument packing, checksum and
//! response decoding.
//!
//! Layout: 0 status/request; 1 transaction id; 2-3 remaining-packet count
//! (little-endian); 4 protocol type; 5 data size; 6 command class;
//! 7 command id; 8-87 arguments; 88 checksum; 89 reserved.

use vstd::prelude::*;

use crate::crc::{checksum_of, fast_crc_impl};
use crate::error::HidError;

verus! {

/// Length of every feature report.
pub const REPORT_SIZE: usize = 90;

/// Capacity of the argument region.
pub const DATA_SIZE: usize = 80;

/// Offset of the argument region.
pub const ARGS_OFFSET: usize = 8;

/// Offset of the checksum byte.
pub const CRC_OFFSET: usize = 88;

/// Offset of the data-size byte.
pub const DATA_SIZE_OFFSET: usize = 5;

/// Transaction id that asks for no correlation.
pub const NO_TRANSACTION_ID: u8 = 0xFF;

/// Status byte of a device response.
#[derive(Clone, Copy, Debug, PartialEq, Eq, Structural)]
pub enum Status {
    Unknown,
    Busy,
    Success,
    Fail,
    Timeout,
    Unsupported,
    BadCrc,
    OsError,
}

/// The status that a response byte stands for; unknown values are `Unknown`.
pub open spec fn status_of(v: u8) -> Status {
    if v == 0x01 {
        Status::Busy
    } else if v == 0x02 {
        Status::Success
    } else if v == 0x03 {
        Status::Fail
    } else if v == 0x04 {
        Status::Timeout
    } else if v == 0x05 {
        Status::Unsupported
    } else if v == 0xFE {
        Status::BadCrc
    } else if v == 0xFF {
        Status::OsError
    } else {
        Status::Unknown
    }
}

/// The byte that a status is sent as.
pub open spec fn status_code(s: Status) -> u8 {
    match s {
        Status::Unknown => 0x00,
        Status::Busy => 0x01,
        Status::Success => 0x02,
        Status::Fail => 0x03,
        Status::Timeout => 0x04,
        Status::Unsupported => 0x05,
        Status::BadCrc => 0xFE,
        Status::OsError => 0xFF,
    }
}

impl Status {
    /// The byte this status is sent as.
    pub fn code(self) -> (r: u8)
        ensures
            r == status_code(self),
            status_of(r) == self,
    {
        match self {
            Status::Unknown => 0x00,
            Status::Busy => 0x01,
            Status::Success => 0x02,
            Status::Fail => 0x03,
            Status::Timeout => 0x04,
            Status::Unsupported => 0x05,
            Status::BadCrc => 0xFE,
            Status::OsError => 0xFF,
        }
    }
}

impl From<u8> for Status {
    fn from(v: u8) -> (s: Status) {
        if v == 0x01 {
            Status::Busy
        } else if v == 0x02 {
            Status::Success
        } else if v == 0x03 {
            Status::Fail
        } else if v == 0x04 {
            Status::Timeout
        } else if v == 0x05 {
            Status::Unsupported
        } else if v == 0xFE {
            Status::BadCrc
        } else if v == 0xFF {
            Status::OsError
        } else {
            Status::Unknown
        }
    }
}

impl vstd::std_specs::convert::FromSpecImpl<u8> for Status {
    open spec fn obeys_from_spec() -> bool {
        true
    }

    open spec fn from_spec(v: u8) -> Status {
        status_of(v)
    }
}

/// The remaining-packet count held in bytes 2 and 3 (little-endian).
pub open spec fn remaining_of(bytes: Seq<u8>) -> int {
    bytes[2] as int + 256 * (bytes[3] as int)
}

/// The payload of a response: `data_size` bytes from offset 8, at most 80.
pub open spec fn payload_of(response: Seq<u8>) -> Seq<u8> {
    let n = if response[5] as int <= DATA_SIZE as int {
        response[5] as int
    } else {
        DATA_SIZE as int
    };
    response.subrange(ARGS_OFFSET as int, ARGS_OFFSET + n)
}

/// A fresh report's bytes: all zero but the transaction id, class and id.
pub open spec fn fresh_bytes(transaction_id: u8, command_class: u8, command_id: u8) -> Seq<u8> {
    Seq::new(
        REPORT_SIZE as nat,
        |i: int|
            if i == 1 {
                transaction_id
            } else if i == 6 {
                command_class
            } else if i == 7 {
                command_id
            } else {
                0u8
            },
    )
}

/// Mathematical model of a report under construction.
pub ghost struct ReportView {
    /// The 90 bytes of the report.
    pub bytes: Seq<u8>,
    /// Number of argument bytes written so far.
    pub cursor: nat,
    pub transaction_id: u8,
    pub command_class: u8,
    pub command_id: u8,
    /// Data size to send in place of the number of argument bytes written.
    pub data_size: Option<u8>,
}

impl ReportView {
    /// The report is well formed: 90 bytes, a cursor within the argument
    /// region, and nothing written past the cursor.
    pub open spec fn wf(self) -> bool {
        &&& self.bytes.len() == REPORT_SIZE
        &&& self.cursor <= DATA_SIZE
        &&& forall|i: int|
            ARGS_OFFSET + self.cursor <= i < ARGS_OFFSET + DATA_SIZE ==> self.bytes[i] == 0
    }

    /// The argument bytes written so far.
    pub open spec fn args(self) -> Seq<u8> {
        self.bytes.subrange(ARGS_OFFSET as int, ARGS_OFFSET + self.cursor)
    }

    /// The report after `data` is appended to its arguments.
    pub open spec fn appended(self, data: Seq<u8>) -> ReportView {
        let at = ARGS_OFFSET + self.cursor;
        ReportView {
            bytes: self.bytes.take(at) + data + self.bytes.skip(at + data.len()),
            cursor: self.cursor + data.len(),
            ..self
        }
    }

    /// Whether `n` more argument bytes fit.
    pub open spec fn fits(self, n: int) -> bool {
        self.cursor + n <= DATA_SIZE
    }

    /// The error an append of `n` bytes that does not fit gives.
    pub open spec fn overflow_error(self, n: int) -> HidError {
        HidError::CapacityError {
            capacity: DATA_SIZE,
            used: self.cursor as usize,
            requested: n as usize,
        }
    }

    /// The data-size byte that packing writes.
    pub open spec fn size_byte(self) -> u8 {
        match self.data_size {
            Some(s) => s,
            None => self.cursor as u8,
        }
    }

    /// The bytes that packing produces: data size and checksum filled in.
    pub open spec fn packed(self) -> Seq<u8> {
        let sized = self.bytes.update(DATA_SIZE_OFFSET as int, self.size_byte());
        sized.update(CRC_OFFSET as int, checksum_of(sized))
    }
}

/// A report under construction, with an argument cursor.
pub struct RazerReport {
    buf: Vec<u8>,
    data_ptr: usize,
    transaction_id: u8,
    command_class: u8,
    command_id: u8,
    data_size: Option<u8>,
}

impl View for RazerReport {
    type V = ReportView;

    closed spec fn view(&self) -> ReportView {
        ReportView {
            bytes: self.buf@,
            cursor: self.data_ptr as nat,
            transaction_id: self.transaction_id,
            command_class: self.command_class,
            command_id: self.command_id,
            data_size: self.data_size,
        }
    }
}


impl RazerReport {
    /// A new report for a command class and id, with an optional fixed data
    /// size and a transaction id (`NO_TRANSACTION_ID` for none).
    pub fn new(command_class: u8, command_id: u8, data_size: Option<u8>, transaction_id: u8) -> (r:
        RazerReport)
        ensures
            r@.wf(),
            r@.bytes == fresh_bytes(transaction_id, command_class, command_id),
            r@.cursor == 0,
            r@.transaction_id == transaction_id,
            r@.command_class == command_class,
            r@.command_id == command_id,
            r@.data_size == data_size,
    {
        let mut buf: Vec<u8> = Vec::new();
        let mut i: usize = 0;
        while i < REPORT_SIZE
            invariant
                i <= REPORT_SIZE,
                buf@ =~= fresh_bytes(transaction_id, command_class, command_id).take(i as int),
            decreases REPORT_SIZE - i,
        {
            let b: u8 = if i == 1 {
                transaction_id
            } else if i == 6 {
                command_class
            } else if i == 7 {
                command_id
            } else {
                0
            };
            buf.push(b);
            i = i + 1;
        }
        RazerReport { buf, data_ptr: 0, transaction_id, command_class, command_id, data_size }
    }

    /// Zero the argument region and rewind the cursor, for reuse.
    pub fn clear(&mut self)
        requires
            old(self)@.wf(),
        ensures
            final(self)@.wf(),
            final(self)@ == (ReportView {
                bytes: Seq::new(
                    REPORT_SIZE as nat,
                    |i: int|
                        if ARGS_OFFSET <= i < ARGS_OFFSET + DATA_SIZE {
                            0u8
                        } else {
                            old(self)@.bytes[i]
                        },
                ),
                cursor: 0,
                ..old(self)@
            }),
    {
        let mut i: usize = ARGS_OFFSET;
        while i < ARGS_OFFSET + DATA_SIZE
            invariant
                ARGS_OFFSET <= i <= ARGS_OFFSET + DATA_SIZE,
                self.buf@.len() == REPORT_SIZE,
                forall|j: int|
                    0 <= j < REPORT_SIZE ==> self.buf@[j] == if ARGS_OFFSET <= j < i {
                        0u8
                    } else {
                        old(self).buf@[j]
                    },
                self.data_ptr == old(self).data_ptr,
                self.transaction_id == old(self).transaction_id,
                self.command_class == old(self).command_class,
                self.command_id == old(self).command_id,
                self.data_size == old(self).data_size,
            decreases ARGS_OFFSET + DATA_SIZE - i,
        {
            self.buf.set(i, 0);
            i = i + 1;
        }
        self.data_ptr = 0;
        proof {
            assert(self@.bytes =~= Seq::new(
                REPORT_SIZE as nat,
                |i: int|
                    if ARGS_OFFSET <= i < ARGS_OFFSET + DATA_SIZE {
                        0u8
                    } else {
                        old(self)@.bytes[i]
                    },
            ));
        }
    }

    /// Append argument bytes; refused, with nothing written, when they do
    /// not fit in the 80-byte argument region.
    pub fn put_bytes(&mut self, data: &[u8]) -> (r: Result<(), HidError>)
        requires
            old(self)@.wf(),
        ensures
            final(self)@.wf(),
            r is Ok <==> old(self)@.fits(data@.len() as int),
            r is Ok ==> final(self)@ == old(self)@.appended(data@),
            r is Err ==> final(self)@ == old(self)@ && r == Err::<(), HidError>(
                old(self)@.overflow_error(data@.len() as int),
            ),
    {
        if data.len() > DATA_SIZE - self.data_ptr {
            return Err(
                HidError::CapacityError { capacity: DATA_SIZE, used: self.data_ptr, requested: data.len() },
            );
        }
        let at = ARGS_OFFSET + self.data_ptr;
        let mut k: usize = 0;
        while k < data.len()
            invariant
                k <= data@.len(),
                at == ARGS_OFFSET + old(self).data_ptr,
                at + data@.len() <= ARGS_OFFSET + DATA_SIZE,
                old(self)@.wf(),
                self.buf@ =~= old(self).buf@.take(at as int) + data@.take(k as int) + old(
                    self,
                ).buf@.skip(at + k),
                self.data_ptr == old(self).data_ptr,
                self.transaction_id == old(self).transaction_id,
                self.command_class == old(self).command_class,
                self.command_id == old(self).command_id,
                self.data_size == old(self).data_size,
            decreases data@.len() - k,
        {
            self.buf.set(at + k, data[k]);
            k = k + 1;
            assert(self.buf@ =~= old(self).buf@.take(at as int) + data@.take(k as int) + old(
                self,
            ).buf@.skip(at + k));
        }
        self.data_ptr = self.data_ptr + data.len();
        proof {
            assert(data@.take(data@.len() as int) =~= data@);
        }
        Ok(())
    }

    /// Append one argument byte.
    pub fn put_byte(&mut self, value: u8) -> (r: Result<(), HidError>)
        requires
            old(self)@.wf(),
        ensures
            final(self)@.wf(),
            r is Ok <==> old(self)@.fits(1),
            r is Ok ==> final(self)@ == old(self)@.appended(seq![value]),
            r is Err ==> final(self)@ == old(self)@ && r == Err::<(), HidError>(
                old(self)@.overflow_error(1),
            ),
    {
        let data: [u8; 1] = [value];
        let r = self.put_bytes(vstd::array::array_as_slice(&data));
        proof {
            assert(data@ =~= seq![value]);
        }
        r
    }

    /// Append a 16-bit value, little-endian.
    pub fn put_u16(&mut self, value: u16) -> (r: Result<(), HidError>)
        requires
            old(self)@.wf(),
        ensures
            final(self)@.wf(),
            r is Ok <==> old(self)@.fits(2),
            r is Ok ==> final(self)@ == old(self)@.appended(
                seq![(value % 256) as u8, (value / 256) as u8],
            ),
            r is Err ==> final(self)@ == old(self)@ && r == Err::<(), HidError>(
                old(self)@.overflow_error(2),
            ),
    {
        let data: [u8; 2] = [(value % 256) as u8, (value / 256) as u8];
        let r = self.put_bytes(vstd::array::array_as_slice(&data));
        proof {
            assert(data@ =~= seq![(value % 256) as u8, (value / 256) as u8]);
        }
        r
    }

    /// Append a 16-bit value, big-endian.
    pub fn put_u16_be(&mut self, value: u16) -> (r: Result<(), HidError>)
        requires
            old(self)@.wf(),
        ensures
            final(self)@.wf(),
            r is Ok <==> old(self)@.fits(2),
            r is Ok ==> final(self)@ == old(self)@.appended(
                seq![(value / 256) as u8, (value % 256) as u8],
            ),
            r is Err ==> final(self)@ == old(self)@ && r == Err::<(), HidError>(
                old(self)@.overflow_error(2),
            ),
    {
        let data: [u8; 2] = [(value / 256) as u8, (value % 256) as u8];
        let r = self.put_bytes(vstd::array::array_as_slice(&data));
        proof {
            assert(data@ =~= seq![(value / 256) as u8, (value % 256) as u8]);
        }
        r
    }

    /// Append an RGB colour as three bytes; refused whole when the three do
    /// not fit, so a colour is never cut short.
    pub fn put_rgb(&mut self, r: u8, g: u8, b: u8) -> (res: Result<(), HidError>)
        requires
            old(self)@.wf(),
        ensures
            final(self)@.wf(),
            res is Ok <==> old(self)@.fits(3),
            res is Ok ==> final(self)@ == old(self)@.appended(seq![r, g, b]),
            res is Err ==> final(self)@ == old(self)@ && res == Err::<(), HidError>(
                old(self)@.overflow_error(3),
            ),
    {
        let data: [u8; 3] = [r, g, b];
        let res = self.put_bytes(vstd::array::array_as_slice(&data));
        proof {
            assert(data@ =~= seq![r, g, b]);
        }
        res
    }

    /// Set the remaining-packet count (bytes 2 and 3, little-endian).
    pub fn set_remaining_packets(&mut self, count: u16)
        requires
            old(self)@.wf(),
        ensures
            final(self)@.wf(),
            final(self)@ == (ReportView {
                bytes: old(self)@.bytes.update(2, (count % 256) as u8).update(
                    3,
                    (count / 256) as u8,
                ),
                ..old(self)@
            }),
            remaining_of(final(self)@.bytes) == count,
    {
        self.buf.set(2, (count % 256) as u8);
        self.buf.set(3, (count / 256) as u8);
    }

    /// The remaining-packet count.
    pub fn get_remaining_packets(&self) -> (r: u16)
        requires
            self@.wf(),
        ensures
            r == remaining_of(self@.bytes),
    {
        self.buf[2] as u16 + 256 * (self.buf[3] as u16)
    }

    /// Fill in the data size (the fixed one, else the number of argument
    /// bytes written) and the checksum, and return the 90 bytes to send.
    pub fn pack(&mut self) -> (r: Vec<u8>)
        requires
            old(self)@.wf(),
        ensures
            final(self)@.wf(),
            final(self)@ == (ReportView { bytes: old(self)@.packed(), ..old(self)@ }),
            r@ == old(self)@.packed(),
            r@[DATA_SIZE_OFFSET as int] == old(self)@.size_byte(),
            r@[CRC_OFFSET as int] == checksum_of(r@),
    {
        let size: u8 = match self.data_size {
            Some(s) => s,
            None => self.data_ptr as u8,
        };
        self.buf.set(DATA_SIZE_OFFSET, size);
        let crc = fast_crc_impl(self.buf.as_slice());
        self.buf.set(CRC_OFFSET, crc);
        proof {
            let sized = old(self)@.bytes.update(DATA_SIZE_OFFSET as int, size);
            assert(sized.update(CRC_OFFSET as int, crc).subrange(1, 87) =~= sized.subrange(1, 87));
        }
        self.buf.clone()
    }

    /// Decode a response: its status and its payload (`data_size` bytes from
    /// offset 8, clamped to 80). Any length but 90 is refused.
    pub fn parse_response(&self, response: &[u8]) -> (r: Result<(Status, Vec<u8>), HidError>)
        ensures
            r is Ok <==> response@.len() == REPORT_SIZE,
            response@.len() != REPORT_SIZE ==> r == Err::<(Status, Vec<u8>), HidError>(
                HidError::InvalidReportSize {
                    expected: REPORT_SIZE,
                    actual: response@.len() as usize,
                },
            ),
            r matches Ok((status, data)) ==> status == status_of(response@[0]) && data@
                == payload_of(response@),
    {
        if response.len() != REPORT_SIZE {
            return Err(HidError::InvalidReportSize { expected: REPORT_SIZE, actual: response.len() });
        }
        let status = Status::from(response[0]);
        let n: usize = if (response[DATA_SIZE_OFFSET] as usize) <= DATA_SIZE {
            response[DATA_SIZE_OFFSET] as usize
        } else {
            DATA_SIZE
        };
        let mut data: Vec<u8> = Vec::new();
        let mut k: usize = 0;
        while k < n
            invariant
                k <= n <= DATA_SIZE,
                response@.len() == REPORT_SIZE,
                data@ =~= response@.subrange(ARGS_OFFSET as int, ARGS_OFFSET + k),
            decreases n - k,
        {
            data.push(response[ARGS_OFFSET + k]);
            k = k + 1;
        }
        Ok((status, data))
    }

    /// Number of argument bytes written.
    pub fn args_size(&self) -> (r: usize)
        ensures
            r == self@.cursor,
    {
        self.data_ptr
    }

    /// The transaction id.
    pub fn transaction_id(&self) -> (r: u8)
        ensures
            r == self@.transaction_id,
    {
        self.transaction_id
    }

    /// The command class.
    pub fn command_class(&self) -> (r: u8)
        ensures
            r == self@.command_class,
    {
        self.command_class
    }

    /// The command id.
    pub fn command_id(&self) -> (r: u8)
        ensures
            r == self@.command_id,
    {
        self.command_id
    }
}


/// The argument region as a payload of `n` bytes: the arguments written,
/// then zeros.
pub open spec fn args_window(v: ReportView, n: int) -> Seq<u8> {
    (v.args() + Seq::new((DATA_SIZE - v.cursor) as nat, |i: int| 0u8)).take(n)
}

/// Packing a report and decoding a response laid out like it gives back the
/// status the response carries and the arguments written: all of them when
/// no data size was fixed, else as many bytes of the argument region as the
/// fixed size names (at most 80).
pub proof fn lemma_pack_parse_round_trip(v: ReportView, s: Status)
    requires
        v.wf(),
    ensures
        ({
            let response = v.packed().update(0, status_code(s));
            &&& response.len() == REPORT_SIZE
            &&& status_of(response[0]) == s
            &&& v.data_size is None ==> payload_of(response) == v.args()
            &&& v.data_size matches Some(d) ==> payload_of(response) == args_window(
                v,
                if d <= DATA_SIZE {
                    d as int
                } else {
                    DATA_SIZE as int
                },
            )
        }),
{
    let response = v.packed().update(0, status_code(s));
    let n = if v.size_byte() as int <= DATA_SIZE as int {
        v.size_byte() as int
    } else {
        DATA_SIZE as int
    };
    assert(response[5] == v.size_byte());
    if v.data_size is None {
        assert(payload_of(response) =~= v.args());
    } else {
        assert(payload_of(response) =~= args_window(v, n));
    }
}
} // verus!
