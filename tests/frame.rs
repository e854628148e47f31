use uchroma_hid::crc::fast_crc_impl;
use uchroma_hid::error::{HidError, ProtocolErrorKind};
use uchroma_hid::frame::{build_frame_packets, packet_delays, FramePlan};

fn pixels(height: usize, width: usize) -> Vec<u8> {
    (0..height * width * 3).map(|i| (i % 251) as u8).collect()
}

fn remaining(p: &[u8]) -> u16 {
    u16::from_le_bytes([p[2], p[3]])
}

fn protocol(kind: ProtocolErrorKind) -> HidError {
    HidError::ProtocolError(kind)
}

#[test]
fn plan_packets_per_row() {
    let plan = FramePlan::new(6, 24, false).unwrap();
    assert_eq!(plan.max_cols, 25);
    assert_eq!(plan.segments_per_row, 1);
    assert_eq!(plan.total_packets, 6);
    let plan = FramePlan::new(6, 48, true).unwrap();
    assert_eq!(plan.prefix_len, 5);
    assert_eq!(plan.segments_per_row, 2);
    assert_eq!(plan.total_packets, 12);
    let plan = FramePlan::new(1, 50, false).unwrap();
    assert_eq!(plan.segments_per_row, 2);
    let plan = FramePlan::new(1, 51, false).unwrap();
    assert_eq!(plan.segments_per_row, 3);
    assert_eq!(plan.command_class(), 0x03);
    assert_eq!(plan.command_id(), 0x0B);
    let ext = FramePlan::new(1, 1, true).unwrap();
    assert_eq!(ext.command_class(), 0x0F);
    assert_eq!(ext.command_id(), 0x03);
}

#[test]
fn plan_refuses_too_many_packets() {
    assert!(FramePlan::new(65535, 1, false).is_ok());
    assert_eq!(
        FramePlan::new(65536, 1, false),
        Err(protocol(ProtocolErrorKind::PacketCountTooLarge))
    );
    assert_eq!(
        FramePlan::new(usize::MAX, 30, false),
        Err(protocol(ProtocolErrorKind::PacketCountTooLarge))
    );
}

#[test]
fn one_packet_per_row_when_row_fits() {
    let frame = pixels(6, 24);
    let packets = build_frame_packets(&frame, 6, 24, 3, 0xFF, 0xFF, false, None).unwrap();
    assert_eq!(packets.len(), 6);
    for (i, p) in packets.iter().enumerate() {
        assert_eq!(p.len(), 90);
        assert_eq!(p[1], 0xFF);
        assert_eq!(p[6], 0x03);
        assert_eq!(p[7], 0x0B);
        assert_eq!(p[5], 4 + 72);
        assert_eq!(p[8], 0xFF);
        assert_eq!(p[9], i as u8);
        assert_eq!(p[10], 0);
        assert_eq!(p[11], 23);
        assert_eq!(&p[12..12 + 72], &frame[i * 72..(i + 1) * 72]);
        assert_eq!(p[88], fast_crc_impl(p));
        assert_eq!(p[89], 0);
    }
}

#[test]
fn two_packets_per_row_when_row_is_wide() {
    let frame = pixels(2, 48);
    let packets = build_frame_packets(&frame, 2, 48, 3, 0, 0x1F, true, None).unwrap();
    assert_eq!(packets.len(), 4);
    let first = &packets[0];
    assert_eq!(first[6], 0x0F);
    assert_eq!(first[7], 0x03);
    assert_eq!(&first[8..13], &[0, 0, 0, 0, 24]);
    assert_eq!(first[5], 5 + 75);
    assert_eq!(&first[13..88], &frame[0..75]);
    let second = &packets[1];
    assert_eq!(&second[8..13], &[0, 0, 0, 25, 47]);
    assert_eq!(second[5], 5 + 69);
    assert_eq!(&second[13..13 + 69], &frame[75..144]);
    assert!(second[13 + 69..88].iter().all(|&b| b == 0));
    let fourth = &packets[3];
    assert_eq!(&fourth[8..13], &[0, 0, 1, 25, 47]);
}

#[test]
fn remaining_counter_reaches_zero_on_last_packet_only() {
    let frame = pixels(3, 60);
    let packets = build_frame_packets(&frame, 3, 60, 3, 1, 2, false, None).unwrap();
    assert_eq!(packets.len(), 9);
    for (i, p) in packets.iter().enumerate() {
        assert_eq!(remaining(p) as usize, 8 - i);
        if i + 1 < packets.len() {
            assert_ne!(remaining(p), 0);
        }
    }
    assert_eq!(remaining(&packets[8]), 0);
}

#[test]
fn row_offsets_shift_columns() {
    let frame = pixels(2, 10);
    let packets =
        build_frame_packets(&frame, 2, 10, 3, 7, 0xFF, false, Some(vec![3, 100])).unwrap();
    assert_eq!(&packets[0][8..12], &[7, 0, 3, 12]);
    assert_eq!(&packets[1][8..12], &[7, 1, 100, 109]);
}

#[test]
fn empty_frame_sends_nothing() {
    assert_eq!(build_frame_packets(&[], 0, 5, 3, 0, 0, false, None), Ok(vec![]));
    assert_eq!(build_frame_packets(&[], 4, 0, 3, 0, 0, false, None), Ok(vec![]));
}

#[test]
fn malformed_frames_refused_before_any_packet() {
    let frame = pixels(2, 4);
    assert_eq!(
        build_frame_packets(&frame, 2, 4, 4, 0, 0, false, None),
        Err(protocol(ProtocolErrorKind::FrameShape))
    );
    assert_eq!(
        build_frame_packets(&frame[1..], 2, 4, 3, 0, 0, false, None),
        Err(protocol(ProtocolErrorKind::FrameShape))
    );
    assert_eq!(
        build_frame_packets(&frame, usize::MAX, 2, 3, 0, 0, false, None),
        Err(protocol(ProtocolErrorKind::FrameShape))
    );
    assert_eq!(
        build_frame_packets(&frame, 2, 4, 3, 0, 0, false, Some(vec![0])),
        Err(protocol(ProtocolErrorKind::RowOffsetsLength))
    );
    let tall = pixels(257, 1);
    assert_eq!(
        build_frame_packets(&tall, 257, 1, 3, 0, 0, false, None),
        Err(protocol(ProtocolErrorKind::RowIndexOverflow))
    );
    let wide = pixels(1, 257);
    assert_eq!(
        build_frame_packets(&wide, 1, 257, 3, 0, 0, false, None),
        Err(protocol(ProtocolErrorKind::ColumnIndexOverflow))
    );
    assert_eq!(
        build_frame_packets(&frame, 2, 4, 3, 0, 0, false, Some(vec![0, 253])),
        Err(protocol(ProtocolErrorKind::ColumnIndexOverflow))
    );
    assert!(build_frame_packets(&frame, 2, 4, 3, 0, 0, false, Some(vec![0, 252])).is_ok());
    let many = pixels(70000, 1);
    assert_eq!(
        build_frame_packets(&many, 70000, 1, 3, 0, 0, false, None),
        Err(protocol(ProtocolErrorKind::PacketCountTooLarge))
    );
}

#[test]
fn largest_frame_fits() {
    let frame = pixels(256, 256);
    let packets = build_frame_packets(&frame, 256, 256, 3, 0, 0, true, None).unwrap();
    assert_eq!(packets.len(), 256 * 11);
    assert_eq!(remaining(&packets[0]) as usize, 256 * 11 - 1);
    let last = packets.last().unwrap();
    assert_eq!(&last[8..13], &[0, 0, 255, 250, 255]);
    assert_eq!(remaining(last), 0);
}

#[test]
fn delays_only_around_the_frame() {
    assert_eq!(packet_delays(0, 3, 7, 1), (7, 0));
    assert_eq!(packet_delays(1, 3, 7, 1), (0, 0));
    assert_eq!(packet_delays(2, 3, 7, 1), (0, 1));
    assert_eq!(packet_delays(0, 1, 7, 1), (7, 1));
}
