use uchroma_hid::crc::fast_crc_impl;
use uchroma_hid::error::HidError;
use uchroma_hid::report::{RazerReport, Status, DATA_SIZE, REPORT_SIZE};

#[test]
fn test_report_creation() {
    let report = RazerReport::new(0x00, 0x81, Some(2), 0xFF);
    assert_eq!(report.transaction_id(), 0xFF);
    assert_eq!(report.command_class(), 0x00);
    assert_eq!(report.command_id(), 0x81);
}

#[test]
fn test_report_pack() {
    let mut report = RazerReport::new(0x00, 0x81, Some(2), 0xFF);
    let data = report.pack();
    assert_eq!(data.len(), 90);
    assert_eq!(data[1], 0xFF);
    assert_eq!(data[5], 2);
    assert_eq!(data[6], 0x00);
    assert_eq!(data[7], 0x81);
}

#[test]
fn test_report_put_bytes() {
    let mut report = RazerReport::new(0x03, 0x0B, None, 0xFF);
    report.put_byte(0x00).unwrap();
    report.put_byte(0x01).unwrap();
    report.put_rgb(255, 0, 0).unwrap();

    assert_eq!(report.args_size(), 5);

    let data = report.pack();
    assert_eq!(data[8], 0x00);
    assert_eq!(data[9], 0x01);
    assert_eq!(data[10], 255);
    assert_eq!(data[11], 0);
    assert_eq!(data[12], 0);
}

#[test]
fn test_report_crc() {
    let mut report = RazerReport::new(0x00, 0x81, Some(2), 0xFF);
    let data = report.pack();
    assert_eq!(data[88], fast_crc_impl(&data));
}

#[test]
fn test_status_from_u8() {
    assert_eq!(Status::from(0x00), Status::Unknown);
    assert_eq!(Status::from(0x01), Status::Busy);
    assert_eq!(Status::from(0x02), Status::Success);
    assert_eq!(Status::from(0x03), Status::Fail);
    assert_eq!(Status::from(0x04), Status::Timeout);
    assert_eq!(Status::from(0x05), Status::Unsupported);
}

#[test]
fn test_remaining_packets() {
    let mut report = RazerReport::new(0x03, 0x0B, None, 0xFF);
    report.set_remaining_packets(5);
    assert_eq!(report.get_remaining_packets(), 5);
}

#[test]
fn test_report_clear() {
    let mut report = RazerReport::new(0x00, 0x81, None, 0xFF);
    report.put_byte(0xAA).unwrap();
    report.put_byte(0xBB).unwrap();
    assert_eq!(report.args_size(), 2);

    report.clear();
    assert_eq!(report.args_size(), 0);
}

#[test]
fn status_codes_round_trip() {
    assert_eq!(Status::from(0xFE), Status::BadCrc);
    assert_eq!(Status::from(0xFF), Status::OsError);
    assert_eq!(Status::from(0x06), Status::Unknown);
    assert_eq!(Status::from(0x80), Status::Unknown);
    for s in [
        Status::Unknown,
        Status::Busy,
        Status::Success,
        Status::Fail,
        Status::Timeout,
        Status::Unsupported,
        Status::BadCrc,
        Status::OsError,
    ] {
        assert_eq!(Status::from(s.code()), s);
    }
    assert_eq!(Status::OsError.code(), 0xFF);
    assert_eq!(Status::BadCrc.code(), 0xFE);
}

#[test]
fn fresh_report_layout() {
    let mut report = RazerReport::new(0x0F, 0x02, None, 0x1F);
    let data = report.pack();
    assert_eq!(data.len(), REPORT_SIZE);
    assert_eq!(data[0], 0);
    assert_eq!(data[1], 0x1F);
    assert_eq!(&data[2..5], &[0, 0, 0]);
    assert_eq!(data[5], 0);
    assert_eq!(data[6], 0x0F);
    assert_eq!(data[7], 0x02);
    assert!(data[8..88].iter().all(|&b| b == 0));
    assert_eq!(data[88], 0x1F ^ 0x0F ^ 0x02);
    assert_eq!(data[89], 0);
}

#[test]
fn pack_data_size_follows_bytes_written_or_override() {
    let mut counted = RazerReport::new(0x03, 0x0B, None, 0xFF);
    counted.put_u16(0x1234).unwrap();
    counted.put_u16_be(0x1234).unwrap();
    counted.put_byte(9).unwrap();
    let data = counted.pack();
    assert_eq!(data[5], 5);
    assert_eq!(&data[8..13], &[0x34, 0x12, 0x12, 0x34, 9]);

    let mut fixed = RazerReport::new(0x03, 0x0B, Some(0x50), 0xFF);
    fixed.put_byte(1).unwrap();
    let data = fixed.pack();
    assert_eq!(data[5], 0x50);

    let mut fixed_small = RazerReport::new(0x03, 0x0B, Some(1), 0xFF);
    fixed_small.put_rgb(1, 2, 3).unwrap();
    assert_eq!(fixed_small.pack()[5], 1);
}

#[test]
fn pack_checksum_covers_header_and_args() {
    let mut report = RazerReport::new(0x03, 0x0B, None, 0xFF);
    report.set_remaining_packets(0x0102);
    report.put_rgb(0x10, 0x20, 0x40).unwrap();
    let data = report.pack();
    assert_eq!(data[2], 0x02);
    assert_eq!(data[3], 0x01);
    assert_eq!(data[88], 0xFF ^ 0x02 ^ 0x01 ^ 3 ^ 0x03 ^ 0x0B ^ 0x10 ^ 0x20 ^ 0x40);
}

#[test]
fn appends_refused_past_capacity() {
    let mut report = RazerReport::new(0x03, 0x0B, None, 0xFF);
    for i in 0..DATA_SIZE {
        report.put_byte(i as u8).unwrap();
    }
    assert_eq!(report.args_size(), 80);
    assert_eq!(
        report.put_byte(1),
        Err(HidError::CapacityError { capacity: 80, used: 80, requested: 1 })
    );
    assert_eq!(report.args_size(), 80);

    let mut nearly = RazerReport::new(0x03, 0x0B, None, 0xFF);
    nearly.put_bytes(&[7u8; 78]).unwrap();
    assert_eq!(
        nearly.put_rgb(1, 2, 3),
        Err(HidError::CapacityError { capacity: 80, used: 78, requested: 3 })
    );
    // nothing of the refused colour was written
    assert_eq!(nearly.args_size(), 78);
    let data = nearly.pack();
    assert_eq!(data[86], 0);
    assert_eq!(data[87], 0);
    assert!(nearly.put_u16(0xBEEF).is_ok());
    assert!(nearly.put_u16_be(1).is_err());
    assert!(nearly.put_bytes(&[]).is_ok());

    let mut big = RazerReport::new(0x03, 0x0B, None, 0xFF);
    assert!(big.put_bytes(&[1u8; 81]).is_err());
    assert_eq!(big.args_size(), 0);
    assert!(big.put_bytes(&[1u8; 80]).is_ok());
}

#[test]
fn clear_zeroes_arguments_only() {
    let mut report = RazerReport::new(0x03, 0x0B, None, 0x44);
    report.put_bytes(&[9u8; 10]).unwrap();
    report.clear();
    report.put_byte(1).unwrap();
    let data = report.pack();
    assert_eq!(data[1], 0x44);
    assert_eq!(data[5], 1);
    assert_eq!(data[8], 1);
    assert!(data[9..88].iter().all(|&b| b == 0));
}

#[test]
fn parse_response_requires_exact_length() {
    let report = RazerReport::new(0x00, 0x81, None, 0xFF);
    for len in [0usize, 1, 89, 91, 180] {
        let buf = vec![0u8; len];
        assert_eq!(
            report.parse_response(&buf),
            Err(HidError::InvalidReportSize { expected: 90, actual: len })
        );
    }
    let mut resp = vec![0u8; 90];
    resp[0] = 0x02;
    resp[5] = 3;
    resp[8] = 0xA;
    resp[9] = 0xB;
    resp[10] = 0xC;
    resp[11] = 0xD;
    assert_eq!(
        report.parse_response(&resp),
        Ok((Status::Success, vec![0xA, 0xB, 0xC]))
    );
}

#[test]
fn parse_response_clamps_data_size() {
    let report = RazerReport::new(0x00, 0x81, None, 0xFF);
    let mut resp: Vec<u8> = (0..90).map(|i| i as u8).collect();
    resp[0] = 0x05;
    resp[5] = 200;
    let (status, data) = report.parse_response(&resp).unwrap();
    assert_eq!(status, Status::Unsupported);
    assert_eq!(data.len(), 80);
    assert_eq!(data[0], 8);
    assert_eq!(data[79], 87);
}

#[test]
fn pack_then_parse_round_trip() {
    let mut report = RazerReport::new(0x0F, 0x02, None, 0x3F);
    report.put_byte(0x01).unwrap();
    report.put_rgb(0x11, 0x22, 0x33).unwrap();
    report.put_u16_be(0x0405).unwrap();
    let packed = report.pack();
    let mut response = packed.clone();
    response[0] = Status::Success.code();
    let (status, data) = report.parse_response(&response).unwrap();
    assert_eq!(status, Status::Success);
    assert_eq!(data, vec![0x01, 0x11, 0x22, 0x33, 0x04, 0x05]);

    let mut fixed = RazerReport::new(0x0F, 0x02, Some(8), 0x3F);
    fixed.put_rgb(1, 2, 3).unwrap();
    let mut response = fixed.pack();
    response[0] = Status::Busy.code();
    let (status, data) = fixed.parse_response(&response).unwrap();
    assert_eq!(status, Status::Busy);
    assert_eq!(data, vec![1, 2, 3, 0, 0, 0, 0, 0]);
}
