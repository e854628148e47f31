use uchroma_hid::device::{
    feature_report_value, find_device, matches_info, DeviceLocation, DEFAULT_TIMEOUT_MS,
    HID_GET_REPORT, HID_REPORT_TYPE_FEATURE, HID_SET_REPORT,
};
use uchroma_hid::device_info::DeviceInfo;

fn info(bus: u8, address: u8, vendor: u16, product: u16, interface: i32) -> DeviceInfo {
    DeviceInfo {
        vendor_id: vendor,
        product_id: product,
        interface_number: interface,
        manufacturer_string: String::from("Maker"),
        product_string: String::from("Board"),
        serial_number: String::new(),
        bus_number: bus,
        device_address: address,
    }
}

fn loc(bus: u8, address: u8, vendor: u16, product: u16) -> DeviceLocation {
    DeviceLocation { bus_number: bus, device_address: address, vendor_id: vendor, product_id: product }
}

#[test]
fn test_hid_constants() {
    assert_eq!(HID_GET_REPORT, 0x01);
    assert_eq!(HID_SET_REPORT, 0x09);
    assert_eq!(HID_REPORT_TYPE_FEATURE, 0x03);
}

#[test]
fn feature_report_value_layout() {
    assert_eq!(feature_report_value(0), 0x0300);
    assert_eq!(feature_report_value(0x07), 0x0307);
    assert_eq!(feature_report_value(0xFF), 0x03FF);
    assert_eq!(DEFAULT_TIMEOUT_MS, 1000);
}

#[test]
fn identity_matching_by_platform() {
    let id = info(2, 9, 0x1532, 0x0203, 1);
    // bus-scoped: bus and address decide
    assert!(matches_info(&loc(2, 9, 0xAAAA, 0xBBBB), &id, true));
    assert!(!matches_info(&loc(3, 9, 0x1532, 0x0203), &id, true));
    // otherwise: address, vendor and product decide
    assert!(matches_info(&loc(0, 9, 0x1532, 0x0203), &id, false));
    assert!(!matches_info(&loc(2, 9, 0x1532, 0x0204), &id, false));
}

#[test]
fn find_device_takes_first_match() {
    let id = info(1, 4, 0x1532, 0x0203, 0);
    let present = vec![loc(1, 3, 0x1532, 0x0203), loc(1, 4, 0x1532, 0x0203), loc(1, 4, 1, 2)];
    assert_eq!(find_device(&present, &id, true), Some(1));
    assert_eq!(find_device(&present, &id, false), Some(1));
    assert_eq!(find_device(&present[..1].to_vec(), &id, true), None);
    assert_eq!(find_device(&vec![], &id, true), None);
}

#[test]
fn device_path_is_zero_padded() {
    assert_eq!(info(1, 5, 0, 0, 2).path(), b"001:005:02".to_vec());
    assert_eq!(info(255, 128, 0, 0, 13).path(), b"255:128:13".to_vec());
    assert_eq!(info(0, 0, 0, 0, 123).path(), b"000:000:123".to_vec());
    assert_eq!(info(7, 10, 0, 0, -1).path(), b"007:010:-1".to_vec());
    assert_eq!(info(7, 10, 0, 0, -12).path(), b"007:010:-12".to_vec());
    assert_eq!(
        info(7, 10, 0, 0, i32::MIN).path(),
        format!("{:03}:{:03}:{:02}", 7, 10, i32::MIN).into_bytes()
    );
}
