//! What the device handle decides: the HID class request fields, and which
//! present device an identity names.

use vstd::prelude::*;

use crate::device_info::DeviceInfo;

verus! {

/// HID class request GET_REPORT.
pub const HID_GET_REPORT: u8 = 0x01;

/// HID class request SET_REPORT.
pub const HID_SET_REPORT: u8 = 0x09;

/// Report type FEATURE, sent in the high byte of the value field.
pub const HID_REPORT_TYPE_FEATURE: u16 = 0x03;

/// Timeout of every control transfer.
pub const DEFAULT_TIMEOUT_MS: u64 = 1000;

/// The value field of a feature-report request: the report type in the
/// high byte, the report id in the low byte.
pub fn feature_report_value(report_id: u8) -> (r: u16)
    ensures
        r == HID_REPORT_TYPE_FEATURE * 256 + report_id,
{
    HID_REPORT_TYPE_FEATURE * 256 + report_id as u16
}

/// Where a present USB device sits, and what it says it is.
#[derive(Clone, Copy, Debug, PartialEq, Eq, Structural)]
pub struct DeviceLocation {
    pub bus_number: u8,
    pub device_address: u8,
    pub vendor_id: u16,
    pub product_id: u16,
}

/// Whether a present device is the one an identity names. Where the
/// platform gives a stable bus number (`bus_scoped`), bus and address
/// decide; otherwise address, vendor id and product id do.
pub open spec fn names_device(loc: DeviceLocation, info: DeviceInfo, bus_scoped: bool) -> bool {
    if bus_scoped {
        loc.bus_number == info.bus_number && loc.device_address == info.device_address
    } else {
        loc.device_address == info.device_address && loc.vendor_id == info.vendor_id
            && loc.product_id == info.product_id
    }
}

/// Whether the device at `loc` is the one `info` names.
pub fn matches_info(loc: &DeviceLocation, info: &DeviceInfo, bus_scoped: bool) -> (r: bool)
    ensures
        r == names_device(*loc, *info, bus_scoped),
{
    if bus_scoped {
        loc.bus_number == info.bus_number && loc.device_address == info.device_address
    } else {
        loc.device_address == info.device_address && loc.vendor_id == info.vendor_id
            && loc.product_id == info.product_id
    }
}

/// The first present device that `info` names, by its index in `devices`.
pub fn find_device(devices: &Vec<DeviceLocation>, info: &DeviceInfo, bus_scoped: bool) -> (r:
    Option<usize>)
    ensures
        r is None ==> forall|i: int|
            0 <= i < devices@.len() ==> !names_device(#[trigger] devices@[i], *info, bus_scoped),
        r matches Some(k) ==> k < devices@.len() && names_device(devices@[k as int], *info, bus_scoped)
            && forall|i: int|
            0 <= i < k ==> !names_device(#[trigger] devices@[i], *info, bus_scoped),
{
    let mut i: usize = 0;
    while i < devices.len()
        invariant
            i <= devices@.len(),
            forall|j: int| 0 <= j < i ==> !names_device(#[trigger] devices@[j], *info, bus_scoped),
        decreases devices@.len() - i,
    {
        if matches_info(&devices[i], info, bus_scoped) {
            return Some(i);
        }
        i = i + 1;
    }
    None
}

} // verus!
