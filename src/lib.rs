//! Transport and protocol layer for RGB peripherals that speak a vendor
//! command protocol over USB HID.
//!
//! The library holds the decisions and the wire formats: the 90-byte
//! feature report and its checksum, the command exchange with bounded
//! retry, frame segmentation, the headset interrupt protocol, and the
//! selection and ordering of enumerated interfaces. Moving bytes over USB,
//! waiting and locking are the caller's.

pub mod command;
pub mod crc;
pub mod device;
pub mod device_info;
pub mod enumerate;
pub mod error;
pub mod frame;
pub mod headset;
pub mod report;

pub use command::{CommandMachine, CommandPhase, CommandStep};
pub use crc::{fast_crc, fast_crc_impl};
pub use device::{feature_report_value, find_device, matches_info, DeviceLocation};
pub use device_info::DeviceInfo;
pub use enumerate::{matches_filter, select_hid_interfaces, InterfaceRecord, UsbDeviceRecord};
pub use error::{HidError, ProtocolErrorKind};
pub use frame::{build_frame_packets, packet_delays, FramePlan};
pub use headset::headset_constants;
pub use report::{RazerReport, Status, DATA_SIZE, REPORT_SIZE};
