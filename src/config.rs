use vstd::prelude::*;

verus! {

/// USB vendor identifier of the device.
pub const VID: u16 = 0x0483;

/// USB product identifier of the device.
pub const PID: u16 = 0x5750;

/// Length of a bare payload, without the report-ID byte.
pub const REPORT_DATA_SIZE: usize = 64;

/// Length of a report as read from the device: report-ID byte plus payload.
pub const READ_SIZE: usize = 65;

/// Largest number of (current, voltage) pairs decoded from one frame.
pub const POINTS_PER_CURVE: usize = 512;

/// Number of payloads that follow a header and make up one frame.
pub const REPORTS_PER_CURVE: usize = 32;

/// Length of a complete frame in bytes.
pub const FRAME_SIZE: usize = 2048;

/// First byte of the frame header magic.
pub const HEADER_MAGIC_0: u8 = 0xf0;

/// Second byte of the frame header magic.
pub const HEADER_MAGIC_1: u8 = 0xff;

} // verus!
