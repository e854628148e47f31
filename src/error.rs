//! Error kinds shared by every part of the library.

use vstd::prelude::*;

use crate::report::Status;

verus! {

/// What went wrong at the protocol level.
#[derive(Debug, Clone, Copy, PartialEq, Eq)]
pub enum ProtocolErrorKind {
    /// The device answered a command with `Fail`.
    CommandFailed,
    /// The device stayed busy (or timed out) through the whole retry budget.
    RetriesExhausted(Status),
    /// The device answered with a status that is neither success nor retryable.
    UnexpectedStatus(Status),
    /// The pixel buffer is not a row-major height x width x 3 array.
    FrameShape,
    /// The row offset table has fewer entries than the frame has rows.
    RowOffsetsLength,
    /// The frame needs more packets than the 16-bit remaining counter holds.
    PacketCountTooLarge,
    /// A row index does not fit in the one-byte header field.
    RowIndexOverflow,
    /// A column index does not fit in the one-byte header field.
    ColumnIndexOverflow,
    /// An interrupt report arrived with the wrong report id (the byte that came, 0 if none).
    UnexpectedReportId(u8),
    /// The interface has no interrupt IN and OUT endpoint pair.
    EndpointsNotFound,
    /// No interrupt report arrived within the timeout.
    InterruptReadTimeout,
}

/// Every failure of the library, as a kind the caller can tell apart.
#[derive(Debug, Clone, PartialEq, Eq)]
pub enum HidError {
    /// No present device matches the identity (its description).
    DeviceNotFound(String),
    /// The USB stack failed to list, open or claim (its message).
    UsbError(String),
    /// A USB transfer failed (its message).
    TransferError(String),
    /// The handle is closed.
    Disconnected,
    /// A buffer does not have the length the protocol asks for.
    InvalidReportSize { expected: usize, actual: usize },
    /// The device or the data broke the protocol.
    ProtocolError(ProtocolErrorKind),
    /// An argument write of `requested` bytes would pass the end of the
    /// argument region, of which `used` bytes are taken.
    CapacityError { capacity: usize, used: usize, requested: usize },
}

} // verus!
