//! The error taxonomy of the protocol client.
//!
//! Serial-link failures carry the underlying driver's message as text;
//! decode and validation errors carry the offending raw value, so a failure
//! can be diagnosed without re-running with verbose tracing.

use vstd::prelude::*;

use crate::enums::Side;

verus! {

/// Every way an operation of this crate can fail.
#[derive(Debug, Clone, PartialEq, Eq)]
pub enum FocusError {
    /// The operating system could not list the serial ports.
    SerialPortEnumerationError(String),
    /// The serial port could not be opened.
    SerialPortOpenError(String),
    /// The serial port was opened but could not be configured.
    SerialPortConfigurationError(String),
    /// An I/O failure while reading a response.
    SerialPortReadError(String),
    /// An I/O failure mid-write.
    SerialPortWriteError(String),
    /// An I/O failure while flushing written bytes.
    SerialPortFlushError(String),
    /// A response was empty where a payload was required.
    EmptyResponseError,
    /// A fixed-arity chunk did not have the expected number of parts.
    PartCountError { expected: u8 },
    /// A value exceeded a client-enforced limit; nothing was sent.
    ValueAboveLimitError { label: &'static str, max: usize, provided: usize },
    /// A response payload was not valid UTF-8.
    Utf8ConversionError,
    /// A response could not be read as a boolean literal.
    ParseBoolError { string: String },
    /// A response could not be read as a base-10 number.
    ParseNumericalError { string: String },
    /// A response could not be read as a whitespace-separated number list.
    ParseNumericalVecError { string: String },
    /// The device is not ready for an upgrade handshake.
    DeviceNotReadyError,
    /// No supported device was found among the serial ports.
    NoDevicesDetectedError,
    /// One half of a split keyboard is disconnected.
    SideDisconnectedError { side: Side },
}

} // verus!
