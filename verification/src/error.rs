//! Error taxonomy of the library.
//!
//! Device-protocol errors are fatal to the orchestrator; control-plane decode
//! errors are fatal only to the offending connection; a malformed fan-target
//! file self-heals and is not an error at all.

use vstd::prelude::*;

verus! {

#[derive(Debug, Clone, Copy, PartialEq, Eq, Structural)]
pub enum Error {
    /// A fan index above 7 or a fan token outside the defined set.
    InvalidFan,
    /// Command bytes or text that no command grammar accepts.
    InvalidCommand,
    /// Response bytes that no response grammar accepts.
    InvalidResponse,
    /// The first payload byte of a device response did not echo the command.
    ResponseMismatch,
    /// Device firmware older than the known-good baseline.
    FirmwareTooOld,
    /// Device firmware newer than the baseline without the explicit override.
    FirmwareUnrecognized,
    /// Bytes left in the decoder at end of stream: an incomplete trailing command.
    TrailingBytes,
    /// A sysfs PWM enable value outside the AMD GPU range.
    InvalidAmdGpuPwmEnable,
    /// A sysfs PWM enable value outside the MSI range.
    InvalidMsiPwmEnable,
    /// A sysfs PWM drive-mode value other than DC or PWM.
    InvalidPwmMode,
}

impl Error {
    /// A short, stable description for logging at the edges of the process.
    pub fn describe(&self) -> (r: &'static str)
        ensures
            r@ == self.spec_describe(),
    {
        match self {
            Error::InvalidFan => "Invalid Fan",
            Error::InvalidCommand => "Invalid socket command",
            Error::InvalidResponse => "Invalid socket response",
            Error::ResponseMismatch => "Response does not match command",
            Error::FirmwareTooOld => "Firmware versions prior to 2.10.219 are not supported.",
            Error::FirmwareUnrecognized => "Expected firmware version 2.10.219, stopping.",
            Error::TrailingBytes => "bytes remaining on stream",
            Error::InvalidAmdGpuPwmEnable => "Invalid AmdGpuPwmEnable",
            Error::InvalidMsiPwmEnable => "Invalid MsiPwmEnable",
            Error::InvalidPwmMode => "Invalid PwmMode",
        }
    }

    pub open spec fn spec_describe(self) -> Seq<char> {
        match self {
            Error::InvalidFan => "Invalid Fan"@,
            Error::InvalidCommand => "Invalid socket command"@,
            Error::InvalidResponse => "Invalid socket response"@,
            Error::ResponseMismatch => "Response does not match command"@,
            Error::FirmwareTooOld => "Firmware versions prior to 2.10.219 are not supported."@,
            Error::FirmwareUnrecognized => "Expected firmware version 2.10.219, stopping."@,
            Error::TrailingBytes => "bytes remaining on stream"@,
            Error::InvalidAmdGpuPwmEnable => "Invalid AmdGpuPwmEnable"@,
            Error::InvalidMsiPwmEnable => "Invalid MsiPwmEnable"@,
            Error::InvalidPwmMode => "Invalid PwmMode"@,
        }
    }
}

/// Hand a worker's final result back unchanged so callers can chain on it;
/// the logging that accompanies a worker's exit lives with the caller, which
/// owns the log sink.
pub fn print_thread_result<T>(result: Result<T, Error>) -> (r: Result<T, Error>)
    ensures
        r == result,
{
    result
}

} // verus!
