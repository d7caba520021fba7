//! Report-buffer logic for the device transport: building outgoing HID
//! reports, validating the response echo byte, and decoding the fixed-offset
//! fields of temperature, speed and firmware-version responses.
//!
//! The blocking reads and writes against the HID endpoint themselves are I/O
//! and live with the process around the library; everything here is the pure
//! command/response cycle logic they drive.

use vstd::prelude::*;

use crate::error::Error;

verus! {

/// Length of the report payload; the full report adds one report-ID byte.
pub const REPORT_LENGTH: usize = 96;

/// First payload byte of every outgoing report.
pub const HEADER_WRITE: u8 = 0x08;

pub const LED_COUNT_PUMP: usize = 29;

pub const LED_COUNT_FAN: usize = 34;

pub const LED_COUNT_TOTAL: usize = LED_COUNT_PUMP + LED_COUNT_FAN * 6;

pub const VID: u16 = 0x1b1c;

pub const PID: u16 = 0x0c1c;

pub const INTERFACE_NUMBER: i32 = 0;

/// The value of two consecutive bytes read little-endian.
pub open spec fn spec_le16(lo: u8, hi: u8) -> int {
    lo + 256 * hi
}

/// The value of two consecutive bytes read big-endian.
pub open spec fn spec_be16(hi: u8, lo: u8) -> int {
    256 * hi + lo
}

/// Clamp a requested fan duty to the valid percentage range.
///
/// Targets above 100 percent are invalid and are clamped, never rejected.
pub fn validate_fan_speed(speed: u16) -> (r: u16)
    ensures
        r == if speed > 100 { 100u16 } else { speed },
{
    if speed > 100 {
        100
    } else {
        speed
    }
}

/// Assemble the full report for one command: a zero report-ID byte, the fixed
/// write header, the command bytes, and zero fill up to the report length.
pub fn build_report(command: &[u8]) -> (r: Vec<u8>)
    requires
        command@.len() + 2 <= 1 + REPORT_LENGTH,
    ensures
        r@.len() == 1 + REPORT_LENGTH,
        r@[0] == 0u8,
        r@[1] == HEADER_WRITE,
        forall|i: int| 0 <= i < command@.len() ==> r@[2 + i] == command@[i],
        forall|i: int| 2 + command@.len() <= i < r@.len() ==> r@[i] == 0u8,
{
    let mut r: Vec<u8> = Vec::new();
    r.push(0);
    r.push(HEADER_WRITE);
    let mut i: usize = 0;
    while i < command.len()
        invariant
            i <= command@.len(),
            command@.len() + 2 <= 1 + REPORT_LENGTH,
            r@.len() == 2 + i,
            r@[0] == 0u8,
            r@[1] == HEADER_WRITE,
            forall|j: int| 0 <= j < i ==> r@[2 + j] == command@[j],
        decreases command@.len() - i,
    {
        r.push(command[i]);
        i += 1;
    }
    while r.len() < 1 + REPORT_LENGTH
        invariant
            2 + command@.len() <= r@.len() <= 1 + REPORT_LENGTH,
            r@[0] == 0u8,
            r@[1] == HEADER_WRITE,
            forall|j: int| 0 <= j < command@.len() ==> r@[2 + j] == command@[j],
            forall|j: int| 2 + command@.len() <= j < r@.len() ==> r@[j] == 0u8,
        decreases 1 + REPORT_LENGTH - r@.len(),
    {
        r.push(0);
    }
    r
}

/// Whether the first payload byte of a response echoes the first byte of the
/// command it answers. A mismatch means the write/read pairing has
/// desynchronized and the session can no longer trust the device state.
pub fn response_matches(response: &[u8], command: &[u8]) -> (r: bool)
    requires
        response@.len() >= 2,
        command@.len() >= 1,
    ensures
        r == (response@[1] == command@[0]),
{
    response[1] == command[0]
}

/// Check a response against its command, as one step of the command cycle.
pub fn check_response(response: &[u8], command: &[u8]) -> (r: Result<(), Error>)
    requires
        response@.len() >= 2,
        command@.len() >= 1,
    ensures
        r == if response@[1] == command@[0] {
            Ok::<(), Error>(())
        } else {
            Err::<(), Error>(Error::ResponseMismatch)
        },
{
    if response[1] == command[0] {
        Ok(())
    } else {
        Err(Error::ResponseMismatch)
    }
}

/// The coolant temperature held in a "read temperature" response: two
/// little-endian bytes at a fixed offset, in tenths of a degree.
pub fn parse_temp(buf: &[u8]) -> (r: u16)
    requires
        buf@.len() >= 9,
    ensures
        r == spec_le16(buf@[7], buf@[8]),
{
    buf[7] as u16 + buf[8] as u16 * 256
}

/// The pump and fan speeds held in a "read speeds" response: seven
/// little-endian u16 fields at fixed offsets, pump first.
pub fn parse_speeds(buf: &[u8]) -> (r: [u16; 7])
    requires
        buf@.len() >= 20,
    ensures
        forall|i: int| 0 <= i < 7 ==> r@[i] == spec_le16(buf@[6 + 2 * i], buf@[7 + 2 * i]),
{
    let r: [u16; 7] = [
        buf[6] as u16 + buf[7] as u16 * 256,
        buf[8] as u16 + buf[9] as u16 * 256,
        buf[10] as u16 + buf[11] as u16 * 256,
        buf[12] as u16 + buf[13] as u16 * 256,
        buf[14] as u16 + buf[15] as u16 * 256,
        buf[16] as u16 + buf[17] as u16 * 256,
        buf[18] as u16 + buf[19] as u16 * 256,
    ];
    r
}

/// The three-part firmware version held in a "firmware info" response.
pub fn parse_firmware_version(buf: &[u8]) -> (r: (u8, u8, u8))
    requires
        buf@.len() >= 6,
    ensures
        r.0 == buf@[3],
        r.1 == buf@[4],
        r.2 == buf@[5],
{
    (buf[3], buf[4], buf[5])
}

/// Whether a firmware version fails the field-wise lower bound against the
/// known-good baseline 2.10.219.
pub open spec fn spec_firmware_below(major: u8, minor: u8, patch: u8) -> bool {
    major < 2 || minor < 10 || patch < 219
}

/// Whether a firmware version exceeds the baseline 2.10.219 in any field.
pub open spec fn spec_firmware_above(major: u8, minor: u8, patch: u8) -> bool {
    major > 2 || minor > 10 || patch > 219
}

/// Gate on the device firmware version, compared field by field against the
/// baseline 2.10.219: any lesser field rejects outright, and any greater
/// field rejects unless the explicit override for newer firmware is set,
/// because fixed command sequences sent to an unknown revision risk
/// corrupting the device configuration.
///
/// The comparison is deliberately field-wise, not lexicographic, faithful to
/// the device's established gating behaviour.
pub fn firmware_gate(major: u8, minor: u8, patch: u8, accept_newer: bool) -> (r: Result<
    (),
    Error,
>)
    ensures
        r == if spec_firmware_below(major, minor, patch) {
            Err::<(), Error>(Error::FirmwareTooOld)
        } else if !accept_newer && spec_firmware_above(major, minor, patch) {
            Err::<(), Error>(Error::FirmwareUnrecognized)
        } else {
            Ok::<(), Error>(())
        },
{
    if major < 2 || minor < 10 || patch < 219 {
        Err(Error::FirmwareTooOld)
    } else if !accept_newer && (major > 2 || minor > 10 || patch > 219) {
        Err(Error::FirmwareUnrecognized)
    } else {
        Ok(())
    }
}

/// Decode the two-byte windows of a buffer as u16 values in both byte
/// orders, up to the given number of windows. The caller prints them when
/// examining unfamiliar device output.
pub fn print_u16_windows(buf: &[u8], count: usize) -> (r: Vec<(u16, u16)>)
    ensures
        r@.len() == if count as int <= buf@.len() - 1 {
            count as int
        } else if buf@.len() >= 1 {
            buf@.len() - 1
        } else {
            0
        },
        forall|i: int|
            0 <= i < r@.len() ==> r@[i].0 == spec_le16(buf@[i], buf@[i + 1]) && r@[i].1
                == spec_be16(buf@[i], buf@[i + 1]),
{
    let mut r: Vec<(u16, u16)> = Vec::new();
    let mut i: usize = 0;
    while i < count && i + 1 < buf.len()
        invariant
            r@.len() == i,
            i <= count,
            buf@.len() >= 1 ==> i <= buf@.len() - 1,
            buf@.len() == 0 ==> i == 0,
            forall|j: int|
                0 <= j < i ==> r@[j].0 == spec_le16(buf@[j], buf@[j + 1]) && r@[j].1 == spec_be16(
                    buf@[j],
                    buf@[j + 1],
                ),
        decreases count - i,
    {
        let le = buf[i] as u16 + buf[i + 1] as u16 * 256;
        let be = buf[i] as u16 * 256 + buf[i + 1] as u16;
        r.push((le, be));
        i += 1;
    }
    r
}

} // verus!
