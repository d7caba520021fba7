//! Controller HID command bytes: the fixed opcodes of the command cycle and
//! the builders that prefix a mode or payload with its opcode. The catalog
//! of raw feature payloads (lighting modes, fan-type setup) is opaque data
//! supplied by the caller; only the framing around it is logic.

use vstd::prelude::*;

verus! {

/// Controller state handed to `set_controller_state`: autonomous firmware control.
pub const HARDWARE: u8 = 0x01;

/// Controller state handed to `set_controller_state`: host software control.
pub const SOFTWARE: u8 = 0x02;

/// Opcode sequence that asks for the firmware version.
pub fn get_firmware_info() -> (r: Vec<u8>)
    ensures
        r@ == seq![0x02u8, 0x13u8],
{
    let mut r: Vec<u8> = Vec::new();
    r.push(0x02);
    r.push(0x13);
    proof {
        assert(r@ =~= seq![0x02u8, 0x13u8]);
    }
    r
}

/// Switch the controller between software and hardware mode.
pub fn set_controller_state(state: u8) -> (r: [u8; 4])
    ensures
        r@ == seq![0x01u8, 0x03u8, 0x00u8, state],
{
    let r: [u8; 4] = [0x01, 0x03, 0x00, state];
    proof {
        assert(r@ =~= seq![0x01u8, 0x03u8, 0x00u8, state]);
    }
    r
}

/// Prefix a mode payload with the mode opcode.
pub fn set_mode(mode: &[u8]) -> (r: Vec<u8>)
    ensures
        r@ == seq![0x0du8, 0x00u8] + mode@,
{
    let mut r: Vec<u8> = Vec::new();
    r.push(0x0d);
    r.push(0x00);
    r.extend_from_slice(mode);
    proof {
        assert(r@ =~= seq![0x0du8, 0x00u8] + mode@);
    }
    r
}

/// Prefix a mode payload with the direct-mode opcode.
pub fn set_mode_direct(mode: &[u8]) -> (r: Vec<u8>)
    ensures
        r@ == seq![0x0du8, 0x01u8] + mode@,
{
    let mut r: Vec<u8> = Vec::new();
    r.push(0x0d);
    r.push(0x01);
    r.extend_from_slice(mode);
    proof {
        assert(r@ =~= seq![0x0du8, 0x01u8] + mode@);
    }
    r
}

/// Prefix a data payload with the write opcode.
pub fn write(bytes: &[u8]) -> (r: Vec<u8>)
    ensures
        r@ == seq![0x06u8, 0x00u8] + bytes@,
{
    let mut r: Vec<u8> = Vec::new();
    r.push(0x06);
    r.push(0x00);
    r.extend_from_slice(bytes);
    proof {
        assert(r@ =~= seq![0x06u8, 0x00u8] + bytes@);
    }
    r
}

/// Prefix a data payload with the direct-write opcode.
pub fn write_direct(bytes: &[u8]) -> (r: Vec<u8>)
    ensures
        r@ == seq![0x06u8, 0x01u8] + bytes@,
{
    let mut r: Vec<u8> = Vec::new();
    r.push(0x06);
    r.push(0x01);
    r.extend_from_slice(bytes);
    proof {
        assert(r@ =~= seq![0x06u8, 0x01u8] + bytes@);
    }
    r
}

} // verus!
