//! Control-plane responses: the values a server replies with, their
//! canonical binary encoding, and the decoder the control client uses.

use vstd::prelude::*;

use crate::error::Error;
use crate::hid::spec_le16;
use crate::socket_command::{
    SOCKET_COMMAND_GET_COOLANT_TEMP, SOCKET_COMMAND_GET_PUMP_SPEED, SOCKET_COMMAND_SET_COLORS,
    SOCKET_COMMAND_SET_PUMP_SPEED,
};

verus! {

/// A control-plane response; the booleans report whether a set command was
/// accepted.
#[derive(Debug, Clone, Copy, PartialEq, Eq, Structural)]
pub enum SocketResponse {
    GetCoolantTemp(u16),
    GetPumpSpeed(u16),
    SetPumpSpeed(bool),
    SetColors(bool),
}

/// The canonical binary encoding of a response: its tag byte followed by a
/// little-endian value or a one-byte success flag.
pub open spec fn spec_response_bytes(r: SocketResponse) -> Seq<u8> {
    match r {
        SocketResponse::GetCoolantTemp(temp) => seq![
            SOCKET_COMMAND_GET_COOLANT_TEMP,
            (temp % 256) as u8,
            (temp / 256) as u8,
        ],
        SocketResponse::GetPumpSpeed(speed) => seq![
            SOCKET_COMMAND_GET_PUMP_SPEED,
            (speed % 256) as u8,
            (speed / 256) as u8,
        ],
        SocketResponse::SetPumpSpeed(success) => seq![
            SOCKET_COMMAND_SET_PUMP_SPEED,
            if success { 1u8 } else { 0u8 },
        ],
        SocketResponse::SetColors(success) => seq![
            SOCKET_COMMAND_SET_COLORS,
            if success { 1u8 } else { 0u8 },
        ],
    }
}

/// What the response decoder yields on a payload: the response and how many
/// bytes it consumed, or nothing if the payload is not a well-formed
/// response.
pub open spec fn spec_parse_response(s: Seq<u8>) -> Option<(SocketResponse, int)> {
    if s.len() < 1 {
        None
    } else if s[0] == SOCKET_COMMAND_GET_COOLANT_TEMP {
        if s.len() < 3 {
            None
        } else {
            Some((SocketResponse::GetCoolantTemp(spec_le16(s[1], s[2]) as u16), 3))
        }
    } else if s[0] == SOCKET_COMMAND_GET_PUMP_SPEED {
        if s.len() < 3 {
            None
        } else {
            Some((SocketResponse::GetPumpSpeed(spec_le16(s[1], s[2]) as u16), 3))
        }
    } else if s[0] == SOCKET_COMMAND_SET_PUMP_SPEED {
        if s.len() < 2 {
            None
        } else {
            Some((SocketResponse::SetPumpSpeed(s[1] == 1), 2))
        }
    } else if s[0] == SOCKET_COMMAND_SET_COLORS {
        if s.len() < 2 {
            None
        } else {
            Some((SocketResponse::SetColors(s[1] == 1), 2))
        }
    } else {
        None
    }
}

/// Encoding then decoding yields the response back, consuming exactly the
/// encoded bytes, for every response value.
pub proof fn lemma_response_roundtrip(r: SocketResponse)
    ensures
        spec_parse_response(spec_response_bytes(r)) == Some(
            (r, spec_response_bytes(r).len() as int),
        ),
{
    match r {
        SocketResponse::GetCoolantTemp(v) => {
            assert((v % 256) + 256 * (v / 256) == v) by (nonlinear_arith);
        },
        SocketResponse::GetPumpSpeed(v) => {
            assert((v % 256) + 256 * (v / 256) == v) by (nonlinear_arith);
        },
        SocketResponse::SetPumpSpeed(_) => {
        },
        SocketResponse::SetColors(_) => {
        },
    }
}

impl SocketResponse {
    /// Encode this response into its canonical binary form.
    pub fn to_bytes(&self) -> (r: Vec<u8>)
        ensures
            r@ == spec_response_bytes(*self),
    {
        let mut r: Vec<u8> = Vec::new();
        match self {
            SocketResponse::GetCoolantTemp(temp) => {
                r.push(SOCKET_COMMAND_GET_COOLANT_TEMP);
                r.push((*temp % 256) as u8);
                r.push((*temp / 256) as u8);
            },
            SocketResponse::GetPumpSpeed(speed) => {
                r.push(SOCKET_COMMAND_GET_PUMP_SPEED);
                r.push((*speed % 256) as u8);
                r.push((*speed / 256) as u8);
            },
            SocketResponse::SetPumpSpeed(success) => {
                r.push(SOCKET_COMMAND_SET_PUMP_SPEED);
                r.push(if *success { 1 } else { 0 });
            },
            SocketResponse::SetColors(success) => {
                r.push(SOCKET_COMMAND_SET_COLORS);
                r.push(if *success { 1 } else { 0 });
            },
        }
        proof {
            assert(r@ =~= spec_response_bytes(*self));
        }
        r
    }
}

/// Decode one response from the start of a binary payload. Yields the
/// response and the number of bytes consumed exactly when the payload
/// begins with a well-formed response.
pub fn socket_response_bytes(input: &[u8]) -> (r: Result<(SocketResponse, usize), Error>)
    ensures
        match spec_parse_response(input@) {
            Some(p) => r matches Ok(q) && q.0 == p.0 && q.1 == p.1,
            None => r == Err::<(SocketResponse, usize), Error>(Error::InvalidResponse),
        },
{
    if input.len() < 1 {
        return Err(Error::InvalidResponse);
    }
    let tag = input[0];
    if tag == SOCKET_COMMAND_GET_COOLANT_TEMP {
        if input.len() < 3 {
            return Err(Error::InvalidResponse);
        }
        Ok((SocketResponse::GetCoolantTemp(input[1] as u16 + input[2] as u16 * 256), 3))
    } else if tag == SOCKET_COMMAND_GET_PUMP_SPEED {
        if input.len() < 3 {
            return Err(Error::InvalidResponse);
        }
        Ok((SocketResponse::GetPumpSpeed(input[1] as u16 + input[2] as u16 * 256), 3))
    } else if tag == SOCKET_COMMAND_SET_PUMP_SPEED {
        if input.len() < 2 {
            return Err(Error::InvalidResponse);
        }
        Ok((SocketResponse::SetPumpSpeed(input[1] == 1), 2))
    } else if tag == SOCKET_COMMAND_SET_COLORS {
        if input.len() < 2 {
            return Err(Error::InvalidResponse);
        }
        Ok((SocketResponse::SetColors(input[1] == 1), 2))
    } else {
        Err(Error::InvalidResponse)
    }
}

} // verus!
