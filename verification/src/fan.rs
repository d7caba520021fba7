//! Fan identity: the pump plus up to seven numbered fan headers, with the
//! integer form used on the wire and the textual tokens used by the
//! interactive command grammar.

use vstd::prelude::*;

use crate::error::Error;
use crate::text::{
    chars_eq_str, lemma_dec_val_nonneg, parse_u16_decimal, spec_dec_val, spec_is_dec_bounded,
    str_chars,
};

verus! {

/// The target written into a fan-target file when it is created or healed.
pub const DEFAULT_FAN_TARGET: u16 = 100;

/// One cooling component: the pump (index 0) or a numbered fan (indices 1 and up).
#[derive(Debug, Clone, Copy, PartialEq, Eq, Structural)]
pub enum Fan {
    Pump,
    Fan(u8),
}

impl Fan {
    /// The wire index: 0 for the pump, i + 1 for fan i.
    pub open spec fn spec_index(self) -> int {
        match self {
            Fan::Pump => 0,
            Fan::Fan(i) => i + 1,
        }
    }

    /// The values that the integer conversion can produce: pump or fans 0..=6.
    pub open spec fn wf(self) -> bool {
        match self {
            Fan::Pump => true,
            Fan::Fan(i) => i <= 6,
        }
    }

    /// The wire index of this fan.
    pub fn index(&self) -> (r: u8)
        requires
            self.wf(),
        ensures
            r == self.spec_index(),
            r <= 7,
    {
        match self {
            Fan::Pump => 0,
            Fan::Fan(i) => *i + 1,
        }
    }

    /// Decode a wire index. Exactly the indices 0..=7 are accepted;
    /// 8 and above are rejected, never silently clamped.
    pub fn from_index(value: u8) -> (r: Result<Fan, Error>)
        ensures
            value <= 7 ==> (r matches Ok(f) && f.wf() && f.spec_index() == value),
            value > 7 ==> r == Err::<Fan, Error>(Error::InvalidFan),
    {
        if value == 0 {
            Ok(Fan::Pump)
        } else if value <= 7 {
            Ok(Fan::Fan(value - 1))
        } else {
            Err(Error::InvalidFan)
        }
    }

    /// Whether a character sequence is one of the seven defined fan tokens.
    pub open spec fn is_token(s: Seq<char>) -> bool {
        ||| s == "pump"@
        ||| s == "fan1"@
        ||| s == "fan2"@
        ||| s == "fan3"@
        ||| s == "fan4"@
        ||| s == "fan5"@
        ||| s == "fan6"@
    }

    /// The fan that a defined token names.
    pub open spec fn spec_from_token(s: Seq<char>) -> Fan
        recommends
            Fan::is_token(s),
    {
        if s == "pump"@ {
            Fan::Pump
        } else if s == "fan1"@ {
            Fan::Fan(0)
        } else if s == "fan2"@ {
            Fan::Fan(1)
        } else if s == "fan3"@ {
            Fan::Fan(2)
        } else if s == "fan4"@ {
            Fan::Fan(3)
        } else if s == "fan5"@ {
            Fan::Fan(4)
        } else {
            Fan::Fan(5)
        }
    }

    /// Decode a textual token held as characters. Exactly the seven
    /// defined tokens are accepted; every other string is rejected.
    pub fn from_chars(v: &Vec<char>) -> (r: Result<Fan, Error>)
        ensures
            Fan::is_token(v@) ==> (r matches Ok(f) && f == Fan::spec_from_token(v@) && f.wf()),
            !Fan::is_token(v@) ==> r == Err::<Fan, Error>(Error::InvalidFan),
    {
        if chars_eq_str(v, "pump") {
            Ok(Fan::Pump)
        } else if chars_eq_str(v, "fan1") {
            Ok(Fan::Fan(0))
        } else if chars_eq_str(v, "fan2") {
            Ok(Fan::Fan(1))
        } else if chars_eq_str(v, "fan3") {
            Ok(Fan::Fan(2))
        } else if chars_eq_str(v, "fan4") {
            Ok(Fan::Fan(3))
        } else if chars_eq_str(v, "fan5") {
            Ok(Fan::Fan(4))
        } else if chars_eq_str(v, "fan6") {
            Ok(Fan::Fan(5))
        } else {
            Err(Error::InvalidFan)
        }
    }

    /// Decode a textual token. Exactly the seven defined tokens are
    /// accepted; every other string is rejected.
    pub fn from_token(s: &str) -> (r: Result<Fan, Error>)
        ensures
            Fan::is_token(s@) ==> (r matches Ok(f) && f == Fan::spec_from_token(s@) && f.wf()),
            !Fan::is_token(s@) ==> r == Err::<Fan, Error>(Error::InvalidFan),
    {
        let chars = str_chars(s);
        Fan::from_chars(&chars)
    }
}

/// A fan-target file's characters with one trailing line terminator removed.
pub open spec fn spec_strip_newline(s: Seq<char>) -> Seq<char> {
    if s.len() > 0 && s.last() == '\n' {
        s.drop_last()
    } else {
        s
    }
}

/// What the watcher takes from the contents of a fan-target file: the
/// decimal target clamped to 100, or nothing when the contents are
/// malformed and the file must be healed back to the default.
pub open spec fn spec_fan_target_file(s: Seq<char>) -> Option<u16> {
    let t = spec_strip_newline(s);
    if spec_is_dec_bounded(t, u16::MAX as int) {
        if spec_dec_val(t) > 100 {
            Some(100u16)
        } else {
            Some(spec_dec_val(t) as u16)
        }
    } else {
        None
    }
}

/// Read a fan-target file's contents: strip one trailing line terminator,
/// read the decimal target, and clamp values above 100 down to 100. A
/// malformed file yields nothing, and the watcher heals it by rewriting the
/// default target rather than failing.
pub fn parse_fan_target(contents: &str) -> (r: Option<u16>)
    ensures
        r == spec_fan_target_file(contents@),
        r matches Some(v) ==> v <= 100,
{
    let mut chars = str_chars(contents);
    if chars.len() > 0 && chars[chars.len() - 1] == '\n' {
        chars.pop();
        proof {
            assert(chars@ =~= spec_strip_newline(contents@));
        }
    }
    match parse_u16_decimal(chars.as_slice()) {
        Some(speed) => {
            proof {
                if spec_is_dec_bounded(chars@, u16::MAX as int) {
                    lemma_dec_val_nonneg(chars@);
                }
            }
            if speed > 100 {
                Some(100)
            } else {
                Some(speed)
            }
        },
        None => None,
    }
}

/// The well-formed fan whose wire index is `v`, for `v` in 0..=7.
pub open spec fn spec_fan_of(v: int) -> Fan {
    if v == 0 {
        Fan::Pump
    } else {
        Fan::Fan((v - 1) as u8)
    }
}

/// The integer conversion is a bijection between well-formed fans and the
/// indices 0..=7: every well-formed fan has an index in range, distinct fans
/// have distinct indices, and every index in range names exactly one fan.
pub proof fn lemma_fan_index_bijective()
    ensures
        forall|f: Fan| f.wf() ==> 0 <= #[trigger] f.spec_index() <= 7,
        forall|f: Fan| f.wf() ==> spec_fan_of(#[trigger] f.spec_index()) == f,
        forall|v: int|
            0 <= v <= 7 ==> (#[trigger] spec_fan_of(v)).wf() && spec_fan_of(v).spec_index() == v,
{
}

} // verus!
