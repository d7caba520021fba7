//! The pure side of the sysfs hwmon companion utilities: classifying the
//! entries of a hwmon directory and deriving the sibling attribute paths of
//! a fan, PWM or temperature channel. The directory walking and file I/O
//! live with the process around the library.

use vstd::prelude::*;

use crate::text::{spec_digit_val, spec_is_digit, str_chars};

verus! {

/// A fan-speed input channel, named by its sysfs path without the
/// attribute suffix.
#[derive(Debug, Clone, PartialEq, Eq)]
pub struct Fan(pub String);

/// A PWM output channel, named by its sysfs path.
#[derive(Debug, Clone, PartialEq, Eq)]
pub struct Pwm(pub String);

/// A temperature input channel, named by its sysfs path without the
/// attribute suffix.
#[derive(Debug, Clone, PartialEq, Eq)]
pub struct Temp(pub String);

/// Append an attribute suffix to a channel path.
pub fn path_suffix(path: &String, suffix: &str) -> (r: String)
    ensures
        r@ == path@ + suffix@,
{
    let mut r = String::from_str(path.as_str());
    r.append(suffix);
    r
}

impl Fan {
    /// The sibling attribute path with the given suffix.
    pub fn suffix(&self, suffix: &str) -> (r: String)
        ensures
            r@ == self.0@ + suffix@,
    {
        path_suffix(&self.0, suffix)
    }
}

impl Pwm {
    /// The sibling attribute path with the given suffix.
    pub fn suffix(&self, suffix: &str) -> (r: String)
        ensures
            r@ == self.0@ + suffix@,
    {
        path_suffix(&self.0, suffix)
    }
}

impl Temp {
    /// The sibling attribute path with the given suffix.
    pub fn suffix(&self, suffix: &str) -> (r: String)
        ensures
            r@ == self.0@ + suffix@,
    {
        path_suffix(&self.0, suffix)
    }
}

/// What a file name in a hwmon directory stands for.
#[derive(Debug, Clone, Copy, PartialEq, Eq, Structural)]
pub enum HwmonFileKind {
    /// The `name` file naming the chip.
    ChipName,
    /// A `pwmN` output, with its channel digit.
    PwmChannel(u8),
    /// A `fanN_input` reading, with its channel digit.
    FanInput(u8),
    /// A `tempN_input` reading, with its channel digit.
    TempInput(u8),
    /// Anything else, ignored.
    Other,
}

/// What a hwmon directory entry stands for: the chip-name file, a
/// single-digit PWM output, or a fan or temperature input. A name that
/// matches a pattern but has no digit in the channel position is ignored.
pub open spec fn spec_classify(s: Seq<char>) -> HwmonFileKind {
    if s == "name"@ {
        HwmonFileKind::ChipName
    } else if s.len() == 4 && s.take(3) == "pwm"@ && spec_is_digit(s[3]) {
        HwmonFileKind::PwmChannel(spec_digit_val(s[3]) as u8)
    } else if s.len() >= 10 && s.take(3) == "fan"@ && s.skip(s.len() - 6) == "_input"@
        && spec_is_digit(s[3]) {
        HwmonFileKind::FanInput(spec_digit_val(s[3]) as u8)
    } else if s.len() >= 11 && s.take(4) == "temp"@ && s.skip(s.len() - 6) == "_input"@
        && spec_is_digit(s[4]) {
        HwmonFileKind::TempInput(spec_digit_val(s[4]) as u8)
    } else {
        HwmonFileKind::Other
    }
}

/// Whether the characters of `v` at `at` read as `pat`.
fn chars_match_at(v: &Vec<char>, at: usize, pat: &str) -> (r: bool)
    requires
        at + pat@.len() <= v@.len(),
    ensures
        r == (v@.subrange(at as int, at + pat@.len()) == pat@),
{
    let n = pat.unicode_len();
    let vn = v.len();
    let mut i: usize = 0;
    while i < n
        invariant
            n == pat@.len(),
            vn == v@.len(),
            at + n <= vn,
            i <= n,
            forall|j: int| 0 <= j < i ==> v@[at + j] == pat@[j],
        decreases n - i,
    {
        if v[at + i] != pat.get_char(i) {
            proof {
                assert(v@.subrange(at as int, at + pat@.len())[i as int] != pat@[i as int]);
            }
            return false;
        }
        i += 1;
    }
    proof {
        assert(v@.subrange(at as int, at + pat@.len()) =~= pat@);
    }
    true
}

/// Whether a character is a decimal digit, with its value.
fn digit_of(c: char) -> (r: Option<u8>)
    ensures
        spec_is_digit(c) ==> r == Some(spec_digit_val(c) as u8),
        !spec_is_digit(c) ==> r is None,
{
    let v = c as u32;
    if 48 <= v && v <= 57 {
        Some((v - 48) as u8)
    } else {
        None
    }
}

/// Classify one hwmon directory entry by its file name.
pub fn classify_entry(file_name: &str) -> (r: HwmonFileKind)
    ensures
        r == spec_classify(file_name@),
{
    proof {
        reveal_strlit("name");
        reveal_strlit("pwm");
        reveal_strlit("fan");
        reveal_strlit("temp");
        reveal_strlit("_input");
    }
    let v = str_chars(file_name);
    let n = v.len();
    if n == 4 && chars_match_at(&v, 0, "name") {
        proof {
            assert(v@.subrange(0, 4) =~= v@);
        }
        return HwmonFileKind::ChipName;
    }
    proof {
        if v@ == "name"@ {
            assert(n == 4);
            assert(v@.subrange(0, 4) =~= v@);
        }
    }
    if n == 4 && chars_match_at(&v, 0, "pwm") {
        if let Some(d) = digit_of(v[3]) {
            return HwmonFileKind::PwmChannel(d);
        }
        return HwmonFileKind::Other;
    }
    if n >= 10 && chars_match_at(&v, 0, "fan") && chars_match_at(&v, n - 6, "_input") {
        proof {
            assert(v@.subrange(n - 6, n as int) =~= v@.skip(n - 6));
            assert(v@.take(3)[0] == v@[0]);
            if n >= 11 && v@.take(4) == "temp"@ {
                assert(v@.take(4)[0] == v@[0]);
            }
        }
        if let Some(d) = digit_of(v[3]) {
            return HwmonFileKind::FanInput(d);
        }
        return HwmonFileKind::Other;
    }
    if n >= 11 && chars_match_at(&v, 0, "temp") && chars_match_at(&v, n - 6, "_input") {
        proof {
            assert(v@.subrange(n - 6, n as int) =~= v@.skip(n - 6));
            assert(v@.take(4)[0] == v@[0]);
            if v@.take(3) == "fan"@ {
                assert(v@.take(3)[0] == v@[0]);
            }
        }
        if let Some(d) = digit_of(v[4]) {
            return HwmonFileKind::TempInput(d);
        }
        return HwmonFileKind::Other;
    }
    proof {
        if n >= 10 {
            assert(v@.subrange(n - 6, n as int) =~= v@.skip(n - 6));
        }
    }
    HwmonFileKind::Other
}

/// One hwmon chip directory: its chip name and the channels found in it,
/// each keyed by its channel digit and carrying its base path.
#[derive(Debug, Clone, PartialEq, Eq)]
pub struct HwmonEntry {
    pub name: String,
    pub fans: Vec<(u8, Fan)>,
    pub pwms: Vec<(u8, Pwm)>,
    pub temps: Vec<(u8, Temp)>,
}

impl HwmonEntry {
    /// Whether the chip offers no channel at all: such an entry is
    /// dropped from the table.
    pub fn is_empty(&self) -> (r: bool)
        ensures
            r == (self.fans@.len() == 0 && self.pwms@.len() == 0 && self.temps@.len() == 0),
    {
        self.fans.len() == 0 && self.pwms.len() == 0 && self.temps.len() == 0
    }
}

} // verus!
