//! Text utilities for the interactive command grammar and the fan-target
//! files: splitting a line into space-separated tokens and reading decimal
//! numbers.

use vstd::prelude::*;

verus! {

/// Whether a character is a decimal digit.
pub open spec fn spec_is_digit(c: char) -> bool {
    48 <= c as u32 <= 57
}

/// The value of a decimal digit.
pub open spec fn spec_digit_val(c: char) -> int {
    c as u32 - 48
}

/// Whether every character of a sequence is a decimal digit.
pub open spec fn spec_all_digits(s: Seq<char>) -> bool {
    forall|i: int| 0 <= i < s.len() ==> spec_is_digit(#[trigger] s[i])
}

/// The number a digit sequence denotes in decimal.
pub open spec fn spec_dec_val(s: Seq<char>) -> int
    decreases s.len(),
{
    if s.len() == 0 {
        0
    } else {
        spec_dec_val(s.drop_last()) * 10 + spec_digit_val(s.last())
    }
}

/// Whether a token is a decimal number that fits the given bound.
pub open spec fn spec_is_dec_bounded(s: Seq<char>, bound: int) -> bool {
    s.len() >= 1 && spec_all_digits(s) && spec_dec_val(s) <= bound
}

pub proof fn lemma_dec_val_nonneg(s: Seq<char>)
    requires
        spec_all_digits(s),
    ensures
        spec_dec_val(s) >= 0,
    decreases s.len(),
{
    if s.len() > 0 {
        assert(spec_all_digits(s.drop_last()));
        lemma_dec_val_nonneg(s.drop_last());
    }
}

/// A digit prefix never denotes more than the whole sequence.
pub proof fn lemma_dec_val_prefix(s: Seq<char>, i: int)
    requires
        spec_all_digits(s),
        0 <= i <= s.len(),
    ensures
        spec_dec_val(s.take(i)) <= spec_dec_val(s),
    decreases s.len() - i,
{
    if i < s.len() {
        lemma_dec_val_prefix(s, i + 1);
        assert(s.take(i + 1).drop_last() =~= s.take(i));
        assert(spec_all_digits(s.take(i)));
        lemma_dec_val_nonneg(s.take(i));
        assert(spec_dec_val(s.take(i + 1)) == spec_dec_val(s.take(i)) * 10 + spec_digit_val(
            s.take(i + 1).last(),
        ));
        assert(spec_is_digit(s[i]));
        assert(spec_dec_val(s.take(i)) * 10 >= spec_dec_val(s.take(i))) by (nonlinear_arith)
            requires
                spec_dec_val(s.take(i)) >= 0,
        ;
    } else {
        assert(s.take(i) =~= s);
    }
}

/// Read a token as a decimal number, accepting exactly the nonempty
/// all-digit tokens whose value fits in sixteen bits.
pub fn parse_u16_decimal(s: &[char]) -> (r: Option<u16>)
    ensures
        spec_is_dec_bounded(s@, u16::MAX as int) ==> r == Some(spec_dec_val(s@) as u16),
        !spec_is_dec_bounded(s@, u16::MAX as int) ==> r is None,
{
    if s.len() == 0 {
        return None;
    }
    let mut acc: u32 = 0;
    let mut i: usize = 0;
    while i < s.len()
        invariant
            0 < s@.len(),
            i <= s@.len(),
            acc <= 65535,
            forall|j: int| 0 <= j < i ==> spec_is_digit(#[trigger] s@[j]),
            acc == spec_dec_val(s@.take(i as int)),
        decreases s@.len() - i,
    {
        let c = s[i];
        let v = c as u32;
        if v < 48 || v > 57 {
            proof {
                assert(!spec_is_digit(s@[i as int]));
            }
            return None;
        }
        proof {
            assert(spec_is_digit(s@[i as int]));
            assert(s@.take(i + 1).drop_last() =~= s@.take(i as int));
            assert(s@.take(i + 1).last() == s@[i as int]);
            assert(spec_dec_val(s@.take(i + 1)) == spec_dec_val(s@.take(i as int)) * 10
                + spec_digit_val(s@[i as int]));
        }
        acc = acc * 10 + (v - 48);
        i += 1;
        if acc > 65535 {
            proof {
                if spec_all_digits(s@) && spec_dec_val(s@) <= u16::MAX as int {
                    lemma_dec_val_prefix(s@, i as int);
                }
            }
            return None;
        }
    }
    proof {
        assert(s@.take(s@.len() as int) =~= s@);
    }
    Some(acc as u16)
}

/// The characters of a string, one by one.
pub fn str_chars(s: &str) -> (r: Vec<char>)
    ensures
        r@ == s@,
{
    let n = s.unicode_len();
    let mut r: Vec<char> = Vec::new();
    let mut i: usize = 0;
    while i < n
        invariant
            n == s@.len(),
            i <= n,
            r@ == s@.take(i as int),
        decreases n - i,
    {
        let c = s.get_char(i);
        r.push(c);
        proof {
            assert(r@ =~= s@.take(i + 1));
        }
        i += 1;
    }
    proof {
        assert(s@.take(n as int) =~= s@);
    }
    r
}

/// Character-for-character comparison of a gathered token and a string.
pub fn chars_eq_str(v: &Vec<char>, s: &str) -> (r: bool)
    ensures
        r == (v@ == s@),
{
    let n = s.unicode_len();
    if v.len() != n {
        proof {
            assert(v@ != s@) by {
                if v@ == s@ {
                    assert(v@.len() == s@.len());
                }
            }
        }
        return false;
    }
    let mut i: usize = 0;
    while i < n
        invariant
            n == s@.len(),
            n == v@.len(),
            i <= n,
            forall|j: int| 0 <= j < i ==> v@[j] == s@[j],
        decreases n - i,
    {
        if v[i] != s.get_char(i) {
            return false;
        }
        i += 1;
    }
    proof {
        assert(v@ =~= s@);
    }
    true
}

/// The number of leading characters of a sequence before its first space.
pub open spec fn spec_first_space(s: Seq<char>) -> int
    decreases s.len(),
{
    if s.len() == 0 {
        0
    } else if s[0] == ' ' {
        0
    } else {
        1 + spec_first_space(s.skip(1))
    }
}

pub proof fn lemma_first_space_bounds(s: Seq<char>)
    ensures
        0 <= spec_first_space(s) <= s.len(),
        forall|i: int| 0 <= i < spec_first_space(s) ==> s[i] != ' ',
        spec_first_space(s) < s.len() ==> s[spec_first_space(s)] == ' ',
    decreases s.len(),
{
    if s.len() > 0 && s[0] != ' ' {
        lemma_first_space_bounds(s.skip(1));
        assert forall|i: int| 0 <= i < spec_first_space(s) implies s[i] != ' ' by {
            if i > 0 {
                assert(s.skip(1)[i - 1] != ' ');
            }
        }
    }
}

/// The space-separated tokens of a line: maximal runs of characters other
/// than a space, in order, with empty runs dropped.
pub open spec fn spec_split_ws(s: Seq<char>) -> Seq<Seq<char>>
    decreases s.len(),
    when s.len() >= 0
    via spec_split_ws_decreases
{
    if s.len() == 0 {
        Seq::empty()
    } else if s[0] == ' ' {
        spec_split_ws(s.skip(1))
    } else {
        seq![s.take(spec_first_space(s))] + spec_split_ws(s.skip(spec_first_space(s)))
    }
}

#[via_fn]
proof fn spec_split_ws_decreases(s: Seq<char>) {
    if s.len() > 0 && s[0] != ' ' {
        lemma_first_space_bounds(s);
    }
}

/// Splitting a sequence that starts at a token boundary: the first token is
/// the run up to the first space.
pub proof fn lemma_split_ws_token(s: Seq<char>, k: int)
    requires
        s.len() > 0,
        0 < k <= s.len(),
        forall|i: int| 0 <= i < k ==> s[i] != ' ',
        k < s.len() ==> s[k] == ' ',
    ensures
        spec_first_space(s) == k,
        spec_split_ws(s) == seq![s.take(k)] + spec_split_ws(s.skip(k)),
    decreases k,
{
    assert(s[0] != ' ');
    if k == 1 {
        if s.len() > 1 {
            assert(s.skip(1)[0] == s[1]);
        } else {
            assert(s.skip(1).len() == 0);
        }
        assert(spec_first_space(s.skip(1)) == 0);
        assert(spec_first_space(s) == 1);
    } else {
        let t = s.skip(1);
        assert forall|i: int| 0 <= i < k - 1 implies t[i] != ' ' by {
            assert(t[i] == s[i + 1]);
        }
        assert(k - 1 < t.len() ==> t[k - 1] == ' ');
        lemma_split_ws_token(t, k - 1);
    }
}

/// Gather the space-separated tokens of a character line.
pub fn split_tokens(chars: &Vec<char>) -> (r: Vec<Vec<char>>)
    ensures
        r.deep_view() == spec_split_ws(chars@),
{
    let n = chars.len();
    let mut r: Vec<Vec<char>> = Vec::new();
    let mut i: usize = 0;
    proof {
        assert(r.deep_view() =~= Seq::<Seq<char>>::empty());
        assert(chars@.skip(0) =~= chars@);
    }
    while i < n
        invariant
            n == chars@.len(),
            i <= n,
            spec_split_ws(chars@) == r.deep_view() + spec_split_ws(chars@.skip(i as int)),
        decreases n - i,
    {
        if chars[i] == ' ' {
            proof {
                assert(chars@.skip(i as int).skip(1) =~= chars@.skip(i + 1));
            }
            i += 1;
        } else {
            let start = i;
            let mut tok: Vec<char> = Vec::new();
            while i < n && chars[i] != ' '
                invariant
                    n == chars@.len(),
                    start <= i <= n,
                    forall|j: int| start <= j < i ==> chars@[j] != ' ',
                    tok@ == chars@.subrange(start as int, i as int),
                decreases n - i,
            {
                tok.push(chars[i]);
                proof {
                    assert(tok@ =~= chars@.subrange(start as int, i + 1));
                }
                i += 1;
            }
            proof {
                let rest = chars@.skip(start as int);
                let k = i - start;
                assert forall|j: int| 0 <= j < k implies rest[j] != ' ' by {
                    assert(rest[j] == chars@[start + j]);
                }
                assert(k < rest.len() ==> rest[k as int] == ' ') by {
                    if k < rest.len() {
                        assert(rest[k as int] == chars@[i as int]);
                    }
                }
                lemma_split_ws_token(rest, k as int);
                assert(rest.take(k as int) =~= chars@.subrange(start as int, i as int));
                assert(rest.skip(k as int) =~= chars@.skip(i as int));
                assert((r.deep_view() + seq![tok@]) + spec_split_ws(chars@.skip(i as int))
                    =~= r.deep_view() + spec_split_ws(chars@.skip(start as int)));
            }
            let ghost dv = r.deep_view();
            let ghost tv = tok@;
            proof {
                assert(tok.deep_view() =~= tok@);
            }
            r.push(tok);
            proof {
                assert(r.deep_view() =~= dv + seq![tv]);
            }
        }
    }
    proof {
        assert(chars@.skip(n as int) =~= Seq::<char>::empty());
        assert(r.deep_view() + spec_split_ws(chars@.skip(n as int)) =~= r.deep_view());
    }
    r
}

} // verus!
