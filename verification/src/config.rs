//! Reading the tool's settings from text: unsigned numbers and on/off switches, with
//! their defaults.

use vstd::prelude::*;

use crate::text::{chars_of, eq_lit};

verus! {

pub open spec fn is_digit(c: char) -> bool {
    '0' <= c && c <= '9'
}

/// The value of a string of decimal digits.
pub open spec fn digits_value(s: Seq<char>) -> nat
    decreases s.len(),
{
    if s.len() == 0 {
        0
    } else {
        digits_value(s.drop_last()) * 10 + ((s.last() as u32) - ('0' as u32)) as nat
    }
}

/// What `u64::from_str` accepts: an optional `+` and at least one digit, nothing else,
/// with a value that fits.
pub open spec fn unsigned_digits(s: Seq<char>) -> Seq<char> {
    if s.len() > 0 && s[0] == '+' { s.drop_first() } else { s }
}

pub open spec fn all_digits(d: Seq<char>) -> bool {
    forall|i: int| 0 <= i < d.len() ==> is_digit(#[trigger] d[i])
}

pub open spec fn spec_parse_u64(s: Seq<char>) -> Option<u64> {
    let d = unsigned_digits(s);
    if d.len() > 0 && all_digits(d) && digits_value(d) <= u64::MAX {
        Some(digits_value(d) as u64)
    } else {
        None
    }
}

pub fn parse_u64(value: &str) -> (res: Option<u64>)
    ensures
        res == spec_parse_u64(value@),
{
    let c = chars_of(value);
    let start: usize = if c.len() > 0 && c[0] == '+' { 1 } else { 0 };
    let ghost d = if c@.len() > 0 && c@[0] == '+' { c@.drop_first() } else { c@ };
    proof {
        assert(d =~= c@.skip(start as int));
    }
    if start >= c.len() {
        return None;
    }
    let mut acc: u128 = 0;
    let mut i: usize = start;
    while i < c.len()
        invariant
            start <= i <= c.len(),
            d =~= c@.skip(start as int),
            d == unsigned_digits(value@),
            c@ == value@,
            forall|k: int| 0 <= k < i - start ==> is_digit(#[trigger] d[k]),
            acc == digits_value(d.take(i - start)),
            acc <= u64::MAX,
        decreases c.len() - i,
    {
        let ch = c[i];
        proof {
            assert(d[i - start] == ch);
            assert(d.take(i - start + 1).drop_last() =~= d.take(i - start));
        }
        if !('0' <= ch && ch <= '9') {
            assert(!is_digit(d[i - start]));
            assert(!all_digits(d));
            return None;
        }
        assert(is_digit(d[i - start]));
        acc = acc * 10 + ((ch as u32) - ('0' as u32)) as u128;
        if acc > 0xffff_ffff_ffff_ffffu128 {
            proof {
                lemma_digits_value_grows(d, (i - start + 1) as int);
                assert(acc == digits_value(d.take(i - start + 1)));
            }
            return None;
        }
        i = i + 1;
    }
    proof {
        assert(d.take(i - start) =~= d);
    }
    Some(acc as u64)
}

proof fn lemma_digits_value_grows(d: Seq<char>, k: int)
    requires
        0 <= k <= d.len(),
        forall|i: int| 0 <= i < k ==> is_digit(#[trigger] d[i]),
    ensures
        digits_value(d.take(k)) <= digits_value(d) || !all_digits(d),
    decreases d.len() - k,
{
    if k < d.len() && all_digits(d) {
        lemma_digits_value_grows(d, k + 1);
        assert(d.take(k + 1).drop_last() =~= d.take(k));
        assert(d.take(k + 1).last() == d[k]);
    } else if k == d.len() {
        assert(d.take(k) =~= d);
    }
}

/// A setting read as a number, or its default when absent or not a number.
pub fn number_or(value: Option<&str>, default: u64) -> (res: u64)
    ensures
        res == match value {
            Some(v) => match spec_parse_u64(v@) {
                Some(n) => n,
                None => default,
            },
            None => default,
        },
{
    match value {
        Some(v) => match parse_u64(v) {
            Some(n) => n,
            None => default,
        },
        None => default,
    }
}

/// Telemetry is on unless the switch is `0` or `off`.
pub fn telemetry_enabled(value: Option<&str>) -> (res: bool)
    ensures
        res == match value {
            Some(v) => v@ != "0"@ && v@ != "off"@,
            None => true,
        },
{
    match value {
        Some(v) => {
            let c = chars_of(v);
            !eq_lit(&c, "0") && !eq_lit(&c, "off")
        },
        None => true,
    }
}

} // verus!
