//! Numeric normalization for episode and season tokens.
//!
//! A token is first parsed as a base-10 unsigned integer; on failure the
//! CJK-numeral parser is tried; if both fail the value is absent.

use vstd::prelude::*;

verus! {

/// An ASCII decimal digit.
pub open spec fn is_digit(c: char) -> bool {
    '0' <= c && c <= '9'
}

/// The numeric value of one decimal digit.
pub open spec fn digit_val(c: char) -> int {
    c as int - '0' as int
}

/// Every character of `s` is a decimal digit.
pub open spec fn all_digits(s: Seq<char>) -> bool {
    forall|i: int| 0 <= i < s.len() ==> is_digit(s[i])
}

/// The base-10 value of a digit string, by Horner's rule.
pub open spec fn dec_val(s: Seq<char>) -> int
    decreases s.len(),
{
    if s.len() == 0 {
        0
    } else {
        dec_val(s.drop_last()) * 10 + digit_val(s.last())
    }
}

/// The digit part of a decimal token: an optional leading `+` is dropped,
/// as the standard library's integer parse accepts one.
pub open spec fn dec_digits(s: Seq<char>) -> Seq<char> {
    if s.len() > 0 && s[0] == '+' {
        s.subrange(1, s.len() as int)
    } else {
        s
    }
}

/// Whether `s` is a decimal token whose value fits in `u16`.
pub open spec fn is_dec_u16(s: Seq<char>) -> bool {
    let d = dec_digits(s);
    d.len() > 0 && all_digits(d) && dec_val(d) <= u16::MAX
}

/// The base-10 reading of a token, absent when malformed or out of range.
pub open spec fn spec_dec_u16(s: Seq<char>) -> Option<u16> {
    if is_dec_u16(s) {
        Some(dec_val(dec_digits(s)) as u16)
    } else {
        None
    }
}

proof fn lemma_dec_val_nonneg(s: Seq<char>)
    requires
        all_digits(s),
    ensures
        dec_val(s) >= 0,
    decreases s.len(),
{
    if s.len() > 0 {
        assert(all_digits(s.drop_last()));
        lemma_dec_val_nonneg(s.drop_last());
    }
}

proof fn lemma_dec_val_grows(s: Seq<char>, i: int)
    requires
        all_digits(s),
        0 <= i <= s.len(),
        dec_val(s.subrange(0, i)) > u16::MAX,
    ensures
        dec_val(s) > u16::MAX,
    decreases s.len() - i,
{
    if i == s.len() {
        assert(s.subrange(0, i) =~= s);
    } else {
        let t = s.subrange(0, i + 1);
        assert(t.drop_last() =~= s.subrange(0, i));
        assert(all_digits(t.drop_last()));
        lemma_dec_val_nonneg(t.drop_last());
        assert(dec_val(t) == dec_val(s.subrange(0, i)) * 10 + digit_val(t.last()));
        lemma_dec_val_grows(s, i + 1);
    }
}

/// Parses a base-10 `u16` token, accepting an optional leading `+`,
/// exactly as the standard library's `u16` parse does.
pub fn parse_decimal_u16(s: &str) -> (r: Option<u16>)
    ensures
        r == spec_dec_u16(s@),
{
    let n = s.unicode_len();
    let start: usize = if n > 0 && s.get_char(0) == '+' {
        1
    } else {
        0
    };
    let ghost d = dec_digits(s@);
    proof {
        assert(d =~= s@.subrange(start as int, n as int));
    }
    if start == n {
        return None;
    }
    let mut acc: u32 = 0;
    let mut i: usize = start;
    while i < n
        invariant
            start <= i <= n,
            n == s@.len(),
            d == dec_digits(s@),
            d == s@.subrange(start as int, n as int),
            acc <= u16::MAX,
            all_digits(s@.subrange(start as int, i as int)),
            acc == dec_val(s@.subrange(start as int, i as int)),
        decreases n - i,
    {
        let c = s.get_char(i);
        let ghost pre = s@.subrange(start as int, i as int);
        let ghost cur = s@.subrange(start as int, i + 1 as int);
        proof {
            assert(cur.drop_last() =~= pre);
            assert(cur.last() == s@[i as int]);
        }
        if c < '0' || c > '9' {
            proof {
                assert(d[i - start] == s@[i as int]);
                assert(!is_digit(d[i - start]));
            }
            return None;
        }
        acc = acc * 10 + (c as u32 - 48);
        assert(acc == dec_val(cur));
        if acc > 65535 {
            proof {
                assert(cur =~= d.subrange(0, i + 1 - start));
                if all_digits(d) {
                    lemma_dec_val_grows(d, i + 1 - start);
                }
            }
            return None;
        }
        i += 1;
    }
    proof {
        assert(s@.subrange(start as int, i as int) =~= d);
    }
    Some(acc as u16)
}

/// The value the CJK-numeral parser assigns to a token, absent when the
/// token is not a CJK numeral in range; a function of the characters alone.
pub uninterp spec fn cjk_u16_of(s: Seq<char>) -> Option<u16>;

/// Relies on `chinese_number::from_chinese_to_u16`: parses a CJK numeral
/// token into a `u16`; the result depends on the characters alone.
#[verifier::external_body]
fn parse_cjk_u16(s: &str) -> (r: Option<u16>)
    ensures
        r == cjk_u16_of(s@),
{
    chinese_number::from_chinese_to_u16(s).ok()
}

/// The normalized reading of a numeral token: base-10 first, then CJK.
pub open spec fn spec_parse_number(s: Seq<char>) -> Option<u16> {
    if spec_dec_u16(s) is Some {
        spec_dec_u16(s)
    } else {
        cjk_u16_of(s)
    }
}

/// Parses a numeral token as base-10, falling back to the CJK-numeral
/// parser; absent when both fail.
pub fn parse_number(number_str: &str) -> (r: Option<u16>)
    ensures
        r == spec_parse_number(number_str@),
{
    match parse_decimal_u16(number_str) {
        Some(number) => Some(number),
        None => parse_cjk_u16(number_str),
    }
}

} // verus!
