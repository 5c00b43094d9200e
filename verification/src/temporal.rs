//! Temporal normalization: elapsed-time tokens (`H:MM:SS` or `MM:SS`) and
//! absolute timestamp tokens in the fixed `YYYY-MM-DD HH:MM` layout.

use vstd::prelude::*;

use chrono::Datelike;
use chrono::Timelike;

use crate::datatype::{views, ElapsedTime, LogStamp};
use crate::numerals::spec_parse_number;
use crate::numerals::parse_number;

verus! {

/// The position of the first `:` in `s`, if any.
pub open spec fn first_colon(s: Seq<char>) -> Option<int>
    decreases s.len(),
{
    if s.len() == 0 {
        None
    } else if s[0] == ':' {
        Some(0)
    } else {
        match first_colon(s.drop_first()) {
            Some(i) => Some(i + 1),
            None => None,
        }
    }
}

/// `s` split on `:`; one part when no colon occurs.
pub open spec fn colon_parts(s: Seq<char>) -> Seq<Seq<char>>
    decreases s.len(),
{
    match first_colon(s) {
        None => seq![s],
        Some(i) => {
            if 0 <= i < s.len() {
                seq![s.subrange(0, i)] + colon_parts(s.subrange(i + 1, s.len() as int))
            } else {
                seq![s]
            }
        },
    }
}

proof fn lemma_first_colon_at(s: Seq<char>, i: int)
    requires
        0 <= i < s.len(),
        s[i] == ':',
        forall|j: int| 0 <= j < i ==> s[j] != ':',
    ensures
        first_colon(s) == Some(i),
    decreases s.len(),
{
    if i > 0 {
        let t = s.drop_first();
        assert forall|j: int| 0 <= j < i - 1 implies t[j] != ':' by {
            assert(t[j] == s[j + 1]);
        }
        lemma_first_colon_at(t, i - 1);
    }
}

proof fn lemma_no_colon(s: Seq<char>)
    requires
        forall|j: int| 0 <= j < s.len() ==> s[j] != ':',
    ensures
        first_colon(s) is None,
    decreases s.len(),
{
    if s.len() > 0 {
        let t = s.drop_first();
        assert forall|j: int| 0 <= j < t.len() implies t[j] != ':' by {
            assert(t[j] == s[j + 1]);
        }
        lemma_no_colon(t);
    }
}

/// Finds the first `:` in `s`.
fn find_colon(s: &str) -> (r: Option<usize>)
    ensures
        match r {
            Some(i) => first_colon(s@) == Some(i as int) && i < s@.len(),
            None => first_colon(s@) is None,
        },
{
    let n = s.unicode_len();
    let mut i: usize = 0;
    while i < n
        invariant
            0 <= i <= n,
            n == s@.len(),
            forall|j: int| 0 <= j < i ==> s@[j] != ':',
        decreases n - i,
    {
        if s.get_char(i) == ':' {
            proof {
                lemma_first_colon_at(s@, i as int);
            }
            return Some(i);
        }
        i += 1;
    }
    proof {
        lemma_no_colon(s@);
    }
    None
}

/// Splits `s` on `:`, yielding at least one part.
pub fn split_colons(s: &str) -> (r: Vec<String>)
    ensures
        views(r@) == colon_parts(s@),
    decreases s@.len(),
{
    match find_colon(s) {
        None => {
            let mut parts: Vec<String> = Vec::new();
            parts.push(s.to_owned());
            proof {
                assert(views(parts@) =~= colon_parts(s@));
            }
            parts
        },
        Some(i) => {
            let n = s.unicode_len();
            let head = s.substring_char(0, i).to_owned();
            let tail = s.substring_char(i + 1, n);
            let mut rest = split_colons(tail);
            let mut parts: Vec<String> = Vec::new();
            parts.push(head);
            parts.append(&mut rest);
            proof {
                assert(views(parts@) =~= colon_parts(s@));
            }
            parts
        },
    }
}

/// An elapsed time built from parsed components, when they are in range.
pub open spec fn mk_elapsed(h: u16, m: u16, s: u16) -> Option<ElapsedTime> {
    if h < 24 && m < 60 && s < 60 {
        Some(ElapsedTime { hour: h as u8, minute: m as u8, second: s as u8 })
    } else {
        None
    }
}

/// The reading of an elapsed-time token: three parts give (h, m, s), two
/// give (0, m, s); any other shape, an unparsable part, or an
/// out-of-range component yields an absent value.
pub open spec fn spec_parse_time(s: Seq<char>) -> Option<ElapsedTime> {
    let ps = colon_parts(s);
    if ps.len() == 3 {
        match (spec_parse_number(ps[0]), spec_parse_number(ps[1]), spec_parse_number(ps[2])) {
            (Some(h), Some(m), Some(sec)) => mk_elapsed(h, m, sec),
            _ => None,
        }
    } else if ps.len() == 2 {
        match (spec_parse_number(ps[0]), spec_parse_number(ps[1])) {
            (Some(m), Some(sec)) => mk_elapsed(0, m, sec),
            _ => None,
        }
    } else {
        None
    }
}

/// The parsed value is well formed whenever present.
pub proof fn lemma_parse_time_wf(s: Seq<char>)
    ensures
        match spec_parse_time(s) {
            Some(t) => t.wf(),
            None => true,
        },
{
}

/// Parses an elapsed-time token.
pub fn parse_time(time_str: &str) -> (r: Option<ElapsedTime>)
    ensures
        r == spec_parse_time(time_str@),
{
    let parts = split_colons(time_str);
    let ghost ps = colon_parts(time_str@);
    if parts.len() == 3 {
        let h = parse_number(parts[0].as_str());
        let m = parse_number(parts[1].as_str());
        let sec = parse_number(parts[2].as_str());
        proof {
            assert(parts@[0]@ == views(parts@)[0]);
            assert(parts@[1]@ == views(parts@)[1]);
            assert(parts@[2]@ == views(parts@)[2]);
        }
        match (h, m, sec) {
            (Some(h), Some(m), Some(sec)) => {
                if h < 24 && m < 60 && sec < 60 {
                    Some(ElapsedTime { hour: h as u8, minute: m as u8, second: sec as u8 })
                } else {
                    None
                }
            },
            _ => None,
        }
    } else if parts.len() == 2 {
        let m = parse_number(parts[0].as_str());
        let sec = parse_number(parts[1].as_str());
        proof {
            assert(parts@[0]@ == views(parts@)[0]);
            assert(parts@[1]@ == views(parts@)[1]);
        }
        match (m, sec) {
            (Some(m), Some(sec)) => {
                if m < 60 && sec < 60 {
                    Some(ElapsedTime { hour: 0, minute: m as u8, second: sec as u8 })
                } else {
                    None
                }
            },
            _ => None,
        }
    } else {
        None
    }
}

/// The calendar and clock fields that the fixed-layout timestamp parse
/// yields for a token, absent when the token deviates from the layout;
/// a function of the token and layout text alone.
pub uninterp spec fn datetime_fields_of(s: Seq<char>, layout: Seq<char>) -> Option<
    (i32, u32, u32, u32, u32),
>;

/// Relies on `chrono::NaiveDateTime::parse_from_str` and the `Datelike` /
/// `Timelike` accessors: parsing a token against a fixed textual layout
/// depends on the token and the layout alone.
#[verifier::external_body]
fn parse_datetime_fields(s: &str, layout: &str) -> (r: Option<(i32, u32, u32, u32, u32)>)
    ensures
        r == datetime_fields_of(s@, layout@),
{
    match chrono::NaiveDateTime::parse_from_str(s, layout) {
        Ok(dt) => Some((dt.year(), dt.month(), dt.day(), dt.hour(), dt.minute())),
        Err(_) => None,
    }
}

/// The structured timestamp for a token: the fixed-layout parse, kept when
/// its fields fit the four-digit-year shape.
pub open spec fn spec_parse_datetime(s: Seq<char>) -> Option<LogStamp> {
    match datetime_fields_of(s, "%Y-%m-%d %H:%M"@) {
        Some((y, mo, d, h, mi)) => {
            if 0 <= y <= 9999 && 1 <= mo <= 12 && 1 <= d <= 31 && h < 24 && mi < 60 {
                Some(
                    LogStamp {
                        year: y as u16,
                        month: mo as u8,
                        day: d as u8,
                        hour: h as u8,
                        minute: mi as u8,
                    },
                )
            } else {
                None
            }
        },
        None => None,
    }
}

/// Parses an absolute timestamp token against the one fixed layout.
pub fn parse_datetime(datetime_str: &str) -> (r: Option<LogStamp>)
    ensures
        r == spec_parse_datetime(datetime_str@),
        match r {
            Some(t) => t.wf(),
            None => true,
        },
{
    match parse_datetime_fields(datetime_str, "%Y-%m-%d %H:%M") {
        Some((y, mo, d, h, mi)) => {
            if 0 <= y && y <= 9999 && 1 <= mo && mo <= 12 && 1 <= d && d <= 31 && h < 24 && mi
                < 60 {
                Some(
                    LogStamp {
                        year: y as u16,
                        month: mo as u8,
                        day: d as u8,
                        hour: h as u8,
                        minute: mi as u8,
                    },
                )
            } else {
                None
            }
        },
        None => None,
    }
}

} // verus!
