//! The pattern-matching engine: evaluates an ordered list of extraction
//! patterns against one line (first match with a bound `name` wins) and an
//! independent list of finished patterns (any match wins), and normalizes
//! the named capture groups into a typed record.

use vstd::prelude::*;

use crate::datatype::{opt_view, views, ElapsedTime, LogStamp, Metadata, RecordModel};
use crate::numerals::spec_parse_number;
use crate::numerals::parse_number;
use crate::temporal::{lemma_parse_time_wf, spec_parse_datetime, spec_parse_time};
use crate::temporal::{parse_datetime, parse_time};

verus! {

/// Whether a pattern's text compiles as a regular expression; a function
/// of the pattern text alone.
pub uninterp spec fn regex_valid(pat: Seq<char>) -> bool;

/// Whether a pattern matches somewhere in a line; a function of the two
/// texts alone.
pub uninterp spec fn regex_find(pat: Seq<char>, line: Seq<char>) -> bool;

/// The text a named capture group binds when the pattern is run against a
/// line; absent when the pattern does not match, the group does not exist,
/// or the group did not participate in the match. A function of the three
/// texts alone.
pub uninterp spec fn regex_group(pat: Seq<char>, line: Seq<char>, group: Seq<char>) -> Option<
    Seq<char>,
>;

/// Relies on `regex::Regex::new`: whether a pattern compiles depends on
/// its text alone.
#[verifier::external_body]
pub fn regex_compiles(pat: &str) -> (r: bool)
    ensures
        r == regex_valid(pat@),
{
    regex::Regex::new(pat).is_ok()
}

/// Relies on `regex::Regex::is_match`: whether a compiled pattern matches
/// a haystack depends on the pattern and haystack texts alone.
#[verifier::external_body]
fn regex_is_match(pat: &str, line: &str) -> (r: bool)
    requires
        regex_valid(pat@),
    ensures
        r == regex_find(pat@, line@),
{
    regex::Regex::new(pat).unwrap().is_match(line)
}

/// Relies on `regex::Regex::captures` and `regex::Captures::name`: the
/// text a named group captures depends on the pattern, haystack and group
/// name alone, and a group can only capture when the pattern matched.
#[verifier::external_body]
fn regex_capture(pat: &str, line: &str, group: &str) -> (r: Option<String>)
    requires
        regex_valid(pat@),
    ensures
        opt_view(r) == regex_group(pat@, line@, group@),
        r is Some ==> regex_find(pat@, line@),
{
    regex::Regex::new(pat).unwrap().captures(line).and_then(|caps| caps.name(group)).map(
        |m| m.as_str().to_string(),
    )
}

/// Every pattern in the list compiles.
pub open spec fn all_valid(pats: Seq<Seq<char>>) -> bool {
    forall|i: int| 0 <= i < pats.len() ==> regex_valid(pats[i])
}

/// A pattern produces a valid match on a line: it matches syntactically
/// and binds the required `name` group.
pub open spec fn line_matches(pat: Seq<char>, line: Seq<char>) -> bool {
    regex_find(pat, line) && regex_group(pat, line, "name"@) is Some
}

/// The position of the first extraction pattern that produces a valid
/// match on the line, in list order.
pub open spec fn first_match_idx(pats: Seq<Seq<char>>, line: Seq<char>) -> Option<int>
    decreases pats.len(),
{
    if pats.len() == 0 {
        None
    } else if line_matches(pats[0], line) {
        Some(0)
    } else {
        match first_match_idx(pats.drop_first(), line) {
            Some(i) => Some(i + 1),
            None => None,
        }
    }
}

/// The position of the first finished pattern that matches the line.
pub open spec fn first_finished_idx(fins: Seq<Seq<char>>, line: Seq<char>) -> Option<int>
    decreases fins.len(),
{
    if fins.len() == 0 {
        None
    } else if regex_find(fins[0], line) {
        Some(0)
    } else {
        match first_finished_idx(fins.drop_first(), line) {
            Some(i) => Some(i + 1),
            None => None,
        }
    }
}

/// Law: the credited extraction pattern is the first one, in list order,
/// that both matches the line and binds `name`; when none is credited, no
/// pattern produces a valid match.
pub proof fn lemma_first_match_props(pats: Seq<Seq<char>>, line: Seq<char>)
    ensures
        match first_match_idx(pats, line) {
            Some(i) => 0 <= i < pats.len() && line_matches(pats[i], line) && (forall|j: int|
                0 <= j < i ==> !line_matches(pats[j], line)),
            None => forall|j: int| 0 <= j < pats.len() ==> !line_matches(pats[j], line),
        },
    decreases pats.len(),
{
    if pats.len() > 0 && !line_matches(pats[0], line) {
        lemma_first_match_props(pats.drop_first(), line);
        assert forall|j: int| 0 <= j < pats.len() && j >= 1 implies pats.drop_first()[j - 1]
            == pats[j] by {}
    }
}

/// Law: the recorded finished pattern is the first one, in list order,
/// that matches the line; the finished flag is false exactly when none
/// matches.
pub proof fn lemma_first_finished_props(fins: Seq<Seq<char>>, line: Seq<char>)
    ensures
        match first_finished_idx(fins, line) {
            Some(i) => 0 <= i < fins.len() && regex_find(fins[i], line) && (forall|j: int|
                0 <= j < i ==> !regex_find(fins[j], line)),
            None => forall|j: int| 0 <= j < fins.len() ==> !regex_find(fins[j], line),
        },
    decreases fins.len(),
{
    if fins.len() > 0 && !regex_find(fins[0], line) {
        lemma_first_finished_props(fins.drop_first(), line);
        assert forall|j: int| 0 <= j < fins.len() && j >= 1 implies fins.drop_first()[j - 1]
            == fins[j] by {}
    }
}

proof fn lemma_first_match_at(pats: Seq<Seq<char>>, line: Seq<char>, i: int)
    requires
        0 <= i < pats.len(),
        line_matches(pats[i], line),
        forall|j: int| 0 <= j < i ==> !line_matches(pats[j], line),
    ensures
        first_match_idx(pats, line) == Some(i),
    decreases pats.len(),
{
    if i > 0 {
        let t = pats.drop_first();
        assert(t[i - 1] == pats[i]);
        assert forall|j: int| 0 <= j < i - 1 implies !line_matches(t[j], line) by {
            assert(t[j] == pats[j + 1]);
        }
        lemma_first_match_at(t, line, i - 1);
    }
}

proof fn lemma_first_finished_at(fins: Seq<Seq<char>>, line: Seq<char>, i: int)
    requires
        0 <= i < fins.len(),
        regex_find(fins[i], line),
        forall|j: int| 0 <= j < i ==> !regex_find(fins[j], line),
    ensures
        first_finished_idx(fins, line) == Some(i),
    decreases fins.len(),
{
    if i > 0 {
        let t = fins.drop_first();
        assert(t[i - 1] == fins[i]);
        assert forall|j: int| 0 <= j < i - 1 implies !regex_find(t[j], line) by {
            assert(t[j] == fins[j + 1]);
        }
        lemma_first_finished_at(t, line, i - 1);
    }
}

proof fn lemma_no_first_match(pats: Seq<Seq<char>>, line: Seq<char>)
    requires
        forall|j: int| 0 <= j < pats.len() ==> !line_matches(pats[j], line),
    ensures
        first_match_idx(pats, line) is None,
    decreases pats.len(),
{
    if pats.len() > 0 {
        let t = pats.drop_first();
        assert forall|j: int| 0 <= j < t.len() implies !line_matches(t[j], line) by {
            assert(t[j] == pats[j + 1]);
        }
        lemma_no_first_match(t, line);
    }
}

proof fn lemma_no_first_finished(fins: Seq<Seq<char>>, line: Seq<char>)
    requires
        forall|j: int| 0 <= j < fins.len() ==> !regex_find(fins[j], line),
    ensures
        first_finished_idx(fins, line) is None,
    decreases fins.len(),
{
    if fins.len() > 0 {
        let t = fins.drop_first();
        assert forall|j: int| 0 <= j < t.len() implies !regex_find(t[j], line) by {
            assert(t[j] == fins[j + 1]);
        }
        lemma_no_first_finished(t, line);
    }
}

/// The normalized reading of an optional numeral group.
pub open spec fn opt_num(o: Option<Seq<char>>) -> Option<u16> {
    match o {
        Some(s) => spec_parse_number(s),
        None => None,
    }
}

/// The normalized reading of an optional elapsed-time group.
pub open spec fn opt_time(o: Option<Seq<char>>) -> Option<ElapsedTime> {
    match o {
        Some(s) => spec_parse_time(s),
        None => None,
    }
}

/// The normalized reading of an optional timestamp group.
pub open spec fn opt_stamp(o: Option<Seq<char>>) -> Option<LogStamp> {
    match o {
        Some(s) => spec_parse_datetime(s),
        None => None,
    }
}

/// The text of the first finished pattern that matches the line, if any.
pub open spec fn spec_finished(fins: Seq<Seq<char>>, line: Seq<char>) -> Option<Seq<char>> {
    match first_finished_idx(fins, line) {
        Some(j) => Some(fins[j]),
        None => None,
    }
}

/// The record that the credited pattern `pat` yields for `line`.
pub open spec fn spec_record_for(
    line: Seq<char>,
    pat: Seq<char>,
    fins: Seq<Seq<char>>,
    index: u32,
    hash: u64,
) -> RecordModel {
    RecordModel {
        index,
        id: hash,
        name: regex_group(pat, line, "name"@)->Some_0,
        b_finished: spec_finished(fins, line) is Some,
        episode: opt_num(regex_group(pat, line, "episode"@)),
        time_at_episode: opt_time(regex_group(pat, line, "time_at_episode"@)),
        season: opt_num(regex_group(pat, line, "season"@)),
        logged_time: opt_stamp(regex_group(pat, line, "logged_time"@)),
        note: regex_group(pat, line, "note"@),
        raw_line: line,
        reg_pattern_matched: pat,
        finished_reg_pattern_matched: spec_finished(fins, line),
    }
}

/// The record extracted from one line, absent when no extraction pattern
/// produces a valid match.
pub open spec fn spec_match_line(
    line: Seq<char>,
    pats: Seq<Seq<char>>,
    fins: Seq<Seq<char>>,
    index: u32,
    hash: u64,
) -> Option<RecordModel> {
    match first_match_idx(pats, line) {
        None => None,
        Some(i) => Some(spec_record_for(line, pats[i], fins, index, hash)),
    }
}

/// An optional record agrees with an optional model.
pub open spec fn models(r: Option<Metadata>, m: Option<RecordModel>) -> bool {
    match (r, m) {
        (Some(a), Some(b)) => a.model() == b,
        (None, None) => true,
        _ => false,
    }
}

/// Scans the finished patterns in order, returning the first that matches.
fn scan_finished(line: &str, finished_reg_pattern_list: &Vec<String>) -> (r: Option<String>)
    requires
        all_valid(views(finished_reg_pattern_list@)),
    ensures
        opt_view(r) == spec_finished(views(finished_reg_pattern_list@), line@),
{
    let ghost fins = views(finished_reg_pattern_list@);
    let mut j: usize = 0;
    while j < finished_reg_pattern_list.len()
        invariant
            0 <= j <= finished_reg_pattern_list.len(),
            fins == views(finished_reg_pattern_list@),
            all_valid(fins),
            forall|k: int| 0 <= k < j ==> !regex_find(fins[k], line@),
        decreases finished_reg_pattern_list.len() - j,
    {
        let pat = &finished_reg_pattern_list[j];
        proof {
            assert(pat@ == fins[j as int]);
        }
        if regex_is_match(pat.as_str(), line) {
            proof {
                lemma_first_finished_at(fins, line@, j as int);
            }
            return Some(pat.clone());
        }
        j += 1;
    }
    proof {
        lemma_no_first_finished(fins, line@);
    }
    None
}

/// Evaluates the ordered extraction patterns against one line, first valid
/// match wins, and normalizes its named groups into a record; the finished
/// patterns are evaluated independently.
pub fn match_line(
    line: &str,
    index: u32,
    hash_value: u64,
    reg_pattern_list: &Vec<String>,
    finished_reg_pattern_list: &Vec<String>,
) -> (r: Option<Metadata>)
    requires
        all_valid(views(reg_pattern_list@)),
        all_valid(views(finished_reg_pattern_list@)),
    ensures
        models(
            r,
            spec_match_line(
                line@,
                views(reg_pattern_list@),
                views(finished_reg_pattern_list@),
                index,
                hash_value,
            ),
        ),
        r matches Some(m) ==> m.wf(),
{
    let ghost pats = views(reg_pattern_list@);
    let ghost fins = views(finished_reg_pattern_list@);
    let mut pi: usize = 0;
    while pi < reg_pattern_list.len()
        invariant
            0 <= pi <= reg_pattern_list.len(),
            pats == views(reg_pattern_list@),
            fins == views(finished_reg_pattern_list@),
            all_valid(pats),
            all_valid(fins),
            forall|k: int| 0 <= k < pi ==> !line_matches(pats[k], line@),
        decreases reg_pattern_list.len() - pi,
    {
        let pat = &reg_pattern_list[pi];
        proof {
            assert(pat@ == pats[pi as int]);
        }
        match regex_capture(pat.as_str(), line, "name") {
            Some(name) => {
                proof {
                    lemma_first_match_at(pats, line@, pi as int);
                }
                let matched_finished = scan_finished(line, finished_reg_pattern_list);
                let b_finished = matched_finished.is_some();
                let episode: Option<u16> = match regex_capture(pat.as_str(), line, "episode") {
                    Some(s) => parse_number(s.as_str()),
                    None => None,
                };
                let time_at_episode: Option<ElapsedTime> = match regex_capture(
                    pat.as_str(),
                    line,
                    "time_at_episode",
                ) {
                    Some(s) => parse_time(s.as_str()),
                    None => None,
                };
                let season: Option<u16> = match regex_capture(pat.as_str(), line, "season") {
                    Some(s) => parse_number(s.as_str()),
                    None => None,
                };
                let logged_time: Option<LogStamp> = match regex_capture(
                    pat.as_str(),
                    line,
                    "logged_time",
                ) {
                    Some(s) => parse_datetime(s.as_str()),
                    None => None,
                };
                let note: Option<String> = regex_capture(pat.as_str(), line, "note");
                proof {
                    match regex_group(pats[pi as int], line@, "time_at_episode"@) {
                        Some(s) => lemma_parse_time_wf(s),
                        None => (),
                    }
                }
                return Some(
                    Metadata {
                        index,
                        id: hash_value,
                        name,
                        b_finished,
                        episode,
                        time_at_episode,
                        season,
                        logged_time,
                        note,
                        raw_line: line.to_owned(),
                        reg_pattern_matched: pat.clone(),
                        finished_reg_pattern_matched: matched_finished,
                    },
                );
            },
            None => {},
        }
        pi += 1;
    }
    proof {
        lemma_no_first_match(pats, line@);
    }
    None
}


/// Law: a record extracted from a line is credited to the first
/// extraction pattern, in list order, that both matches the line and
/// binds `name`; no earlier pattern produces a valid match.
pub proof fn lemma_credited_pattern_is_first(
    line: Seq<char>,
    pats: Seq<Seq<char>>,
    fins: Seq<Seq<char>>,
    index: u32,
    hash: u64,
)
    requires
        spec_match_line(line, pats, fins, index, hash) is Some,
    ensures
        first_match_idx(pats, line) is Some,
        ({
            let i = first_match_idx(pats, line)->Some_0;
            &&& 0 <= i < pats.len()
            &&& spec_match_line(line, pats, fins, index, hash)->Some_0.reg_pattern_matched
                == pats[i]
            &&& line_matches(pats[i], line)
            &&& forall|j: int| 0 <= j < i ==> !line_matches(pats[j], line)
        }),
{
    lemma_first_match_props(pats, line);
}

/// Law: a record's finished flag is true exactly when some finished
/// pattern matches its line, and the recorded finished pattern is then
/// the first such pattern in list order.
pub proof fn lemma_finished_flag_is_first(
    line: Seq<char>,
    pats: Seq<Seq<char>>,
    fins: Seq<Seq<char>>,
    index: u32,
    hash: u64,
)
    requires
        spec_match_line(line, pats, fins, index, hash) is Some,
    ensures
        ({
            let m = spec_match_line(line, pats, fins, index, hash)->Some_0;
            &&& m.b_finished <==> exists|j: int|
                0 <= j < fins.len() && regex_find(#[trigger] fins[j], line)
            &&& !m.b_finished ==> m.finished_reg_pattern_matched is None
            &&& m.b_finished ==> {
                let i = first_finished_idx(fins, line)->Some_0;
                &&& 0 <= i < fins.len()
                &&& m.finished_reg_pattern_matched == Some(fins[i])
                &&& regex_find(fins[i], line)
                &&& forall|j: int| 0 <= j < i ==> !regex_find(fins[j], line)
            }
        }),
{
    lemma_first_finished_props(fins, line);
    match first_finished_idx(fins, line) {
        Some(i) => {
            assert(regex_find(fins[i], line));
        },
        None => {
            if exists|j: int| 0 <= j < fins.len() && regex_find(#[trigger] fins[j], line) {
                let j = choose|j: int| 0 <= j < fins.len() && regex_find(#[trigger] fins[j], line);
                assert(!regex_find(fins[j], line));
            }
        },
    }
}

} // verus!
