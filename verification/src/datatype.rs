//! The typed record extracted from one log line, and the structured
//! time values its optional fields carry.

use vstd::prelude::*;

verus! {

/// An elapsed time within an episode: hours, minutes, seconds.
#[derive(Clone, Copy, Debug, PartialEq, Eq, Structural)]
pub struct ElapsedTime {
    pub hour: u8,
    pub minute: u8,
    pub second: u8,
}

impl ElapsedTime {
    /// A valid time-of-day-shaped duration.
    pub open spec fn wf(self) -> bool {
        self.hour < 24 && self.minute < 60 && self.second < 60
    }

    /// Seconds since the start of the episode.
    pub open spec fn spec_total_seconds(self) -> int {
        self.hour * 3600 + self.minute * 60 + self.second
    }

    /// Seconds since the start of the episode.
    pub fn total_seconds(&self) -> (r: u32)
        ensures
            r == self.spec_total_seconds(),
    {
        self.hour as u32 * 3600 + self.minute as u32 * 60 + self.second as u32
    }
}

/// An absolute timestamp in the fixed `YYYY-MM-DD HH:MM` layout.
#[derive(Clone, Copy, Debug, PartialEq, Eq, Structural)]
pub struct LogStamp {
    pub year: u16,
    pub month: u8,
    pub day: u8,
    pub hour: u8,
    pub minute: u8,
}

impl LogStamp {
    /// Field ranges of the fixed four-digit-year layout.
    pub open spec fn wf(self) -> bool {
        self.year <= 9999 && 1 <= self.month <= 12 && 1 <= self.day <= 31 && self.hour < 24
            && self.minute < 60
    }
}

/// The view of an optional owned string.
pub open spec fn opt_view(o: Option<String>) -> Option<Seq<char>> {
    match o {
        Some(s) => Some(s@),
        None => None,
    }
}

/// The parsed unit: one structured record extracted from one log line.
#[derive(Clone, Debug, PartialEq, Eq)]
pub struct Metadata {
    /// Position of the source line in the original input; restored on every
    /// result so that order can be re-established after concurrent completion.
    pub index: u32,
    /// 64-bit content hash over the line and the active pattern set; the
    /// stable cache key, not a creation-order identifier.
    pub id: u64,
    /// Extracted name; a line with no `name` capture bound is not a match.
    pub name: String,
    /// True when any finished pattern matched the line.
    pub b_finished: bool,
    pub episode: Option<u16>,
    pub time_at_episode: Option<ElapsedTime>,
    pub season: Option<u16>,
    pub logged_time: Option<LogStamp>,
    pub note: Option<String>,
    /// Original line text, retained for cache round-trip debugging.
    pub raw_line: String,
    /// Which extraction pattern produced this record.
    pub reg_pattern_matched: String,
    /// Which finished pattern matched, if any.
    pub finished_reg_pattern_matched: Option<String>,
}

/// The mathematical shape of a record: every text field as a character
/// sequence. Contracts speak of this model rather than of owned strings.
pub struct RecordModel {
    pub index: u32,
    pub id: u64,
    pub name: Seq<char>,
    pub b_finished: bool,
    pub episode: Option<u16>,
    pub time_at_episode: Option<ElapsedTime>,
    pub season: Option<u16>,
    pub logged_time: Option<LogStamp>,
    pub note: Option<Seq<char>>,
    pub raw_line: Seq<char>,
    pub reg_pattern_matched: Seq<char>,
    pub finished_reg_pattern_matched: Option<Seq<char>>,
}

impl Metadata {
    /// The record's mathematical model.
    pub open spec fn model(self) -> RecordModel {
        RecordModel {
            index: self.index,
            id: self.id,
            name: self.name@,
            b_finished: self.b_finished,
            episode: self.episode,
            time_at_episode: self.time_at_episode,
            season: self.season,
            logged_time: self.logged_time,
            note: opt_view(self.note),
            raw_line: self.raw_line@,
            reg_pattern_matched: self.reg_pattern_matched@,
            finished_reg_pattern_matched: opt_view(self.finished_reg_pattern_matched),
        }
    }

    /// The structured time fields are in range when present.
    pub open spec fn wf(self) -> bool {
        &&& match self.time_at_episode {
            Some(t) => t.wf(),
            None => true,
        }
        &&& match self.logged_time {
            Some(t) => t.wf(),
            None => true,
        }
    }

    /// An exact copy; unlike a derived clone, its contract says so.
    pub fn duplicate(&self) -> (r: Self)
        ensures
            r == *self,
    {
        Metadata {
            index: self.index,
            id: self.id,
            name: self.name.clone(),
            b_finished: self.b_finished,
            episode: self.episode,
            time_at_episode: self.time_at_episode,
            season: self.season,
            logged_time: self.logged_time,
            note: match &self.note {
                Some(s) => Some(s.clone()),
                None => None,
            },
            raw_line: self.raw_line.clone(),
            reg_pattern_matched: self.reg_pattern_matched.clone(),
            finished_reg_pattern_matched: match &self.finished_reg_pattern_matched {
                Some(s) => Some(s.clone()),
                None => None,
            },
        }
    }
}

/// The views of a list of owned strings.
pub open spec fn views(l: Seq<String>) -> Seq<Seq<char>> {
    l.map_values(|s: String| s@)
}

} // verus!
