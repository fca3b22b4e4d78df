//! What an analysis finds in the logs.

use crate::rules::model::{Rule, RuleView};
use crate::text::{copy_ranges, duplicate_all, duplicate_option, opt_view, views, Duplicate};
use vstd::prelude::*;

verus! {

/// A line of a log, with the byte ranges to mark in it.
#[derive(Clone, Debug)]
pub struct LogLine {
    /// The number of the line in its file, from one.
    pub number: usize,
    pub text: String,
    pub hit: bool,
    pub ranges: Vec<(usize, usize)>,
}

/// What a `LogLine` holds.
#[verifier::ext_equal]
pub ghost struct LogLineView {
    pub number: usize,
    pub text: Seq<char>,
    pub hit: bool,
    pub ranges: Seq<(usize, usize)>,
}

impl View for LogLine {
    type V = LogLineView;

    open spec fn view(&self) -> LogLineView {
        LogLineView {
            number: self.number,
            text: self.text@,
            hit: self.hit,
            ranges: self.ranges@,
        }
    }
}

impl Duplicate for LogLine {
    fn duplicate(&self) -> (r: Self) {
        LogLine {
            number: self.number,
            text: self.text.clone(),
            hit: self.hit,
            ranges: copy_ranges(&self.ranges),
        }
    }
}

/// A stretch of lines of one file.
#[derive(Clone, Debug)]
pub struct Fragment {
    pub file: String,
    pub lines: Vec<LogLine>,
    pub time: String,
    pub annotation: String,
}

/// What a `Fragment` holds.
#[verifier::ext_equal]
pub ghost struct FragmentView {
    pub file: Seq<char>,
    pub lines: Seq<LogLineView>,
    pub time: Seq<char>,
    pub annotation: Seq<char>,
}

impl View for Fragment {
    type V = FragmentView;

    open spec fn view(&self) -> FragmentView {
        FragmentView {
            file: self.file@,
            lines: views(self.lines@),
            time: self.time@,
            annotation: self.annotation@,
        }
    }
}

impl Duplicate for Fragment {
    fn duplicate(&self) -> (r: Self) {
        Fragment {
            file: self.file.clone(),
            lines: duplicate_all(&self.lines),
            time: self.time.clone(),
            annotation: self.annotation.clone(),
        }
    }
}

/// What a rule found.
#[derive(Clone, Debug)]
pub struct Finding {
    pub rule: Rule,
    pub count: usize,
    pub fragments: Vec<Fragment>,
    pub status: String,
}

/// What a `Finding` holds.
#[verifier::ext_equal]
pub ghost struct FindingView {
    pub rule: RuleView,
    pub count: usize,
    pub fragments: Seq<FragmentView>,
    pub status: Seq<char>,
}

impl View for Finding {
    type V = FindingView;

    open spec fn view(&self) -> FindingView {
        FindingView {
            rule: self.rule@,
            count: self.count,
            fragments: views(self.fragments@),
            status: self.status@,
        }
    }
}

impl Duplicate for Finding {
    fn duplicate(&self) -> (r: Self) {
        Finding {
            rule: self.rule.duplicate(),
            count: self.count,
            fragments: duplicate_all(&self.fragments),
            status: self.status.clone(),
        }
    }
}

/// A fact of the timeline.
#[derive(Clone, Debug)]
pub struct Event {
    pub name: String,
    pub group: String,
    pub time: String,
    /// The time in UTC, where it is complete; events with the same key can be merged.
    pub key: Option<String>,
    pub note: String,
    pub sources: Vec<Fragment>,
    pub event_type: String,
    pub evidence_strength: String,
    pub time_precision: String,
}

/// What a `Event` holds.
#[verifier::ext_equal]
pub ghost struct EventView {
    pub name: Seq<char>,
    pub group: Seq<char>,
    pub time: Seq<char>,
    pub key: Option<Seq<char>>,
    pub note: Seq<char>,
    pub sources: Seq<FragmentView>,
    pub event_type: Seq<char>,
    pub evidence_strength: Seq<char>,
    pub time_precision: Seq<char>,
}

impl View for Event {
    type V = EventView;

    open spec fn view(&self) -> EventView {
        EventView {
            name: self.name@,
            group: self.group@,
            time: self.time@,
            key: opt_view(self.key),
            note: self.note@,
            sources: views(self.sources@),
            event_type: self.event_type@,
            evidence_strength: self.evidence_strength@,
            time_precision: self.time_precision@,
        }
    }
}

impl Duplicate for Event {
    fn duplicate(&self) -> (r: Self) {
        Event {
            name: self.name.clone(),
            group: self.group.clone(),
            time: self.time.clone(),
            key: duplicate_option(&self.key),
            note: self.note.clone(),
            sources: duplicate_all(&self.sources),
            event_type: self.event_type.clone(),
            evidence_strength: self.evidence_strength.clone(),
            time_precision: self.time_precision.clone(),
        }
    }
}

/// The time from one boot to the next, and how it ended.
#[derive(Clone, Debug)]
pub struct TimelineSession {
    pub session_id: String,
    pub boot_time: String,
    pub boot_time_precision: String,
    /// When the session ended, or the start of the range in which it did.
    pub incident_time_start: String,
    pub incident_time_end: Option<String>,
    pub incident_time_precision: String,
    pub boot_id: Option<String>,
    pub facts: Vec<Event>,
    pub end_classification: String,
    pub confidence: String,
    pub supporting_evidence: Vec<String>,
    pub limitations: Vec<String>,
}

/// What a `TimelineSession` holds.
#[verifier::ext_equal]
pub ghost struct TimelineSessionView {
    pub session_id: Seq<char>,
    pub boot_time: Seq<char>,
    pub boot_time_precision: Seq<char>,
    pub incident_time_start: Seq<char>,
    pub incident_time_end: Option<Seq<char>>,
    pub incident_time_precision: Seq<char>,
    pub boot_id: Option<Seq<char>>,
    pub facts: Seq<EventView>,
    pub end_classification: Seq<char>,
    pub confidence: Seq<char>,
    pub supporting_evidence: Seq<Seq<char>>,
    pub limitations: Seq<Seq<char>>,
}

impl View for TimelineSession {
    type V = TimelineSessionView;

    open spec fn view(&self) -> TimelineSessionView {
        TimelineSessionView {
            session_id: self.session_id@,
            boot_time: self.boot_time@,
            boot_time_precision: self.boot_time_precision@,
            incident_time_start: self.incident_time_start@,
            incident_time_end: opt_view(self.incident_time_end),
            incident_time_precision: self.incident_time_precision@,
            boot_id: opt_view(self.boot_id),
            facts: views(self.facts@),
            end_classification: self.end_classification@,
            confidence: self.confidence@,
            supporting_evidence: views(self.supporting_evidence@),
            limitations: views(self.limitations@),
        }
    }
}

impl Duplicate for TimelineSession {
    fn duplicate(&self) -> (r: Self) {
        TimelineSession {
            session_id: self.session_id.clone(),
            boot_time: self.boot_time.clone(),
            boot_time_precision: self.boot_time_precision.clone(),
            incident_time_start: self.incident_time_start.clone(),
            incident_time_end: duplicate_option(&self.incident_time_end),
            incident_time_precision: self.incident_time_precision.clone(),
            boot_id: duplicate_option(&self.boot_id),
            facts: duplicate_all(&self.facts),
            end_classification: self.end_classification.clone(),
            confidence: self.confidence.clone(),
            supporting_evidence: duplicate_all(&self.supporting_evidence),
            limitations: duplicate_all(&self.limitations),
        }
    }
}

} // verus!
