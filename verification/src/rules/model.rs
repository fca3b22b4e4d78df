//! The rule package: what is searched for, where, and how it is shown.

use crate::text::{duplicate_all, views, Duplicate};
use vstd::prelude::*;

verus! {

/// A range of log files: a pattern and how it is compared with a path.
#[derive(Clone, Debug)]
pub struct Source {
    pub pattern: String,
    /// `prefix`, `path` or `exact`.
    pub mode: String,
}

/// What a `Source` holds.
#[verifier::ext_equal]
pub ghost struct SourceView {
    pub pattern: Seq<char>,
    pub mode: Seq<char>,
}

impl View for Source {
    type V = SourceView;

    open spec fn view(&self) -> SourceView {
        SourceView {
            pattern: self.pattern@,
            mode: self.mode@,
        }
    }
}

impl Duplicate for Source {
    fn duplicate(&self) -> (r: Self) {
        Source {
            pattern: self.pattern.clone(),
            mode: self.mode.clone(),
        }
    }
}

/// An entry of the log file catalogue; rules and reports take names and paths
/// from here.
#[derive(Clone, Debug)]
pub struct LogFile {
    pub id: String,
    pub name: String,
    pub path: String,
    pub mode: String,
    /// The kind of archive; only `diagnostic_archive` can be read.
    pub container: String,
}

/// What a `LogFile` holds.
#[verifier::ext_equal]
pub ghost struct LogFileView {
    pub id: Seq<char>,
    pub name: Seq<char>,
    pub path: Seq<char>,
    pub mode: Seq<char>,
    pub container: Seq<char>,
}

impl View for LogFile {
    type V = LogFileView;

    open spec fn view(&self) -> LogFileView {
        LogFileView {
            id: self.id@,
            name: self.name@,
            path: self.path@,
            mode: self.mode@,
            container: self.container@,
        }
    }
}

impl Duplicate for LogFile {
    fn duplicate(&self) -> (r: Self) {
        LogFile {
            id: self.id.clone(),
            name: self.name.clone(),
            path: self.path.clone(),
            mode: self.mode.clone(),
            container: self.container.clone(),
        }
    }
}

/// How a report is laid out.
#[derive(Clone, Debug)]
pub struct Layout {
    pub title: String,
    pub system_title: String,
    pub keyword_title: String,
    pub timeline_title: String,
    pub sections: Vec<String>,
    pub accent: String,
    pub font_size: u32,
    pub density: String,
    pub timeline_sort: String,
    pub first_open: bool,
    /// Lines that the log view renders at a time.
    pub log_lines_per_batch: u32,
    /// The order of the files in the rule editor.
    pub file_order: Vec<String>,
    pub file_panel_width: u32,
}

/// What a `Layout` holds.
#[verifier::ext_equal]
pub ghost struct LayoutView {
    pub title: Seq<char>,
    pub system_title: Seq<char>,
    pub keyword_title: Seq<char>,
    pub timeline_title: Seq<char>,
    pub sections: Seq<Seq<char>>,
    pub accent: Seq<char>,
    pub font_size: u32,
    pub density: Seq<char>,
    pub timeline_sort: Seq<char>,
    pub first_open: bool,
    pub log_lines_per_batch: u32,
    pub file_order: Seq<Seq<char>>,
    pub file_panel_width: u32,
}

impl View for Layout {
    type V = LayoutView;

    open spec fn view(&self) -> LayoutView {
        LayoutView {
            title: self.title@,
            system_title: self.system_title@,
            keyword_title: self.keyword_title@,
            timeline_title: self.timeline_title@,
            sections: views(self.sections@),
            accent: self.accent@,
            font_size: self.font_size,
            density: self.density@,
            timeline_sort: self.timeline_sort@,
            first_open: self.first_open,
            log_lines_per_batch: self.log_lines_per_batch,
            file_order: views(self.file_order@),
            file_panel_width: self.file_panel_width,
        }
    }
}

impl Duplicate for Layout {
    fn duplicate(&self) -> (r: Self) {
        Layout {
            title: self.title.clone(),
            system_title: self.system_title.clone(),
            keyword_title: self.keyword_title.clone(),
            timeline_title: self.timeline_title.clone(),
            sections: duplicate_all(&self.sections),
            accent: self.accent.clone(),
            font_size: self.font_size,
            density: self.density.clone(),
            timeline_sort: self.timeline_sort.clone(),
            first_open: self.first_open,
            log_lines_per_batch: self.log_lines_per_batch,
            file_order: duplicate_all(&self.file_order),
            file_panel_width: self.file_panel_width,
        }
    }
}

/// A keyword rule.
#[derive(Clone, Debug)]
pub struct Rule {
    pub id: String,
    pub name: String,
    pub group: String,
    pub enabled: bool,
    /// Identities in the log file catalogue.
    pub source_file_ids: Vec<String>,
    /// The catalogue entries, resolved before an analysis.
    pub sources: Vec<Source>,
    pub terms: Vec<String>,
    pub mode: String,
    pub regex: bool,
    pub case_sensitive: bool,
    pub exclude: Vec<String>,
    pub note: String,
    pub before: usize,
    pub after: usize,
    pub target: String,
    pub sort: String,
    pub reverse: bool,
    pub fmt: String,
    pub time_regex: String,
    pub time_format: String,
    pub timezone: String,
    pub legacy_group: String,
    pub open: bool,
}

/// What a `Rule` holds.
#[verifier::ext_equal]
pub ghost struct RuleView {
    pub id: Seq<char>,
    pub name: Seq<char>,
    pub group: Seq<char>,
    pub enabled: bool,
    pub source_file_ids: Seq<Seq<char>>,
    pub sources: Seq<SourceView>,
    pub terms: Seq<Seq<char>>,
    pub mode: Seq<char>,
    pub regex: bool,
    pub case_sensitive: bool,
    pub exclude: Seq<Seq<char>>,
    pub note: Seq<char>,
    pub before: usize,
    pub after: usize,
    pub target: Seq<char>,
    pub sort: Seq<char>,
    pub reverse: bool,
    pub fmt: Seq<char>,
    pub time_regex: Seq<char>,
    pub time_format: Seq<char>,
    pub timezone: Seq<char>,
    pub legacy_group: Seq<char>,
    pub open: bool,
}

impl View for Rule {
    type V = RuleView;

    open spec fn view(&self) -> RuleView {
        RuleView {
            id: self.id@,
            name: self.name@,
            group: self.group@,
            enabled: self.enabled,
            source_file_ids: views(self.source_file_ids@),
            sources: views(self.sources@),
            terms: views(self.terms@),
            mode: self.mode@,
            regex: self.regex,
            case_sensitive: self.case_sensitive,
            exclude: views(self.exclude@),
            note: self.note@,
            before: self.before,
            after: self.after,
            target: self.target@,
            sort: self.sort@,
            reverse: self.reverse,
            fmt: self.fmt@,
            time_regex: self.time_regex@,
            time_format: self.time_format@,
            timezone: self.timezone@,
            legacy_group: self.legacy_group@,
            open: self.open,
        }
    }
}

impl Duplicate for Rule {
    fn duplicate(&self) -> (r: Self) {
        Rule {
            id: self.id.clone(),
            name: self.name.clone(),
            group: self.group.clone(),
            enabled: self.enabled,
            source_file_ids: duplicate_all(&self.source_file_ids),
            sources: duplicate_all(&self.sources),
            terms: duplicate_all(&self.terms),
            mode: self.mode.clone(),
            regex: self.regex,
            case_sensitive: self.case_sensitive,
            exclude: duplicate_all(&self.exclude),
            note: self.note.clone(),
            before: self.before,
            after: self.after,
            target: self.target.clone(),
            sort: self.sort.clone(),
            reverse: self.reverse,
            fmt: self.fmt.clone(),
            time_regex: self.time_regex.clone(),
            time_format: self.time_format.clone(),
            timezone: self.timezone.clone(),
            legacy_group: self.legacy_group.clone(),
            open: self.open,
        }
    }
}

/// A column of a system information table.
#[derive(Clone, Debug)]
pub struct Field {
    pub name: String,
    pub path: String,
    pub format: String,
    pub unit: String,
    pub missing: String,
    pub wide: bool,
    pub view: String,
    pub capture: String,
}

/// What a `Field` holds.
#[verifier::ext_equal]
pub ghost struct FieldView {
    pub name: Seq<char>,
    pub path: Seq<char>,
    pub format: Seq<char>,
    pub unit: Seq<char>,
    pub missing: Seq<char>,
    pub wide: bool,
    pub view: Seq<char>,
    pub capture: Seq<char>,
}

impl View for Field {
    type V = FieldView;

    open spec fn view(&self) -> FieldView {
        FieldView {
            name: self.name@,
            path: self.path@,
            format: self.format@,
            unit: self.unit@,
            missing: self.missing@,
            wide: self.wide,
            view: self.view@,
            capture: self.capture@,
        }
    }
}

impl Duplicate for Field {
    fn duplicate(&self) -> (r: Self) {
        Field {
            name: self.name.clone(),
            path: self.path.clone(),
            format: self.format.clone(),
            unit: self.unit.clone(),
            missing: self.missing.clone(),
            wide: self.wide,
            view: self.view.clone(),
            capture: self.capture.clone(),
        }
    }
}

/// How a table of system information is extracted. Tables are joined only by
/// the keys that are declared here.
#[derive(Clone, Debug)]
pub struct SystemRule {
    pub id: String,
    pub name: String,
    pub group: String,
    pub enabled: bool,
    pub source_file_id: String,
    /// The catalogue entry, resolved before an analysis.
    pub source: Source,
    pub kind: String,
    pub selector: String,
    pub pattern: String,
    pub view: String,
    pub fields: Vec<Field>,
    pub missing: String,
    pub join_rule: String,
    pub join_key: String,
    pub join_foreign_key: String,
}

/// What a `SystemRule` holds.
#[verifier::ext_equal]
pub ghost struct SystemRuleView {
    pub id: Seq<char>,
    pub name: Seq<char>,
    pub group: Seq<char>,
    pub enabled: bool,
    pub source_file_id: Seq<char>,
    pub source: SourceView,
    pub kind: Seq<char>,
    pub selector: Seq<char>,
    pub pattern: Seq<char>,
    pub view: Seq<char>,
    pub fields: Seq<FieldView>,
    pub missing: Seq<char>,
    pub join_rule: Seq<char>,
    pub join_key: Seq<char>,
    pub join_foreign_key: Seq<char>,
}

impl View for SystemRule {
    type V = SystemRuleView;

    open spec fn view(&self) -> SystemRuleView {
        SystemRuleView {
            id: self.id@,
            name: self.name@,
            group: self.group@,
            enabled: self.enabled,
            source_file_id: self.source_file_id@,
            source: self.source@,
            kind: self.kind@,
            selector: self.selector@,
            pattern: self.pattern@,
            view: self.view@,
            fields: views(self.fields@),
            missing: self.missing@,
            join_rule: self.join_rule@,
            join_key: self.join_key@,
            join_foreign_key: self.join_foreign_key@,
        }
    }
}

impl Duplicate for SystemRule {
    fn duplicate(&self) -> (r: Self) {
        SystemRule {
            id: self.id.clone(),
            name: self.name.clone(),
            group: self.group.clone(),
            enabled: self.enabled,
            source_file_id: self.source_file_id.clone(),
            source: self.source.duplicate(),
            kind: self.kind.clone(),
            selector: self.selector.clone(),
            pattern: self.pattern.clone(),
            view: self.view.clone(),
            fields: duplicate_all(&self.fields),
            missing: self.missing.clone(),
            join_rule: self.join_rule.clone(),
            join_key: self.join_key.clone(),
            join_foreign_key: self.join_foreign_key.clone(),
        }
    }
}

/// A fact that the timeline recognises.
#[derive(Clone, Debug)]
pub struct TimelineEventRule {
    pub id: String,
    pub event_type: String,
    pub source_file_ids: Vec<String>,
    pub terms: Vec<String>,
    pub regex: bool,
    pub evidence_strength: String,
    pub time_regex: String,
    pub time_format: String,
    pub note: String,
}

/// What a `TimelineEventRule` holds.
#[verifier::ext_equal]
pub ghost struct TimelineEventRuleView {
    pub id: Seq<char>,
    pub event_type: Seq<char>,
    pub source_file_ids: Seq<Seq<char>>,
    pub terms: Seq<Seq<char>>,
    pub regex: bool,
    pub evidence_strength: Seq<char>,
    pub time_regex: Seq<char>,
    pub time_format: Seq<char>,
    pub note: Seq<char>,
}

impl View for TimelineEventRule {
    type V = TimelineEventRuleView;

    open spec fn view(&self) -> TimelineEventRuleView {
        TimelineEventRuleView {
            id: self.id@,
            event_type: self.event_type@,
            source_file_ids: views(self.source_file_ids@),
            terms: views(self.terms@),
            regex: self.regex,
            evidence_strength: self.evidence_strength@,
            time_regex: self.time_regex@,
            time_format: self.time_format@,
            note: self.note@,
        }
    }
}

impl Duplicate for TimelineEventRule {
    fn duplicate(&self) -> (r: Self) {
        TimelineEventRule {
            id: self.id.clone(),
            event_type: self.event_type.clone(),
            source_file_ids: duplicate_all(&self.source_file_ids),
            terms: duplicate_all(&self.terms),
            regex: self.regex,
            evidence_strength: self.evidence_strength.clone(),
            time_regex: self.time_regex.clone(),
            time_format: self.time_format.clone(),
            note: self.note.clone(),
        }
    }
}

/// A conclusion that the timeline draws from facts.
#[derive(Clone, Debug)]
pub struct TimelineJudgementRule {
    pub id: String,
    pub start_event: String,
    pub end_event: String,
    pub must_have: Vec<String>,
    pub must_not_have: Vec<String>,
    pub any_of: Vec<String>,
    pub output: String,
    pub confidence: String,
    pub limitation: String,
}

/// What a `TimelineJudgementRule` holds.
#[verifier::ext_equal]
pub ghost struct TimelineJudgementRuleView {
    pub id: Seq<char>,
    pub start_event: Seq<char>,
    pub end_event: Seq<char>,
    pub must_have: Seq<Seq<char>>,
    pub must_not_have: Seq<Seq<char>>,
    pub any_of: Seq<Seq<char>>,
    pub output: Seq<char>,
    pub confidence: Seq<char>,
    pub limitation: Seq<char>,
}

impl View for TimelineJudgementRule {
    type V = TimelineJudgementRuleView;

    open spec fn view(&self) -> TimelineJudgementRuleView {
        TimelineJudgementRuleView {
            id: self.id@,
            start_event: self.start_event@,
            end_event: self.end_event@,
            must_have: views(self.must_have@),
            must_not_have: views(self.must_not_have@),
            any_of: views(self.any_of@),
            output: self.output@,
            confidence: self.confidence@,
            limitation: self.limitation@,
        }
    }
}

impl Duplicate for TimelineJudgementRule {
    fn duplicate(&self) -> (r: Self) {
        TimelineJudgementRule {
            id: self.id.clone(),
            start_event: self.start_event.clone(),
            end_event: self.end_event.clone(),
            must_have: duplicate_all(&self.must_have),
            must_not_have: duplicate_all(&self.must_not_have),
            any_of: duplicate_all(&self.any_of),
            output: self.output.clone(),
            confidence: self.confidence.clone(),
            limitation: self.limitation.clone(),
        }
    }
}

/// Time spans of the timeline, in seconds.
#[derive(Clone, Debug)]
pub struct TimelineThresholds {
    pub match_window_seconds: u64,
    pub gap_seconds: u64,
}

/// What a `TimelineThresholds` holds.
#[verifier::ext_equal]
pub ghost struct TimelineThresholdsView {
    pub match_window_seconds: u64,
    pub gap_seconds: u64,
}

impl View for TimelineThresholds {
    type V = TimelineThresholdsView;

    open spec fn view(&self) -> TimelineThresholdsView {
        TimelineThresholdsView {
            match_window_seconds: self.match_window_seconds,
            gap_seconds: self.gap_seconds,
        }
    }
}

impl Duplicate for TimelineThresholds {
    fn duplicate(&self) -> (r: Self) {
        TimelineThresholds {
            match_window_seconds: self.match_window_seconds,
            gap_seconds: self.gap_seconds,
        }
    }
}

/// The configuration of the timeline.
#[derive(Clone, Debug)]
pub struct TimelineConfig {
    pub events: Vec<TimelineEventRule>,
    pub judgements: Vec<TimelineJudgementRule>,
    pub thresholds: TimelineThresholds,
    pub sources: Vec<String>,
}

/// What a `TimelineConfig` holds.
#[verifier::ext_equal]
pub ghost struct TimelineConfigView {
    pub events: Seq<TimelineEventRuleView>,
    pub judgements: Seq<TimelineJudgementRuleView>,
    pub thresholds: TimelineThresholdsView,
    pub sources: Seq<Seq<char>>,
}

impl View for TimelineConfig {
    type V = TimelineConfigView;

    open spec fn view(&self) -> TimelineConfigView {
        TimelineConfigView {
            events: views(self.events@),
            judgements: views(self.judgements@),
            thresholds: self.thresholds@,
            sources: views(self.sources@),
        }
    }
}

impl Duplicate for TimelineConfig {
    fn duplicate(&self) -> (r: Self) {
        TimelineConfig {
            events: duplicate_all(&self.events),
            judgements: duplicate_all(&self.judgements),
            thresholds: self.thresholds.duplicate(),
            sources: duplicate_all(&self.sources),
        }
    }
}

/// The rule package; it alone decides what a report contains.
#[derive(Clone, Debug)]
pub struct RuleSet {
    pub version: u32,
    /// The only place where log file names and paths are kept.
    pub log_files: Vec<LogFile>,
    pub rules: Vec<Rule>,
    pub system: Vec<SystemRule>,
    pub layout: Layout,
    pub timeline: TimelineConfig,
}

/// What a `RuleSet` holds.
#[verifier::ext_equal]
pub ghost struct RuleSetView {
    pub version: u32,
    pub log_files: Seq<LogFileView>,
    pub rules: Seq<RuleView>,
    pub system: Seq<SystemRuleView>,
    pub layout: LayoutView,
    pub timeline: TimelineConfigView,
}

impl View for RuleSet {
    type V = RuleSetView;

    open spec fn view(&self) -> RuleSetView {
        RuleSetView {
            version: self.version,
            log_files: views(self.log_files@),
            rules: views(self.rules@),
            system: views(self.system@),
            layout: self.layout@,
            timeline: self.timeline@,
        }
    }
}

impl Duplicate for RuleSet {
    fn duplicate(&self) -> (r: Self) {
        RuleSet {
            version: self.version,
            log_files: duplicate_all(&self.log_files),
            rules: duplicate_all(&self.rules),
            system: duplicate_all(&self.system),
            layout: self.layout.duplicate(),
            timeline: self.timeline.duplicate(),
        }
    }
}

} // verus!
