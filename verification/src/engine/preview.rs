//! The preview of a single rule on a sample text.

use crate::engine::facts::{
    classify_timeline_event, event_kind, event_text, precision, precision_text,
};
use crate::engine::model::{
    Event, EventView, Finding, FindingView, Fragment, FragmentView, LogLine, LogLineView,
};
use crate::engine::report::{
    files_of_tables, report_sessions, table_files, window_of, CatalogEntry, CatalogEntryView,
    Report, ReportView,
};
use crate::engine::scan::{Mark, MarkView};
use crate::engine::time::{custom_time, event_time_prepared, time_of, time_pattern, TimePatterns};
use crate::extract::extractor::{extract, extract_fault, extracted, shows_disks};
use crate::extract::format::{gives_sizes, sizes_of, Sizes};
use crate::extract::model::{Table, TableView};
use crate::fault::{Fault, FaultView};
use crate::row::{put, Row};
use crate::rules::edit::labels;
use crate::rules::matcher::{matcher_of, term_fault, Matcher};
use crate::rules::model::{Rule, RuleSet, RuleSetView, RuleView, SystemRule, SystemRuleView};
use crate::rules::validate::rules_fault;
use crate::text::{
    copy_ranges, duplicate_all, joined, lines, lines_of, opt_view, same, views, Duplicate,
};
use vstd::prelude::*;

verus! {

pub const SAMPLE: &'static str = "样例日志";

/// A line of the sample as the preview shows it.
pub open spec fn sample_line(ls: Seq<Seq<char>>, marks: Seq<MarkView>, i: int) -> LogLineView {
    LogLineView {
        number: (i + 1) as usize,
        text: ls[i],
        hit: marks[i].hit,
        ranges: marks[i].ranges,
    }
}

/// The lines of the sample around a hit.
pub open spec fn sample_fragment(
    r: RuleView,
    ls: Seq<Seq<char>>,
    marks: Seq<MarkView>,
    i: int,
) -> FragmentView {
    let from = if i >= r.before {
        i - r.before
    } else {
        0
    };
    let to = if i + r.after + 1 < ls.len() {
        i + r.after + 1
    } else {
        ls.len() as int
    };
    FragmentView {
        file: SAMPLE@,
        lines: Seq::new((to - from) as nat, |k: int| sample_line(ls, marks, from + k)),
        time: marks[i].time,
        annotation: Seq::empty(),
    }
}

/// The fragments of the first `n` lines.
pub open spec fn sample_fragments(
    r: RuleView,
    ls: Seq<Seq<char>>,
    marks: Seq<MarkView>,
    n: int,
) -> Seq<FragmentView>
    decreases n,
{
    if n <= 0 {
        Seq::empty()
    } else if marks[n - 1].hit {
        sample_fragments(r, ls, marks, n - 1).push(sample_fragment(r, ls, marks, n - 1))
    } else {
        sample_fragments(r, ls, marks, n - 1)
    }
}

pub open spec fn sample_event(
    r: RuleView,
    ls: Seq<Seq<char>>,
    marks: Seq<MarkView>,
    i: int,
) -> EventView {
    EventView {
        name: r.name,
        group: r.group,
        time: marks[i].time,
        key: marks[i].key,
        note: r.note,
        sources: seq![sample_fragment(r, ls, marks, i)],
        event_type: event_kind(event_text(r.name, ls[i])),
        evidence_strength: "medium"@,
        time_precision: precision(marks[i].key),
    }
}

/// The events of the first `n` lines, where the rule feeds the timeline.
pub open spec fn sample_events(
    r: RuleView,
    ls: Seq<Seq<char>>,
    marks: Seq<MarkView>,
    n: int,
) -> Seq<EventView>
    decreases n,
{
    if n <= 0 || r.target == "keywords"@ {
        Seq::empty()
    } else if marks[n - 1].hit {
        sample_events(r, ls, marks, n - 1).push(sample_event(r, ls, marks, n - 1))
    } else {
        sample_events(r, ls, marks, n - 1)
    }
}

/// What the preview finds of a rule, given what was found of each line.
pub open spec fn sample_finding(
    r: RuleView,
    ls: Seq<Seq<char>>,
    marks: Seq<MarkView>,
) -> FindingView {
    let fragments = sample_fragments(r, ls, marks, ls.len() as int);
    FindingView {
        rule: r,
        count: fragments.len() as usize,
        fragments,
        status: if fragments.len() > 0 {
            "已匹配"@
        } else {
            "未匹配"@
        },
    }
}

/// What is found of a line of the sample; it counts as it stands only.
pub open spec fn sample_mark(r: RuleView, line: Seq<char>) -> MarkView {
    let (time, key) = time_of(line, custom_time(r), r.time_format, r.timezone);
    MarkView { hit: matcher_of(r).accepts(line), ranges: matcher_of(r).ranges(line), time, key }
}

pub open spec fn sample_marks(r: RuleView, ls: Seq<Seq<char>>) -> Seq<MarkView> {
    Seq::new(ls.len(), |i: int| sample_mark(r, ls[i]))
}

/// Whether a table is shown beside the one that is previewed: a table of disks
/// is shown with the others of its source.
pub open spec fn shown_beside(s: SystemRuleView, r: SystemRuleView) -> bool {
    &&& r.id != s.id
    &&& r.enabled
    &&& r.source == s.source
    &&& shows_disks(r.view)
}

/// Why the tables beside the previewed one from number `i` on fail.
pub open spec fn beside_fault(
    system: Seq<SystemRuleView>,
    s: SystemRuleView,
    text: Seq<char>,
    i: int,
) -> Option<FaultView>
    decreases system.len() - i,
{
    if i >= system.len() {
        None
    } else if shown_beside(s, system[i]) && extract_fault(system[i], text, None) is Some {
        extract_fault(system[i], text, None)
    } else {
        beside_fault(system, s, text, i + 1)
    }
}

/// The tables beside the previewed one among the first `n`.
pub open spec fn beside_tables(
    system: Seq<SystemRuleView>,
    s: SystemRuleView,
    text: Seq<char>,
    sizes: Sizes,
    n: int,
) -> Seq<TableView>
    decreases n,
{
    if n <= 0 {
        Seq::empty()
    } else if shown_beside(s, system[n - 1]) {
        beside_tables(system, s, text, sizes, n - 1).push(
            extracted(system[n - 1], text, SAMPLE@, None, sizes),
        )
    } else {
        beside_tables(system, s, text, sizes, n - 1)
    }
}

/// Why the preview of a table fails.
pub open spec fn table_preview_fault(set: RuleSetView, s: SystemRuleView, text: Seq<char>)
    -> Option<FaultView> {
    if extract_fault(s, text, None) is Some {
        extract_fault(s, text, None)
    } else if shows_disks(s.view) {
        beside_fault(set.system, s, text, 0)
    } else {
        None
    }
}

/// The tables of the preview of a table.
pub open spec fn preview_tables(
    set: RuleSetView,
    s: SystemRuleView,
    text: Seq<char>,
    sizes: Sizes,
) -> Seq<TableView> {
    seq![extracted(s, text, SAMPLE@, None, sizes)] + (if shows_disks(s.view) {
        beside_tables(set.system, s, text, sizes, set.system.len() as int)
    } else {
        Seq::empty()
    })
}

/// Why a preview is refused: the package is, or nothing can be extracted.
pub open spec fn preview_fault(set: RuleSetView, index: int, system: bool, text: Seq<char>)
    -> Option<FaultView> {
    if set.fault() is Some {
        set.fault()
    } else if system {
        table_preview_fault(set.resolved(), set.resolved().system[index], text)
    } else {
        None
    }
}

/// The report of a preview; the references of the rules are resolved.
pub open spec fn preview_of(
    set: RuleSetView,
    index: int,
    system: bool,
    text: Seq<char>,
    generated: Seq<char>,
    sizes: Sizes,
) -> ReportView {
    let ids = if system {
        seq![set.system[index].source_file_id]
    } else {
        set.rules[index].source_file_ids
    };
    let events = if system {
        Seq::empty()
    } else {
        sample_events(
            set.rules[index],
            lines(text),
            sample_marks(set.rules[index], lines(text)),
            lines(text).len() as int,
        )
    };
    ReportView {
        package: "规则预览"@,
        generated,
        layout: set.layout,
        log_files: set.log_files,
        source_labels: put(
            Seq::empty(),
            SAMPLE@,
            joined(labels(set.log_files, ids, ids.len() as int), "；"@),
        ),
        source_catalog: seq![CatalogEntryView { path: SAMPLE@, ids }],
        system_file_ids: table_files(set.system, set.system.len() as int),
        system: if system {
            preview_tables(set, set.system[index], text, sizes)
        } else {
            Seq::empty()
        },
        findings: if system {
            Seq::empty()
        } else {
            seq![
                sample_finding(
                    set.rules[index],
                    lines(text),
                    sample_marks(set.rules[index], lines(text)),
                ),
            ]
        },
        events,
        timeline_facts: events,
        timeline_sessions: report_sessions(
            events,
            window_of(set.timeline.thresholds.match_window_seconds),
            set.layout.timeline_sort == "desc"@,
        ),
        timeline_warnings: Seq::empty(),
        warnings: Seq::empty(),
    }
}

fn line_of_sample(ls: &Vec<String>, marks: &Vec<Mark>, i: usize) -> (r: LogLine)
    requires
        i < ls.len() == marks.len(),
    ensures
        r@ == sample_line(views(ls@), views(marks@), i as int),
{
    proof {
        assert(views(ls@)[i as int] == ls@[i as int]@);
        assert(views(marks@)[i as int] == marks@[i as int]@);
    }
    LogLine {
        number: i + 1,
        text: ls[i].clone(),
        hit: marks[i].hit,
        ranges: copy_ranges(&marks[i].ranges),
    }
}

fn fragment_of_sample(r: &Rule, ls: &Vec<String>, marks: &Vec<Mark>, i: usize) -> (f: Fragment)
    requires
        i < ls.len() == marks.len(),
    ensures
        f@ == sample_fragment(r@, views(ls@), views(marks@), i as int),
{
    let ghost lv = views(ls@);
    let ghost mv = views(marks@);
    let from: usize = if i >= r.before {
        i - r.before
    } else {
        0
    };
    let to: usize = if ls.len() - i - 1 > r.after {
        i + r.after + 1
    } else {
        ls.len()
    };
    let mut out: Vec<LogLine> = Vec::new();
    let mut k: usize = from;
    while k < to
        invariant
            from <= k <= to <= ls.len() == marks.len(),
            lv == views(ls@),
            mv == views(marks@),
            out.len() == k - from,
            forall|j: int|
                0 <= j < k - from ==> (#[trigger] out@[j])@ == sample_line(lv, mv, from + j),
        decreases to - k,
    {
        out.push(line_of_sample(ls, marks, k));
        k += 1;
    }
    let f = Fragment {
        file: SAMPLE.to_owned(),
        lines: out,
        time: marks[i].time.clone(),
        annotation: String::new(),
    };
    proof {
        assert(mv[i as int] == marks@[i as int]@);
        assert(f@.lines =~= sample_fragment(r@, lv, mv, i as int).lines);
        assert(f@ =~= sample_fragment(r@, lv, mv, i as int));
    }
    f
}

fn event_of_sample(r: &Rule, ls: &Vec<String>, marks: &Vec<Mark>, i: usize, f: &Fragment) -> (e:
    Event)
    requires
        i < ls.len() == marks.len(),
        f@ == sample_fragment(r@, views(ls@), views(marks@), i as int),
    ensures
        e@ == sample_event(r@, views(ls@), views(marks@), i as int),
{
    let ghost lv = views(ls@);
    let ghost mv = views(marks@);
    let mark = &marks[i];
    let mut sources: Vec<Fragment> = Vec::new();
    sources.push(f.duplicate());
    let e = Event {
        name: r.name.clone(),
        group: r.group.clone(),
        time: mark.time.clone(),
        key: crate::text::duplicate_option(&mark.key),
        note: r.note.clone(),
        sources,
        event_type: classify_timeline_event(r.name.as_str(), ls[i].as_str()),
        evidence_strength: "medium".to_owned(),
        time_precision: precision_text(&mark.key),
    };
    proof {
        assert(lv[i as int] == ls@[i as int]@);
        assert(mv[i as int] == mark@);
        assert(e@.sources =~= sample_event(r@, lv, mv, i as int).sources);
        assert(e@ =~= sample_event(r@, lv, mv, i as int));
    }
    e
}

/// What the preview finds of a rule and its events, given what was found of each
/// line.
pub fn preview_marked(r: &Rule, ls: &Vec<String>, marks: &Vec<Mark>) -> (out: (
    Finding,
    Vec<Event>,
))
    requires
        ls.len() == marks.len(),
    ensures
        out.0@ == sample_finding(r@, views(ls@), views(marks@)),
        views(out.1@) == sample_events(r@, views(ls@), views(marks@), ls.len() as int),
{
    let ghost lv = views(ls@);
    let ghost mv = views(marks@);
    let ghost rv = r@;
    let feeds = !same(r.target.as_str(), "keywords");
    let mut fragments: Vec<Fragment> = Vec::new();
    let mut events: Vec<Event> = Vec::new();
    let mut i: usize = 0;
    proof {
        assert(lv.len() == ls.len());
        assert(views(fragments@) =~= sample_fragments(rv, lv, mv, 0));
        assert(views(events@) =~= sample_events(rv, lv, mv, 0));
    }
    while i < ls.len()
        invariant
            i <= ls.len() == marks.len(),
            lv == views(ls@),
            mv == views(marks@),
            rv == r@,
            feeds == (rv.target != "keywords"@),
            views(fragments@) == sample_fragments(rv, lv, mv, i as int),
            views(events@) == sample_events(rv, lv, mv, i as int),
            fragments.len() <= i,
        decreases ls.len() - i,
    {
        proof {
            assert(mv[i as int] == marks@[i as int]@);
        }
        if marks[i].hit {
            let f = fragment_of_sample(r, ls, marks, i);
            if feeds {
                let e = event_of_sample(r, ls, marks, i, &f);
                let ghost was = views(events@);
                let ghost ev = e@;
                events.push(e);
                proof {
                    assert(views(events@) =~= was.push(ev));
                }
            }
            let ghost was = views(fragments@);
            let ghost fv = f@;
            fragments.push(f);
            proof {
                assert(views(fragments@) =~= was.push(fv));
            }
        }
        i += 1;
    }
    let count = fragments.len();
    let status = if count > 0 {
        "已匹配"
    } else {
        "未匹配"
    };
    proof {
        assert(views(fragments@).len() == count);
    }
    let finding = Finding {
        rule: r.duplicate(),
        count,
        fragments,
        status: status.to_owned(),
    };
    proof {
        assert(finding@ =~= sample_finding(rv, lv, mv));
    }
    (finding, events)
}

fn mark_sample(r: &Rule, m: &Matcher, ls: &Vec<String>) -> (out: Vec<Mark>)
    requires
        m@ == matcher_of(r@),
    ensures
        views(out@) == sample_marks(r@, views(ls@)),
{
    let ghost lv = views(ls@);
    let ghost rv = r@;
    let times = TimePatterns::new();
    let custom = time_pattern(r);
    let mut out: Vec<Mark> = Vec::new();
    let mut i: usize = 0;
    while i < ls.len()
        invariant
            times.wf(),
            opt_view(custom) == custom_time(rv),
            i <= ls.len(),
            lv == views(ls@),
            rv == r@,
            m@ == matcher_of(rv),
            out.len() == i,
            forall|j: int| 0 <= j < i ==> (#[trigger] out@[j])@ == sample_mark(rv, lv[j]),
        decreases ls.len() - i,
    {
        let line = ls[i].as_str();
        proof {
            assert(lv[i as int] == line@);
        }
        let (time, key) = event_time_prepared(line, r, &custom, &times);
        let mark = Mark { hit: m.matches(line), ranges: m.ranges(line), time, key };
        proof {
            assert(mark@ =~= sample_mark(rv, line@));
        }
        out.push(mark);
        i += 1;
    }
    proof {
        assert(views(out@) =~= sample_marks(rv, lv));
    }
    out
}

fn preview_rule(r: &Rule, m: &Matcher, text: &str) -> (out: (Finding, Vec<Event>))
    requires
        m@ == matcher_of(r@),
    ensures
        out.0@ == sample_finding(r@, lines(text@), sample_marks(r@, lines(text@))),
        views(out.1@) == sample_events(
            r@,
            lines(text@),
            sample_marks(r@, lines(text@)),
            lines(text@).len() as int,
        ),
{
    let ls = lines_of(text);
    let marks = mark_sample(r, m, &ls);
    proof {
        assert(views(marks@).len() == marks.len());
        assert(views(ls@).len() == ls.len());
    }
    preview_marked(r, &ls, &marks)
}

fn is_disk_view(view: &str) -> (r: bool)
    ensures
        r == shows_disks(view@),
{
    same(view, "storage") || same(view, "storage-smart")
}

fn is_beside(s: &SystemRule, r: &SystemRule) -> (out: bool)
    ensures
        out == shown_beside(s@, r@),
{
    !same(r.id.as_str(), s.id.as_str()) && r.enabled && same(
        r.source.pattern.as_str(),
        s.source.pattern.as_str(),
    ) && same(r.source.mode.as_str(), s.source.mode.as_str()) && is_disk_view(r.view.as_str())
}

fn preview_system<F: Fn(&str, bool) -> Option<String>>(
    set: &RuleSet,
    s: &SystemRule,
    text: &str,
    sizes: &F,
) -> (r: Result<Vec<Table>, Fault>)
    requires
        gives_sizes(*sizes),
    ensures
        (match r {
            Ok(t) => table_preview_fault(set@, s@, text@) is None && views(t@) == preview_tables(
                set@,
                s@,
                text@,
                sizes_of(*sizes),
            ),
            Err(f) => table_preview_fault(set@, s@, text@) == Some(f@),
        }),
{
    let ghost sv = s@;
    let ghost all = set@.system;
    let ghost sz = sizes_of(*sizes);
    let mut out: Vec<Table> = Vec::new();
    match extract(s, text, SAMPLE, sizes) {
        Ok(t) => {
            out.push(t);
        },
        Err(f) => {
            return Err(f);
        },
    }
    let ghost first = views(out@);
    proof {
        assert(first =~= seq![extracted(sv, text@, SAMPLE@, None, sz)]);
        assert(first + Seq::<TableView>::empty() =~= first);
    }
    if is_disk_view(s.view.as_str()) {
        let mut i: usize = 0;
        proof {
            assert(first + beside_tables(all, sv, text@, sz, 0) =~= first);
        }
        while i < set.system.len()
            invariant
                gives_sizes(*sizes),
                sz == sizes_of(*sizes),
                i <= set.system.len(),
                sv == s@,
                all == set@.system,
                shows_disks(sv.view),
                extract_fault(sv, text@, None) is None,
                beside_fault(all, sv, text@, 0) == beside_fault(all, sv, text@, i as int),
                views(out@) == first + beside_tables(all, sv, text@, sz, i as int),
            decreases set.system.len() - i,
        {
            let r = &set.system[i];
            proof {
                assert(all[i as int] == r@);
            }
            if is_beside(s, r) {
                match extract(r, text, SAMPLE, sizes) {
                    Ok(t) => {
                        let ghost was = views(out@);
                        let ghost tv = t@;
                        out.push(t);
                        proof {
                            assert(views(out@) =~= was.push(tv));
                            assert(views(out@) =~= first + beside_tables(
                                all,
                                sv,
                                text@,
                                sz,
                                i + 1,
                            ));
                        }
                    },
                    Err(f) => {
                        return Err(f);
                    },
                }
            }
            i += 1;
        }
    }
    Ok(out)
}

/// Rules that are accepted have terms that compile.
pub proof fn lemma_terms_compile(rules: Seq<RuleView>, i: int, k: int)
    requires
        0 <= i <= k < rules.len(),
        rules_fault(rules, i) is None,
    ensures
        term_fault(rules[k], 0) is None,
    decreases k - i,
{
    if i < k {
        lemma_terms_compile(rules, i + 1, k);
    }
}

/// Previews a rule on a sample text.
pub fn preview<F: Fn(&str, bool) -> Option<String>>(
    rules: &RuleSet,
    index: usize,
    system: bool,
    text: &str,
    generated: &str,
    sizes: &F,
) -> (r: Result<Report, Fault>)
    requires
        gives_sizes(*sizes),
        system ==> index < rules.system.len(),
        !system ==> index < rules.rules.len(),
    ensures
        (match r {
            Ok(p) => preview_fault(rules@, index as int, system, text@) is None && p@ == preview_of(
                rules@.resolved(),
                index as int,
                system,
                text@,
                generated@,
                sizes_of(*sizes),
            ),
            Err(f) => preview_fault(rules@, index as int, system, text@) == Some(f@),
        }),
{
    let ghost start = rules@;
    let set = match rules.duplicate().admitted() {
        Ok(s) => s,
        Err(f) => {
            return Err(f);
        },
    };
    let ghost sv = set@;
    proof {
        assert(sv.system.len() == start.system.len());
        assert(sv.rules.len() == start.rules.len());
        assert(set.system.len() == sv.system.len());
        assert(set.rules.len() == sv.rules.len());
    }
    let mut ids: Vec<String> = Vec::new();
    let mut tables: Vec<Table> = Vec::new();
    let mut findings: Vec<Finding> = Vec::new();
    let mut events: Vec<Event> = Vec::new();
    proof {
        assert(views(tables@) =~= Seq::<TableView>::empty());
        assert(views(findings@) =~= Seq::<FindingView>::empty());
        assert(views(events@) =~= Seq::<EventView>::empty());
    }
    if system {
        let s = &set.system[index];
        proof {
            assert(sv.system[index as int] == s@);
        }
        ids.push(s.source_file_id.clone());
        proof {
            assert(views(ids@) =~= seq![s.source_file_id@]);
        }
        match preview_system(&set, s, text, sizes) {
            Ok(t) => {
                tables = t;
            },
            Err(f) => {
                return Err(f);
            },
        }
    } else {
        let r = &set.rules[index];
        proof {
            assert(sv.rules[index as int] == r@);
            lemma_terms_compile(sv.rules, 0, index as int);
        }
        ids = duplicate_all(&r.source_file_ids);
        if let Ok(m) = Matcher::new(r) {
            let (finding, found) = preview_rule(r, &m, text);
            let ghost fv = finding@;
            findings.push(finding);
            events = found;
            proof {
                assert(views(findings@) =~= seq![fv]);
            }
        } else {
            proof {
                assert(false);
            }
        }
    }
    let label = set.source_label(&ids);
    let mut source_labels = Row::new();
    source_labels.insert(SAMPLE.to_owned(), label);
    let entry = CatalogEntry { path: SAMPLE.to_owned(), ids };
    let ghost ev = entry@;
    let mut source_catalog: Vec<CatalogEntry> = Vec::new();
    source_catalog.push(entry);
    proof {
        assert(views(source_catalog@) =~= seq![ev]);
    }
    let timeline_facts = duplicate_all(&events);
    let desc = same(set.layout.timeline_sort.as_str(), "desc");
    let timeline_sessions = crate::engine::report::arrange_sessions(
        &events,
        set.timeline.thresholds.match_window_seconds,
        desc,
    );
    let p = Report {
        package: "规则预览".to_owned(),
        generated: generated.to_owned(),
        layout: set.layout.duplicate(),
        log_files: duplicate_all(&set.log_files),
        source_labels,
        source_catalog,
        system_file_ids: files_of_tables(&set.system),
        system: tables,
        findings,
        events,
        timeline_facts,
        timeline_sessions,
        timeline_warnings: Vec::new(),
        warnings: Vec::new(),
    };
    proof {
        let want = preview_of(
            sv,
            index as int,
            system,
            text@,
            generated@,
            sizes_of(*sizes),
        );
        assert(p@ =~= want);
    }
    Ok(p)
}

} // verus!
