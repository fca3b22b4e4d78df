//! What the preview of a rule shows of a sample.

use crate::engine::model::{EventView, FragmentView};
use crate::engine::preview::{
    beside_tables, preview_fault, preview_of, preview_tables, sample_event, sample_events,
    sample_finding, sample_fragment, sample_fragments, sample_marks, shown_beside,
};
use crate::engine::scan::MarkView;
use crate::extract::extractor::{extract_fault, extracted};
use crate::extract::format::Sizes;
use crate::extract::model::TableView;
use crate::rules::matcher::matcher_of;
use crate::rules::model::{RuleSetView, RuleView, SystemRuleView};
use crate::text::lines;
use vstd::prelude::*;

verus! {

/// The fragment of a hit shows the line of the hit, as many lines before and behind it
/// as the rule asks for and the sample has, and no other; each with its number.
pub proof fn law_samples_show_the_context(
    r: RuleView,
    ls: Seq<Seq<char>>,
    marks: Seq<MarkView>,
    i: int,
    k: int,
)
    requires
        0 <= i < ls.len() <= usize::MAX,
        marks.len() == ls.len(),
        0 <= k < ls.len(),
    ensures
        ({
            let f = sample_fragment(r, ls, marks, i);
            let shown = exists|j: int|
                0 <= j < f.lines.len() && (#[trigger] f.lines[j]).number == k + 1;
            &&& shown <==> i - r.before <= k <= i + r.after
            &&& forall|j: int|
                0 <= j < f.lines.len() && (#[trigger] f.lines[j]).number == k + 1
                    ==> f.lines[j].text == ls[k] && f.lines[j].hit == marks[k].hit
                    && f.lines[j].ranges == marks[k].ranges
            &&& f.time == marks[i].time
            &&& f.file == "样例日志"@
        }),
{
    let f = sample_fragment(r, ls, marks, i);
    let from = if i >= r.before {
        i - r.before
    } else {
        0
    };
    assert forall|j: int| 0 <= j < f.lines.len() implies (#[trigger] f.lines[j]).number == from + j
        + 1 by {}
    if i - r.before <= k <= i + r.after {
        assert(f.lines[k - from].number == k + 1);
    }
}

/// There is a fragment for every hit of the sample, in the order of the lines, and no
/// other; the count is theirs.
pub proof fn law_every_sample_hit_is_shown(
    r: RuleView,
    ls: Seq<Seq<char>>,
    marks: Seq<MarkView>,
    n: int,
    f: FragmentView,
)
    requires
        0 <= n <= ls.len(),
    ensures
        sample_fragments(r, ls, marks, n).contains(f) <==> exists|i: int|
            0 <= i < n && (#[trigger] marks[i]).hit && f == sample_fragment(r, ls, marks, i),
        n > 0 && marks[n - 1].hit ==> sample_fragments(r, ls, marks, n).len() == sample_fragments(
            r,
            ls,
            marks,
            n - 1,
        ).len() + 1 && sample_fragments(r, ls, marks, n).last() == sample_fragment(
            r,
            ls,
            marks,
            n - 1,
        ),
        n > 0 && !marks[n - 1].hit ==> sample_fragments(r, ls, marks, n).len() == sample_fragments(
            r,
            ls,
            marks,
            n - 1,
        ).len(),
    decreases n,
{
    if n > 0 {
        law_every_sample_hit_is_shown(r, ls, marks, n - 1, f);
        let was = sample_fragments(r, ls, marks, n - 1);
        let x = sample_fragment(r, ls, marks, n - 1);
        let now = sample_fragments(r, ls, marks, n);
        if marks[n - 1].hit {
            assert(now == was.push(x));
            assert(now[was.len() as int] == x);
            if was.contains(f) {
                let i = choose|i: int| 0 <= i < was.len() && was[i] == f;
                assert(now[i] == f);
            }
            if now.contains(f) {
                let i = choose|i: int| 0 <= i < now.len() && now[i] == f;
                if i < was.len() {
                    assert(was[i] == f);
                }
            }
        }
    }
}

/// A finding of a sample counts its fragments and says whether there are any.
pub proof fn law_samples_say_whether_they_match(
    r: RuleView,
    ls: Seq<Seq<char>>,
    marks: Seq<MarkView>,
)
    requires
        sample_fragments(r, ls, marks, ls.len() as int).len() <= usize::MAX,
    ensures
        ({
            let f = sample_finding(r, ls, marks);
            &&& f.rule == r
            &&& f.count == f.fragments.len()
            &&& f.count > 0 ==> f.status == "已匹配"@
            &&& f.count == 0 ==> f.status == "未匹配"@
        }),
{
}

/// Every hit of the sample is an event where the rule feeds the timeline; a rule for
/// keywords alone gives none.
pub proof fn law_samples_feed_the_timeline(
    r: RuleView,
    ls: Seq<Seq<char>>,
    marks: Seq<MarkView>,
    n: int,
    e: EventView,
)
    requires
        0 <= n <= ls.len(),
    ensures
        r.target == "keywords"@ ==> sample_events(r, ls, marks, n).len() == 0,
        r.target != "keywords"@ ==> (sample_events(r, ls, marks, n).contains(e) <==> exists|i: int|
            0 <= i < n && (#[trigger] marks[i]).hit && e == sample_event(r, ls, marks, i)),
    decreases n,
{
    if n > 0 {
        law_samples_feed_the_timeline(r, ls, marks, n - 1, e);
        let was = sample_events(r, ls, marks, n - 1);
        let x = sample_event(r, ls, marks, n - 1);
        let now = sample_events(r, ls, marks, n);
        if marks[n - 1].hit && r.target != "keywords"@ {
            assert(now == was.push(x));
            assert(now[was.len() as int] == x);
            if was.contains(e) {
                let i = choose|i: int| 0 <= i < was.len() && was[i] == e;
                assert(now[i] == e);
            }
            if now.contains(e) {
                let i = choose|i: int| 0 <= i < now.len() && now[i] == e;
                if i < was.len() {
                    assert(was[i] == e);
                }
            }
        }
    }
}

/// An event of a sample has the rule's name, group and note, the time of its line and
/// that line as its source.
pub proof fn law_sample_events_tell_their_line(
    r: RuleView,
    ls: Seq<Seq<char>>,
    marks: Seq<MarkView>,
    i: int,
)
    ensures
        ({
            let e = sample_event(r, ls, marks, i);
            &&& e.name == r.name
            &&& e.group == r.group
            &&& e.note == r.note
            &&& e.time == marks[i].time
            &&& e.key == marks[i].key
            &&& e.sources == seq![sample_fragment(r, ls, marks, i)]
            &&& e.evidence_strength == "medium"@
        }),
{
}

/// A line of a sample is a hit exactly where the rule accepts it as it stands.
pub proof fn law_sample_lines_count_as_they_stand(r: RuleView, ls: Seq<Seq<char>>, i: int)
    requires
        0 <= i < ls.len(),
    ensures
        sample_marks(r, ls).len() == ls.len(),
        sample_marks(r, ls)[i].hit == matcher_of(r).accepts(ls[i]),
        sample_marks(r, ls)[i].ranges == matcher_of(r).ranges(ls[i]),
{
}

/// The preview of a table shows that table first; beside a table of disks it shows the
/// other enabled tables of disks of the same source, and beside any other none.
pub proof fn law_tables_of_disks_are_shown_together(
    set: RuleSetView,
    s: SystemRuleView,
    text: Seq<char>,
    sizes: Sizes,
    t: TableView,
)
    ensures
        preview_tables(set, s, text, sizes)[0] == extracted(s, text, "样例日志"@, None, sizes),
        s.view != "storage"@ && s.view != "storage-smart"@ ==> preview_tables(
            set,
            s,
            text,
            sizes,
        ).len() == 1,
        s.view == "storage"@ || s.view == "storage-smart"@ ==> (preview_tables(
            set,
            s,
            text,
            sizes,
        ).skip(1).contains(t) <==> exists|i: int|
            0 <= i < set.system.len() && is_beside(s, #[trigger] set.system[i]) && t == extracted(
                set.system[i],
                text,
                "样例日志"@,
                None,
                sizes,
            )),
{
    let n = set.system.len() as int;
    lemma_beside(set.system, s, text, sizes, n, t);
    let b = beside_tables(set.system, s, text, sizes, n);
    if s.view == "storage"@ || s.view == "storage-smart"@ {
        assert(preview_tables(set, s, text, sizes).skip(1) =~= b);
    }
}

/// Whether a table is another one of disks, enabled and of the same source.
pub open spec fn is_beside(s: SystemRuleView, r: SystemRuleView) -> bool {
    &&& r.id != s.id
    &&& r.enabled
    &&& r.source == s.source
    &&& r.view == "storage"@ || r.view == "storage-smart"@
}

proof fn lemma_beside(
    system: Seq<SystemRuleView>,
    s: SystemRuleView,
    text: Seq<char>,
    sizes: Sizes,
    n: int,
    t: TableView,
)
    requires
        0 <= n <= system.len(),
    ensures
        beside_tables(system, s, text, sizes, n).contains(t) <==> exists|i: int|
            0 <= i < n && is_beside(s, #[trigger] system[i]) && t == extracted(
                system[i],
                text,
                "样例日志"@,
                None,
                sizes,
            ),
    decreases n,
{
    if n > 0 {
        lemma_beside(system, s, text, sizes, n - 1, t);
        let was = beside_tables(system, s, text, sizes, n - 1);
        let now = beside_tables(system, s, text, sizes, n);
        let x = extracted(system[n - 1], text, "样例日志"@, None, sizes);
        assert(shown_beside(s, system[n - 1]) == is_beside(s, system[n - 1]));
        if is_beside(s, system[n - 1]) {
            assert(now == was.push(x));
            assert(now[was.len() as int] == x);
            if was.contains(t) {
                let i = choose|i: int| 0 <= i < was.len() && was[i] == t;
                assert(now[i] == t);
            }
            if now.contains(t) {
                let i = choose|i: int| 0 <= i < now.len() && now[i] == t;
                if i < was.len() {
                    assert(was[i] == t);
                }
            }
        }
    }
}

/// A preview of a rule has one finding and no table, one of a table has tables and no
/// finding; both have the layout of the package and no warnings.
pub proof fn law_previews_show_one_rule(
    set: RuleSetView,
    index: int,
    text: Seq<char>,
    generated: Seq<char>,
    sizes: Sizes,
)
    ensures
        ({
            let p = preview_of(set, index, false, text, generated, sizes);
            &&& p.system.len() == 0
            &&& p.findings == seq![
                sample_finding(
                    set.rules[index],
                    lines(text),
                    sample_marks(set.rules[index], lines(text)),
                ),
            ]
            &&& p.timeline_facts == p.events
            &&& set.timeline.thresholds.match_window_seconds <= i64::MAX ==> {
                let forward = crate::engine::sessions::sessions(
                    p.events,
                    set.timeline.thresholds.match_window_seconds as int,
                );
                &&& set.layout.timeline_sort == "desc"@ ==> p.timeline_sessions
                    == forward.reverse()
                &&& set.layout.timeline_sort != "desc"@ ==> p.timeline_sessions == forward
            }
            &&& p.warnings.len() == 0 && p.timeline_warnings.len() == 0
            &&& p.layout == set.layout && p.generated == generated
        }),
        ({
            let p = preview_of(set, index, true, text, generated, sizes);
            &&& p.findings.len() == 0
            &&& p.events.len() == 0
            &&& p.system == preview_tables(set, set.system[index], text, sizes)
        }),
        set.fault() is Some ==> preview_fault(set, index, false, text) == set.fault()
            && preview_fault(set, index, true, text) == set.fault(),
        set.fault() is None ==> preview_fault(set, index, false, text) is None,
{
}

proof fn lemma_beside_fault(
    system: Seq<SystemRuleView>,
    s: SystemRuleView,
    text: Seq<char>,
    i: int,
)
    requires
        0 <= i,
    ensures
        crate::engine::preview::beside_fault(system, s, text, i) is None <==> forall|k: int|
            i <= k < system.len() && is_beside(s, #[trigger] system[k]) ==> extract_fault(
                system[k],
                text,
                None,
            ) is None,
    decreases system.len() - i,
{
    if i < system.len() {
        lemma_beside_fault(system, s, text, i + 1);
        assert(shown_beside(s, system[i]) == is_beside(s, system[i]));
    }
}

/// The preview of a table succeeds exactly where the table can be extracted and, for a
/// table of disks, every table that is shown beside it can.
pub proof fn law_previews_need_every_shown_table(
    set: RuleSetView,
    s: SystemRuleView,
    text: Seq<char>,
)
    ensures
        crate::engine::preview::table_preview_fault(set, s, text) is None <==> {
            &&& extract_fault(s, text, None) is None
            &&& s.view == "storage"@ || s.view == "storage-smart"@ ==> forall|k: int|
                0 <= k < set.system.len() && is_beside(s, #[trigger] set.system[k])
                    ==> extract_fault(set.system[k], text, None) is None
        },
{
    lemma_beside_fault(set.system, s, text, 0);
}

} // verus!
