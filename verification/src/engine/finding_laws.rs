//! What is gathered from the files of a package, and how a report orders it.

use crate::engine::events::timeline_notes;
use crate::engine::evidence::limited_finding;
use crate::engine::file::{file_analysis, timeline_ruled};
use crate::engine::findings::{
    by_group, by_rule, by_time, finished, grown_findings, ordered_fragments, rule_groups,
    runs_reversed, with_absent,
};
use crate::engine::hit_laws::gives;
use crate::engine::model::{EventView, FindingView, FragmentView};
use crate::engine::report::report_of;
use crate::engine::scan::ScanView;
use crate::extract::model::TableView;
use crate::order::sorted;
use crate::order_laws::law_sorting_puts_in_order;
use crate::rules::model::{RuleView, SystemRuleView};
use crate::text::before;
use vstd::prelude::*;

verus! {

/// The scan of a file adds its hits and its fragments to the findings of the rules
/// that were applied to it, and leaves all other findings as they are.
pub proof fn law_scans_add_to_their_findings(
    findings: Seq<FindingView>,
    active: Seq<usize>,
    scans: Seq<ScanView>,
    n: int,
    i: int,
)
    requires
        0 <= n <= active.len(),
        scans.len() == active.len(),
        forall|k: int| 0 <= k < active.len() ==> (#[trigger] active[k]) < findings.len(),
        forall|j: int, k: int| 0 <= j < k < active.len() ==> active[j] != active[k],
        0 <= i < findings.len(),
    ensures
        ({
            let g = grown_findings(findings, active, scans, n);
            &&& g.len() == findings.len()
            &&& forall|k: int|
                0 <= k < n && (#[trigger] active[k]) == i && findings[i].count + scans[k].count
                    <= usize::MAX ==> g[i].count == findings[i].count + scans[k].count
                    && g[i].fragments == findings[i].fragments + scans[k].fragments && g[i].status
                    == scans[k].status && g[i].rule == findings[i].rule
            &&& (forall|k: int| 0 <= k < n ==> (#[trigger] active[k]) != i) ==> g[i] == findings[i]
        }),
    decreases n,
{
    if n > 0 {
        law_scans_add_to_their_findings(findings, active, scans, n - 1, i);
        let was = grown_findings(findings, active, scans, n - 1);
        let g = grown_findings(findings, active, scans, n);
        let last = active[n - 1] as int;
        if last == i {
            assert forall|k: int| 0 <= k < n - 1 implies (#[trigger] active[k]) != i by {
                assert(active[k] != active[n - 1]);
            }
            assert(was[i] == findings[i]);
        }
        assert forall|k: int|
            0 <= k < n && (#[trigger] active[k]) == i && findings[i].count + scans[k].count
                <= usize::MAX implies g[i].count == findings[i].count + scans[k].count
            && g[i].fragments == findings[i].fragments + scans[k].fragments && g[i].status
            == scans[k].status && g[i].rule == findings[i].rule by {
            if k < n - 1 {
                assert(active[k] != active[n - 1]);
            }
        }
    }
}

/// Where a finding stands once all files are read: as extracted where there were
/// hits and its logs were read to their ends, else as it was. Its count stays.
pub proof fn law_finished_findings_say_what_was_read(f: FindingView)
    ensures
        finished(f).count == f.count,
        finished(f).rule == f.rule,
        f.count > 0 && f.status != "日志读取不完整"@ ==> finished(f).status == "已提取"@,
        f.count == 0 || f.status == "日志读取不完整"@ ==> finished(f).status == f.status,
        finished(f).fragments == ordered_fragments(f.rule, f.fragments),
{
}

proof fn lemma_times_ordered()
    ensures
        crate::order_laws::orders(by_time()),
{
    crate::order_laws::law_texts_are_ordered();
    let t = crate::order_laws::by_text();
    let lt = by_time();
    assert forall|a: FragmentView, b: FragmentView| #[trigger] lt(a, b) implies !lt(b, a) by {
        assert(t(a.time, b.time));
        assert(!t(b.time, a.time));
    }
    assert forall|a: FragmentView, b: FragmentView, c: FragmentView| #[trigger] lt(a, c) implies
        #[trigger] lt(a, b) || lt(b, c) by {
        assert(t(a.time, c.time));
        assert(t(a.time, b.time) || t(b.time, c.time));
    }
}

/// A rule shows its fragments in the order that it asks for: as they were found, by
/// their times, or by their times from the last to the first.
pub proof fn law_fragments_stand_as_the_rule_asks(
    r: RuleView,
    s: Seq<FragmentView>,
    i: int,
    j: int,
)
    requires
        0 <= i < j < ordered_fragments(r, s).len(),
    ensures
        ({
            let a = ordered_fragments(r, s)[i];
            let b = ordered_fragments(r, s)[j];
            &&& r.sort == "desc"@ ==> !before(a.time, b.time)
            &&& r.sort != "source"@ && r.sort != "desc"@ ==> !before(b.time, a.time)
            &&& r.sort == "source"@ && !r.reverse ==> a == s[i] && b == s[j]
                && ordered_fragments(r, s).len() == s.len()
        }),
{
    reveal_strlit("desc");
    reveal_strlit("source");
    assert("desc"@.len() == 4 && "source"@.len() == 6);
    let a = if r.reverse {
        runs_reversed(s, 0)
    } else {
        s
    };
    let t = sorted(a, by_time());
    lemma_times_ordered();
    law_sorting_puts_in_order(a, by_time());
    if r.sort == "desc"@ {
        let o = ordered_fragments(r, s);
        let n = t.len() as int;
        assert(o[i] == t[n - 1 - i] && o[j] == t[n - 1 - j]);
        assert(!by_time()(t[n - 1 - i], t[n - 1 - j]));
    } else if r.sort != "source"@ {
        assert(!by_time()(t[j], t[i]));
    }
}

proof fn lemma_file_run(s: Seq<FragmentView>, i: int, j: int, e: int)
    requires
        0 <= i < j <= e <= s.len(),
        forall|x: int| j <= x < e ==> (#[trigger] s[x]).file == s[i].file,
        e < s.len() ==> s[e].file != s[i].file,
    ensures
        crate::engine::findings::file_run(s, i, j) == e,
    decreases e - j,
{
    if j < e {
        lemma_file_run(s, i, j + 1, e);
    }
}

proof fn lemma_file_run_shift(a: Seq<FragmentView>, b: Seq<FragmentView>, i: int, j: int)
    requires
        0 <= i < b.len(),
        i <= j <= b.len(),
    ensures
        crate::engine::findings::file_run(a + b, a.len() + i, a.len() + j) == a.len()
            + crate::engine::findings::file_run(b, i, j),
        j <= crate::engine::findings::file_run(b, i, j) <= b.len(),
    decreases b.len() - j,
{
    if j < b.len() {
        assert((a + b)[a.len() + j] == b[j]);
        assert((a + b)[a.len() + i] == b[i]);
        if b[j].file == b[i].file {
            lemma_file_run_shift(a, b, i, j + 1);
        }
    }
}

proof fn lemma_runs_shift(a: Seq<FragmentView>, b: Seq<FragmentView>, i: int)
    requires
        0 <= i <= b.len(),
    ensures
        runs_reversed(a + b, a.len() + i) == runs_reversed(b, i),
    decreases b.len() - i,
{
    let s = a + b;
    let n = a.len() as int;
    if i < b.len() {
        lemma_file_run_shift(a, b, i, i + 1);
        let e = crate::engine::findings::file_run(b, i, i + 1);
        lemma_runs_shift(a, b, e);
        assert(s.subrange(n + i, n + e) =~= b.subrange(i, e));
    }
}

/// A rule that shows its logs from their ends turns the fragments of each file round
/// and leaves the files in their order.
pub proof fn law_reversed_rules_turn_each_file(a: Seq<FragmentView>, b: Seq<FragmentView>)
    requires
        a.len() > 0,
        forall|x: int| 0 <= x < a.len() ==> (#[trigger] a[x]).file == a[0].file,
        b.len() > 0 ==> b[0].file != a[0].file,
    ensures
        runs_reversed(a + b, 0) == a.reverse() + runs_reversed(b, 0),
        runs_reversed(Seq::<FragmentView>::empty(), 0) == Seq::<FragmentView>::empty(),
{
    let s = a + b;
    assert forall|x: int| 1 <= x < a.len() implies (#[trigger] s[x]).file == s[0].file by {
        assert(s[x] == a[x]);
    }
    assert(s[0] == a[0]);
    if b.len() > 0 {
        assert(s[a.len() as int] == b[0]);
    }
    lemma_file_run(s, 0, 1, a.len() as int);
    lemma_runs_shift(a, b, 0);
    assert(s.subrange(0, a.len() as int) =~= a);
}

/// Whether a name stands at a place of a list and nowhere before it.
pub open spec fn first_at(names: Seq<Seq<char>>, name: Seq<char>, p: int) -> bool {
    &&& 0 <= p < names.len()
    &&& names[p] == name
    &&& forall|j: int| 0 <= j < p ==> #[trigger] names[j] != name
}

proof fn lemma_rank(names: Seq<Seq<char>>, name: Seq<char>, p: int)
    ensures
        first_at(names, name, p) ==> crate::engine::findings::rank(names, name) == p,
        !names.contains(name) ==> crate::engine::findings::rank(names, name) == names.len(),
        crate::engine::findings::rank(names, name) <= names.len(),
{
    crate::text::lemma_index_from(names, name, 0);
    if first_at(names, name, p) {
        assert(names.contains(name));
    }
}

/// The findings of a report stand in the order in which their groups first come in
/// the rules, and are those that were gathered.
pub proof fn law_findings_follow_the_groups(
    rules: Seq<RuleView>,
    findings: Seq<FindingView>,
    i: int,
    j: int,
    p: int,
    q: int,
)
    requires
        0 <= i < j < findings.len(),
    ensures
        ({
            let names = Seq::new(rules.len(), |k: int| rules[k].group);
            let out = sorted(findings, by_group(rule_groups(rules)));
            &&& out.len() == findings.len()
            &&& out.to_multiset() == findings.to_multiset()
            &&& first_at(names, out[i].rule.group, p) && first_at(names, out[j].rule.group, q)
                ==> p <= q
            &&& !names.contains(out[i].rule.group) ==> !names.contains(out[j].rule.group)
        }),
{
    let names = Seq::new(rules.len(), |k: int| rules[k].group);
    assert(rule_groups(rules) =~= names);
    let out = sorted(findings, by_group(names));
    crate::engine::report_laws::law_findings_stand_in_group_order(findings, names, findings[0]);
    assert(out.len() == findings.len()) by {
        out.to_multiset_ensures();
        findings.to_multiset_ensures();
    }
    assert(!by_group(names)(out[j], out[i]));
    lemma_rank(names, out[i].rule.group, p);
    lemma_rank(names, out[j].rule.group, q);
    if !names.contains(out[i].rule.group) && names.contains(out[j].rule.group) {
        crate::text::lemma_index_from(names, out[j].rule.group, 0);
    }
}

/// The tables of a report stand in the order of their rules.
pub proof fn law_tables_follow_the_rules(
    ids: Seq<Seq<char>>,
    tables: Seq<TableView>,
    i: int,
    j: int,
    p: int,
    q: int,
)
    requires
        0 <= i < j < tables.len(),
    ensures
        ({
            let out = sorted(tables, by_rule(ids));
            &&& out.len() == tables.len()
            &&& first_at(ids, out[i].id, p) && first_at(ids, out[j].id, q) ==> p <= q
            &&& !ids.contains(out[i].id) ==> !ids.contains(out[j].id)
        }),
{
    let out = sorted(tables, by_rule(ids));
    crate::engine::report_laws::law_tables_stand_in_rule_order(tables, ids);
    assert(out.len() == tables.len()) by {
        out.to_multiset_ensures();
        tables.to_multiset_ensures();
    }
    assert(!by_rule(ids)(out[j], out[i]));
    lemma_rank(ids, out[i].id, p);
    lemma_rank(ids, out[j].id, q);
    if !ids.contains(out[i].id) && ids.contains(out[j].id) {
        crate::text::lemma_index_from(ids, out[j].id, 0);
    }
}

/// Every enabled table is in the report: those that were extracted as they are, and
/// for each rule that gave none an empty one that says what is missing.
pub proof fn law_every_table_is_shown(
    tables: Seq<TableView>,
    rules: Seq<SystemRuleView>,
    n: int,
)
    requires
        0 <= n <= rules.len(),
    ensures
        ({
            let t = with_absent(tables, rules, n);
            &&& t.len() >= tables.len()
            &&& t.take(tables.len() as int) == tables
            &&& forall|k: int|
                0 <= k < n ==> exists|x: int|
                    0 <= x < t.len() && (#[trigger] t[x]).id == (#[trigger] rules[k]).id
            &&& forall|x: int|
                tables.len() <= x < t.len() ==> (#[trigger] t[x]).rows.len() == 0 && exists|k: int|
                    0 <= k < n && (#[trigger] rules[k]).id == t[x].id && t[x].name == rules[k].name
                        && t[x].group == rules[k].group && t[x].fields == rules[k].fields
                        && t[x].warning == (if rules[k].missing.len() == 0 {
                        Seq::empty()
                    } else {
                        rules[k].missing + "：来源缺失或提取失败"@
                    })
        }),
    decreases n,
{
    let t = with_absent(tables, rules, n);
    if n > 0 {
        law_every_table_is_shown(tables, rules, n - 1);
        let was = with_absent(tables, rules, n - 1);
        let r = rules[n - 1];
        let f = crate::engine::findings::has_table(r.id);
        assert(t.take(tables.len() as int) =~= was.take(tables.len() as int));
        assert forall|k: int| 0 <= k < n implies exists|x: int|
            0 <= x < t.len() && (#[trigger] t[x]).id == (#[trigger] rules[k]).id by {
            if k < n - 1 {
                let x = choose|x: int| 0 <= x < was.len() && (#[trigger] was[x]).id == rules[k].id;
                assert(t[x] == was[x]);
            } else if crate::text::any(was, f) {
                let x = choose|x: int| 0 <= x < was.len() && f(#[trigger] was[x]);
                assert(t[x].id == r.id);
            } else {
                assert(t[was.len() as int].id == r.id);
            }
        }
        assert forall|x: int| tables.len() <= x < t.len() implies (#[trigger] t[x]).rows.len() == 0
            && exists|k: int|
            0 <= k < n && (#[trigger] rules[k]).id == t[x].id && t[x].name == rules[k].name
                && t[x].group == rules[k].group && t[x].fields == rules[k].fields && t[x].warning
                == (if rules[k].missing.len() == 0 {
                Seq::empty()
            } else {
                rules[k].missing + "：来源缺失或提取失败"@
            }) by {
            if x < was.len() {
                assert(t[x] == was[x]);
                let k = choose|k: int|
                    0 <= k < n - 1 && (#[trigger] rules[k]).id == was[x].id && was[x].name
                        == rules[k].name && was[x].group == rules[k].group && was[x].fields
                        == rules[k].fields && was[x].warning == (if rules[k].missing.len() == 0 {
                        Seq::empty()
                    } else {
                        rules[k].missing + "：来源缺失或提取失败"@
                    });
                assert(rules[k].id == t[x].id);
            } else {
                assert(rules[n - 1].id == t[x].id);
            }
        }
    } else {
        assert(t.take(tables.len() as int) =~= tables);
    }
}

/// A report shows no more than five hundred hits of a rule, and all of them where
/// there are no more; it always counts all of them.
pub proof fn law_reports_show_five_hundred_hits(f: FindingView)
    ensures
        f.count <= 500 ==> limited_finding(f) == f,
        limited_finding(f).count == f.count,
        limited_finding(f).rule == f.rule,
        limited_finding(f).status == f.status,
        f.count > 500 ==> exists|hits: Seq<(Seq<char>, usize)>|
            hits.len() <= 500 && #[trigger] crate::engine::report_laws::hits_among(
                limited_finding(f).fragments,
                hits,
            ),
{
    if f.count > 500 {
        crate::engine::report_laws::law_evidence_is_limited(f);
    }
}

/// What a reader is told of a timeline: that the vendor's record is missing where no
/// event comes from one, and that times are not complete where one is not.
pub proof fn law_timelines_say_what_is_missing(events: Seq<EventView>)
    ensures
        ({
            let notes = timeline_notes(events);
            let recorded = exists|i: int, j: int|
                0 <= i < events.len() && 0 <= j < events[i].sources.len()
                    && crate::engine::plan::is_reset_file(
                    (#[trigger] events[i].sources[j]).file,
                );
            let partial = exists|i: int|
                0 <= i < events.len() && (#[trigger] events[i]).time_precision == "partial"@;
            &&& notes.contains(
                "未发现 ug_reset_reason.log；厂商复位原因不可用，未知复位不会被自动判定为断电。"@,
            ) <==> !recorded
            &&& notes.contains(
                "部分时间只有局部时间或无法统一到绝对时间，跨日志来源未强行合并。"@,
            ) <==> partial
            &&& notes.len() <= 2
        }),
{
    let a = "未发现 ug_reset_reason.log；厂商复位原因不可用，未知复位不会被自动判定为断电。"@;
    let b = "部分时间只有局部时间或无法统一到绝对时间，跨日志来源未强行合并。"@;
    reveal_strlit("未发现 ug_reset_reason.log；厂商复位原因不可用，未知复位不会被自动判定为断电。");
    reveal_strlit("部分时间只有局部时间或无法统一到绝对时间，跨日志来源未强行合并。");
    assert(a[0] == '未' && b[0] == '部');
    let f = crate::engine::events::has_reset_source();
    let g = crate::engine::events::from_reset_file();
    let h = crate::engine::events::is_partial();
    let recorded = exists|i: int, j: int|
        0 <= i < events.len() && 0 <= j < events[i].sources.len()
            && crate::engine::plan::is_reset_file((#[trigger] events[i].sources[j]).file);
    let partial = exists|i: int|
        0 <= i < events.len() && (#[trigger] events[i]).time_precision == "partial"@;
    assert(crate::text::any(events, f) == recorded) by {
        if crate::text::any(events, f) {
            let i = choose|i: int| 0 <= i < events.len() && f(#[trigger] events[i]);
            let j = choose|j: int|
                0 <= j < events[i].sources.len() && g(#[trigger] events[i].sources[j]);
            assert(crate::engine::plan::is_reset_file(events[i].sources[j].file));
        }
        if recorded {
            let (i, j) = choose|i: int, j: int|
                0 <= i < events.len() && 0 <= j < events[i].sources.len()
                    && crate::engine::plan::is_reset_file((#[trigger] events[i].sources[j]).file);
            assert(g(events[i].sources[j]));
            assert(f(events[i]));
        }
    }
    assert(crate::text::any(events, h) == partial) by {
        if crate::text::any(events, h) {
            let i = choose|i: int| 0 <= i < events.len() && h(#[trigger] events[i]);
            assert(events[i].time_precision == "partial"@);
        }
        if partial {
            let i = choose|i: int|
                0 <= i < events.len() && (#[trigger] events[i]).time_precision == "partial"@;
            assert(h(events[i]));
        }
    }
    let notes = timeline_notes(events);
    if recorded && partial {
        assert(notes =~= seq![b]);
        assert(notes[0] == b);
    } else if recorded {
        assert(notes =~= Seq::empty());
    } else if partial {
        assert(notes =~= seq![a, b]);
        assert(notes[0] == a && notes[1] == b);
    } else {
        assert(notes =~= seq![a]);
        assert(notes[0] == a);
    }
}

/// A report goes back in time where the layout says so and forward otherwise, with
/// its events as with its sessions; the sessions are those of its events.
pub proof fn law_reports_go_one_way(
    set: crate::rules::model::RuleSetView,
    g: crate::engine::findings::GatheredView,
    paths: Seq<Seq<char>>,
    package: Seq<char>,
    generated: Seq<char>,
    volumes: crate::engine::findings::Volumes,
    i: int,
    j: int,
)
    requires
        0 <= i < j,
    ensures
        ({
            let r = report_of(set, g, paths, package, generated, volumes);
            let back = set.layout.timeline_sort == "desc"@;
            let own = crate::engine::sessions::sessions(
                r.events,
                crate::engine::report::window_of(set.timeline.thresholds.match_window_seconds),
            );
            &&& j < r.events.len() && r.events[i].key is Some && r.events[j].key is Some ==> (
            if back {
                !before(r.events[i].key->0, r.events[j].key->0)
            } else {
                !before(r.events[j].key->0, r.events[i].key->0)
            })
            &&& r.timeline_sessions.len() == own.len()
            &&& j < own.len() ==> (if back {
                r.timeline_sessions[i] == own[own.len() - 1 - i]
            } else {
                r.timeline_sessions[i] == own[i]
            })
            &&& r.timeline_facts == r.events
            &&& r.package == package && r.generated == generated && r.layout == set.layout
            &&& r.log_files == set.log_files && r.warnings == g.warnings
        }),
{
    let r = report_of(set, g, paths, package, generated, volumes);
    let back = set.layout.timeline_sort == "desc"@;
    if j < r.events.len() {
        crate::engine::report_laws::law_shown_events_follow_the_clock(
            crate::engine::report::full_findings(set, g.findings, volumes),
            g.events,
            back,
            i,
            j,
        );
    }
}

/// Whether a source of a rule that feeds the timeline stands for a file.
pub open spec fn is_ruled(
    rules: Seq<crate::engine::scan::PreparedRuleView>,
    name: Seq<char>,
) -> bool {
    exists|k: int, i: int|
        0 <= k < rules.len() && 0 <= i < rules[k].rule.sources.len() && rules[k].rule.target
            != "keywords"@ && (#[trigger] rules[k].rule.sources[i]).covers(name)
}

/// Whether a line of a file gives an event, on its own or by a rule.
pub open spec fn some_line_gives(t: crate::engine::scan::Task, e: EventView) -> bool {
    exists|i: int|
        0 <= i < t.lines.len() && #[trigger] gives(t, i, t.active.len() as int, e)
}

/// What the analysis of a file finds: the scans of the rules that are applied to it,
/// the records where it is the vendor's reset file, and the facts that its lines show
/// of themselves only where no rule that feeds the timeline reads the file.
pub proof fn law_files_show_facts_where_no_rule_does(
    name: Seq<char>,
    c: crate::engine::scan::Content,
    tables: Seq<SystemRuleView>,
    asked: Seq<usize>,
    rules: Seq<crate::engine::scan::PreparedRuleView>,
    active: Seq<usize>,
    sizes: crate::extract::format::Sizes,
    e: EventView,
)
    ensures
        ({
            let a = file_analysis(name, c, tables, asked, rules, active, sizes);
            let lines = crate::engine::scan::content_lines(c);
            let t = crate::engine::scan::Task {
                file: name,
                lines,
                rules,
                active,
                automatic: !is_ruled(rules, name),
            };
            let path = crate::text::swap_char(name, '\\', '/');
            let recorded = crate::text::finishes(path, "/pstore/ug_reset_reason.log"@)
                && crate::engine::file::content_text(c) is Ok;
            &&& a.scans.len() == active.len()
            &&& a.events.contains(e) <==> (recorded && crate::engine::facts::reset_events(
                name,
                crate::engine::file::content_text(c)->Ok_0,
            ).contains(e)) || some_line_gives(t, e)
        }),
{
    let lines = crate::engine::scan::content_lines(c);
    let ruled = is_ruled(rules, name);
    let f = crate::engine::file::feeds_timeline(name);
    let g = crate::engine::file::source_covers(name);
    assert(timeline_ruled(rules, name) == ruled) by {
        if timeline_ruled(rules, name) {
            let k = choose|k: int| 0 <= k < rules.len() && f(#[trigger] rules[k]);
            let i = choose|i: int|
                0 <= i < rules[k].rule.sources.len() && g(#[trigger] rules[k].rule.sources[i]);
            assert(rules[k].rule.sources[i].covers(name));
        }
        if ruled {
            let (k, i) = choose|k: int, i: int|
                0 <= k < rules.len() && 0 <= i < rules[k].rule.sources.len() && rules[k].rule.target
                    != "keywords"@ && (#[trigger] rules[k].rule.sources[i]).covers(name);
            assert(g(rules[k].rule.sources[i]));
            assert(f(rules[k]));
        }
    }
    let t = crate::engine::scan::Task { file: name, lines, rules, active, automatic: !ruled };
    crate::engine::hit_laws::law_events_come_from_lines(t, lines.len() as int, e);
    let text = crate::engine::file::content_text(c);
    let first = crate::engine::file::record_events(name, text);
    let rest = t.events(lines.len() as int);
    let all = first + rest;
    assert(file_analysis(name, c, tables, asked, rules, active, sizes).events == all);
    if all.contains(e) {
        let i = choose|i: int| 0 <= i < all.len() && all[i] == e;
        if i < first.len() {
            assert(first[i] == e);
            assert(first.contains(e));
        } else {
            assert(rest[i - first.len()] == e);
            assert(rest.contains(e));
        }
    }
    if first.contains(e) {
        let i = choose|i: int| 0 <= i < first.len() && first[i] == e;
        assert(all[i] == e);
    }
    if rest.contains(e) {
        let i = choose|i: int| 0 <= i < rest.len() && rest[i] == e;
        assert(all[first.len() + i] == e);
    }
    let given = some_line_gives(t, e);
    assert(rest.contains(e) == given);
    assert(all.contains(e) == (first.contains(e) || given));
    let found = crate::engine::facts::reset_events(name, text->Ok_0);
    if crate::engine::plan::is_reset_file(name) && text is Ok {
        assert(first == found);
    } else {
        assert(!first.contains(e));
    }
    let path = crate::text::swap_char(name, '\\', '/');
    let recorded = crate::text::finishes(path, "/pstore/ug_reset_reason.log"@) && text is Ok;
    assert(recorded == (crate::engine::plan::is_reset_file(name) && text is Ok));
    let a = file_analysis(name, c, tables, asked, rules, active, sizes);
    assert(a.events.contains(e) == all.contains(e));
    assert(a.events.contains(e) == ((recorded && found.contains(e)) || given));
    assert(a.scans.len() == active.len());
}

/// How many of the first `n` lines are hits.
pub open spec fn hits_in(lines: Seq<crate::engine::model::LogLineView>, n: int) -> nat
    decreases n,
{
    if n <= 0 {
        0
    } else {
        hits_in(lines, n - 1) + (if lines[n - 1].hit {
            1nat
        } else {
            0nat
        })
    }
}

/// How many hits the first `n` fragments show.
pub open spec fn hits_of(s: Seq<FragmentView>, n: int) -> nat
    decreases n,
{
    if n <= 0 {
        0
    } else {
        hits_of(s, n - 1) + hits_in(s[n - 1].lines, s[n - 1].lines.len() as int)
    }
}

proof fn lemma_walk(
    file: Seq<char>,
    lines: Seq<crate::engine::model::LogLineView>,
    i: int,
    seen: Seq<(Seq<char>, usize)>,
)
    requires
        0 <= i <= lines.len(),
        seen.len() + hits_in(lines, lines.len() as int) - hits_in(lines, i) <= 500,
    ensures
        ({
            let (next, stop) = crate::engine::evidence::walk(file, lines, i, seen);
            &&& stop is None
            &&& next.len() <= seen.len() + hits_in(lines, lines.len() as int) - hits_in(lines, i)
        }),
    decreases lines.len() - i,
{
    if i < lines.len() {
        lemma_hits_grow(lines, i + 1, lines.len() as int);
        if !lines[i].hit || seen.contains((file, lines[i].number)) {
            lemma_walk(file, lines, i + 1, seen);
        } else {
            lemma_walk(file, lines, i + 1, seen.push((file, lines[i].number)));
        }
    }
}

proof fn lemma_hits_grow(lines: Seq<crate::engine::model::LogLineView>, i: int, n: int)
    requires
        0 <= i <= n,
    ensures
        hits_in(lines, i) <= hits_in(lines, n),
    decreases n - i,
{
    if i < n {
        lemma_hits_grow(lines, i, n - 1);
    }
}

proof fn lemma_limited(
    s: Seq<FragmentView>,
    i: int,
    k: int,
    seen: Seq<(Seq<char>, usize)>,
)
    requires
        0 <= i <= k <= s.len(),
        seen.len() + hits_of(s, k) - hits_of(s, i) <= 500,
        forall|j: int|
            0 <= j < k ==> hits_in((#[trigger] s[j]).lines, s[j].lines.len() as int) > 0,
    ensures
        crate::engine::evidence::limited(s, i, seen).len() >= k - i,
        crate::engine::evidence::limited(s, i, seen).take(k - i) == s.subrange(i, k),
    decreases k - i,
{
    let out = crate::engine::evidence::limited(s, i, seen);
    if i < k {
        let f = s[i];
        lemma_total_grow(s, i + 1, k);
        lemma_walk(f.file, f.lines, 0, seen);
        let (next, stop) = crate::engine::evidence::walk(f.file, f.lines, 0, seen);
        lemma_some_hit(f.lines, f.lines.len() as int);
        lemma_limited(s, i + 1, k, next);
        let rest = crate::engine::evidence::limited(s, i + 1, next);
        assert(out == seq![f] + rest);
        assert(out.take(k - i) =~= seq![f] + rest.take(k - i - 1));
        assert(s.subrange(i, k) =~= seq![f] + s.subrange(i + 1, k));
    } else {
        assert(out.take(0) =~= s.subrange(i, i));
    }
}

proof fn lemma_some_hit(lines: Seq<crate::engine::model::LogLineView>, n: int)
    requires
        0 <= n <= lines.len(),
        hits_in(lines, n) > 0,
    ensures
        crate::engine::evidence::holds_hit(lines),
    decreases n,
{
    if n > 0 && !lines[n - 1].hit {
        lemma_some_hit(lines, n - 1);
    }
}

proof fn lemma_total_grow(s: Seq<FragmentView>, i: int, n: int)
    requires
        0 <= i <= n,
    ensures
        hits_of(s, i) <= hits_of(s, n),
    decreases n - i,
{
    if i < n {
        lemma_total_grow(s, i, n - 1);
    }
}

/// The fragments of a report are shown whole from the first on, as long as they show no
/// more than five hundred hits together.
pub proof fn law_the_first_hits_are_shown_whole(f: FindingView, k: int)
    requires
        0 <= k <= f.fragments.len(),
        hits_of(f.fragments, k) <= 500,
        forall|j: int|
            0 <= j < k ==> hits_in(
                (#[trigger] f.fragments[j]).lines,
                f.fragments[j].lines.len() as int,
            ) > 0,
    ensures
        limited_finding(f).fragments.len() >= k,
        limited_finding(f).fragments.take(k) == f.fragments.take(k),
{
    lemma_limited(f.fragments, 0, k, Seq::empty());
    assert(f.fragments.subrange(0, k) =~= f.fragments.take(k));
}

proof fn lemma_counted(lines: Seq<crate::engine::model::LogLineView>, n: int, i: int)
    requires
        0 <= i < n <= lines.len(),
        lines[i].hit,
    ensures
        hits_in(lines, n) > 0,
    decreases n,
{
    if i < n - 1 {
        lemma_counted(lines, n - 1, i);
    }
}

/// A fragment that is left without a hit is not shown.
pub proof fn law_fragments_without_hits_are_left_out(f: FragmentView)
    ensures
        hits_in(f.lines, f.lines.len() as int) > 0 ==> crate::engine::evidence::with_hit(f) == seq![
            f,
        ],
        hits_in(f.lines, f.lines.len() as int) == 0 ==> crate::engine::evidence::with_hit(f).len()
            == 0,
{
    if hits_in(f.lines, f.lines.len() as int) > 0 {
        lemma_some_hit(f.lines, f.lines.len() as int);
    }
    if crate::engine::evidence::holds_hit(f.lines) {
        let i = choose|i: int| 0 <= i < f.lines.len() && (#[trigger] f.lines[i]).hit;
        lemma_counted(f.lines, f.lines.len() as int, i);
    }
}

} // verus!
