//! What a report keeps of what was found.

use crate::engine::events::{by_moment, merged_events, report_events, same_moment, with_context};
use crate::engine::evidence::{limited, limited_finding, walk, with_hit, HIT_LIMIT};
use crate::engine::model::{EventView, FindingView, FragmentView, LogLineView};
use crate::engine::findings::{
    by_group, by_rule, by_time, file_run, ordered_fragments, runs_reversed,
};
use crate::extract::model::TableView;
use crate::order::sorted;
use crate::order_laws::{
    by_text, in_order, law_sorting_is_stable, law_sorting_keeps_elements, law_sorting_puts_in_order,
    law_texts_are_ordered, orders, ties,
};
use crate::rules::model::RuleView;
use crate::select::lemma_first_holds;
use crate::text::{before, first_place, kept};
use vstd::prelude::*;

verus! {

proof fn lemma_walk(
    file: Seq<char>,
    lines: Seq<LogLineView>,
    i: int,
    seen: Seq<(Seq<char>, usize)>,
)
    requires
        0 <= i <= lines.len(),
        seen.len() <= HIT_LIMIT,
    ensures
        ({
            let (next, stop) = walk(file, lines, i, seen);
            let end = match stop {
                Some(e) => e,
                None => lines.len() as int,
            };
            &&& next.len() <= HIT_LIMIT
            &&& i <= end <= lines.len()
            &&& forall|p: (Seq<char>, usize)| #[trigger] seen.contains(p) ==> next.contains(p)
            &&& forall|k: int|
                i <= k < end && (#[trigger] lines[k]).hit ==> next.contains(
                    (file, lines[k].number),
                )
        }),
    decreases lines.len() - i,
{
    if i < lines.len() {
        if !lines[i].hit || seen.contains((file, lines[i].number)) {
            lemma_walk(file, lines, i + 1, seen);
        } else if seen.len() != HIT_LIMIT {
            let more = seen.push((file, lines[i].number));
            lemma_walk(file, lines, i + 1, more);
            assert(more[seen.len() as int] == (file, lines[i].number));
            assert(more.contains((file, lines[i].number)));
            assert forall|p: (Seq<char>, usize)| #[trigger] seen.contains(p) implies walk(
                file,
                lines,
                i,
                seen,
            ).0.contains(p) by {
                let k = choose|k: int| 0 <= k < seen.len() && seen[k] == p;
                assert(more[k] == p);
                assert(more.contains(p));
            }
        }
    }
}

/// The hits that the walk through the fragments from number `i` on meets.
pub open spec fn met(s: Seq<FragmentView>, i: int, seen: Seq<(Seq<char>, usize)>) -> Seq<
    (Seq<char>, usize),
>
    decreases s.len() - i,
{
    if i >= s.len() {
        seen
    } else {
        let (next, stop) = walk(s[i].file, s[i].lines, 0, seen);
        match stop {
            Some(_) => next,
            None => met(s, i + 1, next),
        }
    }
}

/// Whether the hits of the fragments are all among some.
pub open spec fn hits_among(s: Seq<FragmentView>, hits: Seq<(Seq<char>, usize)>) -> bool {
    forall|k: int, j: int|
        0 <= k < s.len() && 0 <= j < s[k].lines.len() && (#[trigger] s[k].lines[j]).hit
            ==> hits.contains((s[k].file, s[k].lines[j].number))
}

proof fn lemma_limited(s: Seq<FragmentView>, i: int, seen: Seq<(Seq<char>, usize)>)
    requires
        0 <= i,
        seen.len() <= HIT_LIMIT,
    ensures
        met(s, i, seen).len() <= HIT_LIMIT,
        forall|p: (Seq<char>, usize)| #[trigger] seen.contains(p) ==> met(s, i, seen).contains(p),
        hits_among(limited(s, i, seen), met(s, i, seen)),
    decreases s.len() - i,
{
    if i < s.len() {
        let (next, stop) = walk(s[i].file, s[i].lines, 0, seen);
        lemma_walk(s[i].file, s[i].lines, 0, seen);
        let out = limited(s, i, seen);
        let all = met(s, i, seen);
        if stop is Some {
            let cut = FragmentView { lines: s[i].lines.take(stop->0), ..s[i] };
            assert(out == with_hit(cut));
            assert forall|k: int, j: int|
                0 <= k < out.len() && 0 <= j < out[k].lines.len() && (
                #[trigger] out[k].lines[j]).hit implies all.contains(
                (out[k].file, out[k].lines[j].number),
            ) by {
                assert(out[k] == cut);
                assert(cut.lines[j] == s[i].lines[j]);
            }
        } else {
            lemma_limited(s, i + 1, next);
            let first = with_hit(s[i]);
            let rest = limited(s, i + 1, next);
            assert(out == first + rest);
            assert forall|k: int, j: int|
                0 <= k < out.len() && 0 <= j < out[k].lines.len() && (
                #[trigger] out[k].lines[j]).hit implies all.contains(
                (out[k].file, out[k].lines[j].number),
            ) by {
                if k < first.len() {
                    assert(out[k] == s[i]);
                    assert(s[i].lines[j].hit);
                    assert(next.contains((s[i].file, s[i].lines[j].number)));
                } else {
                    assert(out[k] == rest[k - first.len()]);
                    assert(rest[k - first.len()].lines[j].hit);
                }
            }
            assert forall|p: (Seq<char>, usize)| #[trigger] seen.contains(p) implies all.contains(
                p,
            ) by {
                assert(next.contains(p));
            }
        }
    }
}

/// A report of a rule with many hits shows no more than the limit of distinct
/// ones, and still counts all of them.
pub proof fn law_evidence_is_limited(f: FindingView)
    requires
        f.count > HIT_LIMIT,
    ensures
        limited_finding(f).count == f.count,
        exists|hits: Seq<(Seq<char>, usize)>|
            hits.len() <= HIT_LIMIT && #[trigger] hits_among(limited_finding(f).fragments, hits),
{
    let none = Seq::<(Seq<char>, usize)>::empty();
    lemma_limited(f.fragments, 0, none);
    assert(hits_among(limited_finding(f).fragments, met(f.fragments, 0, none)));
}

/// A report of a rule with few hits shows all of them.
pub proof fn law_few_hits_are_all_shown(f: FindingView)
    requires
        f.count <= HIT_LIMIT,
    ensures
        limited_finding(f) == f,
{
}

/// Merging loses no source of an event: it is among the sources of the merged
/// event that tells the same at the same moment.
pub proof fn law_merging_keeps_sources(s: Seq<EventView>, n: int, i: int, source: FragmentView)
    requires
        0 <= i < n <= s.len(),
        s[i].sources.contains(source),
    ensures
        exists|k: int|
            0 <= k < merged_events(s, n).len() && same_moment(s[i])(
                #[trigger] merged_events(s, n)[k],
            ) && merged_events(s, n)[k].sources.contains(source),
    decreases n,
{
    let m = merged_events(s, n - 1);
    let out = merged_events(s, n);
    let e = s[n - 1];
    let f = same_moment(e);
    lemma_first_holds(m, f, 0);
    let at = first_place(m, f, 0);
    if i < n - 1 {
        law_merging_keeps_sources(s, n - 1, i, source);
        let k = choose|k: int|
            0 <= k < m.len() && same_moment(s[i])(#[trigger] m[k]) && m[k].sources.contains(
                source,
            );
        if at == Some(k) && e.key is Some {
            let a = m[k].sources;
            let j = choose|j: int| 0 <= j < a.len() && a[j] == source;
            assert((a + e.sources)[j] == source);
            assert(out[k].sources.contains(source));
        } else {
            assert(out[k] == m[k]);
        }
        assert(same_moment(s[i])(out[k]));
    } else if at is Some && e.key is Some {
        let k = at->0;
        let a = m[k].sources;
        let j = choose|j: int| 0 <= j < e.sources.len() && e.sources[j] == source;
        assert((a + e.sources)[a.len() + j] == source);
        assert(out[k].sources.contains(source));
        assert(same_moment(s[i])(out[k]));
    } else {
        assert(out[m.len() as int] == e);
        assert(same_moment(s[i])(out[m.len() as int]));
    }
}

/// An event without a complete time is never merged with another.
pub proof fn law_incomplete_times_are_not_merged(s: Seq<EventView>, n: int, i: int)
    requires
        0 <= i < n <= s.len(),
        s[i].key is None,
    ensures
        merged_events(s, n).contains(s[i]),
    decreases n,
{
    let m = merged_events(s, n - 1);
    let out = merged_events(s, n);
    let e = s[n - 1];
    lemma_first_holds(m, same_moment(e), 0);
    if i < n - 1 {
        law_incomplete_times_are_not_merged(s, n - 1, i);
        let k = choose|k: int| 0 <= k < m.len() && m[k] == s[i];
        assert(out[k] == s[i]);
    } else {
        assert(out[m.len() as int] == e);
    }
}

/// Merged events with a complete time differ in what they tell or when.
pub proof fn law_merged_events_differ(s: Seq<EventView>, n: int, j: int, k: int)
    requires
        0 <= n <= s.len(),
        0 <= j < k < merged_events(s, n).len(),
        merged_events(s, n)[k].key is Some,
    ensures
        !same_moment(merged_events(s, n)[k])(merged_events(s, n)[j]),
    decreases n,
{
    let m = merged_events(s, n - 1);
    let out = merged_events(s, n);
    let e = s[n - 1];
    lemma_first_holds(m, same_moment(e), 0);
    if k < m.len() {
        law_merged_events_differ(s, n - 1, j, k);
    }
}

/// The comparison of a report's events orders them.
pub proof fn law_events_are_ordered(desc: bool)
    ensures
        orders(by_moment(desc)),
{
    law_texts_are_ordered();
    let t = by_text();
    let lt = by_moment(desc);
    assert forall|a: EventView, b: EventView| #[trigger] lt(a, b) implies !lt(b, a) by {
        if a.key is Some && b.key is Some {
            assert(t(a.key->0, b.key->0) == before(a.key->0, b.key->0));
            assert(t(b.key->0, a.key->0) == before(b.key->0, a.key->0));
        } else {
            assert(t(a.time, b.time) == before(a.time, b.time));
        }
    }
    assert forall|a: EventView, b: EventView, c: EventView| #[trigger] lt(a, c) implies
        #[trigger] lt(a, b) || lt(b, c) by {
        if a.key is Some && b.key is Some && c.key is Some {
            let x = a.key->0;
            let y = b.key->0;
            let z = c.key->0;
            assert(t(x, z) == before(x, z) && t(z, x) == before(z, x));
            assert(t(x, y) == before(x, y) && t(y, x) == before(y, x));
            assert(t(y, z) == before(y, z) && t(z, y) == before(z, y));
        } else {
            assert(t(a.time, c.time) == before(a.time, c.time));
            assert(t(a.time, b.time) == before(a.time, b.time));
            assert(t(b.time, c.time) == before(b.time, c.time));
        }
    }
}

/// The events of a report stand in the chosen order, those without a complete
/// time behind the others.
pub proof fn law_report_events_stand_in_order(
    findings: Seq<FindingView>,
    events: Seq<EventView>,
    desc: bool,
)
    ensures
        in_order(report_events(findings, events, desc), by_moment(desc)),
{
    law_events_are_ordered(desc);
    let placed = Seq::new(events.len(), |i: int| with_context(findings, events[i]));
    law_sorting_puts_in_order(merged_events(placed, placed.len() as int), by_moment(desc));
}

/// The findings of a report are those that were found, in the order in which
/// their groups come first in the rules; within a group they keep their order.
pub proof fn law_findings_stand_in_group_order(
    findings: Seq<FindingView>,
    groups: Seq<Seq<char>>,
    f: FindingView,
)
    ensures
        sorted(findings, by_group(groups)).to_multiset() == findings.to_multiset(),
        in_order(sorted(findings, by_group(groups)), by_group(groups)),
        kept(sorted(findings, by_group(groups)), ties(by_group(groups), f), 0) == kept(
            findings,
            ties(by_group(groups), f),
            0,
        ),
{
    let lt = by_group(groups);
    assert(orders(lt));
    law_sorting_keeps_elements(findings, lt);
    law_sorting_puts_in_order(findings, lt);
    law_sorting_is_stable(findings, lt, f);
}

/// The tables of a report are those that were extracted, in the order of their
/// rules.
pub proof fn law_tables_stand_in_rule_order(tables: Seq<TableView>, ids: Seq<Seq<char>>)
    ensures
        sorted(tables, by_rule(ids)).to_multiset() == tables.to_multiset(),
        in_order(sorted(tables, by_rule(ids)), by_rule(ids)),
{
    let lt = by_rule(ids);
    assert(orders(lt));
    law_sorting_keeps_elements(tables, lt);
    law_sorting_puts_in_order(tables, lt);
}

proof fn lemma_reverse_multiset<A>(s: Seq<A>)
    ensures
        s.reverse().to_multiset() == s.to_multiset(),
    decreases s.len(),
{
    broadcast use vstd::seq_lib::group_to_multiset_ensures;

    if s.len() > 0 {
        let tail = s.skip(1);
        lemma_reverse_multiset(tail);
        assert(s.reverse() =~= tail.reverse().push(s[0]));
        assert(s =~= seq![s[0]] + tail);
        crate::select::lemma_front_multiset(s[0], tail);
        assert(s.reverse().to_multiset() =~= s.to_multiset());
    } else {
        assert(s.reverse() =~= s);
    }
}

proof fn lemma_run_end(s: Seq<FragmentView>, i: int, j: int)
    requires
        0 <= i < j <= s.len(),
    ensures
        i < file_run(s, i, j) <= s.len(),
    decreases s.len() - j,
{
    if j < s.len() && s[j].file == s[i].file {
        lemma_run_end(s, i, j + 1);
    }
}

proof fn lemma_runs_multiset(s: Seq<FragmentView>, i: int)
    requires
        0 <= i <= s.len(),
    ensures
        runs_reversed(s, i).to_multiset() == s.skip(i).to_multiset(),
    decreases s.len() - i,
{
    broadcast use vstd::seq_lib::group_to_multiset_ensures;

    if i < s.len() {
        lemma_run_end(s, i, i + 1);
        let e = file_run(s, i, i + 1);
        lemma_runs_multiset(s, e);
        let run = s.subrange(i, e);
        lemma_reverse_multiset(run);
        vstd::seq_lib::lemma_multiset_commutative(run.reverse(), runs_reversed(s, e));
        vstd::seq_lib::lemma_multiset_commutative(run, s.skip(e));
        assert(run + s.skip(e) =~= s.skip(i));
        assert(runs_reversed(s, i).to_multiset() =~= s.skip(i).to_multiset());
    } else {
        assert(runs_reversed(s, i) =~= s.skip(i));
    }
}

/// However a rule orders its fragments, all of them are shown.
pub proof fn law_ordering_keeps_fragments(r: RuleView, s: Seq<FragmentView>)
    ensures
        ordered_fragments(r, s).to_multiset() == s.to_multiset(),
{
    let a = if r.reverse {
        runs_reversed(s, 0)
    } else {
        s
    };
    lemma_runs_multiset(s, 0);
    assert(s.skip(0) =~= s);
    law_sorting_keeps_elements(a, by_time());
    lemma_reverse_multiset(sorted(a, by_time()));
}

/// Of two events of a report that have complete times, the first one is not later
/// where the report goes forward in time, and not earlier where it goes back. Events
/// without complete times stand behind all others, by their times as written.
pub proof fn law_shown_events_follow_the_clock(
    findings: Seq<FindingView>,
    events: Seq<EventView>,
    desc: bool,
    i: int,
    j: int,
)
    requires
        0 <= i < j < report_events(findings, events, desc).len(),
    ensures
        ({
            let a = report_events(findings, events, desc)[i];
            let b = report_events(findings, events, desc)[j];
            &&& a.key is Some && b.key is Some && !desc ==> !before(b.key->0, a.key->0)
            &&& a.key is Some && b.key is Some && desc ==> !before(a.key->0, b.key->0)
            &&& a.key is None ==> b.key is None && !before(b.time, a.time)
        }),
{
    law_report_events_stand_in_order(findings, events, desc);
    let s = report_events(findings, events, desc);
    assert(!by_moment(desc)(s[j], s[i]));
}

/// Whether two events tell the same: by their names and groups, at the same key.
pub open spec fn tell_the_same(a: EventView, b: EventView) -> bool {
    a.name == b.name && a.group == b.group && a.key == b.key
}

/// Whether an event holds a source of one of the first `n` events that tells the
/// same.
pub open spec fn is_source_of(source: FragmentView, e: EventView, s: Seq<EventView>, n: int) -> bool {
    exists|i: int|
        0 <= i < n && tell_the_same(#[trigger] s[i], e) && s[i].sources.contains(source)
}

proof fn lemma_merged_sources(s: Seq<EventView>, n: int)
    requires
        0 <= n <= s.len(),
    ensures
        forall|k: int, source: FragmentView|
            0 <= k < merged_events(s, n).len() && (#[trigger] merged_events(
                s,
                n,
            )[k]).sources.contains(source) ==> #[trigger] is_source_of(
                source,
                merged_events(s, n)[k],
                s,
                n,
            ),
        forall|k: int|
            0 <= k < merged_events(s, n).len() ==> exists|i: int|
                0 <= i < n && tell_the_same(#[trigger] s[i], #[trigger] merged_events(s, n)[k])
                    && s[i].time == merged_events(s, n)[k].time && s[i].event_type
                    == merged_events(s, n)[k].event_type,
    decreases n,
{
    let m = merged_events(s, n);
    if n > 0 {
        lemma_merged_sources(s, n - 1);
        let was = merged_events(s, n - 1);
        let e = s[n - 1];
        lemma_first_holds(was, same_moment(e), 0);
        assert forall|k: int, source: FragmentView|
            0 <= k < m.len() && (#[trigger] m[k]).sources.contains(source) implies #[trigger]
            is_source_of(source, m[k], s, n) by {
            if k < was.len() && was[k].sources.contains(source) {
                assert(is_source_of(source, was[k], s, n - 1));
                let i = choose|i: int|
                    0 <= i < n - 1 && tell_the_same(#[trigger] s[i], was[k])
                        && s[i].sources.contains(source);
                assert(tell_the_same(s[i], m[k]));
            } else {
                assert(tell_the_same(s[n - 1], m[k]));
                if k < was.len() {
                    let all = was[k].sources + e.sources;
                    let x = choose|x: int| 0 <= x < all.len() && all[x] == source;
                    if x < was[k].sources.len() {
                        assert(was[k].sources[x] == source);
                    } else {
                        assert(e.sources[x - was[k].sources.len()] == source);
                    }
                }
            }
        }
        assert forall|k: int| 0 <= k < m.len() implies exists|i: int|
            0 <= i < n && tell_the_same(#[trigger] s[i], #[trigger] m[k]) && s[i].time == m[k].time
                && s[i].event_type == m[k].event_type by {
            if k < was.len() {
                let i = choose|i: int|
                    0 <= i < n - 1 && tell_the_same(#[trigger] s[i], was[k]) && s[i].time
                        == was[k].time && s[i].event_type == was[k].event_type;
                assert(tell_the_same(s[i], m[k]));
            } else {
                assert(tell_the_same(s[n - 1], m[k]));
            }
        }
    }
}

/// Merging adds nothing: every event that comes out is one that went in, and every
/// source that it shows is a source of an event with its name, its group and its
/// key. It loses nothing either, and two events with one key that tell the same are
/// one.
pub proof fn law_merged_events_tell_the_same(s: Seq<EventView>)
    ensures
        ({
            let m = merged_events(s, s.len() as int);
            &&& forall|k: int, source: FragmentView|
                0 <= k < m.len() && (#[trigger] m[k]).sources.contains(source)
                    ==> #[trigger] is_source_of(source, m[k], s, s.len() as int)
            &&& forall|k: int|
                0 <= k < m.len() ==> exists|i: int|
                    0 <= i < s.len() && tell_the_same(#[trigger] s[i], #[trigger] m[k]) && s[i].time
                        == m[k].time && s[i].event_type == m[k].event_type
            &&& forall|i: int, source: FragmentView|
                0 <= i < s.len() && #[trigger] s[i].sources.contains(source) ==> exists|k: int|
                    0 <= k < m.len() && tell_the_same(s[i], #[trigger] m[k])
                        && m[k].sources.contains(source)
            &&& forall|j: int, k: int|
                0 <= j < k < m.len() && m[k].key is Some ==> !tell_the_same(
                    #[trigger] m[j],
                    #[trigger] m[k],
                )
        }),
{
    let n = s.len() as int;
    let m = merged_events(s, n);
    lemma_merged_sources(s, n);
    assert forall|i: int, source: FragmentView|
        0 <= i < n && #[trigger] s[i].sources.contains(source) implies exists|k: int|
        0 <= k < m.len() && tell_the_same(s[i], #[trigger] m[k]) && m[k].sources.contains(source) by {
        law_merging_keeps_sources(s, n, i, source);
        let k = choose|k: int|
            0 <= k < m.len() && same_moment(s[i])(#[trigger] m[k]) && m[k].sources.contains(source);
        assert(tell_the_same(s[i], m[k]));
    }
    assert forall|j: int, k: int| 0 <= j < k < m.len() && m[k].key is Some implies !tell_the_same(
        #[trigger] m[j],
        #[trigger] m[k],
    ) by {
        law_merged_events_differ(s, n, j, k);
    }
}

/// The events of a report are the events of the analysis, merged: each is one of
/// them, with its name, group, key, time and type.
pub proof fn law_report_events_are_found(
    findings: Seq<FindingView>,
    events: Seq<EventView>,
    desc: bool,
    k: int,
)
    requires
        0 <= k < report_events(findings, events, desc).len(),
    ensures
        exists|i: int|
            0 <= i < events.len() && tell_the_same(
                #[trigger] events[i],
                report_events(findings, events, desc)[k],
            ) && events[i].time == report_events(findings, events, desc)[k].time
                && events[i].event_type == report_events(findings, events, desc)[k].event_type,
{
    broadcast use vstd::seq_lib::group_to_multiset_ensures;

    let placed = Seq::new(events.len(), |i: int| crate::engine::events::with_context(findings, events[i]));
    let m = merged_events(placed, placed.len() as int);
    let out = report_events(findings, events, desc);
    law_sorting_keeps_elements(m, by_moment(desc));
    assert(out.contains(out[k]));
    assert(out.to_multiset().count(out[k]) > 0);
    assert(m.contains(out[k]));
    let x = choose|x: int| 0 <= x < m.len() && m[x] == out[k];
    lemma_merged_sources(placed, placed.len() as int);
    assert(m[x] == m[x]);
    let i = choose|i: int|
        0 <= i < placed.len() && tell_the_same(#[trigger] placed[i], m[x]) && placed[i].time
            == m[x].time && placed[i].event_type == m[x].event_type;
    assert(tell_the_same(events[i], out[k]));
}

} // verus!
