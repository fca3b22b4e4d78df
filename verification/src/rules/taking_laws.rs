//! What a rule package takes over from another.

use crate::extract::cell_laws::{lemma_given, lemma_not_given};
use crate::rules::acceptance_laws::lemma_sum;
use crate::rules::group::{has_id, Member};
use crate::rules::merge::{
    known_ids, legacy_fact, lookup, merged_files, merged_rules, migrated_events, new_ids, renamed,
    same_log,
};
use crate::rules::merge_laws::ids_differ;
use crate::rules::model::{LogFileView, RuleSetView, RuleView, TimelineEventRuleView};
use crate::rules::validate::event_ids;
use crate::select::{lemma_first_holds, lemma_first_of_any};
use crate::text::first_place;
use vstd::prelude::*;

verus! {

/// Whether no rule has the identity.
pub open spec fn lacks_id<T: Member>(s: Seq<T::V>, id: Seq<char>) -> bool {
    forall|i: int| 0 <= i < s.len() ==> T::id_of(#[trigger] s[i]) != id
}

/// Every rule of another package is there as that package has it, where rules are
/// replaced or its identity is new; where they are not replaced, a rule that was there
/// stays as it was.
pub proof fn law_rules_are_taken_as_they_are<T: Member>(
    s: Seq<T::V>,
    incoming: Seq<T::V>,
    replace: bool,
    n: int,
    k: int,
)
    requires
        0 <= k < n <= incoming.len(),
        ids_differ::<T>(incoming),
    ensures
        replace || lacks_id::<T>(s, T::id_of(incoming[k])) ==> merged_rules::<T>(
            s,
            incoming,
            replace,
            n,
        ).contains(incoming[k]),
        !replace ==> merged_rules::<T>(s, incoming, replace, n).take(s.len() as int) == s,
    decreases n,
{
    let m = merged_rules::<T>(s, incoming, replace, n - 1);
    let r = incoming[n - 1];
    let f = has_id::<T>(T::id_of(r));
    let now = merged_rules::<T>(s, incoming, replace, n);
    lemma_first_holds(m, f, 0);
    if first_place(m, f, 0) is Some {
        assert(f(m[first_place(m, f, 0)->0]));
    }
    if !replace {
        lemma_front_stays::<T>(s, incoming, n - 1);
        lemma_front_stays::<T>(s, incoming, n);
    }
    if k < n - 1 {
        law_rules_are_taken_as_they_are::<T>(s, incoming, replace, n - 1, k);
        if replace || lacks_id::<T>(s, T::id_of(incoming[k])) {
            let x = choose|x: int| 0 <= x < m.len() && m[x] == incoming[k];
            assert(T::id_of(incoming[k]) != T::id_of(incoming[n - 1]));
            assert(now[x] == incoming[k]);
        }
    } else if replace {
        match first_place(m, f, 0) {
            Some(x) => {
                assert(now[x] == r);
            },
            None => {
                assert(now[m.len() as int] == r);
            },
        }
    } else if lacks_id::<T>(s, T::id_of(r)) {
        lemma_ids_of::<T>(s, incoming, n - 1);
        if let Some(x) = first_place(m, f, 0) {
            assert(f(m[x]));
        }
        assert(now[m.len() as int] == r);
    }
}

proof fn lemma_front_stays<T: Member>(s: Seq<T::V>, incoming: Seq<T::V>, n: int)
    requires
        0 <= n <= incoming.len(),
    ensures
        merged_rules::<T>(s, incoming, false, n).len() >= s.len(),
        merged_rules::<T>(s, incoming, false, n).take(s.len() as int) == s,
    decreases n,
{
    if n > 0 {
        lemma_front_stays::<T>(s, incoming, n - 1);
        let m = merged_rules::<T>(s, incoming, false, n - 1);
        let now = merged_rules::<T>(s, incoming, false, n);
        assert(now.take(s.len() as int) =~= m.take(s.len() as int));
    } else {
        assert(s.take(s.len() as int) =~= s);
    }
}

proof fn lemma_ids_of<T: Member>(s: Seq<T::V>, incoming: Seq<T::V>, n: int)
    requires
        0 <= n < incoming.len(),
        ids_differ::<T>(incoming),
        lacks_id::<T>(s, T::id_of(incoming[n])),
    ensures
        lacks_id::<T>(merged_rules::<T>(s, incoming, false, n), T::id_of(incoming[n])),
{
    lemma_ids_upto::<T>(s, incoming, n, n);
}

proof fn lemma_ids_upto<T: Member>(s: Seq<T::V>, incoming: Seq<T::V>, n: int, k: int)
    requires
        0 <= n <= k < incoming.len(),
        ids_differ::<T>(incoming),
        lacks_id::<T>(s, T::id_of(incoming[k])),
    ensures
        lacks_id::<T>(merged_rules::<T>(s, incoming, false, n), T::id_of(incoming[k])),
    decreases n,
{
    if n > 0 {
        lemma_ids_upto::<T>(s, incoming, n - 1, k);
        assert(T::id_of(incoming[n - 1]) != T::id_of(incoming[k]));
        let m = merged_rules::<T>(s, incoming, false, n - 1);
        let now = merged_rules::<T>(s, incoming, false, n);
        assert forall|i: int| 0 <= i < now.len() implies T::id_of(#[trigger] now[i]) != T::id_of(
            incoming[k],
        ) by {
            if i < m.len() {
                assert(now[i] == m[i]);
            }
        }
    }
}

/// Whether two entries are of the same log: they have the same identity, or the same
/// path in the same container, read in the same way.
pub open spec fn are_one_log(a: LogFileView, b: LogFileView) -> bool {
    a.id == b.id || (a.path == b.path && a.mode == b.mode && a.container == b.container)
}

/// An entry of another catalogue that is of a log that is there takes the identity of
/// the first such entry, and its place where entries are replaced; one of a new log
/// goes to the end and keeps its identity.
pub proof fn law_entries_of_one_log_are_one(
    files: Seq<LogFileView>,
    incoming: Seq<LogFileView>,
    replace: bool,
    n: int,
    i: int,
)
    requires
        0 <= n < incoming.len(),
    ensures
        ({
            let was = merged_files(files, incoming, replace, n);
            let now = merged_files(files, incoming, replace, n + 1);
            let ids = new_ids(files, incoming, replace, n + 1);
            let f = incoming[n];
            &&& 0 <= i < was.len() && are_one_log(was[i], f) && (forall|j: int|
                0 <= j < i ==> !are_one_log(#[trigger] was[j], f)) ==> {
                &&& ids.last() == (f.id, was[i].id)
                &&& !replace ==> now == was
                &&& replace ==> {
                    &&& now.len() == was.len()
                    &&& now[i].id == was[i].id
                    &&& now[i].path == f.path
                    &&& now[i].name == f.name
                    &&& now[i].mode == f.mode
                    &&& now[i].container == f.container
                    &&& forall|j: int|
                        0 <= j < was.len() && j != i ==> #[trigger] now[j] == was[j]
                }
            }
            &&& (forall|j: int| 0 <= j < was.len() ==> !are_one_log(#[trigger] was[j], f)) ==> {
                &&& now == was.push(f)
                &&& ids.last() == (f.id, f.id)
            }
        }),
{
    let was = merged_files(files, incoming, replace, n);
    let f = incoming[n];
    let g = same_log(f);
    lemma_first_holds(was, g, 0);
    if let Some(x) = first_place(was, g, 0) {
        assert(g(was[x]));
        assert(are_one_log(was[x], f));
    }
    if 0 <= i < was.len() && are_one_log(was[i], f) {
        assert(g(was[i]));
        lemma_first_of_any(was, g, 0, i);
    }
}

/// A reference is renamed as its entry was; one whose entry was not taken in stays.
pub proof fn law_references_are_renamed(
    pairs: Seq<(Seq<char>, Seq<char>)>,
    set: RuleSetView,
    r: int,
    j: int,
    i: int,
)
    requires
        0 <= r < set.rules.len(),
        0 <= j < set.rules[r].source_file_ids.len(),
    ensures
        ({
            let out = set.with_ids(pairs).rules[r];
            let id = set.rules[r].source_file_ids[j];
            &&& out.source_file_ids.len() == set.rules[r].source_file_ids.len()
            &&& out.id == set.rules[r].id && out.terms == set.rules[r].terms
            &&& 0 <= i < pairs.len() && pairs[i].0 == id && (forall|k: int|
                i < k < pairs.len() ==> (#[trigger] pairs[k]).0 != id) ==> out.source_file_ids[j]
                == pairs[i].1
            &&& (forall|k: int| 0 <= k < pairs.len() ==> (#[trigger] pairs[k]).0 != id)
                ==> out.source_file_ids[j] == id
        }),
{
    let id = set.rules[r].source_file_ids[j];
    if 0 <= i < pairs.len() && pairs[i].0 == id && (forall|k: int|
        i < k < pairs.len() ==> (#[trigger] pairs[k]).0 != id) {
        lemma_given(pairs, id, pairs.len() as int, i);
    }
    if forall|k: int| 0 <= k < pairs.len() ==> (#[trigger] pairs[k]).0 != id {
        lemma_not_given(pairs, id, pairs.len() as int);
    }
}

/// The references of tables and facts are renamed in the same way, and nothing else of
/// them changes.
pub proof fn law_all_references_are_renamed_alike(
    pairs: Seq<(Seq<char>, Seq<char>)>,
    set: RuleSetView,
    s: int,
    e: int,
    j: int,
)
    ensures
        0 <= s < set.system.len() ==> {
            let out = set.with_ids(pairs).system[s];
            &&& out.source_file_id == renamed(pairs, set.system[s].source_file_id)
            &&& out.id == set.system[s].id
            &&& out.fields == set.system[s].fields
        },
        0 <= e < set.timeline.events.len() && 0 <= j
            < set.timeline.events[e].source_file_ids.len() ==> {
            let out = set.with_ids(pairs).timeline.events[e];
            &&& out.source_file_ids[j] == renamed(pairs, set.timeline.events[e].source_file_ids[j])
            &&& out.id == set.timeline.events[e].id
            &&& out.terms == set.timeline.events[e].terms
        },
{
}

/// The order of the files names those that were taken in, by their new identities, and
/// no other.
pub proof fn law_the_order_names_known_files(
    pairs: Seq<(Seq<char>, Seq<char>)>,
    ids: Seq<Seq<char>>,
    n: int,
    w: Seq<char>,
)
    requires
        0 <= n <= ids.len(),
    ensures
        known_ids(pairs, ids, n).contains(w) <==> exists|i: int|
            0 <= i < n && lookup(pairs, #[trigger] ids[i]) == Some(w),
    decreases n,
{
    if n > 0 {
        law_the_order_names_known_files(pairs, ids, n - 1, w);
        let b = match lookup(pairs, ids[n - 1]) {
            Some(v) => seq![v],
            None => Seq::empty(),
        };
        lemma_sum(known_ids(pairs, ids, n - 1), b, w);
        if let Some(v) = lookup(pairs, ids[n - 1]) {
            assert(b[0] == v);
        }
        assert(b.contains(w) == (lookup(pairs, ids[n - 1]) == Some(w)));
    }
}

/// An old timeline rule becomes a fact that recognises what the rule did and claims no
/// more than that something was seen.
pub proof fn law_old_rules_claim_no_more(r: RuleView)
    ensures
        ({
            let e = legacy_fact(r);
            &&& e.id == "legacy-"@ + r.id
            &&& e.event_type == "evidence"@
            &&& e.evidence_strength == "medium"@
            &&& e.terms == r.terms && e.regex == r.regex
            &&& e.source_file_ids == r.source_file_ids
            &&& e.time_regex == r.time_regex && e.time_format == r.time_format
            &&& e.note == r.note
        }),
{
}

/// The facts that were there stay in front; behind them stands the fact of every old
/// timeline rule whose fact was missing, and of no other rule.
pub proof fn law_missing_facts_are_added(
    events: Seq<TimelineEventRuleView>,
    rules: Seq<RuleView>,
    n: int,
    e: TimelineEventRuleView,
)
    requires
        0 <= n <= rules.len(),
    ensures
        ({
            let m = migrated_events(events, rules, n);
            &&& m.len() >= events.len()
            &&& m.take(events.len() as int) == events
            &&& m.skip(events.len() as int).contains(e) ==> exists|i: int|
                0 <= i < n && (#[trigger] rules[i]).target == "timeline"@ && e == legacy_fact(
                    rules[i],
                )
            &&& forall|i: int|
                0 <= i < n && (#[trigger] rules[i]).target == "timeline"@ ==> event_ids(m).contains(
                    "legacy-"@ + rules[i].id,
                )
        }),
    decreases n,
{
    if n > 0 {
        law_missing_facts_are_added(events, rules, n - 1, e);
        let m = migrated_events(events, rules, n - 1);
        let now = migrated_events(events, rules, n);
        let r = rules[n - 1];
        let id = "legacy-"@ + r.id;
        let k = events.len() as int;
        if r.target == "timeline"@ && !event_ids(m).contains(id) {
            let x = legacy_fact(r);
            assert(now == m.push(x));
            assert(now.take(k) =~= m.take(k));
            assert(now.skip(k) =~= m.skip(k).push(x));
            if now.skip(k).contains(e) {
                let i = choose|i: int| 0 <= i < now.skip(k).len() && now.skip(k)[i] == e;
                if i < m.skip(k).len() {
                    assert(m.skip(k)[i] == e);
                } else {
                    assert(e == legacy_fact(rules[n - 1]));
                }
            }
            assert(event_ids(now)[m.len() as int] == id);
            assert forall|i: int| 0 <= i < n && (#[trigger] rules[i]).target == "timeline"@ implies
                event_ids(now).contains("legacy-"@ + rules[i].id) by {
                if i < n - 1 {
                    let a = "legacy-"@ + rules[i].id;
                    let j = choose|j: int|
                        0 <= j < event_ids(m).len() && event_ids(m)[j] == a;
                    assert(event_ids(now)[j] == a);
                }
            }
        }
    } else {
        assert(events.take(events.len() as int) =~= events);
        assert(events.skip(events.len() as int).len() == 0);
    }
}

/// Taking in a package takes over its looks only where it replaces; the version, the
/// conclusions and the thresholds stay those of the package that takes it in.
pub proof fn law_own_looks_stay(set: RuleSetView, incoming: RuleSetView)
    ensures
        set.combined(incoming, false).layout == set.layout,
        set.combined(incoming, true).layout.accent == incoming.layout.accent,
        set.combined(incoming, true).layout.title == incoming.layout.title,
        set.combined(incoming, true).version == set.version,
        set.combined(incoming, false).version == set.version,
        set.combined(incoming, true).timeline.judgements == set.timeline.judgements,
        set.combined(incoming, true).timeline.thresholds == set.timeline.thresholds,
{
}

} // verus!
