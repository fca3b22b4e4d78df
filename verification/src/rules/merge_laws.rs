//! What merging rule packages keeps.

use crate::rules::catalog::{
    file_with, ids_fault, reference_fault, referenced, rule_sources, rules_reference_fault,
    system_reference_fault, with_source, with_sources,
};
use crate::rules::group::{has_id, lemma_kept_all, lemma_kept_none, Member};
use crate::rules::merge::{
    entering, enters, event_renamed, id_not_in, is_legacy, legacy_fact, merged_files, merged_rules,
    migrated_events, new_ids, same_log, with_legacy,
};
use crate::rules::model::{
    LogFileView, Rule, RuleSetView, RuleView, SystemRuleView, TimelineEventRuleView,
};
use crate::rules::validate::{event_ids, system_ids};
use crate::select::{lemma_first_holds, lemma_first_of_any, lemma_kept_add, lemma_kept_holds};
use crate::text::{first_place, kept};
use vstd::prelude::*;

verus! {

/// Whether no two rules have the same identity.
pub open spec fn ids_differ<T: Member>(s: Seq<T::V>) -> bool {
    forall|i: int, j: int| 0 <= i < j < s.len() ==> T::id_of(s[i]) != T::id_of(s[j])
}

/// Whether there is a rule with the identity.
pub open spec fn knows<T: Member>(s: Seq<T::V>, id: Seq<char>) -> bool {
    first_place(s, has_id::<T>(id), 0) is Some
}

proof fn lemma_knows<T: Member>(s: Seq<T::V>, id: Seq<char>, i: int)
    requires
        0 <= i < s.len(),
        T::id_of(s[i]) == id,
    ensures
        knows::<T>(s, id),
{
    lemma_first_of_any(s, has_id::<T>(id), 0, i);
}

/// A merge goes by identities alone: the rules keep their places and their
/// identities, one that the other package does not have stays as it is, every
/// rule of the other package is there afterwards, and no identity comes twice.
/// Without replacing, the old rules all stay as they are.
pub proof fn law_merge_goes_by_identity<T: Member>(
    s: Seq<T::V>,
    incoming: Seq<T::V>,
    replace: bool,
    n: int,
)
    requires
        0 <= n <= incoming.len(),
    ensures
        ({
            let m = merged_rules::<T>(s, incoming, replace, n);
            &&& m.len() >= s.len()
            &&& forall|i: int| 0 <= i < s.len() ==> T::id_of(#[trigger] m[i]) == T::id_of(s[i])
            &&& forall|i: int|
                0 <= i < s.len() && !(replace && knows::<T>(incoming.take(n), T::id_of(s[i])))
                    ==> #[trigger] m[i] == s[i]
            &&& forall|k: int| 0 <= k < n ==> knows::<T>(m, T::id_of(#[trigger] incoming[k]))
            &&& ids_differ::<T>(s) ==> ids_differ::<T>(m)
        }),
    decreases n,
{
    if n > 0 {
        law_merge_goes_by_identity::<T>(s, incoming, replace, n - 1);
        let m = merged_rules::<T>(s, incoming, replace, n - 1);
        let out = merged_rules::<T>(s, incoming, replace, n);
        let r = incoming[n - 1];
        let id = T::id_of(r);
        lemma_first_holds(m, has_id::<T>(id), 0);
        let before = incoming.take(n - 1);
        let now = incoming.take(n);
        assert(now[n - 1] == r);
        lemma_knows::<T>(now, id, n - 1);
        assert forall|i: int|
            0 <= i < s.len() && !(replace && knows::<T>(now, T::id_of(s[i]))) implies
            #[trigger] out[i] == s[i] by {
            if knows::<T>(before, T::id_of(s[i])) {
                lemma_first_holds(before, has_id::<T>(T::id_of(s[i])), 0);
                let k = first_place(before, has_id::<T>(T::id_of(s[i])), 0)->0;
                assert(now[k] == before[k]);
                lemma_knows::<T>(now, T::id_of(s[i]), k);
            }
            assert(m[i] == s[i]);
            if replace && T::id_of(s[i]) == id {
                assert(knows::<T>(now, T::id_of(s[i])));
            }
        }
        assert forall|k: int| 0 <= k < n implies knows::<T>(
            out,
            T::id_of(#[trigger] incoming[k]),
        ) by {
            if k < n - 1 {
                let f = has_id::<T>(T::id_of(incoming[k]));
                lemma_first_holds(m, f, 0);
                let j = first_place(m, f, 0)->0;
                assert(T::id_of(out[j]) == T::id_of(incoming[k]));
                lemma_knows::<T>(out, T::id_of(incoming[k]), j);
            } else if first_place(m, has_id::<T>(id), 0) is Some {
                let j = first_place(m, has_id::<T>(id), 0)->0;
                lemma_knows::<T>(out, id, j);
            } else {
                lemma_knows::<T>(out, id, m.len() as int);
            }
        }
        if ids_differ::<T>(s) {
            assert forall|i: int, j: int| 0 <= i < j < out.len() implies T::id_of(out[i])
                != T::id_of(out[j]) by {
                if first_place(m, has_id::<T>(id), 0) is None {
                    if j == m.len() {
                        assert(!has_id::<T>(id)(m[i]));
                    }
                }
            }
        }
    }
}

/// Merging the same package a second time without replacing changes nothing.
pub proof fn law_merge_again_adds_nothing<T: Member>(s: Seq<T::V>, incoming: Seq<T::V>, n: int)
    requires
        0 <= n <= incoming.len(),
    ensures
        ({
            let m = merged_rules::<T>(s, incoming, false, incoming.len() as int);
            merged_rules::<T>(m, incoming, false, n) == m
        }),
    decreases n,
{
    if n > 0 {
        law_merge_again_adds_nothing::<T>(s, incoming, n - 1);
        law_merge_goes_by_identity::<T>(s, incoming, false, incoming.len() as int);
        let m = merged_rules::<T>(s, incoming, false, incoming.len() as int);
        assert(knows::<T>(m, T::id_of(incoming[n - 1])));
    }
}

/// Merging catalogues keeps the entries that were there: their places and their
/// identities, and without replacing all of them.
pub proof fn law_catalogue_merge_keeps_entries(
    files: Seq<LogFileView>,
    incoming: Seq<LogFileView>,
    replace: bool,
    n: int,
)
    requires
        0 <= n <= incoming.len(),
    ensures
        ({
            let m = merged_files(files, incoming, replace, n);
            &&& m.len() >= files.len()
            &&& forall|i: int| 0 <= i < files.len() ==> (#[trigger] m[i]).id == files[i].id
            &&& !replace ==> forall|i: int| 0 <= i < files.len() ==> #[trigger] m[i] == files[i]
        }),
    decreases n,
{
    if n > 0 {
        law_catalogue_merge_keeps_entries(files, incoming, replace, n - 1);
        let m = merged_files(files, incoming, replace, n - 1);
        lemma_first_holds(m, same_log(incoming[n - 1]), 0);
    }
}

/// Taking over the tables of a reference leaves the keyword rules, the timeline
/// and the layout as they are, and keeps every table of one's own whose identity
/// the reference does not have.
pub proof fn law_reference_keeps_own_rules(
    set: RuleSetView,
    reference: RuleSetView,
    t: SystemRuleView,
)
    requires
        set.system.contains(t),
        forall|i: int| 0 <= i < reference.system.len() ==> (#[trigger] reference.system[i]).id != t.id,
    ensures
        set.with_tables_of(reference).rules == set.rules,
        set.with_tables_of(reference).timeline == set.timeline,
        set.with_tables_of(reference).layout == set.layout,
        set.with_tables_of(reference).system.contains(t),
{
    let ids = set.catalog_ids(reference, false);
    let from = reference.with_ids(ids);
    let names = system_ids(from.system);
    let f = id_not_in(names);
    let j = choose|j: int| 0 <= j < set.system.len() && set.system[j] == t;
    assert(f(set.system[j])) by {
        if names.contains(t.id) {
            let k = choose|k: int| 0 <= k < names.len() && names[k] == t.id;
            assert(from.system[k].id == reference.system[k].id);
        }
    }
    lemma_kept_holds(set.system, f, 0);
    let own = kept(set.system, f, 0);
    let k = choose|k: int| 0 <= k < own.len() && own[k] == set.system[j];
    assert(set.with_tables_of(reference).system[from.system.len() + k] == t);
}

/// The facts of one's own stay in front, and each fact of the other package that
/// stands for an old timeline rule is known afterwards.
proof fn lemma_with_legacy(
    events: Seq<TimelineEventRuleView>,
    incoming: Seq<TimelineEventRuleView>,
    rules: Seq<RuleView>,
    n: int,
)
    requires
        0 <= n <= incoming.len(),
    ensures
        ({
            let m = with_legacy(events, incoming, rules, n);
            &&& m.len() >= events.len()
            &&& m.take(events.len() as int) == events
            &&& forall|k: int|
                0 <= k < n && is_legacy(#[trigger] incoming[k], rules) ==> event_ids(m).contains(
                    incoming[k].id,
                )
        }),
    decreases n,
{
    let m = with_legacy(events, incoming, rules, n);
    if n > 0 {
        lemma_with_legacy(events, incoming, rules, n - 1);
        let was = with_legacy(events, incoming, rules, n - 1);
        assert(m.take(events.len() as int) =~= was.take(events.len() as int));
        assert forall|k: int| 0 <= k < n && is_legacy(#[trigger] incoming[k], rules) implies event_ids(
            m,
        ).contains(incoming[k].id) by {
            if event_ids(was).contains(incoming[k].id) {
                let j = choose|j: int|
                    0 <= j < event_ids(was).len() && event_ids(was)[j] == incoming[k].id;
                assert(m[j] == was[j]);
                assert(event_ids(m)[j] == incoming[k].id);
            } else {
                assert(k == n - 1);
                assert(event_ids(m)[was.len() as int] == incoming[k].id);
            }
        }
    } else {
        assert(m.take(events.len() as int) =~= events);
    }
}

/// Every fact that was taken in comes from the other package.
proof fn lemma_legacy_source(
    events: Seq<TimelineEventRuleView>,
    incoming: Seq<TimelineEventRuleView>,
    rules: Seq<RuleView>,
    n: int,
    j: int,
) -> (k: int)
    requires
        0 <= n <= incoming.len(),
        events.len() <= j < with_legacy(events, incoming, rules, n).len(),
    ensures
        0 <= k < n,
        with_legacy(events, incoming, rules, n)[j] == incoming[k],
        is_legacy(incoming[k], rules),
    decreases n,
{
    let was = with_legacy(events, incoming, rules, n - 1);
    if j < was.len() {
        lemma_legacy_source(events, incoming, rules, n - 1, j)
    } else {
        n - 1
    }
}

/// Whether a fact is that of one of the first `n` rules, an old timeline rule.
pub open spec fn is_fact_of(e: TimelineEventRuleView, rules: Seq<RuleView>, n: int) -> bool {
    exists|k: int|
        0 <= k < n && (#[trigger] rules[k]).target == "timeline"@ && e == legacy_fact(rules[k])
}

/// The facts of a package stay in front when its old timeline rules become facts;
/// each of these rules has one, and what was added stands for such a rule.
proof fn lemma_migrated(events: Seq<TimelineEventRuleView>, rules: Seq<RuleView>, n: int)
    requires
        0 <= n <= rules.len(),
    ensures
        ({
            let m = migrated_events(events, rules, n);
            &&& m.len() >= events.len()
            &&& m.take(events.len() as int) == events
            &&& forall|k: int|
                0 <= k < n && (#[trigger] rules[k]).target == "timeline"@ ==> event_ids(m).contains(
                    "legacy-"@ + rules[k].id,
                )
            &&& forall|j: int|
                events.len() <= j < m.len() ==> is_fact_of(#[trigger] m[j], rules, n)
        }),
    decreases n,
{
    let m = migrated_events(events, rules, n);
    if n > 0 {
        lemma_migrated(events, rules, n - 1);
        let was = migrated_events(events, rules, n - 1);
        assert(m.take(events.len() as int) =~= was.take(events.len() as int));
        assert forall|k: int| 0 <= k < n && (#[trigger] rules[k]).target == "timeline"@ implies event_ids(
            m,
        ).contains("legacy-"@ + rules[k].id) by {
            let id = "legacy-"@ + rules[k].id;
            if event_ids(was).contains(id) {
                let j = choose|j: int| 0 <= j < event_ids(was).len() && event_ids(was)[j] == id;
                assert(m[j] == was[j]);
                assert(event_ids(m)[j] == id);
            } else {
                assert(k == n - 1);
                assert(event_ids(m)[was.len() as int] == id);
            }
        }
        assert forall|j: int| events.len() <= j < m.len() implies is_fact_of(
            #[trigger] m[j],
            rules,
            n,
        ) by {
            if j < was.len() {
                assert(is_fact_of(was[j], rules, n - 1));
                let k = choose|k: int|
                    0 <= k < n - 1 && (#[trigger] rules[k]).target == "timeline"@ && was[j]
                        == legacy_fact(rules[k]);
                assert(rules[k].target == "timeline"@);
            } else {
                assert(rules[n - 1].target == "timeline"@);
            }
        }
    } else {
        assert(m.take(events.len() as int) =~= events);
    }
}

/// A rule that comes in is listed among those that do.
proof fn lemma_entering_there(
    own: Seq<RuleView>,
    incoming: Seq<RuleView>,
    replace: bool,
    k: int,
    n: int,
) -> (i: int)
    requires
        0 <= k < n <= incoming.len(),
        enters(own, incoming, replace, k),
    ensures
        0 <= i < entering(own, incoming, replace, n).len(),
        entering(own, incoming, replace, n)[i] == incoming[k],
    decreases n,
{
    if k == n - 1 {
        entering(own, incoming, replace, n - 1).len() as int
    } else {
        lemma_entering_there(own, incoming, replace, k, n - 1)
    }
}

/// What is listed among the rules that come in is one of them.
proof fn lemma_entering_source(
    own: Seq<RuleView>,
    incoming: Seq<RuleView>,
    replace: bool,
    n: int,
    i: int,
) -> (k: int)
    requires
        0 <= n <= incoming.len(),
        0 <= i < entering(own, incoming, replace, n).len(),
    ensures
        0 <= k < n,
        enters(own, incoming, replace, k),
        entering(own, incoming, replace, n)[i] == incoming[k],
    decreases n,
{
    if i < entering(own, incoming, replace, n - 1).len() {
        lemma_entering_source(own, incoming, replace, n - 1, i)
    } else {
        n - 1
    }
}

/// Where no identity comes twice, a rule comes in where rules replace others, or
/// where its identity is not known yet.
proof fn lemma_enters(set: RuleSetView, incoming: RuleSetView, replace: bool, k: int)
    requires
        0 <= k < incoming.rules.len(),
        ids_differ::<Rule>(incoming.rules),
    ensures
        ({
            let ids = set.catalog_ids(incoming.migrated(), replace);
            let rules = incoming.migrated().with_ids(ids).rules;
            enters(set.rules, rules, replace, k) <==> replace || !knows::<Rule>(
                set.rules,
                incoming.rules[k].id,
            )
        }),
{
    let ids = set.catalog_ids(incoming.migrated(), replace);
    let rules = incoming.migrated().with_ids(ids).rules;
    let f = has_id::<Rule>(rules[k].id);
    assert(f(rules[k]));
    lemma_first_of_any(rules, f, 0, k);
    let j = first_place(rules, f, 0)->0;
    if j < k {
        assert(Rule::id_of(incoming.rules[j]) != Rule::id_of(incoming.rules[k]));
    }
}

/// Merging a package gives the result the fact of each of its old timeline rules
/// that come in, and keeps the facts that were there in front. Where neither
/// package had a fact with that identity before, it is the one that recognises what
/// the rule does.
pub proof fn law_timeline_rules_become_facts(
    set: RuleSetView,
    incoming: RuleSetView,
    replace: bool,
    k: int,
)
    requires
        0 <= k < incoming.rules.len(),
        incoming.rules[k].target == "timeline"@,
        ids_differ::<Rule>(incoming.rules),
        replace || !knows::<Rule>(set.rules, incoming.rules[k].id),
    ensures
        ({
            let own = set.timeline.events;
            let m = set.combined(incoming, replace).resolved().timeline.events;
            let fact = legacy_fact(incoming.rules[k]);
            &&& m.len() >= own.len()
            &&& m.take(own.len() as int) == own
            &&& event_ids(m).contains(fact.id)
            &&& !event_ids(own).contains(fact.id) && !event_ids(incoming.timeline.events).contains(
                fact.id,
            ) ==> m.contains(
                event_renamed(set.catalog_ids(incoming.migrated(), replace), fact),
            )
        }),
{
    let r = incoming.rules[k];
    let fact = legacy_fact(r);
    let own = set.timeline.events;
    let had = incoming.timeline.events;
    let facts = migrated_events(had, incoming.rules, incoming.rules.len() as int);
    let ids = set.catalog_ids(incoming.migrated(), replace);
    let from = incoming.migrated().with_ids(ids);
    let events = from.timeline.events;
    let coming = entering(set.rules, from.rules, replace, from.rules.len() as int);
    let m = with_legacy(own, events, coming, events.len() as int);
    lemma_migrated(had, incoming.rules, incoming.rules.len() as int);
    lemma_with_legacy(own, events, coming, events.len() as int);
    assert(event_ids(facts).contains(fact.id));
    let j = choose|j: int| 0 <= j < event_ids(facts).len() && event_ids(facts)[j] == fact.id;
    assert(events[j].id == fact.id);
    lemma_enters(set, incoming, replace, k);
    let c = lemma_entering_there(set.rules, from.rules, replace, k, from.rules.len() as int);
    assert(coming[c].target == "timeline"@ && coming[c].id == r.id);
    assert(is_legacy(events[j], coming));
    assert(event_ids(m).contains(fact.id));
    if !event_ids(own).contains(fact.id) && !event_ids(had).contains(fact.id) {
        let i = choose|i: int| 0 <= i < event_ids(m).len() && event_ids(m)[i] == fact.id;
        if i < own.len() {
            assert(m[i] == m.take(own.len() as int)[i]);
            assert(event_ids(own)[i] == fact.id);
        }
        let x = lemma_legacy_source(own, events, coming, events.len() as int, i);
        assert(facts[x].id == fact.id);
        if x < had.len() {
            assert(facts[x] == facts.take(had.len() as int)[x]);
            assert(event_ids(had)[x] == fact.id);
        }
        assert(is_fact_of(facts[x], incoming.rules, incoming.rules.len() as int));
        let y = choose|y: int|
            0 <= y < incoming.rules.len() && (#[trigger] incoming.rules[y]).target == "timeline"@
                && facts[x] == legacy_fact(incoming.rules[y]);
        assert(incoming.rules[y].id == r.id) by {
            let a = "legacy-"@ + incoming.rules[y].id;
            let b = "legacy-"@ + r.id;
            assert(a == b);
            assert(a.skip("legacy-"@.len() as int) =~= incoming.rules[y].id);
            assert(b.skip("legacy-"@.len() as int) =~= r.id);
        }
        assert(y == k) by {
            if y < k {
                assert(Rule::id_of(incoming.rules[y]) != Rule::id_of(incoming.rules[k]));
            } else if k < y {
                assert(Rule::id_of(incoming.rules[k]) != Rule::id_of(incoming.rules[y]));
            }
        }
        assert(m[i] == event_renamed(ids, fact));
    }
}

/// An old timeline rule that is left out, because its identity is known and nothing
/// is replaced, brings no fact.
pub proof fn law_left_out_rules_bring_no_facts(set: RuleSetView, incoming: RuleSetView, k: int)
    requires
        0 <= k < incoming.rules.len(),
        ids_differ::<Rule>(incoming.rules),
        knows::<Rule>(set.rules, incoming.rules[k].id),
    ensures
        ({
            let own = set.timeline.events;
            let m = set.combined(incoming, false).resolved().timeline.events;
            let id = "legacy-"@ + incoming.rules[k].id;
            event_ids(m).contains(id) <==> event_ids(own).contains(id)
        }),
{
    let own = set.timeline.events;
    let id = "legacy-"@ + incoming.rules[k].id;
    let ids = set.catalog_ids(incoming.migrated(), false);
    let from = incoming.migrated().with_ids(ids);
    let events = from.timeline.events;
    let n = from.rules.len() as int;
    let coming = entering(set.rules, from.rules, false, n);
    let m = with_legacy(own, events, coming, events.len() as int);
    lemma_with_legacy(own, events, coming, events.len() as int);
    if event_ids(own).contains(id) {
        let j = choose|j: int| 0 <= j < event_ids(own).len() && event_ids(own)[j] == id;
        assert(m.take(own.len() as int)[j] == m[j]);
        assert(event_ids(m)[j] == id);
    }
    if event_ids(m).contains(id) {
        let j = choose|j: int| 0 <= j < event_ids(m).len() && event_ids(m)[j] == id;
        if j < own.len() {
            assert(m.take(own.len() as int)[j] == m[j]);
            assert(event_ids(own)[j] == id);
        } else {
            let x = lemma_legacy_source(own, events, coming, events.len() as int, j);
            let i = choose|i: int|
                0 <= i < coming.len() && (#[trigger] coming[i]).target == "timeline"@ && events[x].id
                    == "legacy-"@ + coming[i].id;
            let y = lemma_entering_source(set.rules, from.rules, false, n, i);
            assert(coming[i].id == incoming.rules[k].id) by {
                assert(("legacy-"@ + coming[i].id).skip("legacy-"@.len() as int) =~= coming[i].id);
                assert(id.skip("legacy-"@.len() as int) =~= incoming.rules[k].id);
            }
            lemma_enters(set, incoming, false, y);
        }
    }
}

/// A place that is the first one in a list is so in a longer list.
proof fn lemma_first_in_longer<A>(s: Seq<A>, t: Seq<A>, f: spec_fn(A) -> bool)
    requires
        s.len() <= t.len(),
        t.take(s.len() as int) == s,
        first_place(s, f, 0) is Some,
    ensures
        first_place(t, f, 0) == first_place(s, f, 0),
        0 <= first_place(s, f, 0)->0 < s.len(),
        t[first_place(s, f, 0)->0] == s[first_place(s, f, 0)->0],
{
    lemma_first_holds(s, f, 0);
    let i = first_place(s, f, 0)->0;
    assert(t.take(s.len() as int)[i] == t[i]);
    lemma_first_of_any(t, f, 0, i);
    lemma_first_holds(t, f, 0);
    let j = first_place(t, f, 0)->0;
    if j < i {
        assert(t.take(s.len() as int)[j] == t[j]);
        assert(f(s[j]));
    }
}

proof fn lemma_merged_grows(files: Seq<LogFileView>, incoming: Seq<LogFileView>, k: int, n: int)
    requires
        0 <= k <= n <= incoming.len(),
    ensures
        ({
            let a = merged_files(files, incoming, false, k);
            let b = merged_files(files, incoming, false, n);
            a.len() <= b.len() && b.take(a.len() as int) == a
        }),
    decreases n - k,
{
    let a = merged_files(files, incoming, false, k);
    let b = merged_files(files, incoming, false, n);
    if k < n {
        lemma_merged_grows(files, incoming, k, n - 1);
        let c = merged_files(files, incoming, false, n - 1);
        assert(b.take(a.len() as int) =~= c.take(a.len() as int));
    } else {
        assert(b.take(a.len() as int) =~= a);
    }
}

/// Taking a catalogue in a second time adds nothing and gives its entries the
/// same identities.
pub proof fn law_catalogue_merge_again_adds_nothing(
    files: Seq<LogFileView>,
    incoming: Seq<LogFileView>,
    n: int,
)
    requires
        0 <= n <= incoming.len(),
    ensures
        ({
            let m = merged_files(files, incoming, false, incoming.len() as int);
            &&& merged_files(m, incoming, false, n) == m
            &&& new_ids(m, incoming, false, n) == new_ids(files, incoming, false, n)
        }),
    decreases n,
{
    if n > 0 {
        law_catalogue_merge_again_adds_nothing(files, incoming, n - 1);
        let m = merged_files(files, incoming, false, incoming.len() as int);
        let before = merged_files(files, incoming, false, n - 1);
        let now = merged_files(files, incoming, false, n);
        let f = same_log(incoming[n - 1]);
        lemma_merged_grows(files, incoming, n, incoming.len() as int);
        lemma_merged_grows(files, incoming, n - 1, incoming.len() as int);
        if first_place(before, f, 0) is Some {
            lemma_first_in_longer(before, m, f);
        } else {
            assert(f(now[before.len() as int]));
            lemma_first_of_any(now, f, 0, before.len() as int);
            lemma_first_holds(before, f, 0);
            lemma_first_holds(now, f, 0);
            let i = first_place(now, f, 0)->0;
            if i < before.len() {
                assert(now[i] == before[i]);
                assert(!f(before[i]));
            }
            lemma_first_in_longer(now, m, f);
        }
    }
}

/// Tables with the sources that their references stand for.
pub open spec fn tables_with_sources(files: Seq<LogFileView>, s: Seq<SystemRuleView>) -> Seq<
    SystemRuleView,
> {
    Seq::new(s.len(), |i: int| with_source(files, s[i]))
}

proof fn lemma_kept_tables(
    files: Seq<LogFileView>,
    s: Seq<SystemRuleView>,
    ids: Seq<Seq<char>>,
    i: int,
)
    requires
        0 <= i,
    ensures
        kept(tables_with_sources(files, s), id_not_in(ids), i) == tables_with_sources(
            files,
            kept(s, id_not_in(ids), i),
        ),
    decreases s.len() - i,
{
    let f = id_not_in(ids);
    let t = tables_with_sources(files, s);
    if i < s.len() {
        lemma_kept_tables(files, s, ids, i + 1);
        assert(t[i] == with_source(files, s[i]));
        if f(s[i]) {
            assert(seq![t[i]] + tables_with_sources(files, kept(s, f, i + 1))
                =~= tables_with_sources(files, seq![s[i]] + kept(s, f, i + 1)));
        }
    } else {
        assert(kept(t, f, i) =~= tables_with_sources(files, kept(s, f, i)));
    }
}

/// Taking over the tables of the same reference a second time gives the same
/// tables and the same catalogue.
pub proof fn law_reference_again_changes_nothing(set: RuleSetView, reference: RuleSetView)
    ensures
        ({
            let once = set.with_tables_of(reference).resolved();
            let twice = once.with_tables_of(reference).resolved();
            &&& twice.log_files == once.log_files
            &&& twice.system == once.system
        }),
{
    let once = set.with_tables_of(reference).resolved();
    let twice = once.with_tables_of(reference).resolved();
    let files = once.log_files;
    law_catalogue_merge_again_adds_nothing(
        set.log_files,
        reference.log_files,
        reference.log_files.len() as int,
    );
    let ids = set.catalog_ids(reference, false);
    let from = reference.with_ids(ids).system;
    let names = system_ids(from);
    let f = id_not_in(names);
    let own = kept(set.system, f, 0);
    let a = tables_with_sources(files, from);
    let b = tables_with_sources(files, own);
    assert(once.system =~= a + b);
    assert(once.catalog_ids(reference, false) == ids);
    lemma_kept_add(a, b, f, 0);
    assert forall|k: int| 0 <= k < a.len() implies !f(#[trigger] a[k]) by {
        assert(names[k] == a[k].id);
    }
    lemma_kept_none(a, f, 0);
    lemma_kept_holds(set.system, f, 0);
    assert forall|k: int| 0 <= k < b.len() implies f(#[trigger] b[k]) by {
        assert(f(own[k]));
    }
    lemma_kept_all(b, f, 0);
    assert(b.skip(0) =~= b);
    assert(kept(once.system, f, 0) =~= b);
    assert(twice.system =~= tables_with_sources(files, from + b));
    assert(twice.system =~= a + b);
}

/// References that a catalogue resolves stand for the same in a longer one.
proof fn lemma_referenced(files: Seq<LogFileView>, more: Seq<LogFileView>, id: Seq<char>)
    requires
        files.len() <= more.len(),
        more.take(files.len() as int) == files,
        reference_fault(files, id) is None,
    ensures
        referenced(more, id) == referenced(files, id),
{
    lemma_first_in_longer(files, more, file_with(id));
}

proof fn lemma_rules_resolve(files: Seq<LogFileView>, rules: Seq<RuleView>, i: int, k: int)
    requires
        0 <= i <= k < rules.len(),
        rules_reference_fault(files, rules, i) is None,
    ensures
        ids_fault(files, rules[k], 0) is None,
    decreases k - i,
{
    if i < k {
        lemma_rules_resolve(files, rules, i + 1, k);
    }
}

proof fn lemma_ids_resolve(files: Seq<LogFileView>, r: RuleView, i: int, k: int)
    requires
        0 <= i <= k < r.source_file_ids.len(),
        ids_fault(files, r, i) is None,
    ensures
        reference_fault(files, r.source_file_ids[k]) is None,
    decreases k - i,
{
    if i < k {
        lemma_ids_resolve(files, r, i + 1, k);
    }
}

proof fn lemma_tables_resolve(files: Seq<LogFileView>, s: Seq<SystemRuleView>, i: int, k: int)
    requires
        0 <= i <= k < s.len(),
        system_reference_fault(files, s, i) is None,
    ensures
        reference_fault(files, s[k].source_file_id) is None,
    decreases k - i,
{
    if i < k {
        lemma_tables_resolve(files, s, i + 1, k);
    }
}

/// A package that takes over the tables of a reference keeps its own catalogue in
/// front of the new one. Its keyword rules stand for the same as before, and so do
/// its timeline and its layout. Its tables are those of the reference, in their
/// order, and behind them its own others in theirs, as they were.
pub proof fn law_reference_stands_in_front(set: RuleSetView, reference: RuleSetView)
    requires
        set.reference_fault() is None,
    ensures
        ({
            let out = set.with_tables_of(reference).resolved();
            let ids = system_ids(reference.system);
            let n = reference.system.len() as int;
            &&& out.log_files.len() >= set.log_files.len()
            &&& out.log_files.take(set.log_files.len() as int) == set.log_files
            &&& out.rules == set.resolved().rules
            &&& out.timeline == set.timeline
            &&& out.layout == set.layout
            &&& out.system.len() >= n
            &&& system_ids(out.system.take(n)) == ids
            &&& out.system.skip(n) == kept(set.resolved().system, id_not_in(ids), 0)
        }),
{
    let out = set.with_tables_of(reference).resolved();
    let ids = system_ids(reference.system);
    let n = reference.system.len() as int;
    let files = set.log_files;
    let more = out.log_files;
    lemma_merged_grows(files, reference.log_files, 0, reference.log_files.len() as int);
    assert forall|k: int| 0 <= k < set.rules.len() implies with_sources(
        more,
        #[trigger] set.rules[k],
    ) == with_sources(files, set.rules[k]) by {
        let r = set.rules[k];
        lemma_rules_resolve(files, set.rules, 0, k);
        assert forall|j: int| 0 <= j < r.source_file_ids.len() implies referenced(
            more,
            #[trigger] r.source_file_ids[j],
        ) == referenced(files, r.source_file_ids[j]) by {
            lemma_ids_resolve(files, r, 0, j);
            lemma_referenced(files, more, r.source_file_ids[j]);
        }
        assert(rule_sources(more, r) =~= rule_sources(files, r));
    }
    assert(out.rules =~= set.resolved().rules);
    let from = reference.with_ids(set.catalog_ids(reference, false)).system;
    assert(system_ids(from) =~= ids);
    let f = id_not_in(ids);
    let own = kept(set.system, f, 0);
    assert(out.system =~= tables_with_sources(more, from) + tables_with_sources(more, own));
    assert(system_ids(out.system.take(n)) =~= ids);
    assert(out.system.skip(n) =~= tables_with_sources(more, own));
    assert forall|k: int| 0 <= k < set.system.len() implies with_source(
        more,
        #[trigger] set.system[k],
    ) == with_source(files, set.system[k]) by {
        lemma_tables_resolve(files, set.system, 0, k);
        lemma_referenced(files, more, set.system[k].source_file_id);
    }
    assert(tables_with_sources(more, set.system) =~= tables_with_sources(files, set.system));
    assert(set.resolved().system =~= tables_with_sources(files, set.system));
    lemma_kept_tables(more, set.system, ids, 0);
}

} // verus!
