//! Where boot sessions start, and which facts lie in them.

use crate::engine::model::{EventView, FragmentView};
use crate::engine::sessions::{
    anchors, belongs, by_key, caveats, distinct, ending, incident, lead, record_of_boot, repeated,
    session_facts, sessions, starts, timed_facts,
};
use crate::engine::time::{clock_of, partial_clock_of};
use crate::order::sorted;
use crate::order_laws::law_sorting_keeps_elements;
use crate::outside::clock::moment;
use crate::select::{lemma_kept_holds, lemma_places};
use crate::text::{before, kept, places};
use vstd::prelude::*;

verus! {

/// Whether an event comes from the vendor's reset record.
pub open spec fn is_recorded(e: EventView) -> bool {
    exists|i: int|
        0 <= i < e.sources.len() && (#[trigger] e.sources[i]).annotation == "pstore 结构化复位原因块"@
}

/// Whether a session may start at an event: at a boot with a complete time; where
/// there is none, at any boot; where there is none either, at a reset record.
pub open spec fn may_start(s: Seq<EventView>, e: EventView) -> bool {
    let dated = exists|i: int|
        0 <= i < s.len() && (#[trigger] s[i]).event_type == "boot"@ && s[i].key is Some;
    let boot = exists|i: int| 0 <= i < s.len() && (#[trigger] s[i]).event_type == "boot"@;
    if dated {
        e.event_type == "boot"@ && e.key is Some
    } else if boot {
        e.event_type == "boot"@
    } else {
        is_recorded(e)
    }
}

proof fn lemma_recorded(e: EventView)
    ensures
        crate::engine::sessions::from_record(e) == is_recorded(e),
{
    let f = |f: FragmentView| f.annotation == crate::engine::facts::RESET_RECORD@;
    if is_recorded(e) {
        let i = choose|i: int|
            0 <= i < e.sources.len() && (#[trigger] e.sources[i]).annotation
                == "pstore 结构化复位原因块"@;
        assert(f(e.sources[i]));
    }
}

proof fn lemma_anchors(s: Seq<EventView>)
    ensures
        forall|j: int| #[trigger]
            anchors(s).contains(j) <==> 0 <= j < s.len() && may_start(s, s[j]),
        forall|j: int, k: int| 0 <= j < k < anchors(s).len() ==> anchors(s)[j] < anchors(s)[k],
{
    let f = |e: EventView| crate::engine::sessions::is_boot(e);
    let g = |e: EventView| crate::engine::sessions::is_exact_boot(e);
    let h = |e: EventView| crate::engine::sessions::from_record(e);
    lemma_places(s, f, 0);
    lemma_places(s, g, 0);
    lemma_places(s, h, 0);
    let boots = places(s, f, 0);
    let exact = places(s, g, 0);
    let dated = exists|i: int|
        0 <= i < s.len() && (#[trigger] s[i]).event_type == "boot"@ && s[i].key is Some;
    let boot = exists|i: int| 0 <= i < s.len() && (#[trigger] s[i]).event_type == "boot"@;
    assert(dated == (exact.len() > 0)) by {
        if dated {
            let i = choose|i: int|
                0 <= i < s.len() && (#[trigger] s[i]).event_type == "boot"@ && s[i].key is Some;
            assert(exact.contains(i));
        }
        if exact.len() > 0 {
            assert(exact.contains(exact[0]));
            assert(s[exact[0]].key is Some);
        }
    }
    assert(boot == (boots.len() > 0)) by {
        if boot {
            let i = choose|i: int| 0 <= i < s.len() && (#[trigger] s[i]).event_type == "boot"@;
            assert(boots.contains(i));
        }
        if boots.len() > 0 {
            assert(boots.contains(boots[0]));
            assert(s[boots[0]].event_type == "boot"@);
        }
    }
    if dated {
        let i = choose|i: int|
            0 <= i < s.len() && (#[trigger] s[i]).event_type == "boot"@ && s[i].key is Some;
        assert(boot);
    }
    assert forall|j: int| #[trigger] anchors(s).contains(j) <==> 0 <= j < s.len() && may_start(
        s,
        s[j],
    ) by {
        if 0 <= j < s.len() {
            lemma_recorded(s[j]);
        }
    }
}

/// Whether a boot was met before: an earlier event at which a session may start has
/// the same key.
pub open spec fn met_before(s: Seq<EventView>, j: int) -> bool {
    s[j].key is Some && exists|k: int|
        0 <= k < j && may_start(s, #[trigger] s[k]) && s[k].key == s[j].key
}

proof fn lemma_distinct(s: Seq<EventView>, at: Seq<int>, i: int)
    requires
        0 <= i <= at.len(),
        forall|j: int, k: int| 0 <= j < k < at.len() ==> at[j] < at[k],
    ensures
        forall|x: int| #[trigger]
            distinct(s, at, i).contains(x) <==> exists|k: int|
                i <= k < at.len() && #[trigger] at[k] == x && !repeated(s, at, k),
        forall|j: int, k: int|
            0 <= j < k < distinct(s, at, i).len() ==> distinct(s, at, i)[j] < distinct(s, at, i)[k],
    decreases at.len() - i,
{
    let all = distinct(s, at, i);
    if i < at.len() {
        lemma_distinct(s, at, i + 1);
        let rest = distinct(s, at, i + 1);
        if !repeated(s, at, i) {
            assert(all == seq![at[i]] + rest);
            assert forall|x: int| #[trigger] all.contains(x) <==> exists|k: int|
                i <= k < at.len() && #[trigger] at[k] == x && !repeated(s, at, k) by {
                if all.contains(x) {
                    let m = choose|m: int| 0 <= m < all.len() && all[m] == x;
                    if m == 0 {
                        assert(at[i] == x);
                    } else {
                        assert(rest[m - 1] == x);
                        assert(rest.contains(x));
                    }
                }
                if exists|k: int| i <= k < at.len() && #[trigger] at[k] == x && !repeated(s, at, k) {
                    let k = choose|k: int|
                        i <= k < at.len() && #[trigger] at[k] == x && !repeated(s, at, k);
                    if k == i {
                        assert(all[0] == x);
                    } else {
                        assert(rest.contains(x));
                        let m = choose|m: int| 0 <= m < rest.len() && rest[m] == x;
                        assert(all[m + 1] == x);
                    }
                }
            }
            assert forall|j: int, k: int| 0 <= j < k < all.len() implies all[j] < all[k] by {
                assert(all[k] == rest[k - 1]);
                if j > 0 {
                    assert(all[j] == rest[j - 1]);
                } else {
                    assert(rest.contains(rest[k - 1]));
                    let m = choose|m: int|
                        i + 1 <= m < at.len() && #[trigger] at[m] == rest[k - 1] && !repeated(
                            s,
                            at,
                            m,
                        );
                }
            }
        } else {
            assert(all == rest);
            assert forall|x: int| #[trigger] all.contains(x) <==> exists|k: int|
                i <= k < at.len() && #[trigger] at[k] == x && !repeated(s, at, k) by {
                assert(rest.contains(x) <==> exists|k: int|
                    i + 1 <= k < at.len() && #[trigger] at[k] == x && !repeated(s, at, k));
            }
        }
    }
}

/// A session starts exactly at each event at which one may start and whose boot was
/// not met before, in the order of the events.
pub proof fn law_sessions_start_at_each_boot(s: Seq<EventView>)
    ensures
        forall|j: int| #[trigger]
            starts(s).contains(j) <==> 0 <= j < s.len() && may_start(s, s[j]) && !met_before(s, j),
        forall|j: int, k: int| 0 <= j < k < starts(s).len() ==> starts(s)[j] < starts(s)[k],
{
    let at = anchors(s);
    lemma_anchors(s);
    lemma_distinct(s, at, 0);
    assert forall|j: int| #[trigger] starts(s).contains(j) <==> 0 <= j < s.len() && may_start(
        s,
        s[j],
    ) && !met_before(s, j) by {
        if at.contains(j) {
            let k = choose|k: int| 0 <= k < at.len() && at[k] == j;
            assert(repeated(s, at, k) == met_before(s, j)) by {
                if repeated(s, at, k) {
                    let m = choose|m: int|
                        0 <= m < k && s[at[m]].key is Some && (#[trigger] s[at[m]]).key
                            == s[at[k]].key;
                    assert(at.contains(at[m]));
                    assert(may_start(s, s[at[m]]));
                }
                if met_before(s, j) {
                    let x = choose|x: int|
                        0 <= x < j && may_start(s, #[trigger] s[x]) && s[x].key == s[j].key;
                    assert(at.contains(x));
                    let m = choose|m: int| 0 <= m < at.len() && at[m] == x;
                    if m > k {
                        assert(at[k] < at[m]);
                    }
                    assert(s[at[m]].key == s[at[k]].key);
                }
            }
            assert(at[k] == j);
        }
        if starts(s).contains(j) {
            let k = choose|k: int| 0 <= k < at.len() && #[trigger] at[k] == j && !repeated(s, at, k);
            assert(at.contains(j));
            assert forall|m: int| 0 <= m < at.len() && at[m] == j implies m == k by {
                if m < k {
                    assert(at[m] < at[k]);
                } else if k < m {
                    assert(at[k] < at[m]);
                }
            }
        }
    }
}

/// The session with a number starts at the boot with that number and lasts to the
/// next one; it is told from the facts of that time.
pub proof fn law_sessions_last_to_the_next_boot(events: Seq<EventView>, window: int, i: int)
    requires
        0 <= i < sessions(events, window).len(),
    ensures
        ({
            let s = sorted(events, by_key());
            let t = sessions(events, window)[i];
            let boot = s[starts(s)[i]];
            let next = if i + 1 < starts(s).len() {
                Some(s[starts(s)[i + 1]])
            } else {
                None
            };
            &&& sessions(events, window).len() == starts(s).len()
            &&& t.session_id == "session-"@ + crate::text::decimal((i + 1) as nat)
            &&& t.boot_time == boot.time
            &&& t.boot_time_precision == boot.time_precision
            &&& t.facts == session_facts(s, boot, next, window)
            &&& (t.end_classification, t.confidence, t.supporting_evidence) == ending(t.facts)
            &&& (t.incident_time_start, t.incident_time_end, t.incident_time_precision)
                == incident(t.end_classification, t.facts, boot, next, window)
            &&& t.limitations == caveats(t.end_classification, t.facts, boot)
            &&& s.to_multiset() == events.to_multiset()
        }),
{
    law_sorting_keeps_elements(events, by_key());
}

/// An event with a complete time lies in the session of a boot exactly where it is
/// not earlier than that boot and earlier than the next one. Without a complete time
/// it does only where both boots are on its day and it lies between their clocks.
pub proof fn law_facts_lie_between_boots(e: EventView, boot: EventView, next: Option<EventView>)
    requires
        boot.key is Some,
        next matches Some(n) ==> n.key is Some,
    ensures
        e.key is Some ==> (belongs(e, boot, next) <==> !before(e.key->0, boot.key->0) && (next is None
            || before(e.key->0, next->0.key->0))),
        e.key is None ==> (belongs(e, boot, next) <==> next is Some && moment(boot.time) is Some
            && moment(next->0.time) is Some && partial_clock_of(e.time) is Some && {
            let a = moment(boot.time)->0;
            let b = moment(next->0.time)->0;
            let c = partial_clock_of(e.time)->0;
            &&& a.year == b.year && a.month == b.month && a.day == b.day
            &&& c.0 == a.month && c.1 == a.day
            &&& a.clock <= c.2 && c.2 < b.clock
        }),
{
}

/// An event with a complete time lies in one session only.
pub proof fn law_facts_lie_in_one_session(
    e: EventView,
    a: EventView,
    b: EventView,
    c: Option<EventView>,
)
    requires
        e.key is Some,
        a.key is Some,
        b.key is Some,
    ensures
        !(belongs(e, a, Some(b)) && belongs(e, b, c)),
{
}

/// Every event that lies in a session is one of its facts, up to the number that is
/// kept; the others are the reset records of its boot: not earlier than it, no
/// further from it than the window, and not among the facts by name and time.
pub proof fn law_sessions_hold_their_facts(
    s: Seq<EventView>,
    boot: EventView,
    next: Option<EventView>,
    window: int,
    e: EventView,
)
    ensures
        s.contains(e) && belongs(e, boot, next) && kept(
            s,
            |x: EventView| belongs(x, boot, next),
            0,
        ).len() <= 128 ==> session_facts(s, boot, next, window).contains(e),
        session_facts(s, boot, next, window).contains(e) ==> s.contains(e) && (belongs(
            e,
            boot,
            next,
        ) || is_recorded(e) && crate::engine::time::near(boot.key, e.key, window)),
        timed_facts(s, boot, next).len() <= 128,
{
    broadcast use vstd::seq_lib::group_to_multiset_ensures;

    let f = |x: EventView| belongs(x, boot, next);
    let all = kept(s, f, 0);
    let facts = timed_facts(s, boot, next);
    let g = |x: EventView| record_of_boot(x, facts, boot, window);
    let records = kept(s, g, 0);
    let both = facts + records;
    let out = session_facts(s, boot, next, window);
    law_sorting_keeps_elements(both, by_key());
    lemma_kept_holds(s, f, 0);
    lemma_kept_holds(s, g, 0);
    lemma_recorded(e);
    assert(out.contains(e) == both.contains(e)) by {
        assert(out.to_multiset().count(e) == both.to_multiset().count(e));
    }
    if s.contains(e) && belongs(e, boot, next) && all.len() <= 128 {
        let j = choose|j: int| 0 <= j < s.len() && s[j] == e;
        assert(f(s[j]));
        let k = choose|k: int| 0 <= k < all.len() && all[k] == s[j];
        assert(facts == all);
        assert(both[k] == e);
    }
    if both.contains(e) {
        let m = choose|m: int| 0 <= m < both.len() && both[m] == e;
        if m < facts.len() {
            assert(facts[m] == all[m]);
            assert(f(all[m]));
            let j = choose|j: int| 0 <= j < s.len() && s[j] == all[m];
            assert(s[j] == e);
        } else {
            let r = m - facts.len();
            assert(both[m] == records[r]);
            assert(g(records[r]));
            let j = choose|j: int| 0 <= j < s.len() && s[j] == records[r];
            assert(s[j] == e);
        }
    }
}

/// A reset record belongs to a boot exactly where it is not earlier than it, no more
/// than the window away, and nothing of its name and time is there yet.
pub proof fn law_records_belong_to_their_boot(
    e: EventView,
    facts: Seq<EventView>,
    boot: EventView,
    window: int,
)
    requires
        boot.key is Some,
        e.key is Some,
    ensures
        record_of_boot(e, facts, boot, window) <==> is_recorded(e) && !before(
            e.key->0,
            boot.key->0,
        ) && (forall|i: int|
            0 <= i < facts.len() ==> !((#[trigger] facts[i]).name == e.name && facts[i].time
                == e.time)) && (match (moment(boot.key->0), moment(e.key->0)) {
            (Some(a), Some(b)) => a.timestamp - b.timestamp <= window && b.timestamp - a.timestamp
                <= window,
            _ => boot.key == e.key,
        }),
{
    lemma_recorded(e);
    let p = |f: EventView| crate::engine::sessions::same_fact(f, e);
    if crate::text::any(facts, p) {
        let i = choose|i: int| 0 <= i < facts.len() && p(#[trigger] facts[i]);
        assert(facts[i].name == e.name && facts[i].time == e.time);
    } else {
        assert forall|i: int| 0 <= i < facts.len() implies !((#[trigger] facts[i]).name == e.name
            && facts[i].time == e.time) by {
            assert(!p(facts[i]));
        }
    }
}

/// How long before a boot an event lies: the seconds between their keys, or between
/// their clocks where they show the same day; nothing where it lies behind it.
pub proof fn law_leads_are_the_seconds_between(e: EventView, boot: EventView)
    ensures
        e.key is Some && boot.key is Some ==> (match (moment(e.key->0), moment(boot.key->0)) {
            (Some(a), Some(b)) => if a.timestamp <= b.timestamp {
                lead(e, boot) == Some(b.timestamp - a.timestamp)
            } else {
                lead(e, boot) is None
            },
            _ => lead(e, boot) is None,
        }),
        e.key is None || boot.key is None ==> (match (clock_of(e.time), clock_of(boot.time)) {
            (Some(a), Some(b)) => if a.0 == b.0 && a.1 == b.1 && a.2 <= b.2 {
                lead(e, boot) == Some(b.2 - a.2)
            } else {
                lead(e, boot) is None
            },
            _ => lead(e, boot) is None,
        }),
{
}

/// The facts of a session stand in the order of time: those without a complete time
/// first, then by their keys, and with one key by their times as written.
pub proof fn law_facts_stand_by_time(
    s: Seq<EventView>,
    boot: EventView,
    next: Option<EventView>,
    window: int,
    i: int,
    j: int,
)
    requires
        0 <= i < j < session_facts(s, boot, next, window).len(),
    ensures
        ({
            let a = session_facts(s, boot, next, window)[i];
            let b = session_facts(s, boot, next, window)[j];
            &&& b.key is None ==> a.key is None
            &&& a.key is Some && b.key is Some ==> !before(b.key->0, a.key->0)
            &&& a.key == b.key ==> !before(b.time, a.time)
        }),
{
    crate::engine::session_laws::law_session_facts_are_found(s, boot, next, window, i);
    let f = session_facts(s, boot, next, window);
    assert(!by_key()(f[j], f[i]));
}

/// The boot identity of a session is the first one that its facts name.
pub proof fn law_sessions_have_the_first_boot_identity(
    events: Seq<EventView>,
    window: int,
    i: int,
    k: int,
)
    requires
        0 <= i < sessions(events, window).len(),
        0 <= k < sessions(events, window)[i].facts.len(),
    ensures
        ({
            let t = sessions(events, window)[i];
            let named = |e: EventView| crate::engine::facts::boot_id_of(e.note);
            &&& named(t.facts[k]) is Some && (forall|j: int|
                0 <= j < k ==> named(#[trigger] t.facts[j]) is None) ==> t.boot_id == named(
                t.facts[k],
            )
            &&& (forall|j: int| 0 <= j < t.facts.len() ==> named(#[trigger] t.facts[j]) is None)
                ==> t.boot_id is None
        }),
{
    let facts = sessions(events, window)[i].facts;
    lemma_boot_id(facts, 0, k);
}

proof fn lemma_boot_id(facts: Seq<EventView>, i: int, k: int)
    requires
        0 <= i <= facts.len(),
        0 <= k < facts.len(),
    ensures
        ({
            let named = |e: EventView| crate::engine::facts::boot_id_of(e.note);
            &&& i <= k && named(facts[k]) is Some && (forall|j: int|
                i <= j < k ==> named(#[trigger] facts[j]) is None)
                ==> crate::engine::sessions::session_boot_id(facts, i) == named(facts[k])
            &&& (forall|j: int| i <= j < facts.len() ==> named(#[trigger] facts[j]) is None)
                ==> crate::engine::sessions::session_boot_id(facts, i) is None
        }),
    decreases facts.len() - i,
{
    if i < facts.len() {
        lemma_boot_id(facts, i + 1, k);
        let named = |e: EventView| crate::engine::facts::boot_id_of(e.note);
        assert(named(facts[i]) == crate::engine::facts::boot_id_of(facts[i].note));
    }
}

} // verus!
