//! Boot sessions: the facts between one boot and the next, and how the session
//! ended. A conclusion rests on facts alone; what is unknown stays unknown.

use crate::engine::facts::{boot_id_of, extract_boot_id, RESET_RECORD};
use crate::engine::model::{Event, EventView, FragmentView, TimelineSession, TimelineSessionView};
use crate::engine::time::{
    clock_of, local_clock_value, near, partial_clock, partial_clock_of, same_time_window, Clock,
};
use crate::order::{sort_by, sorted};
use crate::outside::clock::{moment, parse_moment, Moment};
use crate::text::{
    any, before, comes_before, concat2, decimal, decimal_text, duplicate_all, kept, opt_view,
    places, same, views, Duplicate,
};
use vstd::prelude::*;

verus! {

/// The order of keys: one that is missing comes first.
pub open spec fn key_before(a: Option<Seq<char>>, b: Option<Seq<char>>) -> bool {
    match (a, b) {
        (None, Some(_)) => true,
        (Some(a), Some(b)) => before(a, b),
        _ => false,
    }
}

pub fn key_comes_before(a: &Option<String>, b: &Option<String>) -> (r: bool)
    ensures
        r == key_before(opt_view(*a), opt_view(*b)),
{
    match (a, b) {
        (None, Some(_)) => true,
        (Some(a), Some(b)) => comes_before(a.as_str(), b.as_str()),
        _ => false,
    }
}

pub fn same_key(a: &Option<String>, b: &Option<String>) -> (r: bool)
    ensures
        r == (opt_view(*a) == opt_view(*b)),
{
    match (a, b) {
        (None, None) => true,
        (Some(a), Some(b)) => same(a.as_str(), b.as_str()),
        _ => false,
    }
}

/// The order of events: by key, then by the time as it is written.
pub open spec fn event_before(a: EventView, b: EventView) -> bool {
    key_before(a.key, b.key) || (a.key == b.key && before(a.time, b.time))
}

pub open spec fn by_key() -> spec_fn(EventView, EventView) -> bool {
    |a: EventView, b: EventView| event_before(a, b)
}

fn event_comes_before(a: &Event, b: &Event) -> (r: bool)
    ensures
        r == event_before(a@, b@),
{
    key_comes_before(&a.key, &b.key) || (same_key(&a.key, &b.key) && comes_before(
        a.time.as_str(),
        b.time.as_str(),
    ))
}

fn sort_events(events: Vec<Event>) -> (r: Vec<Event>)
    ensures
        views(r@) == sorted(views(events@), by_key()),
        r.len() == events.len(),
{
    sort_by(events, event_comes_before, Ghost(by_key()))
}

/// Whether the event comes from a reset record.
pub open spec fn from_record(e: EventView) -> bool {
    any(e.sources, |f: FragmentView| f.annotation == RESET_RECORD@)
}

fn is_from_record(e: &Event) -> (r: bool)
    ensures
        r == from_record(e@),
{
    let ghost f = |f: FragmentView| f.annotation == RESET_RECORD@;
    let ghost sv = e@.sources;
    let mut i: usize = 0;
    while i < e.sources.len()
        invariant
            i <= e.sources.len(),
            sv == views(e.sources@),
            f == (|f: FragmentView| f.annotation == RESET_RECORD@),
            forall|j: int| 0 <= j < i ==> !f(#[trigger] sv[j]),
        decreases e.sources.len() - i,
    {
        let hit = same(e.sources[i].annotation.as_str(), RESET_RECORD);
        proof {
            assert(sv[i as int] == e.sources@[i as int]@);
            assert(hit == f(sv[i as int]));
        }
        if hit {
            return true;
        }
        i += 1;
    }
    false
}

pub open spec fn is_boot(e: EventView) -> bool {
    e.event_type == "boot"@
}

pub open spec fn is_exact_boot(e: EventView) -> bool {
    e.event_type == "boot"@ && e.key is Some
}

/// The positions of the events that sessions start at: the boots with a
/// complete time, else all boots, else the events of reset records.
pub open spec fn anchors(s: Seq<EventView>) -> Seq<int> {
    if places(s, |e: EventView| is_boot(e), 0).len() == 0 {
        places(s, |e: EventView| from_record(e), 0)
    } else if places(s, |e: EventView| is_exact_boot(e), 0).len() == 0 {
        places(s, |e: EventView| is_boot(e), 0)
    } else {
        places(s, |e: EventView| is_exact_boot(e), 0)
    }
}

/// Whether an earlier anchor has the same key.
pub open spec fn repeated(s: Seq<EventView>, at: Seq<int>, i: int) -> bool {
    exists|j: int| 0 <= j < i && s[at[j]].key is Some && (#[trigger] s[at[j]]).key == s[at[i]].key
}

/// The anchors from `i` on without those whose boot was met before.
pub open spec fn distinct(s: Seq<EventView>, at: Seq<int>, i: int) -> Seq<int>
    decreases at.len() - i,
{
    if i >= at.len() {
        Seq::empty()
    } else if repeated(s, at, i) {
        distinct(s, at, i + 1)
    } else {
        seq![at[i]] + distinct(s, at, i + 1)
    }
}

/// The positions at which sessions start.
pub open spec fn starts(s: Seq<EventView>) -> Seq<int> {
    distinct(s, anchors(s), 0)
}

pub open spec fn ints(v: Seq<usize>) -> Seq<int> {
    Seq::new(v.len(), |i: int| v[i] as int)
}

pub open spec fn all_below(v: Seq<usize>, n: int) -> bool {
    forall|i: int| 0 <= i < v.len() ==> (#[trigger] v[i]) < n
}

fn push_place(out: &mut Vec<usize>, i: usize)
    ensures
        ints(final(out)@) == ints(old(out)@).push(i as int),
        final(out)@ == old(out)@.push(i),
{
    out.push(i);
    proof {
        assert(ints(out@) =~= ints(old(out)@).push(i as int));
    }
}

fn boot_places(s: &Vec<Event>, exact: bool) -> (r: Vec<usize>)
    ensures
        exact ==> ints(r@) == places(views(s@), |e: EventView| is_exact_boot(e), 0),
        !exact ==> ints(r@) == places(views(s@), |e: EventView| is_boot(e), 0),
        all_below(r@, s.len() as int),
{
    let ghost f = if exact {
        |e: EventView| is_exact_boot(e)
    } else {
        |e: EventView| is_boot(e)
    };
    let ghost sv = views(s@);
    let mut out: Vec<usize> = Vec::new();
    let mut i: usize = 0;
    proof {
        assert(ints(out@) + places(sv, f, 0) =~= places(sv, f, 0));
    }
    while i < s.len()
        invariant
            i <= s.len(),
            sv == views(s@),
            exact ==> f == (|e: EventView| is_exact_boot(e)),
            !exact ==> f == (|e: EventView| is_boot(e)),
            ints(out@) + places(sv, f, i as int) == places(sv, f, 0),
            all_below(out@, i as int),
        decreases s.len() - i,
    {
        let hit = same(s[i].event_type.as_str(), "boot") && (!exact || s[i].key.is_some());
        proof {
            assert(sv[i as int] == s@[i as int]@);
            assert(hit == f(sv[i as int]));
        }
        if hit {
            let ghost was = ints(out@);
            push_place(&mut out, i);
            proof {
                assert(was + places(sv, f, i as int) =~= ints(out@) + places(sv, f, i + 1));
            }
        }
        i += 1;
    }
    proof {
        assert(ints(out@) + places(sv, f, i as int) =~= ints(out@));
    }
    out
}

fn record_places(s: &Vec<Event>) -> (r: Vec<usize>)
    ensures
        ints(r@) == places(views(s@), |e: EventView| from_record(e), 0),
        all_below(r@, s.len() as int),
{
    let ghost f = |e: EventView| from_record(e);
    let ghost sv = views(s@);
    let mut out: Vec<usize> = Vec::new();
    let mut i: usize = 0;
    proof {
        assert(ints(out@) + places(sv, f, 0) =~= places(sv, f, 0));
    }
    while i < s.len()
        invariant
            i <= s.len(),
            sv == views(s@),
            f == (|e: EventView| from_record(e)),
            ints(out@) + places(sv, f, i as int) == places(sv, f, 0),
            all_below(out@, i as int),
        decreases s.len() - i,
    {
        let hit = is_from_record(&s[i]);
        proof {
            assert(sv[i as int] == s@[i as int]@);
            assert(hit == f(sv[i as int]));
        }
        if hit {
            let ghost was = ints(out@);
            push_place(&mut out, i);
            proof {
                assert(was + places(sv, f, i as int) =~= ints(out@) + places(sv, f, i + 1));
            }
        }
        i += 1;
    }
    proof {
        assert(ints(out@) + places(sv, f, i as int) =~= ints(out@));
    }
    out
}

fn is_repeated(s: &Vec<Event>, at: &Vec<usize>, i: usize) -> (r: bool)
    requires
        i < at.len(),
        all_below(at@, s.len() as int),
    ensures
        r == repeated(views(s@), ints(at@), i as int),
{
    let ghost sv = views(s@);
    let ghost av = ints(at@);
    let mut j: usize = 0;
    while j < i
        invariant
            j <= i < at.len(),
            all_below(at@, s.len() as int),
            sv == views(s@),
            av == ints(at@),
            forall|k: int|
                0 <= k < j ==> !(sv[av[k]].key is Some && (#[trigger] sv[av[k]]).key
                    == sv[av[i as int]].key),
        decreases i - j,
    {
        proof {
            assert(at@[j as int] < s.len());
            assert(at@[i as int] < s.len());
            assert(sv[av[j as int]] == s@[at@[j as int] as int]@);
            assert(sv[av[i as int]] == s@[at@[i as int] as int]@);
        }
        if s[at[j]].key.is_some() && same_key(&s[at[j]].key, &s[at[i]].key) {
            return true;
        }
        j += 1;
    }
    false
}

fn session_starts(s: &Vec<Event>) -> (r: Vec<usize>)
    ensures
        ints(r@) == starts(views(s@)),
        all_below(r@, s.len() as int),
{
    let ghost sv = views(s@);
    let boots = boot_places(s, false);
    let exact = boot_places(s, true);
    let at = if boots.len() == 0 {
        record_places(s)
    } else if exact.len() == 0 {
        boots
    } else {
        exact
    };
    let ghost av = ints(at@);
    proof {
        assert(ints(boots@).len() == boots.len());
        assert(ints(exact@).len() == exact.len());
        assert(av == anchors(sv));
    }
    let mut out: Vec<usize> = Vec::new();
    let mut i: usize = 0;
    proof {
        assert(ints(out@) + distinct(sv, av, 0) =~= distinct(sv, av, 0));
    }
    while i < at.len()
        invariant
            i <= at.len(),
            sv == views(s@),
            av == ints(at@),
            all_below(at@, s.len() as int),
            all_below(out@, s.len() as int),
            ints(out@) + distinct(sv, av, i as int) == distinct(sv, av, 0),
        decreases at.len() - i,
    {
        if !is_repeated(s, &at, i) {
            let ghost was = ints(out@);
            push_place(&mut out, at[i]);
            proof {
                assert(was + distinct(sv, av, i as int) =~= ints(out@) + distinct(sv, av, i + 1));
            }
        }
        i += 1;
    }
    proof {
        assert(ints(out@) + distinct(sv, av, i as int) =~= ints(out@));
    }
    out
}

/// Whether the event lies in the session from one boot up to the next. An event
/// without a complete time belongs to it only where both boots are on its day
/// and its clock lies between theirs.
pub open spec fn belongs(e: EventView, boot: EventView, next: Option<EventView>) -> bool {
    match boot.key {
        None => true,
        Some(from) => match e.key {
            Some(key) => !before(key, from) && (match next {
                Some(n) => match n.key {
                    Some(to) => before(key, to),
                    None => true,
                },
                None => true,
            }),
            None => match next {
                Some(n) => match (moment(boot.time), moment(n.time)) {
                    (Some(a), Some(b)) => clock_between(e.time, a, b),
                    _ => false,
                },
                None => false,
            },
        },
    }
}

/// Whether a time without its year lies between two moments of its day.
pub open spec fn clock_between(time: Seq<char>, a: Moment, b: Moment) -> bool {
    match partial_clock_of(time) {
        Some((month, day, seconds)) => {
            &&& month == a.month
            &&& day == a.day
            &&& (a.year, a.month, a.day) == (b.year, b.month, b.day)
            &&& a.clock <= seconds < b.clock
        },
        None => false,
    }
}

/// Whether a time without its year lies between two moments of its day.
pub fn is_clock_between(time: &str, a: &Moment, b: &Moment) -> (r: bool)
    ensures
        r == clock_between(time@, *a, *b),
{
    match partial_clock(time) {
        Some((month, day, seconds)) => month == a.month && day == a.day && a.year == b.year
            && a.month == b.month && a.day == b.day && a.clock as u64 <= seconds && seconds
            < b.clock as u64,
        None => false,
    }
}

pub fn event_belongs_to_session(event: &Event, current: &Event, next: Option<&Event>) -> (r: bool)
    ensures
        r == belongs(
            event@,
            current@,
            match next {
                Some(n) => Some(n@),
                None => None,
            },
        ),
{
    match &current.key {
        None => true,
        Some(from) => match &event.key {
            Some(key) => !comes_before(key.as_str(), from.as_str()) && (match next {
                Some(n) => match &n.key {
                    Some(to) => comes_before(key.as_str(), to.as_str()),
                    None => true,
                },
                None => true,
            }),
            None => match next {
                Some(n) => match (
                    parse_moment(current.time.as_str()),
                    parse_moment(n.time.as_str()),
                ) {
                    (Some(a), Some(b)) => is_clock_between(event.time.as_str(), &a, &b),
                    _ => false,
                },
                None => false,
            },
        },
    }
}

/// How many seconds the event lies before the boot, where that can be told: by
/// the keys, or by the clocks of one day.
pub open spec fn lead(e: EventView, boot: EventView) -> Option<int> {
    match (e.key, boot.key) {
        (Some(a), Some(b)) => moment_lead(moment(a), moment(b)),
        _ => clock_lead(clock_of(e.time), clock_of(boot.time)),
    }
}

/// How many seconds one moment lies before another, where both are known and it
/// does.
pub open spec fn moment_lead(a: Option<Moment>, b: Option<Moment>) -> Option<int> {
    match (a, b) {
        (Some(x), Some(y)) => if y.timestamp >= x.timestamp {
            Some(y.timestamp - x.timestamp)
        } else {
            None
        },
        _ => None,
    }
}

/// How many seconds one clock lies before another, where both are known, show
/// the same day, and it does.
pub open spec fn clock_lead(a: Option<Clock>, b: Option<Clock>) -> Option<int> {
    match (a, b) {
        (Some((m, d, s)), Some((n, f, t))) => if m == n && d == f && s <= t {
            Some(t - s)
        } else {
            None
        },
        _ => None,
    }
}

pub open spec fn opt_int(o: Option<i128>) -> Option<int> {
    match o {
        Some(n) => Some(n as int),
        None => None,
    }
}

/// How many seconds one moment lies before another.
pub fn moments_apart(a: &Option<Moment>, b: &Option<Moment>) -> (r: Option<i128>)
    ensures
        opt_int(r) == moment_lead(*a, *b),
{
    match (a, b) {
        (Some(x), Some(y)) => if y.timestamp >= x.timestamp {
            Some(y.timestamp as i128 - x.timestamp as i128)
        } else {
            None
        },
        _ => None,
    }
}

/// How many seconds one clock lies before another.
pub fn clocks_apart(a: &Option<Clock>, b: &Option<Clock>) -> (r: Option<i128>)
    ensures
        opt_int(r) == clock_lead(*a, *b),
{
    match (a, b) {
        (Some((m, d, s)), Some((n, f, t))) => if *m == *n && *d == *f && *s <= *t {
            Some(*t as i128 - *s as i128)
        } else {
            None
        },
        _ => None,
    }
}

/// How many seconds the event lies before the boot, where that can be told.
pub fn seconds_before(event: &Event, next_boot: &Event) -> (r: Option<i128>)
    ensures
        opt_int(r) == lead(event@, next_boot@),
{
    match (&event.key, &next_boot.key) {
        (Some(a), Some(b)) => moments_apart(&parse_moment(a.as_str()), &parse_moment(b.as_str())),
        _ => clocks_apart(
            &local_clock_value(event.time.as_str()),
            &local_clock_value(next_boot.time.as_str()),
        ),
    }
}

/// The order of clocks: one that is missing comes first.
pub open spec fn clock_before(a: Option<Clock>, b: Option<Clock>) -> bool {
    match (a, b) {
        (None, Some(_)) => true,
        (Some((m, d, s)), Some((n, f, t))) => m < n || (m == n && (d < f || (d == f && s < t))),
        _ => false,
    }
}

fn clock_comes_before(a: &Option<Clock>, b: &Option<Clock>) -> (r: bool)
    ensures
        r == clock_before(*a, *b),
{
    match (a, b) {
        (None, Some(_)) => true,
        (Some((m, d, s)), Some((n, f, t))) => *m < *n || (*m == *n && (*d < *f || (*d == *f && *s
            < *t))),
        _ => false,
    }
}

/// The first of the events with the earliest clock.
pub open spec fn earliest(s: Seq<EventView>) -> EventView
    decreases s.len(),
{
    if s.len() <= 1 {
        s[0]
    } else {
        let e = earliest(s.drop_last());
        if clock_before(clock_of(s.last().time), clock_of(e.time)) {
            s.last()
        } else {
            e
        }
    }
}

/// The last of the events with the latest clock.
pub open spec fn latest(s: Seq<EventView>) -> EventView
    decreases s.len(),
{
    if s.len() <= 1 {
        s[0]
    } else {
        let e = latest(s.drop_last());
        if clock_before(clock_of(s.last().time), clock_of(e.time)) {
            e
        } else {
            s.last()
        }
    }
}

/// Whether the event shows that power may have been lost shortly before the
/// boot.
pub open spec fn loss_trace(e: EventView, boot: EventView, window: int) -> bool {
    &&& e.event_type == "filesystem_recovery"@ || e.event_type == "device_reenumeration"@
        || e.event_type == "power_loss_hint"@
    &&& lead(e, boot) matches Some(s) && s <= window
}

/// Whether an event of this type settles a session of this class.
pub open spec fn decisive(class: Seq<char>, kind: Seq<char>) -> bool {
    if class == "正常关机"@ {
        kind == "shutdown_complete"@ || kind == "shutdown_request"@
    } else if class == "正常重启"@ {
        kind == "reboot_complete"@ || kind == "reboot_request"@
    } else if class == "Kernel Panic 重启"@ {
        kind == "kernel_panic"@
    } else if class == "Watchdog 重启"@ {
        kind == "watchdog_reset"@
    } else if class == "硬件复位"@ {
        kind == "hardware_reset"@
    } else {
        false
    }
}

fn is_decisive(class: &str, kind: &str) -> (r: bool)
    ensures
        r == decisive(class@, kind@),
{
    if same(class, "正常关机") {
        same(kind, "shutdown_complete") || same(kind, "shutdown_request")
    } else if same(class, "正常重启") {
        same(kind, "reboot_complete") || same(kind, "reboot_request")
    } else if same(class, "Kernel Panic 重启") {
        same(kind, "kernel_panic")
    } else if same(class, "Watchdog 重启") {
        same(kind, "watchdog_reset")
    } else if same(class, "硬件复位") {
        same(kind, "hardware_reset")
    } else {
        false
    }
}

/// When the session ended: its start, the end of the range where only a range
/// is known, and how exact it is.
pub open spec fn incident(
    class: Seq<char>,
    facts: Seq<EventView>,
    boot: EventView,
    next: Option<EventView>,
    window: int,
) -> (Seq<char>, Option<Seq<char>>, Seq<char>) {
    if class == "疑似断电"@ && next is Some {
        let traces = kept(facts, |e: EventView| loss_trace(e, next->0, window), 0);
        (
            if traces.len() == 0 {
                next->0.time
            } else {
                earliest(traces).time
            },
            Some(next->0.time),
            "range"@,
        )
    } else {
        let settled = kept(facts, |e: EventView| decisive(class, e.event_type), 0);
        if settled.len() > 0 {
            (
                latest(settled).time,
                None,
                if latest(settled).key is Some {
                    "exact"@
                } else {
                    "approximate"@
                },
            )
        } else {
            (
                match next {
                    Some(n) => n.time,
                    None => boot.time,
                },
                None,
                "unknown"@,
            )
        }
    }
}

pub open spec fn opt_ref(o: Option<&Event>) -> Option<EventView> {
    match o {
        Some(e) => Some(e@),
        None => None,
    }
}

pub open spec fn triple(r: (String, Option<String>, String)) -> (
    Seq<char>,
    Option<Seq<char>>,
    Seq<char>,
) {
    (r.0@, opt_view(r.1), r.2@)
}

fn first_trace<'a>(facts: &'a Vec<Event>, next: &Event, window: i64) -> (r: Option<&'a Event>)
    ensures
        (match r {
            Some(e) => kept(
                views(facts@),
                |e: EventView| loss_trace(e, next@, window as int),
                0,
            ).len() > 0 && e@ == earliest(
                kept(views(facts@), |e: EventView| loss_trace(e, next@, window as int), 0),
            ),
            None => kept(
                views(facts@),
                |e: EventView| loss_trace(e, next@, window as int),
                0,
            ).len() == 0,
        }),
{
    let ghost f = |e: EventView| loss_trace(e, next@, window as int);
    let ghost fv = views(facts@);
    let ghost mut seen: Seq<EventView> = Seq::empty();
    let mut best: Option<&Event> = None;
    let mut i: usize = 0;
    proof {
        assert(seen + kept(fv, f, 0) =~= kept(fv, f, 0));
    }
    while i < facts.len()
        invariant
            i <= facts.len(),
            fv == views(facts@),
            f == (|e: EventView| loss_trace(e, next@, window as int)),
            seen + kept(fv, f, i as int) == kept(fv, f, 0),
            (match best {
                Some(e) => seen.len() > 0 && e@ == earliest(seen),
                None => seen.len() == 0,
            }),
        decreases facts.len() - i,
    {
        let e = &facts[i];
        let kind = e.event_type.as_str();
        let hit = (same(kind, "filesystem_recovery") || same(kind, "device_reenumeration") || same(
            kind,
            "power_loss_hint",
        )) && match seconds_before(e, next) {
            Some(s) => s <= window as i128,
            None => false,
        };
        proof {
            assert(fv[i as int] == e@);
            assert(hit == f(fv[i as int]));
        }
        if hit {
            let ghost was = seen;
            proof {
                seen = seen.push(e@);
                assert(seen.drop_last() =~= was);
                assert(was + kept(fv, f, i as int) =~= seen + kept(fv, f, i + 1));
            }
            match best {
                Some(b) => {
                    if clock_comes_before(
                        &local_clock_value(e.time.as_str()),
                        &local_clock_value(b.time.as_str()),
                    ) {
                        best = Some(e);
                    }
                },
                None => {
                    best = Some(e);
                },
            }
        }
        i += 1;
    }
    proof {
        assert(seen + kept(fv, f, i as int) =~= seen);
    }
    best
}

fn last_decisive<'a>(facts: &'a Vec<Event>, class: &str) -> (r: Option<&'a Event>)
    ensures
        (match r {
            Some(e) => kept(views(facts@), |e: EventView| decisive(class@, e.event_type), 0).len()
                > 0 && e@ == latest(
                kept(views(facts@), |e: EventView| decisive(class@, e.event_type), 0),
            ),
            None => kept(
                views(facts@),
                |e: EventView| decisive(class@, e.event_type),
                0,
            ).len() == 0,
        }),
{
    let ghost f = |e: EventView| decisive(class@, e.event_type);
    let ghost fv = views(facts@);
    let ghost mut seen: Seq<EventView> = Seq::empty();
    let mut best: Option<&Event> = None;
    let mut i: usize = 0;
    proof {
        assert(seen + kept(fv, f, 0) =~= kept(fv, f, 0));
    }
    while i < facts.len()
        invariant
            i <= facts.len(),
            fv == views(facts@),
            f == (|e: EventView| decisive(class@, e.event_type)),
            seen + kept(fv, f, i as int) == kept(fv, f, 0),
            (match best {
                Some(e) => seen.len() > 0 && e@ == latest(seen),
                None => seen.len() == 0,
            }),
        decreases facts.len() - i,
    {
        let e = &facts[i];
        let hit = is_decisive(class, e.event_type.as_str());
        proof {
            assert(fv[i as int] == e@);
            assert(hit == f(fv[i as int]));
        }
        if hit {
            let ghost was = seen;
            proof {
                seen = seen.push(e@);
                assert(seen.drop_last() =~= was);
                assert(was + kept(fv, f, i as int) =~= seen + kept(fv, f, i + 1));
            }
            match best {
                Some(b) => {
                    if !clock_comes_before(
                        &local_clock_value(e.time.as_str()),
                        &local_clock_value(b.time.as_str()),
                    ) {
                        best = Some(e);
                    }
                },
                None => {
                    best = Some(e);
                },
            }
        }
        i += 1;
    }
    proof {
        assert(seen + kept(fv, f, i as int) =~= seen);
    }
    best
}

/// When a session ended, as a report shows it. A suspected loss of power has no
/// moment of its own and is shown as a range up to the next boot.
pub fn session_incident_time(
    classification: &str,
    facts: &Vec<Event>,
    current_boot: &Event,
    next_boot: Option<&Event>,
    match_window_seconds: i64,
) -> (r: (String, Option<String>, String))
    ensures
        triple(r) == incident(
            classification@,
            views(facts@),
            current_boot@,
            opt_ref(next_boot),
            match_window_seconds as int,
        ),
{
    if same(classification, "疑似断电") {
        if let Some(next) = next_boot {
            let start = match first_trace(facts, next, match_window_seconds) {
                Some(e) => e.time.clone(),
                None => next.time.clone(),
            };
            return (start, Some(next.time.clone()), "range".to_owned());
        }
    }
    if let Some(e) = last_decisive(facts, classification) {
        let exact = if e.key.is_some() {
            "exact"
        } else {
            "approximate"
        };
        return (e.time.clone(), None, exact.to_owned());
    }
    let time = match next_boot {
        Some(n) => n.time.clone(),
        None => current_boot.time.clone(),
    };
    (time, None, "unknown".to_owned())
}

pub open spec fn has_kind(facts: Seq<EventView>, kind: Seq<char>) -> bool {
    any(facts, |e: EventView| e.event_type == kind)
}

fn holds_kind(facts: &Vec<Event>, kind: &str) -> (r: bool)
    ensures
        r == has_kind(views(facts@), kind@),
{
    let ghost f = |e: EventView| e.event_type == kind@;
    let ghost fv = views(facts@);
    let mut i: usize = 0;
    while i < facts.len()
        invariant
            i <= facts.len(),
            fv == views(facts@),
            f == (|e: EventView| e.event_type == kind@),
            forall|j: int| 0 <= j < i ==> !f(#[trigger] fv[j]),
        decreases facts.len() - i,
    {
        let hit = same(facts[i].event_type.as_str(), kind);
        proof {
            assert(fv[i as int] == facts@[i as int]@);
            assert(hit == f(fv[i as int]));
        }
        if hit {
            return true;
        }
        i += 1;
    }
    false
}

/// How a session with these facts ended, how sure that is, and why.
pub open spec fn ending(facts: Seq<EventView>) -> (Seq<char>, Seq<char>, Seq<Seq<char>>) {
    if has_kind(facts, "kernel_panic"@) {
        ("Kernel Panic 重启"@, "高"@, seq!["发现系统内核崩溃记录"@])
    } else if has_kind(facts, "watchdog_reset"@) {
        ("Watchdog 重启"@, "高"@, seq!["系统在无响应后触发了自动复位"@])
    } else if has_kind(facts, "hardware_reset"@) {
        ("硬件复位"@, "高"@, seq!["设备记录到硬件复位"@])
    } else if has_kind(facts, "reboot_request"@) || has_kind(facts, "reboot_complete"@) {
        ("正常重启"@, "高"@, seq!["找到完整的正常重启记录"@])
    } else if has_kind(facts, "shutdown_request"@) || has_kind(facts, "shutdown_complete"@) {
        ("正常关机"@, "高"@, seq!["找到正常关机流程记录"@])
    } else if has_kind(facts, "filesystem_recovery"@) || has_kind(facts, "device_reenumeration"@) {
        (
            "疑似断电"@,
            "中"@,
            (if has_kind(facts, "device_reenumeration"@) {
                seq!["硬盘在启动过程中被重新识别"@]
            } else {
                Seq::empty()
            }) + (if has_kind(facts, "filesystem_recovery"@) {
                seq!["文件系统执行过异常中断恢复"@]
            } else {
                Seq::empty()
            }) + seq!["没有找到正常关机或重启记录"@],
        )
    } else {
        ("未知复位"@, "低"@, seq!["没有足够记录判断上次关机原因"@])
    }
}

fn one_text(s: &str) -> (r: Vec<String>)
    ensures
        views(r@) == seq![s@],
{
    let mut v: Vec<String> = Vec::new();
    v.push(s.to_owned());
    proof {
        assert(views(v@) =~= seq![s@]);
    }
    v
}

fn push_text(v: &mut Vec<String>, s: &str)
    ensures
        views(final(v)@) == views(old(v)@).push(s@),
{
    v.push(s.to_owned());
    proof {
        assert(views(v@) =~= views(old(v)@).push(s@));
    }
}

fn session_ending(facts: &Vec<Event>) -> (r: (&'static str, &'static str, Vec<String>))
    ensures
        (r.0@, r.1@, views(r.2@)) == ending(views(facts@)),
{
    if holds_kind(facts, "kernel_panic") {
        ("Kernel Panic 重启", "高", one_text("发现系统内核崩溃记录"))
    } else if holds_kind(facts, "watchdog_reset") {
        ("Watchdog 重启", "高", one_text("系统在无响应后触发了自动复位"))
    } else if holds_kind(facts, "hardware_reset") {
        ("硬件复位", "高", one_text("设备记录到硬件复位"))
    } else if holds_kind(facts, "reboot_request") || holds_kind(facts, "reboot_complete") {
        ("正常重启", "高", one_text("找到完整的正常重启记录"))
    } else if holds_kind(facts, "shutdown_request") || holds_kind(facts, "shutdown_complete") {
        ("正常关机", "高", one_text("找到正常关机流程记录"))
    } else {
        let recovered = holds_kind(facts, "filesystem_recovery");
        let reseen = holds_kind(facts, "device_reenumeration");
        if recovered || reseen {
            let mut evidence: Vec<String> = Vec::new();
            proof {
                assert(views(evidence@) =~= Seq::<Seq<char>>::empty());
            }
            if reseen {
                push_text(&mut evidence, "硬盘在启动过程中被重新识别");
            }
            if recovered {
                push_text(&mut evidence, "文件系统执行过异常中断恢复");
            }
            push_text(&mut evidence, "没有找到正常关机或重启记录");
            proof {
                assert(views(evidence@) =~= ending(views(facts@)).2);
            }
            ("疑似断电", "中", evidence)
        } else {
            ("未知复位", "低", one_text("没有足够记录判断上次关机原因"))
        }
    }
}

/// What a reader must bear in mind of a session.
pub open spec fn caveats(class: Seq<char>, facts: Seq<EventView>, boot: EventView) -> Seq<
    Seq<char>,
> {
    (if has_kind(facts, "reset_reason"@) {
        seq!["设备自身没有记录明确原因"@]
    } else {
        Seq::empty()
    }) + (if class == "疑似断电"@ {
        seq!["没有直接的电源状态记录"@]
    } else {
        Seq::empty()
    }) + (if boot.key is None || any(facts, |e: EventView| e.time_precision == "partial"@) {
        seq!["部分日志时间可能存在少量偏差"@]
    } else {
        Seq::empty()
    })
}

fn holds_partial(facts: &Vec<Event>) -> (r: bool)
    ensures
        r == any(views(facts@), |e: EventView| e.time_precision == "partial"@),
{
    let ghost f = |e: EventView| e.time_precision == "partial"@;
    let ghost fv = views(facts@);
    let mut i: usize = 0;
    while i < facts.len()
        invariant
            i <= facts.len(),
            fv == views(facts@),
            f == (|e: EventView| e.time_precision == "partial"@),
            forall|j: int| 0 <= j < i ==> !f(#[trigger] fv[j]),
        decreases facts.len() - i,
    {
        let hit = same(facts[i].time_precision.as_str(), "partial");
        proof {
            assert(fv[i as int] == facts@[i as int]@);
            assert(hit == f(fv[i as int]));
        }
        if hit {
            return true;
        }
        i += 1;
    }
    false
}

fn session_caveats(class: &str, facts: &Vec<Event>, boot: &Event) -> (r: Vec<String>)
    ensures
        views(r@) == caveats(class@, views(facts@), boot@),
{
    let mut out: Vec<String> = Vec::new();
    proof {
        assert(views(out@) =~= Seq::<Seq<char>>::empty());
    }
    if holds_kind(facts, "reset_reason") {
        push_text(&mut out, "设备自身没有记录明确原因");
    }
    if same(class, "疑似断电") {
        push_text(&mut out, "没有直接的电源状态记录");
    }
    if boot.key.is_none() || holds_partial(facts) {
        push_text(&mut out, "部分日志时间可能存在少量偏差");
    }
    proof {
        assert(views(out@) =~= caveats(class@, views(facts@), boot@));
    }
    out
}

/// At most this many facts are taken by their time.
pub const FACT_LIMIT: usize = 128;

/// The facts of a session that lie in it by their time.
pub open spec fn timed_facts(s: Seq<EventView>, boot: EventView, next: Option<EventView>) -> Seq<
    EventView,
> {
    let all = kept(s, |e: EventView| belongs(e, boot, next), 0);
    if all.len() > FACT_LIMIT {
        all.take(FACT_LIMIT as int)
    } else {
        all
    }
}

pub open spec fn same_fact(a: EventView, b: EventView) -> bool {
    a.name == b.name && a.time == b.time
}

/// Whether the event comes from a reset record at the time of the boot and is
/// not among the facts yet.
pub open spec fn record_of_boot(
    e: EventView,
    facts: Seq<EventView>,
    boot: EventView,
    window: int,
) -> bool {
    &&& from_record(e)
    &&& !any(facts, |f: EventView| same_fact(f, e))
    &&& !key_before(e.key, boot.key)
    &&& near(boot.key, e.key, window)
}

/// The facts of a session.
pub open spec fn session_facts(
    s: Seq<EventView>,
    boot: EventView,
    next: Option<EventView>,
    window: int,
) -> Seq<EventView> {
    let facts = timed_facts(s, boot, next);
    sorted(facts + kept(s, |e: EventView| record_of_boot(e, facts, boot, window), 0), by_key())
}

fn facts_by_time(s: &Vec<Event>, boot: &Event, next: Option<&Event>) -> (r: Vec<Event>)
    ensures
        views(r@) == timed_facts(views(s@), boot@, opt_ref(next)),
{
    let ghost nv = opt_ref(next);
    let ghost f = |e: EventView| belongs(e, boot@, nv);
    let ghost sv = views(s@);
    let mut out: Vec<Event> = Vec::new();
    let mut i: usize = 0;
    proof {
        assert(views(out@) + kept(sv, f, 0) =~= kept(sv, f, 0));
    }
    while i < s.len()
        invariant
            i <= s.len(),
            sv == views(s@),
            nv == opt_ref(next),
            f == (|e: EventView| belongs(e, boot@, nv)),
            views(out@) + kept(sv, f, i as int) == kept(sv, f, 0),
        decreases s.len() - i,
    {
        let hit = event_belongs_to_session(&s[i], boot, next);
        proof {
            assert(sv[i as int] == s@[i as int]@);
            assert(hit == f(sv[i as int]));
        }
        if hit {
            let ghost was = views(out@);
            out.push(s[i].duplicate());
            proof {
                assert(views(out@) =~= was.push(sv[i as int]));
                assert(was + kept(sv, f, i as int) =~= views(out@) + kept(sv, f, i + 1));
            }
        }
        i += 1;
    }
    proof {
        assert(views(out@) + kept(sv, f, i as int) =~= views(out@));
    }
    if out.len() > FACT_LIMIT {
        let ghost all = views(out@);
        out.truncate(FACT_LIMIT);
        proof {
            assert(views(out@) =~= all.take(FACT_LIMIT as int));
        }
    }
    out
}

fn known_fact(facts: &Vec<Event>, e: &Event) -> (r: bool)
    ensures
        r == any(views(facts@), |f: EventView| same_fact(f, e@)),
{
    let ghost f = |f: EventView| same_fact(f, e@);
    let ghost fv = views(facts@);
    let mut i: usize = 0;
    while i < facts.len()
        invariant
            i <= facts.len(),
            fv == views(facts@),
            f == (|f: EventView| same_fact(f, e@)),
            forall|j: int| 0 <= j < i ==> !f(#[trigger] fv[j]),
        decreases facts.len() - i,
    {
        let hit = same(facts[i].name.as_str(), e.name.as_str()) && same(
            facts[i].time.as_str(),
            e.time.as_str(),
        );
        proof {
            assert(fv[i as int] == facts@[i as int]@);
            assert(hit == f(fv[i as int]));
        }
        if hit {
            return true;
        }
        i += 1;
    }
    false
}

fn facts_of_session(s: &Vec<Event>, boot: &Event, next: Option<&Event>, window: i64) -> (r: Vec<
    Event,
>)
    ensures
        views(r@) == session_facts(views(s@), boot@, opt_ref(next), window as int),
{
    let facts = facts_by_time(s, boot, next);
    let ghost tv = views(facts@);
    let ghost f = |e: EventView| record_of_boot(e, tv, boot@, window as int);
    let ghost sv = views(s@);
    let mut out = duplicate_all(&facts);
    let mut i: usize = 0;
    while i < s.len()
        invariant
            i <= s.len(),
            sv == views(s@),
            tv == views(facts@),
            f == (|e: EventView| record_of_boot(e, tv, boot@, window as int)),
            views(out@) + kept(sv, f, i as int) == tv + kept(sv, f, 0),
        decreases s.len() - i,
    {
        let e = &s[i];
        let hit = is_from_record(e) && !known_fact(&facts, e) && !key_comes_before(
            &e.key,
            &boot.key,
        ) && same_time_window(&boot.key, &e.key, window);
        proof {
            assert(sv[i as int] == e@);
            assert(hit == f(sv[i as int]));
        }
        if hit {
            let ghost was = views(out@);
            out.push(e.duplicate());
            proof {
                assert(views(out@) =~= was.push(sv[i as int]));
                assert(was + kept(sv, f, i as int) =~= views(out@) + kept(sv, f, i + 1));
            }
        }
        i += 1;
    }
    proof {
        assert(views(out@) + kept(sv, f, i as int) =~= views(out@));
    }
    sort_events(out)
}

/// The first boot identity that the facts name.
pub open spec fn session_boot_id(facts: Seq<EventView>, i: int) -> Option<Seq<char>>
    decreases facts.len() - i,
{
    if i >= facts.len() {
        None
    } else if boot_id_of(facts[i].note) is Some {
        boot_id_of(facts[i].note)
    } else {
        session_boot_id(facts, i + 1)
    }
}

fn find_boot_id(facts: &Vec<Event>) -> (r: Option<String>)
    ensures
        opt_view(r) == session_boot_id(views(facts@), 0),
{
    let ghost fv = views(facts@);
    let mut i: usize = 0;
    while i < facts.len()
        invariant
            i <= facts.len(),
            fv == views(facts@),
            session_boot_id(fv, 0) == session_boot_id(fv, i as int),
        decreases facts.len() - i,
    {
        let id = extract_boot_id(&facts[i]);
        proof {
            assert(fv[i as int] == facts@[i as int]@);
        }
        if id.is_some() {
            return id;
        }
        i += 1;
    }
    None
}

/// The session that starts at the anchor with this number.
pub open spec fn session(s: Seq<EventView>, at: Seq<int>, idx: int, window: int)
    -> TimelineSessionView {
    let boot = s[at[idx]];
    let next = if idx + 1 < at.len() {
        Some(s[at[idx + 1]])
    } else {
        None
    };
    let facts = session_facts(s, boot, next, window);
    let (class, confidence, evidence) = ending(facts);
    let (from, to, exact) = incident(class, facts, boot, next, window);
    TimelineSessionView {
        session_id: "session-"@ + decimal((idx + 1) as nat),
        boot_time: boot.time,
        boot_time_precision: boot.time_precision,
        incident_time_start: from,
        incident_time_end: to,
        incident_time_precision: exact,
        boot_id: session_boot_id(facts, 0),
        facts,
        end_classification: class,
        confidence,
        supporting_evidence: evidence,
        limitations: caveats(class, facts, boot),
    }
}

/// The sessions of a list of events.
pub open spec fn sessions(events: Seq<EventView>, window: int) -> Seq<TimelineSessionView> {
    let s = sorted(events, by_key());
    Seq::new(starts(s).len(), |i: int| session(s, starts(s), i, window))
}

fn build_session(s: &Vec<Event>, at: &Vec<usize>, idx: usize, window: i64) -> (r: TimelineSession)
    requires
        idx < at.len(),
        all_below(at@, s.len() as int),
    ensures
        r@ == session(views(s@), ints(at@), idx as int, window as int),
{
    let ghost sv = views(s@);
    let ghost av = ints(at@);
    proof {
        assert(at@[idx as int] < s.len());
        assert(sv[av[idx as int]] == s@[at@[idx as int] as int]@);
    }
    let boot = &s[at[idx]];
    let next: Option<&Event> = if idx < at.len() - 1 {
        proof {
            assert(at@[idx + 1] < s.len());
            assert(sv[av[idx + 1]] == s@[at@[idx + 1] as int]@);
        }
        Some(&s[at[idx + 1]])
    } else {
        None
    };
    let facts = facts_of_session(s, boot, next, window);
    let (class, confidence, evidence) = session_ending(&facts);
    let (from, to, exact) = session_incident_time(class, &facts, boot, next, window);
    let number = decimal_text(idx as u64 + 1);
    let boot_id = find_boot_id(&facts);
    let limitations = session_caveats(class, &facts, boot);
    TimelineSession {
        session_id: concat2("session-", number.as_str()),
        boot_time: boot.time.clone(),
        boot_time_precision: boot.time_precision.clone(),
        incident_time_start: from,
        incident_time_end: to,
        incident_time_precision: exact,
        boot_id,
        facts,
        end_classification: class.to_owned(),
        confidence: confidence.to_owned(),
        supporting_evidence: evidence,
        limitations,
    }
}

/// Builds the sessions that the events tell of.
pub fn build_timeline_sessions(events: &Vec<Event>, match_window_seconds: i64) -> (r: Vec<
    TimelineSession,
>)
    ensures
        views(r@) == sessions(views(events@), match_window_seconds as int),
{
    let ordered = sort_events(duplicate_all(events));
    let ghost sv = views(ordered@);
    let at = session_starts(&ordered);
    let ghost av = ints(at@);
    let mut out: Vec<TimelineSession> = Vec::new();
    let mut i: usize = 0;
    while i < at.len()
        invariant
            i <= at.len(),
            out.len() == i,
            all_below(at@, ordered.len() as int),
            sv == views(ordered@),
            av == ints(at@),
            forall|j: int|
                0 <= j < i ==> (#[trigger] out@[j])@ == session(
                    sv,
                    av,
                    j,
                    match_window_seconds as int,
                ),
        decreases at.len() - i,
    {
        out.push(build_session(&ordered, &at, i, match_window_seconds));
        i += 1;
    }
    proof {
        assert(views(out@) =~= sessions(views(events@), match_window_seconds as int));
    }
    out
}

} // verus!
