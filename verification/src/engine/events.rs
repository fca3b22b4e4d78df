//! The timeline of a report: evidence, merging and order of events.

use crate::engine::model::{
    Event, EventView, Finding, FindingView, Fragment, FragmentView, LogLine, LogLineView,
};
use crate::engine::plan::{is_reset_file, is_reset_record};
use crate::engine::sessions::same_key;
use crate::order::{sort_by, sorted};
use crate::text::{any, before, comes_before, first_place, same, views, Duplicate};
use vstd::prelude::*;

verus! {

pub open spec fn hit_at(number: usize) -> spec_fn(LogLineView) -> bool {
    |l: LogLineView| l.hit && l.number == number
}

/// The last of the first `n` fragments that holds a hit on a line of a file.
pub open spec fn fragment_with(s: Seq<FragmentView>, file: Seq<char>, number: usize, n: int)
    -> Option<FragmentView>
    decreases n,
{
    if n <= 0 {
        None
    } else if s[n - 1].file == file && any(s[n - 1].lines, hit_at(number)) {
        Some(s[n - 1])
    } else {
        fragment_with(s, file, number, n - 1)
    }
}

/// The fragment of the first `n` findings that is the evidence of an event: that
/// of a rule with its name and group that feeds the timeline.
pub open spec fn evidence_of(
    s: Seq<FindingView>,
    e: EventView,
    file: Seq<char>,
    number: usize,
    n: int,
) -> Option<FragmentView>
    decreases n,
{
    if n <= 0 {
        None
    } else {
        let f = s[n - 1];
        let here = fragment_with(f.fragments, file, number, f.fragments.len() as int);
        if f.rule.target != "keywords"@ && f.rule.name == e.name && f.rule.group == e.group && here
            is Some {
            here
        } else {
            evidence_of(s, e, file, number, n - 1)
        }
    }
}

/// A source of an event with its context.
pub open spec fn source_with_context(s: Seq<FindingView>, e: EventView, source: FragmentView)
    -> FragmentView {
    if source.lines.len() == 0 {
        source
    } else {
        match evidence_of(s, e, source.file, source.lines[0].number, s.len() as int) {
            Some(f) => f,
            None => source,
        }
    }
}

/// An event whose sources stand in their context.
pub open spec fn with_context(s: Seq<FindingView>, e: EventView) -> EventView {
    EventView {
        sources: Seq::new(e.sources.len(), |i: int| source_with_context(s, e, e.sources[i])),
        ..e
    }
}

fn holds_hit_at(lines: &Vec<LogLine>, number: usize) -> (r: bool)
    ensures
        r == any(views(lines@), hit_at(number)),
{
    let ghost lv = views(lines@);
    let ghost f = hit_at(number);
    let mut i: usize = 0;
    while i < lines.len()
        invariant
            i <= lines.len(),
            lv == views(lines@),
            f == hit_at(number),
            forall|j: int| 0 <= j < i ==> !f(#[trigger] lv[j]),
        decreases lines.len() - i,
    {
        let hit = lines[i].hit && lines[i].number == number;
        proof {
            assert(lv[i as int] == lines@[i as int]@);
            assert(hit == f(lv[i as int]));
        }
        if hit {
            return true;
        }
        i += 1;
    }
    false
}

fn find_fragment<'a>(s: &'a Vec<Fragment>, file: &str, number: usize) -> (r: Option<&'a Fragment>)
    ensures
        (match r {
            Some(f) => fragment_with(views(s@), file@, number, s.len() as int) == Some(f@),
            None => fragment_with(views(s@), file@, number, s.len() as int) is None,
        }),
{
    let ghost sv = views(s@);
    let mut i: usize = s.len();
    while i > 0
        invariant
            i <= s.len(),
            sv == views(s@),
            fragment_with(sv, file@, number, s.len() as int) == fragment_with(
                sv,
                file@,
                number,
                i as int,
            ),
        decreases i,
    {
        i -= 1;
        proof {
            assert(sv[i as int] == s@[i as int]@);
        }
        if same(s[i].file.as_str(), file) && holds_hit_at(&s[i].lines, number) {
            return Some(&s[i]);
        }
    }
    None
}

fn find_evidence<'a>(
    s: &'a Vec<Finding>,
    name: &str,
    group: &str,
    file: &str,
    number: usize,
    Ghost(e): Ghost<EventView>,
) -> (r: Option<&'a Fragment>)
    requires
        e.name == name@,
        e.group == group@,
    ensures
        (match r {
            Some(f) => evidence_of(views(s@), e, file@, number, s.len() as int) == Some(f@),
            None => evidence_of(views(s@), e, file@, number, s.len() as int) is None,
        }),
{
    let ghost sv = views(s@);
    let mut i: usize = s.len();
    while i > 0
        invariant
            i <= s.len(),
            sv == views(s@),
            e.name == name@,
            e.group == group@,
            evidence_of(sv, e, file@, number, s.len() as int) == evidence_of(
                sv,
                e,
                file@,
                number,
                i as int,
            ),
        decreases i,
    {
        i -= 1;
        let f = &s[i];
        proof {
            assert(sv[i as int] == f@);
            assert(f.fragments.len() == f@.fragments.len());
        }
        if !same(f.rule.target.as_str(), "keywords") && same(f.rule.name.as_str(), name) && same(
            f.rule.group.as_str(),
            group,
        ) {
            let here = find_fragment(&f.fragments, file, number);
            if here.is_some() {
                return here;
            }
        }
    }
    None
}

fn put_in_context(s: &Vec<Finding>, e: &Event) -> (r: Event)
    ensures
        r@ == with_context(views(s@), e@),
{
    let ghost ev = e@;
    let ghost sv = views(s@);
    let mut sources: Vec<Fragment> = Vec::new();
    let mut i: usize = 0;
    while i < e.sources.len()
        invariant
            i <= e.sources.len(),
            ev == e@,
            sv == views(s@),
            sources.len() == i,
            forall|j: int|
                0 <= j < i ==> (#[trigger] sources@[j])@ == source_with_context(
                    sv,
                    ev,
                    ev.sources[j],
                ),
        decreases e.sources.len() - i,
    {
        let source = &e.sources[i];
        proof {
            assert(ev.sources[i as int] == source@);
            assert(source@.lines.len() == source.lines.len());
        }
        if source.lines.len() == 0 {
            sources.push(source.duplicate());
        } else {
            proof {
                assert(source@.lines[0] == source.lines@[0]@);
                assert(sv.len() == s.len());
            }
            match find_evidence(
                s,
                e.name.as_str(),
                e.group.as_str(),
                source.file.as_str(),
                source.lines[0].number,
                Ghost(ev),
            ) {
                Some(f) => {
                    sources.push(f.duplicate());
                },
                None => {
                    sources.push(source.duplicate());
                },
            }
        }
        i += 1;
    }
    let mut out = e.duplicate();
    proof {
        assert(views(sources@) =~= with_context(sv, ev).sources);
    }
    out.sources = sources;
    out
}

/// The same fact seen at the same moment.
pub open spec fn same_moment(e: EventView) -> spec_fn(EventView) -> bool {
    |m: EventView| m.name == e.name && m.group == e.group && m.key == e.key
}

/// The first `n` events, where those with a complete time that tell the same at
/// the same moment are one with all their sources.
pub open spec fn merged_events(s: Seq<EventView>, n: int) -> Seq<EventView>
    decreases n,
{
    if n <= 0 {
        Seq::empty()
    } else {
        let m = merged_events(s, n - 1);
        let e = s[n - 1];
        match first_place(m, same_moment(e), 0) {
            Some(i) => if e.key is Some {
                m.update(i, EventView { sources: m[i].sources + e.sources, ..m[i] })
            } else {
                m.push(e)
            },
            None => m.push(e),
        }
    }
}

fn find_moment(m: &Vec<Event>, e: &Event) -> (r: Option<usize>)
    ensures
        (match r {
            Some(i) => i < m.len() && first_place(views(m@), same_moment(e@), 0) == Some(i as int),
            None => first_place(views(m@), same_moment(e@), 0) is None,
        }),
{
    let ghost mv = views(m@);
    let ghost f = same_moment(e@);
    let mut i: usize = 0;
    while i < m.len()
        invariant
            i <= m.len(),
            mv == views(m@),
            f == same_moment(e@),
            first_place(mv, f, 0) == first_place(mv, f, i as int),
        decreases m.len() - i,
    {
        let hit = same(m[i].name.as_str(), e.name.as_str()) && same(
            m[i].group.as_str(),
            e.group.as_str(),
        ) && same_key(&m[i].key, &e.key);
        proof {
            assert(mv[i as int] == m@[i as int]@);
            assert(hit == f(mv[i as int]));
        }
        if hit {
            return Some(i);
        }
        i += 1;
    }
    None
}

fn merge_events(s: &Vec<Event>) -> (r: Vec<Event>)
    ensures
        views(r@) == merged_events(views(s@), s.len() as int),
{
    let ghost sv = views(s@);
    let mut out: Vec<Event> = Vec::new();
    let mut i: usize = 0;
    proof {
        assert(views(out@) =~= merged_events(sv, 0));
    }
    while i < s.len()
        invariant
            i <= s.len(),
            sv == views(s@),
            views(out@) == merged_events(sv, i as int),
        decreases s.len() - i,
    {
        let e = &s[i];
        let ghost was = views(out@);
        let ghost had = out@;
        proof {
            assert(sv[i as int] == e@);
        }
        let found = if e.key.is_some() {
            find_moment(&out, e)
        } else {
            None
        };
        match found {
            Some(k) => {
                let mut m = out[k].duplicate();
                let mut more = crate::text::duplicate_all(&e.sources);
                proof {
                    assert(was[k as int] == had[k as int]@);
                    crate::text::lemma_views_add(m.sources@, more@);
                }
                m.sources.append(&mut more);
                let ghost mv = m@;
                out.set(k, m);
                proof {
                    assert(views(out@) =~= was.update(k as int, mv));
                    assert(mv =~= (EventView {
                        sources: was[k as int].sources + e@.sources,
                        ..was[k as int]
                    }));
                }
            },
            None => {
                out.push(e.duplicate());
                proof {
                    assert(views(out@) =~= was.push(e@));
                }
            },
        }
        i += 1;
    }
    out
}

/// The order of a report's events: those with a complete time first, by it, in
/// the chosen direction; then the others by their time as it is written.
pub open spec fn shown_before(desc: bool, a: EventView, b: EventView) -> bool {
    match (a.key, b.key) {
        (Some(x), Some(y)) => if desc {
            before(y, x)
        } else {
            before(x, y)
        },
        (Some(_), None) => true,
        (None, Some(_)) => false,
        (None, None) => before(a.time, b.time),
    }
}

pub open spec fn by_moment(desc: bool) -> spec_fn(EventView, EventView) -> bool {
    |a: EventView, b: EventView| shown_before(desc, a, b)
}

fn is_shown_before(desc: bool, a: &Event, b: &Event) -> (r: bool)
    ensures
        r == shown_before(desc, a@, b@),
{
    match (&a.key, &b.key) {
        (Some(x), Some(y)) => if desc {
            comes_before(y.as_str(), x.as_str())
        } else {
            comes_before(x.as_str(), y.as_str())
        },
        (Some(_), None) => true,
        (None, Some(_)) => false,
        (None, None) => comes_before(a.time.as_str(), b.time.as_str()),
    }
}

fn sort_shown(events: Vec<Event>, desc: bool) -> (r: Vec<Event>)
    ensures
        views(r@) == sorted(views(events@), by_moment(desc)),
{
    let less = |a: &Event, b: &Event| -> (r: bool)
        ensures
            r == shown_before(desc, a@, b@),
    {
        is_shown_before(desc, a, b)
    };
    sort_by(events, less, Ghost(by_moment(desc)))
}

/// The events of a report.
pub open spec fn report_events(findings: Seq<FindingView>, events: Seq<EventView>, desc: bool)
    -> Seq<EventView> {
    let placed = Seq::new(events.len(), |i: int| with_context(findings, events[i]));
    sorted(merged_events(placed, placed.len() as int), by_moment(desc))
}

/// Gives the events their context, merges them and puts them in order.
pub fn arrange_events(findings: &Vec<Finding>, events: &Vec<Event>, desc: bool) -> (r: Vec<Event>)
    ensures
        views(r@) == report_events(views(findings@), views(events@), desc),
{
    let ghost fv = views(findings@);
    let ghost ev = views(events@);
    let mut placed: Vec<Event> = Vec::new();
    let mut i: usize = 0;
    while i < events.len()
        invariant
            i <= events.len(),
            fv == views(findings@),
            ev == views(events@),
            placed.len() == i,
            forall|j: int| 0 <= j < i ==> (#[trigger] placed@[j])@ == with_context(fv, ev[j]),
        decreases events.len() - i,
    {
        proof {
            assert(ev[i as int] == events@[i as int]@);
        }
        placed.push(put_in_context(findings, &events[i]));
        i += 1;
    }
    proof {
        assert(views(placed@) =~= Seq::new(ev.len(), |i: int| with_context(fv, ev[i])));
        assert(placed.len() == views(placed@).len());
    }
    let merged = merge_events(&placed);
    sort_shown(merged, desc)
}

pub open spec fn from_reset_file() -> spec_fn(FragmentView) -> bool {
    |f: FragmentView| is_reset_file(f.file)
}

pub open spec fn has_reset_source() -> spec_fn(EventView) -> bool {
    |e: EventView| any(e.sources, from_reset_file())
}

pub open spec fn is_partial() -> spec_fn(EventView) -> bool {
    |e: EventView| e.time_precision == "partial"@
}

/// What a reader must know of a report's timeline.
pub open spec fn timeline_notes(events: Seq<EventView>) -> Seq<Seq<char>> {
    (if any(events, has_reset_source()) {
        Seq::empty()
    } else {
        seq![
            "未发现 ug_reset_reason.log；厂商复位原因不可用，未知复位不会被自动判定为断电。"@,
        ]
    }) + (if any(events, is_partial()) {
        seq!["部分时间只有局部时间或无法统一到绝对时间，跨日志来源未强行合并。"@]
    } else {
        Seq::empty()
    })
}

fn holds_reset_source(e: &Event) -> (r: bool)
    ensures
        r == any(e@.sources, from_reset_file()),
{
    let ghost sv = e@.sources;
    let ghost f = from_reset_file();
    let mut i: usize = 0;
    while i < e.sources.len()
        invariant
            i <= e.sources.len(),
            sv == views(e.sources@),
            f == from_reset_file(),
            forall|j: int| 0 <= j < i ==> !f(#[trigger] sv[j]),
        decreases e.sources.len() - i,
    {
        let hit = is_reset_record(e.sources[i].file.as_str());
        proof {
            assert(sv[i as int] == e.sources@[i as int]@);
            assert(hit == f(sv[i as int]));
        }
        if hit {
            return true;
        }
        i += 1;
    }
    false
}

/// What a reader must know of a report's timeline.
pub fn timeline_warnings(events: &Vec<Event>) -> (r: Vec<String>)
    ensures
        views(r@) == timeline_notes(views(events@)),
{
    let ghost ev = views(events@);
    let ghost f = has_reset_source();
    let ghost g = is_partial();
    let mut recorded = false;
    let mut partial = false;
    let mut i: usize = 0;
    while i < events.len()
        invariant
            i <= events.len(),
            ev == views(events@),
            f == has_reset_source(),
            g == is_partial(),
            recorded == exists|j: int| 0 <= j < i && f(#[trigger] ev[j]),
            partial == exists|j: int| 0 <= j < i && g(#[trigger] ev[j]),
        decreases events.len() - i,
    {
        let a = holds_reset_source(&events[i]);
        let b = same(events[i].time_precision.as_str(), "partial");
        proof {
            assert(ev[i as int] == events@[i as int]@);
            assert(a == f(ev[i as int]));
            assert(b == g(ev[i as int]));
        }
        recorded = recorded || a;
        partial = partial || b;
        i += 1;
    }
    let mut out: Vec<String> = Vec::new();
    if !recorded {
        out.push(
            "未发现 ug_reset_reason.log；厂商复位原因不可用，未知复位不会被自动判定为断电。".to_owned(),
        );
    }
    if partial {
        out.push("部分时间只有局部时间或无法统一到绝对时间，跨日志来源未强行合并。".to_owned());
    }
    proof {
        assert(views(out@) =~= timeline_notes(ev));
    }
    out
}

} // verus!
