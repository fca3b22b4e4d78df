//! What the scan of a log shows of its lines.

use crate::engine::facts::{event_kind, event_text, line_event};
use crate::engine::model::EventView;
use crate::engine::scan::{
    byte_lines, line_feed, log_of, nul_mark, nul_named, prepared, shown, Log, Task,
};
use crate::engine::time::{custom_time, time_of};
use crate::outside::json::json_compact;
use crate::outside::std_text::lossy;
use crate::rules::matcher::matcher_of;
use crate::rules::model::RuleView;
use crate::text::{begins, decimal, trim_end, trim_start, Class};
use vstd::prelude::*;

verus! {

/// Whether no byte is a line feed.
pub open spec fn no_feed(b: Seq<u8>) -> bool {
    forall|i: int| 0 <= i < b.len() ==> #[trigger] b[i] != 10
}

proof fn lemma_feed(b: Seq<u8>, i: int, j: int)
    requires
        0 <= i <= j <= b.len(),
        forall|x: int| i <= x < j ==> #[trigger] b[x] != 10,
        j < b.len() ==> b[j] == 10,
    ensures
        line_feed(b, i) == j,
    decreases j - i,
{
    if i < j {
        lemma_feed(b, i + 1, j);
    }
}

proof fn lemma_feed_bounds(b: Seq<u8>, i: int)
    requires
        0 <= i <= b.len(),
    ensures
        i <= line_feed(b, i) <= b.len(),
        line_feed(b, i) < b.len() ==> b[line_feed(b, i)] == 10,
        forall|x: int| i <= x < line_feed(b, i) ==> #[trigger] b[x] != 10,
    decreases b.len() - i,
{
    if i < b.len() && b[i] != 10 {
        lemma_feed_bounds(b, i + 1);
    }
}

proof fn lemma_byte_lines_shift(a: Seq<u8>, b: Seq<u8>, i: int, whole: bool)
    requires
        0 <= i <= b.len(),
    ensures
        byte_lines(a + b, a.len() + i, whole) == byte_lines(b, i, whole),
    decreases b.len() - i,
{
    let s = a + b;
    let n = a.len() as int;
    lemma_feed_bounds(b, i);
    let j = line_feed(b, i);
    assert forall|x: int| n + i <= x < n + j implies #[trigger] s[x] != 10 by {
        assert(s[x] == b[x - n]);
    }
    if j < b.len() {
        assert(s[n + j] == b[j]);
    }
    lemma_feed(s, n + i, n + j);
    if i < b.len() {
        if j < b.len() {
            lemma_byte_lines_shift(a, b, j + 1, whole);
            assert(s.subrange(n + i, n + j + 1) =~= b.subrange(i, j + 1));
        } else {
            assert(s.subrange(n + i, s.len() as int) =~= b.subrange(i, b.len() as int));
        }
    }
}

/// The lines of a file end with a line feed, which belongs to them. What follows the
/// last one is a line where the file was read to its end, and is left out where it
/// was not.
pub proof fn law_byte_lines_end_with_a_line_feed(l: Seq<u8>, rest: Seq<u8>, whole: bool)
    requires
        no_feed(l),
    ensures
        byte_lines(l + seq![10u8] + rest, 0, whole) == seq![l + seq![10u8]] + byte_lines(
            rest,
            0,
            whole,
        ),
        byte_lines(l, 0, whole) == (if l.len() > 0 && whole {
            seq![l]
        } else {
            Seq::empty()
        }),
{
    lemma_feed(l, 0, l.len() as int);
    assert(l.subrange(0, l.len() as int) =~= l);
    let a = l + seq![10u8];
    let s = a + rest;
    assert forall|x: int| 0 <= x < l.len() implies #[trigger] s[x] != 10 by {
        assert(s[x] == l[x]);
    }
    assert(s[l.len() as int] == 10);
    lemma_feed(s, 0, l.len() as int);
    assert(s.subrange(0, a.len() as int) =~= a);
    lemma_byte_lines_shift(a, rest, 0, whole);
}

/// Whether no character is NUL.
pub open spec fn no_nul(s: Seq<char>) -> bool {
    forall|i: int| 0 <= i < s.len() ==> #[trigger] s[i] != '\0'
}

proof fn lemma_nul_shift(a: Seq<char>, b: Seq<char>, i: int, count: nat)
    requires
        0 <= i <= b.len(),
    ensures
        nul_named(a + b, a.len() + i, count) == nul_named(b, i, count),
    decreases b.len() - i,
{
    if i < b.len() {
        assert((a + b)[a.len() + i] == b[i]);
        if b[i] == '\0' {
            lemma_nul_shift(a, b, i + 1, count + 1);
        } else {
            lemma_nul_shift(a, b, i + 1, 0);
        }
    }
}

proof fn lemma_nul_run(s: Seq<char>, i: int, n: nat, count: nat)
    requires
        0 <= i,
        i + n <= s.len(),
        forall|x: int| i <= x < i + n ==> #[trigger] s[x] == '\0',
    ensures
        nul_named(s, i, count) == nul_named(s, i + n, count + n),
    decreases n,
{
    if n > 0 {
        lemma_nul_run(s, i + 1, (n - 1) as nat, count + 1);
    }
}

proof fn lemma_nul_plain(a: Seq<char>, rest: Seq<char>)
    requires
        no_nul(a),
    ensures
        nul_named(a + rest, 0, 0) == a + nul_named(rest, 0, 0),
    decreases a.len(),
{
    let s = a + rest;
    if a.len() == 0 {
        assert(s =~= rest);
        assert(a + nul_named(rest, 0, 0) =~= nul_named(rest, 0, 0));
    } else {
        let b = a.subrange(1, a.len() as int);
        assert(s[0] == a[0]);
        assert(s =~= seq![a[0]] + (b + rest));
        lemma_nul_shift(seq![a[0]], b + rest, 0, 0);
        assert(no_nul(b)) by {
            assert forall|i: int| 0 <= i < b.len() implies #[trigger] b[i] != '\0' by {
                assert(b[i] == a[i + 1]);
            }
        }
        lemma_nul_plain(b, rest);
        assert(nul_mark(0).push(s[0]) =~= seq![a[0]]);
        assert(seq![a[0]] + (b + nul_named(rest, 0, 0)) =~= a + nul_named(rest, 0, 0));
    }
}

/// A line is shown as its text without its line end; each run of NUL characters is
/// named by its length, and all other characters stay.
pub proof fn law_nul_runs_are_named(a: Seq<char>, n: nat, rest: Seq<char>)
    requires
        no_nul(a),
        n > 0,
        rest.len() > 0 ==> rest[0] != '\0',
    ensures
        nul_named(a, 0, 0) == a,
        nul_named(a + Seq::new(n, |i: int| '\0') + rest, 0, 0) == a + ("[NUL × "@ + decimal(n)
            + "]"@) + nul_named(rest, 0, 0),
        forall|b: Seq<u8>| #[trigger]
            shown(b) == nul_named(trim_end(lossy(b), Class::LineEnd), 0, 0),
{
    lemma_nul_plain(a, Seq::empty());
    assert(a + Seq::<char>::empty() =~= a);
    assert(nul_named(Seq::<char>::empty(), 0, 0) =~= Seq::empty());
    assert(a + nul_named(Seq::<char>::empty(), 0, 0) =~= a);
    let z = Seq::new(n, |i: int| '\0');
    let s = z + rest;
    assert(a + z + rest =~= a + s);
    lemma_nul_plain(a, s);
    lemma_nul_run(s, 0, n, 0);
    lemma_nul_shift(z, rest, 0, n);
    let mark = "[NUL × "@ + decimal(n) + "]"@;
    assert(nul_mark(n) == mark);
    if rest.len() > 0 {
        assert(nul_named(rest, 0, n) =~= mark + nul_named(rest, 0, 0)) by {
            assert(nul_mark(n).push(rest[0]) =~= mark + seq![rest[0]]);
            assert(nul_mark(0).push(rest[0]) =~= seq![rest[0]]);
        }
    } else {
        assert(nul_named(rest, 0, 0) =~= Seq::empty());
        assert(nul_named(rest, 0, n) =~= mark + nul_named(rest, 0, 0));
    }
    assert(a + (mark + nul_named(rest, 0, 0)) =~= a + mark + nul_named(rest, 0, 0));
}

/// A line of a log is a hit of a rule where the rule accepts it as it stands, or
/// where it is a JSON object and the rule accepts its compact text. It is marked
/// where the terms match and has the time that the rule's own expression, format
/// and zone give it.
pub proof fn law_lines_are_hits_as_they_stand_or_compact(
    file: Seq<char>,
    lines: Seq<Seq<char>>,
    r: RuleView,
    i: int,
)
    requires
        0 <= i < lines.len(),
    ensures
        ({
            let log = log_of(file, lines, prepared(r));
            let line = lines[i];
            let bare = trim_start(line, Class::White);
            &&& log.hit(i) <==> matcher_of(r).accepts(line) || (begins(bare, "{"@) && json_compact(
                bare,
            ) is Some && matcher_of(r).accepts(json_compact(bare)->0))
            &&& log.marks[i].ranges == matcher_of(r).ranges(line)
            &&& (log.marks[i].time, log.marks[i].key) == time_of(
                line,
                custom_time(r),
                r.time_format,
                r.timezone,
            )
            &&& log.file == file && log.lines == lines && log.rule == r
        }),
{
}

/// A fragment shows the lines of the log around its run as they are: under their
/// numbers, marked as hits exactly where they are, and marked where the terms match
/// only in hits. It names its file and has the time of its first hit.
pub proof fn law_fragments_show_the_log(log: Log, n: int, k: int, x: int)
    requires
        0 <= k < log.fragments(n).len(),
        0 <= n <= log.lines.len(),
        log.lines.len() <= usize::MAX,
        0 <= x < log.fragments(n)[k].lines.len(),
    ensures
        ({
            let run = log.runs(n)[k];
            let f = log.fragments(n)[k];
            let i = log.run_start(run) + x;
            &&& f.file == log.file
            &&& f.time == log.marks[run.0].time
            &&& f.lines.len() == log.run_stop(run, n) - log.run_start(run)
            &&& 0 <= i < n
            &&& f.lines[x].number == i + 1
            &&& f.lines[x].text == log.lines[i]
            &&& f.lines[x].hit == log.marks[i].hit
            &&& f.lines[x].hit ==> f.lines[x].ranges == log.marks[i].ranges
            &&& !f.lines[x].hit ==> f.lines[x].ranges.len() == 0
        }),
{
    crate::engine::scan_laws::law_fragments_have_their_context(log, n, k);
}

/// A hit of a rule that feeds the timeline is an event there, and no other line and
/// no other rule gives one. It has the rule's name, group and note, the time of the
/// line, the type that its text tells, and shows the line.
pub proof fn law_hits_feed_the_timeline(log: Log, i: int)
    requires
        0 <= i < log.lines.len() <= usize::MAX,
    ensures
        log.event(i).len() == (if log.marks[i].hit && log.rule.target != "keywords"@ {
            1int
        } else {
            0int
        }),
        log.event(i).len() == 1 ==> {
            let e = log.event(i)[0];
            &&& e.name == log.rule.name
            &&& e.group == log.rule.group
            &&& e.note == log.rule.note
            &&& e.time == log.marks[i].time
            &&& e.key == log.marks[i].key
            &&& e.event_type == event_kind(event_text(log.rule.name, log.lines[i]))
            &&& e.evidence_strength == "medium"@
            &&& e.time_precision == (if e.key is Some {
                "exact"@
            } else {
                "partial"@
            })
            &&& e.sources.len() == 1
            &&& e.sources[0].file == log.file
            &&& e.sources[0].lines.len() == 1
            &&& e.sources[0].lines[0].number == i + 1
            &&& e.sources[0].lines[0].text == log.lines[i]
            &&& e.sources[0].lines[0].hit
            &&& e.sources[0].lines[0].ranges == log.marks[i].ranges
        },
{
}

/// Whether a line gives an event: as a fact that it shows of itself, where facts are
/// recognised without rules, or as a hit of one of the first `k` active rules.
pub open spec fn gives(t: Task, i: int, k: int, e: EventView) -> bool {
    ||| t.automatic && line_event(t.file, t.lines[i], (i + 1) as usize) == Some(e)
    ||| exists|r: int| 0 <= r < k && (#[trigger] t.log(r).event(i)).contains(e)
}

proof fn lemma_rule_events(t: Task, i: int, k: int, e: EventView)
    requires
        0 <= k,
    ensures
        t.rule_events(i, k).contains(e) <==> exists|r: int|
            0 <= r < k && (#[trigger] t.log(r).event(i)).contains(e),
    decreases k,
{
    let all = t.rule_events(i, k);
    if k > 0 {
        lemma_rule_events(t, i, k - 1, e);
        let was = t.rule_events(i, k - 1);
        let more = t.log(k - 1).event(i);
        assert(all == was + more);
        lemma_in_sum(was, more, e);
    }
}

proof fn lemma_in_sum<A>(a: Seq<A>, b: Seq<A>, e: A)
    ensures
        (a + b).contains(e) <==> a.contains(e) || b.contains(e),
{
    let all = a + b;
    if all.contains(e) {
        let i = choose|i: int| 0 <= i < all.len() && all[i] == e;
        if i < a.len() {
            assert(a[i] == e);
        } else {
            assert(b[i - a.len()] == e);
        }
    }
    if a.contains(e) {
        let i = choose|i: int| 0 <= i < a.len() && a[i] == e;
        assert(all[i] == e);
    }
    if b.contains(e) {
        let i = choose|i: int| 0 <= i < b.len() && b[i] == e;
        assert(all[a.len() + i] == e);
    }
}

proof fn lemma_line_events(t: Task, i: int, e: EventView)
    ensures
        t.line_events(i).contains(e) <==> gives(t, i, t.active.len() as int, e),
{
    lemma_rule_events(t, i, t.active.len() as int, e);
    let own = if t.automatic {
        match line_event(t.file, t.lines[i], (i + 1) as usize) {
            Some(e) => seq![e],
            None => Seq::empty(),
        }
    } else {
        Seq::empty()
    };
    lemma_in_sum(own, t.rule_events(i, t.active.len() as int), e);
    if own.contains(e) {
        let x = choose|x: int| 0 <= x < own.len() && own[x] == e;
    }
    if t.automatic && line_event(t.file, t.lines[i], (i + 1) as usize) == Some(e) {
        assert(own[0] == e);
    }
}

/// The events of a log are what its lines give, and all of it.
pub proof fn law_events_come_from_lines(t: Task, n: int, e: EventView)
    requires
        0 <= n,
    ensures
        t.events(n).contains(e) <==> exists|i: int|
            0 <= i < n && #[trigger] gives(t, i, t.active.len() as int, e),
    decreases n,
{
    if n > 0 {
        law_events_come_from_lines(t, n - 1, e);
        lemma_line_events(t, n - 1, e);
        lemma_in_sum(t.events(n - 1), t.line_events(n - 1), e);
    }
}

} // verus!
