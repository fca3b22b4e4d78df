//! The scan of one log: its lines, the hits of each rule with their context,
//! and the events of the timeline.

use crate::engine::facts::{
    automatic_timeline_event, classify_timeline_event, event_kind, event_text, line_event, one_line,
    one_line_fragment, precision, precision_text,
};
use crate::engine::model::{Event, EventView, Fragment, FragmentView, LogLine, LogLineView};
use crate::engine::time::{custom_time, line_time, time_of, TimePatterns};
use crate::outside::json::{compact_text, json_compact};
use crate::outside::pattern::{Pattern, PatternView};
use crate::outside::std_text::{from_utf8_lossy, lossy};
use crate::rules::matcher::{matcher_of, term_fault, Matcher, MatcherView};
use crate::rules::model::{Rule, RuleView};
use crate::text::{
    begins, concat2, copy_ranges, decimal, decimal_text, opt_view, starts_with, trim_end,
    trim_start, trimmed_end, trimmed_start, views, Class, Duplicate,
};
use std::collections::VecDeque;
use vstd::prelude::*;
use vstd::string::*;

verus! {

/// The lines of a file from byte `i` on, each with its line feed. The last may
/// lack it, and counts only where the file was read to its end.
pub open spec fn byte_lines(b: Seq<u8>, i: int, whole: bool) -> Seq<Seq<u8>>
    decreases b.len() - i,
{
    let j = line_feed(b, i);
    if i < 0 || i >= b.len() || j < i {
        Seq::empty()
    } else if j < b.len() {
        seq![b.subrange(i, j + 1)] + byte_lines(b, j + 1, whole)
    } else if whole {
        seq![b.subrange(i, b.len() as int)]
    } else {
        Seq::empty()
    }
}

/// The first line feed from byte `i` on, or the end.
pub open spec fn line_feed(b: Seq<u8>, i: int) -> int
    decreases b.len() - i,
{
    if i >= b.len() {
        b.len() as int
    } else if b[i] == 10 {
        i
    } else {
        line_feed(b, i + 1)
    }
}

pub open spec fn nul_mark(count: nat) -> Seq<char> {
    if count == 0 {
        Seq::empty()
    } else {
        "[NUL × "@ + decimal(count) + "]"@
    }
}

/// The text from position `i` on with each run of NUL characters named by its
/// length; `count` of them stand right before.
pub open spec fn nul_named(s: Seq<char>, i: int, count: nat) -> Seq<char>
    decreases s.len() - i,
{
    if i >= s.len() {
        nul_mark(count)
    } else if s[i] == '\0' {
        nul_named(s, i + 1, count + 1)
    } else {
        nul_mark(count).push(s[i]) + nul_named(s, i + 1, 0)
    }
}

/// A line as it is shown.
pub open spec fn shown(bytes: Seq<u8>) -> Seq<char> {
    nul_named(trim_end(lossy(bytes), Class::LineEnd), 0, 0)
}

fn push_mark(out: &mut String, count: usize)
    ensures
        final(out)@ == old(out)@ + nul_mark(count as nat),
{
    if count > 0 {
        out.append("[NUL × ");
        let n = decimal_text(count as u64);
        out.append(n.as_str());
        out.append("]");
        proof {
            assert(out@ =~= old(out)@ + nul_mark(count as nat));
        }
    } else {
        proof {
            assert(out@ =~= old(out)@ + nul_mark(0));
        }
    }
}

/// The text of a line of a log, without its line end.
pub fn display_line(bytes: &[u8]) -> (r: String)
    ensures
        r@ == shown(bytes@),
{
    let text = from_utf8_lossy(bytes);
    let text = trimmed_end(text.as_str(), Class::LineEnd);
    let c = crate::text::chars_of(text.as_str());
    let mut out = String::new();
    let mut count: usize = 0;
    let mut i: usize = 0;
    proof {
        assert(out@ + nul_named(text@, 0, 0) =~= nul_named(text@, 0, 0));
    }
    while i < c.len()
        invariant
            c@ == text@,
            count <= i <= c.len(),
            out@ + nul_named(text@, i as int, count as nat) == nul_named(text@, 0, 0),
        decreases c.len() - i,
    {
        let x = c[i];
        if x == '\0' {
            count += 1;
        } else {
            let ghost was = out@;
            push_mark(&mut out, count);
            out.push(x);
            proof {
                assert(was + nul_named(text@, i as int, count as nat) =~= out@ + nul_named(
                    text@,
                    i + 1,
                    0,
                ));
            }
            count = 0;
        }
        i += 1;
    }
    push_mark(&mut out, count);
    out
}

/// The compact text of a line that is a JSON object.
pub open spec fn compact_line(line: Seq<char>) -> Option<Seq<char>> {
    let s = trim_start(line, Class::White);
    if begins(s, "{"@) {
        json_compact(s)
    } else {
        None
    }
}

pub fn compact_json(line: &str) -> (r: Option<String>)
    ensures
        opt_view(r) == compact_line(line@),
{
    let s = trimmed_start(line, Class::White);
    if starts_with(s.as_str(), "{") {
        compact_text(s.as_str())
    } else {
        None
    }
}

/// Whether the line is a hit, as it stands or as compact JSON.
pub open spec fn line_hit(m: MatcherView, line: Seq<char>) -> bool {
    m.accepts(line) || (compact_line(line) matches Some(c) && m.accepts(c))
}

/// What was found of a line for one rule: whether it is a hit, and if so the byte
/// ranges to mark in it, its time and, where that is complete, the time in UTC.
#[derive(Debug)]
pub struct Mark {
    pub hit: bool,
    pub ranges: Vec<(usize, usize)>,
    pub time: String,
    pub key: Option<String>,
}

/// What a `Mark` holds.
#[verifier::ext_equal]
pub ghost struct MarkView {
    pub hit: bool,
    pub ranges: Seq<(usize, usize)>,
    pub time: Seq<char>,
    pub key: Option<Seq<char>>,
}

impl View for Mark {
    type V = MarkView;

    open spec fn view(&self) -> MarkView {
        MarkView {
            hit: self.hit,
            ranges: self.ranges@,
            time: self.time@,
            key: opt_view(self.key),
        }
    }
}

impl MarkView {
    /// Whether two marks tell the same: of a line that is no hit nothing more is
    /// told.
    pub open spec fn same(self, other: MarkView) -> bool {
        &&& self.hit == other.hit
        &&& self.hit ==> self == other
    }
}

/// The lines of a file, and what was found of them for one rule.
pub ghost struct Log {
    pub file: Seq<char>,
    pub lines: Seq<Seq<char>>,
    pub rule: RuleView,
    pub marks: Seq<MarkView>,
}

impl Log {
    pub open spec fn hit(self, i: int) -> bool {
        self.marks[i].hit
    }

    /// How far a hit may lie behind the one before it to share its fragment.
    pub open spec fn reach(self) -> int {
        self.rule.before + self.rule.after
    }

    /// The runs of hits in the first `n` lines, each by its first and last hit:
    /// a hit within reach of the last run joins it.
    pub open spec fn runs(self, n: int) -> Seq<(int, int)>
        decreases n,
    {
        if n <= 0 {
            Seq::empty()
        } else {
            let r = self.runs(n - 1);
            if !self.hit(n - 1) {
                r
            } else if r.len() > 0 && n - 1 - r.last().1 <= self.reach() {
                r.drop_last().push((r.last().0, n - 1))
            } else {
                r.push((n - 1, n - 1))
            }
        }
    }

    /// How many of the first `n` lines are hits.
    pub open spec fn hits(self, n: int) -> nat
        decreases n,
    {
        if n <= 0 {
            0
        } else if self.hit(n - 1) {
            self.hits(n - 1) + 1
        } else {
            self.hits(n - 1)
        }
    }

    pub open spec fn log_line(self, i: int) -> LogLineView {
        LogLineView {
            number: (i + 1) as usize,
            text: self.lines[i],
            hit: self.hit(i),
            ranges: if self.hit(i) {
                self.marks[i].ranges
            } else {
                Seq::empty()
            },
        }
    }

    /// The lines from one up to another.
    pub open spec fn stretch(self, from: int, to: int) -> Seq<LogLineView> {
        Seq::new((to - from) as nat, |k: int| self.log_line(from + k))
    }

    pub open spec fn time(self, i: int) -> (Seq<char>, Option<Seq<char>>) {
        (self.marks[i].time, self.marks[i].key)
    }

    /// Where the context of a run starts.
    pub open spec fn run_start(self, run: (int, int)) -> int {
        if run.0 >= self.rule.before {
            run.0 - self.rule.before
        } else {
            0
        }
    }

    /// Where the context of a run stops, in the first `n` lines.
    pub open spec fn run_stop(self, run: (int, int), n: int) -> int {
        if run.1 + self.rule.after + 1 < n {
            run.1 + self.rule.after + 1
        } else {
            n
        }
    }

    /// The fragment of a run in the first `n` lines: the run with the lines
    /// before and after it that the rule asks for.
    pub open spec fn fragment(self, run: (int, int), n: int) -> FragmentView {
        FragmentView {
            file: self.file,
            lines: self.stretch(self.run_start(run), self.run_stop(run, n)),
            time: self.time(run.0).0,
            annotation: Seq::empty(),
        }
    }

    /// The fragments of the first `n` lines.
    pub open spec fn fragments(self, n: int) -> Seq<FragmentView> {
        Seq::new(self.runs(n).len(), |k: int| self.fragment(self.runs(n)[k], n))
    }

    /// The event of a hit, where the rule feeds the timeline.
    pub open spec fn event(self, i: int) -> Seq<EventView> {
        if self.hit(i) && self.rule.target != "keywords"@ {
            let (time, key) = self.time(i);
            seq![
                EventView {
                    name: self.rule.name,
                    group: self.rule.group,
                    time,
                    key,
                    note: self.rule.note,
                    sources: seq![
                        one_line(
                            self.file,
                            (i + 1) as usize,
                            self.lines[i],
                            self.marks[i].ranges,
                            time,
                            Seq::empty(),
                        ),
                    ],
                    event_type: event_kind(event_text(self.rule.name, self.lines[i])),
                    evidence_strength: "medium"@,
                    time_precision: precision(key),
                },
            ]
        } else {
            Seq::empty()
        }
    }

    /// The events of the first `n` lines.
    pub open spec fn events(self, n: int) -> Seq<EventView>
        decreases n,
    {
        if n <= 0 {
            Seq::empty()
        } else {
            self.events(n - 1) + self.event(n - 1)
        }
    }
}

pub proof fn lemma_runs(log: Log, n: int)
    requires
        0 <= n,
    ensures
        forall|k: int|
            0 <= k < log.runs(n).len() ==> 0 <= (#[trigger] log.runs(n)[k]).0 <= log.runs(n)[k].1
                < n,
        forall|k: int|
            0 <= k < log.runs(n).len() - 1 ==> (#[trigger] log.runs(n)[k]).1 + log.reach()
                < log.runs(n).last().1,
    decreases n,
{
    if n > 0 {
        lemma_runs(log, n - 1);
        let r = log.runs(n - 1);
        let s = log.runs(n);
        if log.hit(n - 1) && r.len() > 0 && n - 1 - r.last().1 <= log.reach() {
            assert(forall|k: int| 0 <= k < s.len() - 1 ==> s[k] == r[k]);
            assert(r.last() == r[r.len() - 1]);
        } else if log.hit(n - 1) {
            assert(forall|k: int| 0 <= k < r.len() ==> s[k] == r[k]);
            if r.len() > 0 {
                assert(r.last() == r[r.len() - 1]);
            }
        }
    }
}

proof fn lemma_hits_bound(log: Log, n: int)
    requires
        0 <= n,
    ensures
        log.hits(n) <= n,
    decreases n,
{
    if n > 0 {
        lemma_hits_bound(log, n - 1);
    }
}

/// No line behind the last run is a hit.
proof fn lemma_no_hit(log: Log, n: int, i: int)
    requires
        0 <= i < n,
        log.runs(n).len() > 0 ==> log.runs(n).last().1 < i,
    ensures
        !log.hit(i),
    decreases n,
{
    lemma_runs(log, n - 1);
    if i < n - 1 {
        let r = log.runs(n - 1);
        if log.hit(n - 1) {
            assert(log.runs(n).last().1 == n - 1);
        }
        lemma_no_hit(log, n - 1, i);
    } else if log.hit(n - 1) {
        assert(log.runs(n).last().1 == n - 1);
    }
}

/// The fragments of all runs but the last do not grow any more.
proof fn lemma_earlier_fragments(log: Log, n: int)
    requires
        0 <= n,
    ensures
        forall|k: int|
            0 <= k < log.runs(n).len() - 1 ==> log.fragment(#[trigger] log.runs(n)[k], n + 1)
                == log.fragment(log.runs(n)[k], n),
{
    lemma_runs(log, n);
    if log.runs(n).len() > 0 {
        assert(log.runs(n).last() == log.runs(n)[log.runs(n).len() - 1]);
    }
}

/// The state of the scan for one rule.
pub struct RuleScan {
    pub done: Vec<Fragment>,
    /// The fragment that may still grow, and the number of its last hit.
    pub pending: Option<(Fragment, usize)>,
    pub count: usize,
}

pub open spec fn pending_view(p: Option<(Fragment, usize)>) -> Seq<FragmentView> {
    match p {
        Some((f, _)) => seq![f@],
        None => Seq::empty(),
    }
}

impl RuleScan {
    /// The state after the first `n` lines.
    pub open spec fn after_lines(self, log: Log, n: int) -> bool {
        let runs = log.runs(n);
        &&& views(self.done@) + pending_view(self.pending) == log.fragments(n)
        &&& self.count == log.hits(n)
        &&& match self.pending {
            Some((_, last)) => runs.len() > 0 && last == runs.last().1 + 1,
            None => runs.len() > 0 ==> n - runs.last().1 > log.reach(),
        }
    }

    pub fn new() -> (r: Self)
        ensures
            forall|log: Log| #[trigger] r.after_lines(log, 0),
    {
        let r = RuleScan { done: Vec::new(), pending: None, count: 0 };
        proof {
            assert forall|log: Log| #[trigger] r.after_lines(log, 0) by {
                assert(views(r.done@) + pending_view(r.pending) =~= log.fragments(0));
            }
        }
        r
    }

    /// The fragments, once no line follows.
    pub fn finish(self, Ghost(log): Ghost<Log>, Ghost(n): Ghost<int>) -> (r: (Vec<Fragment>, usize))
        requires
            self.after_lines(log, n),
        ensures
            views(r.0@) == log.fragments(n),
            r.1 == log.hits(n),
    {
        let mut done = self.done;
        let ghost was = views(done@);
        match self.pending {
            Some((f, _)) => {
                let ghost fv = f@;
                done.push(f);
                proof {
                    assert(views(done@) =~= was + seq![fv]);
                }
            },
            None => {
                proof {
                    assert(was + Seq::<FragmentView>::empty() =~= was);
                }
            },
        }
        (done, self.count)
    }
}

/// The lines right before the one at hand, the oldest first.
pub open spec fn recent(prev: Seq<String>, lines: Seq<Seq<char>>, n: int, keep: int) -> bool {
    &&& prev.len() == if n < keep {
        n
    } else {
        keep
    }
    &&& forall|k: int| 0 <= k < prev.len() ==> (#[trigger] prev[k])@ == lines[n - prev.len() + k]
}

/// Adds lines of context that are no hits, from one up to the line at hand.
fn push_context(
    out: &mut Vec<LogLine>,
    prev: &VecDeque<String>,
    from: usize,
    n: usize,
    Ghost(log): Ghost<Log>,
    Ghost(keep): Ghost<int>,
)
    requires
        from <= n <= log.lines.len() <= usize::MAX,
        recent(prev@, log.lines, n as int, keep),
        n - from <= prev@.len(),
        forall|i: int| from <= i < n ==> !#[trigger] log.hit(i),
    ensures
        views(final(out)@) == views(old(out)@) + log.stretch(from as int, n as int),
{
    let ghost start = views(out@);
    let mut i: usize = from;
    proof {
        assert(start + log.stretch(from as int, from as int) =~= start);
    }
    while i < n
        invariant
            from <= i <= n <= log.lines.len() <= usize::MAX,
            recent(prev@, log.lines, n as int, keep),
            n - from <= prev@.len(),
            forall|i: int| from <= i < n ==> !#[trigger] log.hit(i),
            views(out@) == start + log.stretch(from as int, i as int),
        decreases n - i,
    {
        let k: usize = prev.len() - (n - i);
        let ghost was = views(out@);
        let line = LogLine {
            number: i + 1,
            text: prev[k].clone(),
            hit: false,
            ranges: Vec::new(),
        };
        proof {
            assert(!log.hit(i as int));
            assert(prev@[k as int]@ == log.lines[i as int]);
            assert(line@ =~= log.log_line(i as int));
        }
        out.push(line);
        proof {
            assert(views(out@) =~= was.push(log.log_line(i as int)));
            assert(start + log.stretch(from as int, i as int).push(log.log_line(i as int)) =~= start
                + log.stretch(from as int, i + 1));
            assert(log.stretch(from as int, i as int).push(log.log_line(i as int)) =~= log.stretch(
                from as int,
                i + 1,
            ));
        }
        i += 1;
    }
}

impl RuleScan {
    /// Puts the pending fragment away where the line at hand is out of its
    /// reach.
    fn settle(&mut self, rule: &Rule, n: usize, Ghost(log): Ghost<Log>)
        requires
            old(self).after_lines(log, n as int),
            rule@ == log.rule,
            n < usize::MAX,
        ensures
            final(self).after_lines(log, n as int),
            final(self).count == old(self).count,
            final(self).pending is Some <==> log.runs(n as int).len() > 0 && n - log.runs(
                n as int,
            ).last().1 <= log.reach(),
    {
        let out_of_reach = match &self.pending {
            Some((_, last)) => (n as u128 + 1) > *last as u128 + rule.after as u128
                + rule.before as u128,
            None => false,
        };
        if out_of_reach {
            let mut taken: Option<(Fragment, usize)> = None;
            std::mem::swap(&mut taken, &mut self.pending);
            if let Some((f, last)) = taken {
                let ghost was = views(self.done@);
                let ghost fv = f@;
                self.done.push(f);
                proof {
                    assert(views(self.done@) =~= was + seq![fv]);
                    assert(views(self.done@) + Seq::<FragmentView>::empty() =~= views(self.done@));
                }
            }
        }
    }

    /// Takes in the next line.
    fn line(
        &mut self,
        file: &str,
        rule: &Rule,
        line: &str,
        mark: &Mark,
        prev: &VecDeque<String>,
        n: usize,
        Ghost(log): Ghost<Log>,
        Ghost(keep): Ghost<int>,
    )
        requires
            old(self).after_lines(log, n as int),
            file@ == log.file,
            rule@ == log.rule,
            n < log.lines.len() <= usize::MAX,
            line@ == log.lines[n as int],
            mark@.same(log.marks[n as int]),
            recent(prev@, log.lines, n as int, keep),
            keep >= rule.before,
        ensures
            final(self).after_lines(log, n + 1),
    {
        self.settle(rule, n, Ghost(log));
        let ghost runs = log.runs(n as int);
        let ghost next = log.runs(n + 1);
        let ghost frags = log.fragments(n as int);
        proof {
            lemma_runs(log, n as int);
            lemma_runs(log, n + 1);
            lemma_hits_bound(log, n as int);
        }
        let hit = mark.hit;
        let shown = LogLine {
            number: n + 1,
            text: line.to_owned(),
            hit,
            ranges: if hit {
                copy_ranges(&mark.ranges)
            } else {
                Vec::new()
            },
        };
        proof {
            assert(shown@ =~= log.log_line(n as int));
        }
        if hit {
            self.count = self.count + 1;
        }
        let mut taken: Option<(Fragment, usize)> = None;
        std::mem::swap(&mut taken, &mut self.pending);
        let ghost done = views(self.done@);
        match taken {
            Some((f, last)) => {
                let ghost run = runs.last();
                let ghost fv = f@;
                proof {
                    assert(runs[runs.len() - 1] == run);
                    assert((done + seq![fv]).last() == fv);
                    assert(frags.last() == log.fragment(run, n as int));
                    assert(fv == log.fragment(run, n as int));
                    assert(done =~= frags.drop_last());
                }
                let mut f = f;
                let ghost from = log.run_start(run);
                let ghost stop = log.run_stop(run, n as int);
                if hit {
                    // The first line that the fragment does not hold yet.
                    let missing: usize = if n - last < rule.after {
                        n
                    } else {
                        last + rule.after
                    };
                    proof {
                        assert(missing == stop);
                        assert forall|i: int| missing <= i < n implies !#[trigger] log.hit(i) by {
                            lemma_no_hit(log, n as int, i);
                        }
                    }
                    push_context(&mut f.lines, prev, missing, n, Ghost(log), Ghost(keep));
                    let ghost held = views(f.lines@);
                    f.lines.push(shown);
                    proof {
                        assert(views(f.lines@) =~= held.push(log.log_line(n as int)));
                        let new = (run.0, n as int);
                        assert(next =~= runs.drop_last().push(new));
                        assert(views(f.lines@) =~= log.stretch(from, n + 1));
                        assert(f@ =~= log.fragment(new, n + 1));
                        lemma_earlier_fragments(log, n as int);
                        assert(done + seq![f@] =~= log.fragments(n + 1));
                    }
                    self.pending = Some((f, n + 1));
                } else {
                    if n - last < rule.after {
                        let ghost held = views(f.lines@);
                        f.lines.push(shown);
                        proof {
                            assert(views(f.lines@) =~= held.push(log.log_line(n as int)));
                            assert(stop == n);
                            assert(log.run_stop(run, n + 1) == n + 1);
                            assert(views(f.lines@) =~= log.stretch(from, n + 1));
                        }
                    }
                    proof {
                        assert(f@ =~= log.fragment(run, n + 1));
                        lemma_earlier_fragments(log, n as int);
                        assert(done + seq![f@] =~= log.fragments(n + 1));
                    }
                    self.pending = Some((f, last));
                }
            },
            None => {
                proof {
                    assert(done + Seq::<FragmentView>::empty() =~= done);
                    lemma_earlier_fragments(log, n as int);
                    if runs.len() > 0 {
                        assert(log.fragment(runs.last(), n + 1) == log.fragment(
                            runs.last(),
                            n as int,
                        ));
                    }
                }
                if hit {
                    let start: usize = if n >= rule.before {
                        n - rule.before
                    } else {
                        0
                    };
                    let mut lines: Vec<LogLine> = Vec::new();
                    proof {
                        assert forall|i: int| start <= i < n implies !#[trigger] log.hit(i) by {
                            lemma_no_hit(log, n as int, i);
                        }
                    }
                    push_context(&mut lines, prev, start, n, Ghost(log), Ghost(keep));
                    let ghost held = views(lines@);
                    lines.push(shown);
                    let f = Fragment {
                        file: file.to_owned(),
                        lines,
                        time: mark.time.clone(),
                        annotation: String::new(),
                    };
                    proof {
                        let new = (n as int, n as int);
                        assert(views(f.lines@) =~= held.push(log.log_line(n as int)));
                        assert(held =~= log.stretch(start as int, n as int));
                        assert(next =~= runs.push(new));
                        assert(views(f.lines@) =~= log.stretch(start as int, n + 1));
                        assert(f@ =~= log.fragment(new, n + 1));
                        assert(done + seq![f@] =~= log.fragments(n + 1));
                    }
                    self.pending = Some((f, n + 1));
                } else {
                    proof {
                        assert(done + Seq::<FragmentView>::empty() =~= log.fragments(n + 1));
                    }
                }
            },
        }
    }
}

/// A rule with what was compiled for it.
pub struct PreparedRule {
    pub rule: Rule,
    pub matcher: Matcher,
    pub time_pattern: Option<Pattern>,
}

#[verifier::ext_equal]
pub ghost struct PreparedRuleView {
    pub rule: RuleView,
    pub matcher: MatcherView,
    pub time_pattern: Option<PatternView>,
}

impl View for PreparedRule {
    type V = PreparedRuleView;

    open spec fn view(&self) -> PreparedRuleView {
        PreparedRuleView {
            rule: self.rule@,
            matcher: self.matcher@,
            time_pattern: opt_view(self.time_pattern),
        }
    }
}

/// What is compiled for a rule.
pub open spec fn prepared(r: RuleView) -> PreparedRuleView {
    PreparedRuleView { rule: r, matcher: matcher_of(r), time_pattern: custom_time(r) }
}

impl PreparedRule {
    /// Compiles what a scan needs of a rule; the error is that of the first term
    /// that does not compile.
    pub fn new(rule: &Rule) -> (r: Result<Self, String>)
        ensures
            (match r {
                Ok(p) => p@ == prepared(rule@) && term_fault(rule@, 0) is None,
                Err(e) => term_fault(rule@, 0) == Some(e@),
            }),
    {
        match Matcher::new(rule) {
            Ok(matcher) => Ok(
                PreparedRule {
                    rule: rule.duplicate(),
                    matcher,
                    time_pattern: crate::engine::time::time_pattern(rule),
                },
            ),
            Err(e) => Err(e),
        }
    }
}

/// What is found of a line for a prepared rule.
pub open spec fn mark_of(p: PreparedRuleView, line: Seq<char>) -> MarkView {
    let (time, key) = time_of(line, p.time_pattern, p.rule.time_format, p.rule.timezone);
    MarkView { hit: line_hit(p.matcher, line), ranges: p.matcher.ranges(line), time, key }
}

/// The lines of a file with regard to a prepared rule.
pub open spec fn log_of(file: Seq<char>, lines: Seq<Seq<char>>, p: PreparedRuleView) -> Log {
    Log { file, lines, rule: p.rule, marks: Seq::new(lines.len(), |i: int| mark_of(p, lines[i])) }
}

/// What a scan is made of: the file, its lines, the rules and which of them are
/// active, and whether facts are recognised without rules.
pub ghost struct Task {
    pub file: Seq<char>,
    pub lines: Seq<Seq<char>>,
    pub rules: Seq<PreparedRuleView>,
    pub active: Seq<usize>,
    pub automatic: bool,
}

impl Task {
    pub open spec fn log(self, k: int) -> Log {
        log_of(self.file, self.lines, self.rules[self.active[k] as int])
    }

    /// The events of a line by the first `k` active rules.
    pub open spec fn rule_events(self, i: int, k: int) -> Seq<EventView>
        decreases k,
    {
        if k <= 0 {
            Seq::empty()
        } else {
            self.rule_events(i, k - 1) + self.log(k - 1).event(i)
        }
    }

    /// The events of a line: the fact that it shows of itself, then those of
    /// the rules.
    pub open spec fn line_events(self, i: int) -> Seq<EventView> {
        (if self.automatic {
            match line_event(self.file, self.lines[i], (i + 1) as usize) {
                Some(e) => seq![e],
                None => Seq::empty(),
            }
        } else {
            Seq::empty()
        }) + self.rule_events(i, self.active.len() as int)
    }

    /// The events of the first `n` lines.
    pub open spec fn events(self, n: int) -> Seq<EventView>
        decreases n,
    {
        if n <= 0 {
            Seq::empty()
        } else {
            self.events(n - 1) + self.line_events(n - 1)
        }
    }
}

pub open spec fn active_ok(active: Seq<usize>, n: int) -> bool {
    forall|k: int| 0 <= k < active.len() ==> (#[trigger] active[k]) < n
}

/// How many lines of context before a hit the active rules ask for.
pub open spec fn context(t: Task, keep: int) -> bool {
    forall|k: int| 0 <= k < t.active.len() ==> (#[trigger] t.log(k)).rule.before <= keep
}

/// The event of a hit.
fn hit_event(
    file: &str,
    rule: &Rule,
    line: &str,
    n: usize,
    mark: &Mark,
    Ghost(log): Ghost<Log>,
) -> (r: Event)
    requires
        file@ == log.file,
        rule@ == log.rule,
        n < log.lines.len() <= usize::MAX,
        line@ == log.lines[n as int],
        mark@ == log.marks[n as int],
        mark.hit,
        rule.target@ != "keywords"@,
    ensures
        log.event(n as int) == seq![r@],
{
    let none = String::new();
    let time = mark.time.as_str();
    let source = one_line_fragment(
        file,
        n + 1,
        line,
        copy_ranges(&mark.ranges),
        time,
        none.as_str(),
    );
    let ghost sv = source@;
    let mut sources: Vec<Fragment> = Vec::new();
    sources.push(source);
    proof {
        assert(views(sources@) =~= seq![sv]);
        assert(none@ =~= Seq::<char>::empty());
    }
    let e = Event {
        name: rule.name.clone(),
        group: rule.group.clone(),
        time: time.to_owned(),
        key: crate::text::duplicate_option(&mark.key),
        note: rule.note.clone(),
        sources,
        event_type: classify_timeline_event(rule.name.as_str(), line),
        evidence_strength: "medium".to_owned(),
        time_precision: precision_text(&mark.key),
    };
    proof {
        assert(log.event(n as int) =~= seq![e@]);
    }
    e
}

/// Adds the event of a line, where there is one.
fn push_event(
    events: &mut Vec<Event>,
    file: &str,
    rule: &Rule,
    line: &str,
    n: usize,
    mark: &Mark,
    Ghost(log): Ghost<Log>,
)
    requires
        file@ == log.file,
        rule@ == log.rule,
        n < log.lines.len() <= usize::MAX,
        line@ == log.lines[n as int],
        mark@.same(log.marks[n as int]),
    ensures
        views(final(events)@) == views(old(events)@) + log.event(n as int),
{
    let ghost was = views(events@);
    if mark.hit && !crate::text::same(rule.target.as_str(), "keywords") {
        let e = hit_event(file, rule, line, n, mark, Ghost(log));
        let ghost ev = e@;
        events.push(e);
        proof {
            assert(views(events@) =~= was + seq![ev]);
        }
    } else {
        proof {
            assert(views(events@) =~= was + Seq::<EventView>::empty());
        }
    }
}

/// Scans lines of which it is known what was found of them for a rule: the
/// fragments, how many lines are hits, and the events.
pub fn scan_marked(file: &str, rule: &Rule, lines: &Vec<String>, marks: &Vec<Mark>) -> (r: (
    Vec<Fragment>,
    usize,
    Vec<Event>,
))
    requires
        lines.len() == marks.len(),
    ensures
        ({
            let log = Log {
                file: file@,
                lines: views(lines@),
                rule: rule@,
                marks: views(marks@),
            };
            let n = lines.len() as int;
            &&& views(r.0@) == log.fragments(n)
            &&& r.1 == log.hits(n)
            &&& views(r.2@) == log.events(n)
        }),
{
    let ghost log = Log { file: file@, lines: views(lines@), rule: rule@, marks: views(marks@) };
    let keep = rule.before;
    let mut scan = RuleScan::new();
    let mut events: Vec<Event> = Vec::new();
    let mut prev: VecDeque<String> = VecDeque::new();
    let mut n: usize = 0;
    proof {
        assert(scan.after_lines(log, 0));
        assert(views(events@) =~= log.events(0));
    }
    while n < lines.len()
        invariant
            lines.len() == marks.len(),
            log == (Log {
                file: file@,
                lines: views(lines@),
                rule: rule@,
                marks: views(marks@),
            }),
            n <= lines.len(),
            keep == rule.before,
            scan.after_lines(log, n as int),
            views(events@) == log.events(n as int),
            recent(prev@, log.lines, n as int, keep as int),
        decreases lines.len() - n,
    {
        let line = lines[n].as_str();
        let mark = &marks[n];
        proof {
            assert(log.lines[n as int] == line@);
            assert(log.marks[n as int] == mark@);
        }
        push_event(&mut events, file, rule, line, n, mark, Ghost(log));
        scan.line(file, rule, line, mark, &prev, n, Ghost(log), Ghost(keep as int));
        remember(&mut prev, line, n, keep, Ghost(log.lines));
        n += 1;
    }
    let (fragments, count) = scan.finish(Ghost(log), Ghost(n as int));
    (fragments, count, events)
}

/// Keeps a line as context for those that follow.
fn remember(
    prev: &mut VecDeque<String>,
    line: &str,
    n: usize,
    keep: usize,
    Ghost(lines): Ghost<Seq<Seq<char>>>,
)
    requires
        recent(old(prev)@, lines, n as int, keep as int),
        n < lines.len(),
        line@ == lines[n as int],
    ensures
        recent(final(prev)@, lines, n + 1, keep as int),
{
    let ghost was = prev@;
    if keep > 0 {
        if prev.len() >= keep {
            prev.pop_front();
        }
        prev.push_back(line.to_owned());
    }
    proof {
        assert forall|k: int| 0 <= k < prev@.len() implies (#[trigger] prev@[k])@ == lines[n + 1
            - prev@.len() + k] by {
            if k < prev@.len() - 1 {
                if was.len() >= keep {
                    assert(prev@[k] == was[k + 1]);
                } else {
                    assert(prev@[k] == was[k]);
                }
            }
        }
    }
}

/// Takes the next line in for each active rule.
fn scan_line(
    file: &str,
    line: &str,
    n: usize,
    rules: &Vec<PreparedRule>,
    active: &Vec<usize>,
    scans: &mut Vec<RuleScan>,
    events: &mut Vec<Event>,
    automatic: bool,
    times: &TimePatterns,
    prev: &VecDeque<String>,
    Ghost(t): Ghost<Task>,
    Ghost(keep): Ghost<int>,
)
    requires
        times.wf(),
        t.file == file@,
        t.rules == views(rules@),
        t.active == active@,
        t.automatic == automatic,
        n < t.lines.len() <= usize::MAX,
        line@ == t.lines[n as int],
        active_ok(active@, rules.len() as int),
        context(t, keep),
        recent(prev@, t.lines, n as int, keep),
        old(scans).len() == active.len(),
        forall|k: int|
            0 <= k < active.len() ==> (#[trigger] old(scans)@[k]).after_lines(t.log(k), n as int),
    ensures
        final(scans).len() == active.len(),
        forall|k: int|
            0 <= k < active.len() ==> (#[trigger] final(scans)@[k]).after_lines(t.log(k), n + 1),
        views(final(events)@) == views(old(events)@) + t.line_events(n as int),
{
    let ghost start = views(events@);
    if automatic {
        if let Some(e) = automatic_timeline_event(file, line, n + 1, times) {
            let ghost ev = e@;
            events.push(e);
            proof {
                assert(views(events@) =~= start + seq![ev]);
            }
        } else {
            proof {
                assert(views(events@) =~= start + Seq::<EventView>::empty());
            }
        }
    } else {
        proof {
            assert(views(events@) =~= start + Seq::<EventView>::empty());
        }
    }
    let ghost shown = views(events@);
    let mut compact: Option<Option<String>> = None;
    let mut k: usize = 0;
    proof {
        assert(shown + t.rule_events(n as int, 0) =~= shown);
    }
    while k < active.len()
        invariant
            times.wf(),
            t.file == file@,
            t.rules == views(rules@),
            t.active == active@,
            n < t.lines.len() <= usize::MAX,
            line@ == t.lines[n as int],
            active_ok(active@, rules.len() as int),
            context(t, keep),
            recent(prev@, t.lines, n as int, keep),
            k <= active.len(),
            scans.len() == active.len(),
            compact matches Some(c) ==> opt_view(c) == compact_line(line@),
            forall|j: int|
                0 <= j < k ==> (#[trigger] scans@[j]).after_lines(t.log(j), n + 1),
            forall|j: int|
                k <= j < active.len() ==> (#[trigger] scans@[j]).after_lines(t.log(j), n as int),
            views(events@) == shown + t.rule_events(n as int, k as int),
        decreases active.len() - k,
    {
        let ghost log = t.log(k as int);
        let ghost before = scans@;
        let p = &rules[active[k]];
        proof {
            assert(t.rules[active@[k as int] as int] == p@);
            assert(log.rule.before <= keep);
        }
        let mut hit = p.matcher.matches(line);
        if !hit {
            if compact.is_none() {
                compact = Some(compact_json(line));
            }
            if let Some(Some(c)) = &compact {
                hit = p.matcher.matches(c.as_str());
            }
        }
        proof {
            assert(hit == log.hit(n as int));
        }
        let mut mark = Mark { hit, ranges: Vec::new(), time: String::new(), key: None };
        if hit {
            mark.ranges = p.matcher.ranges(line);
            let (time, key) = line_time(
                line,
                &p.time_pattern,
                p.rule.time_format.as_str(),
                p.rule.timezone.as_str(),
                times,
            );
            mark.time = time;
            mark.key = key;
        }
        proof {
            assert(log.marks[n as int] == mark_of(p@, line@));
            if hit {
                assert(mark@ =~= log.marks[n as int]);
            }
            assert(before[k as int].after_lines(log, n as int));
        }
        push_event(events, file, &p.rule, line, n, &mark, Ghost(log));
        proof {
            assert(views(events@) =~= shown + t.rule_events(n as int, k + 1));
        }
        scans[k].line(file, &p.rule, line, &mark, prev, n, Ghost(log), Ghost(keep));
        proof {
            assert(scans@ =~= before.update(k as int, scans@[k as int]));
        }
        k += 1;
    }
    proof {
        assert(views(events@) =~= start + t.line_events(n as int));
    }
}

/// What a scan found of one rule.
#[derive(Debug)]
pub struct Scan {
    pub fragments: Vec<Fragment>,
    pub count: usize,
    pub status: String,
}

/// What a `Scan` holds.
#[verifier::ext_equal]
pub ghost struct ScanView {
    pub fragments: Seq<FragmentView>,
    pub count: usize,
    pub status: Seq<char>,
}

impl View for Scan {
    type V = ScanView;

    open spec fn view(&self) -> ScanView {
        ScanView {
            fragments: views(self.fragments@),
            count: self.count,
            status: self.status@,
        }
    }
}

/// What a scan of one log found: the results of the active rules in their order,
/// the events and the warnings.
#[derive(Debug)]
pub struct LogScan {
    pub scans: Vec<Scan>,
    pub events: Vec<Event>,
    pub warnings: Vec<String>,
}

/// What a `LogScan` holds.
#[verifier::ext_equal]
pub ghost struct LogScanView {
    pub scans: Seq<ScanView>,
    pub events: Seq<EventView>,
    pub warnings: Seq<Seq<char>>,
}

impl View for LogScan {
    type V = LogScanView;

    open spec fn view(&self) -> LogScanView {
        LogScanView {
            scans: views(self.scans@),
            events: views(self.events@),
            warnings: views(self.warnings@),
        }
    }
}

/// The bytes of a log, and why reading it stopped where it was not read to its
/// end.
#[derive(Debug)]
pub struct Content {
    pub bytes: Vec<u8>,
    pub error: Option<String>,
}

/// The byte lines of a log.
pub open spec fn raw_lines(c: Content) -> Seq<Seq<u8>> {
    byte_lines(c.bytes@, 0, c.error is None)
}

/// The lines of a log as they are shown.
pub open spec fn content_lines(c: Content) -> Seq<Seq<char>> {
    Seq::new(raw_lines(c).len(), |k: int| shown(raw_lines(c)[k]))
}

/// Whether a NUL byte stands in one of the first `n` lines.
pub open spec fn nul_within(lines: Seq<Seq<u8>>, n: int) -> bool {
    exists|k: int| 0 <= k < n && #[trigger] lines[k].contains(0u8)
}

pub open spec fn nul_warning(file: Seq<char>) -> Seq<char> {
    file + " 含不可见 NUL 字节；报告用 [NUL × 数量] 表示连续字节，原文件保持不变。"@
}

pub open spec fn scan_warnings(file: Seq<char>, c: Content) -> Seq<Seq<char>> {
    (if nul_within(raw_lines(c), raw_lines(c).len() as int) {
        seq![nul_warning(file)]
    } else {
        Seq::empty()
    }) + (match c.error {
        Some(e) => seq!["日志读取失败 "@ + file + "："@ + e@],
        None => Seq::empty(),
    })
}

pub open spec fn scan_status(c: Content) -> Seq<char> {
    if c.error is Some {
        "日志读取不完整"@
    } else {
        "未找到符合规则的日志"@
    }
}

/// What the scan finds of a rule.
pub open spec fn scan_of(log: Log, status: Seq<char>) -> ScanView {
    let n = log.lines.len() as int;
    ScanView { fragments: log.fragments(n), count: log.hits(n) as usize, status }
}

/// What the scan of a log finds.
pub open spec fn log_scan(t: Task, c: Content) -> LogScanView {
    LogScanView {
        scans: Seq::new(t.active.len(), |k: int| scan_of(t.log(k), scan_status(c))),
        events: t.events(t.lines.len() as int),
        warnings: scan_warnings(t.file, c),
    }
}

proof fn lemma_line_feed(b: Seq<u8>, i: int)
    requires
        0 <= i <= b.len(),
    ensures
        i <= line_feed(b, i) <= b.len(),
    decreases b.len() - i,
{
    if i < b.len() && b[i] != 10 {
        lemma_line_feed(b, i + 1);
    }
}

proof fn lemma_byte_lines_len(b: Seq<u8>, i: int, whole: bool)
    requires
        0 <= i <= b.len(),
    ensures
        byte_lines(b, i, whole).len() <= b.len() - i,
    decreases b.len() - i,
{
    lemma_line_feed(b, i);
    if i < b.len() && line_feed(b, i) < b.len() {
        lemma_byte_lines_len(b, line_feed(b, i) + 1, whole);
    }
}

fn find_line_feed(b: &Vec<u8>, from: usize) -> (r: usize)
    requires
        from <= b.len(),
    ensures
        r == line_feed(b@, from as int),
        from <= r <= b.len(),
{
    let mut i: usize = from;
    while i < b.len()
        invariant
            from <= i <= b.len(),
            line_feed(b@, from as int) == line_feed(b@, i as int),
        decreases b.len() - i,
    {
        if b[i] == 10 {
            return i;
        }
        i += 1;
    }
    i
}

fn holds_nul(b: &[u8]) -> (r: bool)
    ensures
        r == b@.contains(0u8),
{
    let mut i: usize = 0;
    while i < b.len()
        invariant
            i <= b.len(),
            forall|j: int| 0 <= j < i ==> b@[j] != 0,
        decreases b.len() - i,
    {
        if b[i] == 0 {
            return true;
        }
        i += 1;
    }
    false
}

fn most_context(rules: &Vec<PreparedRule>, active: &Vec<usize>, Ghost(t): Ghost<Task>) -> (r: usize)
    requires
        active_ok(active@, rules.len() as int),
        t.rules == views(rules@),
        t.active == active@,
    ensures
        context(t, r as int),
{
    let mut most: usize = 0;
    let mut k: usize = 0;
    while k < active.len()
        invariant
            active_ok(active@, rules.len() as int),
            t.rules == views(rules@),
            t.active == active@,
            k <= active.len(),
            forall|j: int| 0 <= j < k ==> (#[trigger] t.log(j)).rule.before <= most,
        decreases active.len() - k,
    {
        let b = rules[active[k]].rule.before;
        proof {
            assert(t.rules[active@[k as int] as int] == rules@[active@[k as int] as int]@);
        }
        if b > most {
            most = b;
        }
        k += 1;
    }
    most
}

/// Scans a log line by line. A rule's fragments, counts and events are those of
/// its hits; lines of context are kept only as long as a rule may need them.
pub fn scan_log(
    file: &str,
    content: &Content,
    rules: &Vec<PreparedRule>,
    active: &Vec<usize>,
    automatic: bool,
    times: &TimePatterns,
) -> (r: LogScan)
    requires
        times.wf(),
        active_ok(active@, rules.len() as int),
    ensures
        r@ == log_scan(
            (Task {
                file: file@,
                lines: content_lines(*content),
                rules: views(rules@),
                active: active@,
                automatic,
            }),
            *content,
        ),
{
    let ghost t = Task {
        file: file@,
        lines: content_lines(*content),
        rules: views(rules@),
        active: active@,
        automatic,
    };
    let ghost raw = raw_lines(*content);
    let whole = content.error.is_none();
    let keep = most_context(rules, active, Ghost(t));
    let mut scans: Vec<RuleScan> = Vec::new();
    let mut k: usize = 0;
    while k < active.len()
        invariant
            k <= active.len(),
            scans.len() == k,
            forall|j: int| 0 <= j < k ==> (#[trigger] scans@[j]).after_lines(t.log(j), 0),
        decreases active.len() - k,
    {
        let s = RuleScan::new();
        proof {
            assert(s.after_lines(t.log(k as int), 0));
        }
        scans.push(s);
        k += 1;
    }
    let mut prev: VecDeque<String> = VecDeque::new();
    let mut events: Vec<Event> = Vec::new();
    let mut nul = false;
    let mut at: usize = 0;
    let mut n: usize = 0;
    proof {
        lemma_byte_lines_len(content.bytes@, 0, whole);
        assert(raw.skip(0) =~= raw);
        assert(views(events@) =~= t.events(0));
    }
    while at < content.bytes.len()
        invariant
            times.wf(),
            active_ok(active@, rules.len() as int),
            t == (Task {
                file: file@,
                lines: content_lines(*content),
                rules: views(rules@),
                active: active@,
                automatic,
            }),
            raw == raw_lines(*content),
            raw.len() <= content.bytes.len(),
            whole == (content.error is None),
            at <= content.bytes.len(),
            n <= raw.len(),
            raw.skip(n as int) == byte_lines(content.bytes@, at as int, whole),
            context(t, keep as int),
            recent(prev@, t.lines, n as int, keep as int),
            scans.len() == active.len(),
            forall|j: int|
                0 <= j < active.len() ==> (#[trigger] scans@[j]).after_lines(t.log(j), n as int),
            views(events@) == t.events(n as int),
            nul == nul_within(raw, n as int),
        decreases content.bytes.len() - at,
    {
        let j = find_line_feed(&content.bytes, at);
        if j >= content.bytes.len() && !whole {
            proof {
                assert(raw.skip(n as int).len() == 0);
            }
            at = content.bytes.len();
        } else {
            let stop: usize = if j < content.bytes.len() {
                j + 1
            } else {
                j
            };
            let bytes = vstd::slice::slice_subrange(content.bytes.as_slice(), at, stop);
            proof {
                assert(bytes@ =~= content.bytes@.subrange(at as int, stop as int));
                let rest = byte_lines(content.bytes@, at as int, whole);
                assert(rest.len() > 0 && rest[0] == bytes@);
                assert(raw.skip(n as int).len() > 0);
                assert(raw[n as int] == raw.skip(n as int)[0]);
                assert(rest.skip(1) =~= byte_lines(content.bytes@, stop as int, whole));
                assert(raw.skip(n + 1) =~= raw.skip(n as int).skip(1));
            }
            let here = holds_nul(bytes);
            proof {
                assert(nul_within(raw, n + 1) == (nul || here)) by {
                    if here {
                        assert(raw[n as int].contains(0u8));
                    }
                    if nul_within(raw, n + 1) && !here {
                        let k = choose|k: int| 0 <= k < n + 1 && #[trigger] raw[k].contains(0u8);
                        assert(k != n);
                        assert(raw[k].contains(0u8));
                    }
                    if nul {
                        let k = choose|k: int| 0 <= k < n && #[trigger] raw[k].contains(0u8);
                        assert(raw[k].contains(0u8));
                    }
                }
            }
            if here {
                nul = true;
            }
            let line = display_line(bytes);
            proof {
                assert(line@ == t.lines[n as int]);
            }
            scan_line(
                file,
                line.as_str(),
                n,
                rules,
                active,
                &mut scans,
                &mut events,
                automatic,
                times,
                &prev,
                Ghost(t),
                Ghost(keep as int),
            );
            remember(&mut prev, line.as_str(), n, keep, Ghost(t.lines));
            n += 1;
            at = stop;
        }
    }
    proof {
        assert(raw.skip(n as int).len() == 0);
        assert(n == raw.len());
    }
    let mut warnings: Vec<String> = Vec::new();
    proof {
        assert(views(warnings@) =~= Seq::<Seq<char>>::empty());
    }
    if nul {
        let w = concat2(
            file,
            " 含不可见 NUL 字节；报告用 [NUL × 数量] 表示连续字节，原文件保持不变。",
        );
        warnings.push(w);
    }
    let ghost first = views(warnings@);
    proof {
        assert(first =~= (if nul {
            seq![nul_warning(file@)]
        } else {
            Seq::empty()
        }));
    }
    let mut status = "未找到符合规则的日志";
    if let Some(e) = &content.error {
        status = "日志读取不完整";
        let mut w = concat2("日志读取失败 ", file);
        w.append("：");
        w.append(e.as_str());
        let ghost wv = w@;
        warnings.push(w);
        proof {
            assert(views(warnings@) =~= first.push(wv));
        }
    }
    proof {
        assert(views(warnings@) =~= scan_warnings(file@, *content));
    }
    let results = finish_all(scans, status, Ghost(t));
    let r = LogScan { scans: results, events, warnings };
    proof {
        assert(r@.scans =~= log_scan(t, *content).scans);
        assert(r@ =~= log_scan(t, *content));
    }
    r
}

fn finish_all(scans: Vec<RuleScan>, status: &str, Ghost(t): Ghost<Task>) -> (r: Vec<Scan>)
    requires
        scans.len() == t.active.len(),
        t.lines.len() <= usize::MAX,
        forall|j: int|
            0 <= j < scans.len() ==> (#[trigger] scans@[j]).after_lines(
                t.log(j),
                t.lines.len() as int,
            ),
    ensures
        views(r@) == Seq::new(t.active.len(), |k: int| scan_of(t.log(k), status@)),
{
    let ghost all = scans@;
    let ghost n = t.lines.len() as int;
    let mut left = scans;
    let mut back: Vec<Scan> = Vec::new();
    while left.len() > 0
        invariant
            n == t.lines.len(),
            n <= usize::MAX,
            left.len() + back.len() == all.len(),
            all.len() == t.active.len(),
            left@ == all.take(left.len() as int),
            forall|j: int|
                0 <= j < all.len() ==> (#[trigger] all[j]).after_lines(t.log(j), n),
            forall|i: int|
                0 <= i < back.len() ==> (#[trigger] back@[i])@ == scan_of(
                    t.log(all.len() - 1 - i),
                    status@,
                ),
        decreases left.len(),
    {
        let ghost m = left.len() as int;
        if let Some(s) = left.pop() {
            let ghost log = t.log(m - 1);
            proof {
                assert(s == all[m - 1]);
                assert(left@ =~= all.take(m - 1));
                lemma_hits_bound(log, n);
            }
            let (fragments, count) = s.finish(Ghost(log), Ghost(n));
            let one = Scan { fragments, count, status: status.to_owned() };
            proof {
                assert(one@ =~= scan_of(log, status@));
            }
            back.push(one);
        }
    }
    let out = crate::order::reversed(back);
    proof {
        assert(views(out@) =~= Seq::new(t.active.len(), |k: int| scan_of(t.log(k), status@)));
    }
    out
}

} // verus!
