//! What a scan shows of a log: every hit, each once, with its context.

use crate::engine::model::{FragmentView, LogLineView};
use crate::engine::scan::{lemma_runs, Log};
use vstd::prelude::*;

verus! {

/// The runs stand in order, further apart than the reach, and begin and end with
/// hits.
proof fn lemma_runs_apart(log: Log, n: int)
    requires
        0 <= n,
    ensures
        forall|j: int, k: int|
            0 <= j < k < log.runs(n).len() ==> (#[trigger] log.runs(n)[j]).1 + log.reach()
                < (#[trigger] log.runs(n)[k]).0,
        forall|k: int|
            0 <= k < log.runs(n).len() ==> log.hit((#[trigger] log.runs(n)[k]).0) && log.hit(
                log.runs(n)[k].1,
            ),
    decreases n,
{
    if n > 0 {
        lemma_runs_apart(log, n - 1);
        lemma_runs(log, n - 1);
        let r = log.runs(n - 1);
        let s = log.runs(n);
        if log.hit(n - 1) {
            if r.len() > 0 {
                assert(r.last() == r[r.len() - 1]);
            }
            assert forall|j: int, k: int| 0 <= j < k < s.len() implies (#[trigger] s[j]).1
                + log.reach() < (#[trigger] s[k]).0 by {
                assert(s[j] == r[j]);
                if k < s.len() - 1 {
                    assert(s[k] == r[k]);
                }
            }
            assert forall|k: int| 0 <= k < s.len() implies log.hit((#[trigger] s[k]).0)
                && log.hit(s[k].1) by {
                if k < s.len() - 1 {
                    assert(s[k] == r[k]);
                }
            }
        }
    }
}

/// Every hit lies in a run.
proof fn lemma_hit_in_run(log: Log, n: int, i: int) -> (k: int)
    requires
        0 <= i < n,
        log.hit(i),
    ensures
        0 <= k < log.runs(n).len(),
        log.runs(n)[k].0 <= i <= log.runs(n)[k].1,
    decreases n,
{
    lemma_runs(log, n - 1);
    let r = log.runs(n - 1);
    let s = log.runs(n);
    if i == n - 1 {
        if r.len() > 0 {
            assert(r.last() == r[r.len() - 1]);
        }
        s.len() - 1
    } else {
        let k = lemma_hit_in_run(log, n - 1, i);
        if log.hit(n - 1) && k == r.len() - 1 {
            assert(r.last() == r[k]);
            if n - 1 - r.last().1 <= log.reach() {
                assert(s[k] == (r.last().0, n - 1));
            }
        }
        k
    }
}

/// Whether a line lies in the fragment of a run.
pub open spec fn in_fragment(log: Log, n: int, k: int, i: int) -> bool {
    log.run_start(log.runs(n)[k]) <= i < log.run_stop(log.runs(n)[k], n)
}

/// No line is shown in two fragments, and the fragments stand in the order of
/// the log.
pub proof fn law_fragments_do_not_overlap(log: Log, n: int, j: int, k: int)
    requires
        0 <= j < k < log.runs(n).len(),
        0 <= n,
    ensures
        log.run_stop(log.runs(n)[j], n) <= log.run_start(log.runs(n)[k]),
{
    lemma_runs(log, n);
    lemma_runs_apart(log, n);
}

/// Every hit is shown in exactly one fragment, which marks it as a hit under its
/// line number, as far as there are such numbers.
pub proof fn law_every_hit_is_shown_once(log: Log, n: int, i: int)
    requires
        0 <= i < n <= log.lines.len(),
        log.hit(i),
    ensures
        exists|k: int|
            0 <= k < log.fragments(n).len() && #[trigger] in_fragment(log, n, k, i)
                && log.fragments(n)[k].lines[i - log.run_start(log.runs(n)[k])].hit
                && (i < usize::MAX ==> log.fragments(n)[k].lines[i - log.run_start(
                log.runs(n)[k],
            )].number == i + 1)
                && log.fragments(n)[k].lines[i - log.run_start(log.runs(n)[k])].text
                == log.lines[i],
        forall|j: int, k: int|
            0 <= j < log.fragments(n).len() && 0 <= k < log.fragments(n).len()
                && #[trigger] in_fragment(log, n, j, i) && #[trigger] in_fragment(log, n, k, i)
                ==> j == k,
{
    lemma_runs(log, n);
    let k = lemma_hit_in_run(log, n, i);
    let run = log.runs(n)[k];
    assert(in_fragment(log, n, k, i));
    let f = log.fragments(n)[k];
    assert(f == log.fragment(run, n));
    assert(f.lines[i - log.run_start(run)] == log.log_line(i));
    assert forall|a: int, b: int|
        0 <= a < log.fragments(n).len() && 0 <= b < log.fragments(n).len() && #[trigger]
            in_fragment(log, n, a, i) && #[trigger] in_fragment(log, n, b, i) implies a == b by {
        if a < b {
            law_fragments_do_not_overlap(log, n, a, b);
        } else if b < a {
            law_fragments_do_not_overlap(log, n, b, a);
        }
    }
}

/// A fragment begins and ends with as much context as the rule asks for around a
/// hit, as far as the log goes.
pub proof fn law_fragments_have_their_context(log: Log, n: int, k: int)
    requires
        0 <= k < log.runs(n).len(),
        0 <= n,
    ensures
        ({
            let run = log.runs(n)[k];
            &&& 0 <= run.0 <= run.1 < n
            &&& log.hit(run.0)
            &&& log.hit(run.1)
            &&& log.run_start(run) == (if run.0 >= log.rule.before {
                run.0 - log.rule.before
            } else {
                0
            })
            &&& log.run_stop(run, n) == (if run.1 + log.rule.after + 1 < n {
                run.1 + log.rule.after + 1
            } else {
                n
            })
        }),
{
    lemma_runs(log, n);
    lemma_runs_apart(log, n);
}

/// How many of the first `n` lines of a fragment are hits.
pub open spec fn hit_lines(lines: Seq<LogLineView>, n: int) -> nat
    decreases n,
{
    if n <= 0 {
        0
    } else if lines[n - 1].hit {
        hit_lines(lines, n - 1) + 1
    } else {
        hit_lines(lines, n - 1)
    }
}

/// How many lines of the first `m` fragments are hits.
pub open spec fn shown_hits(fragments: Seq<FragmentView>, m: int) -> nat
    decreases m,
{
    if m <= 0 {
        0
    } else {
        shown_hits(fragments, m - 1) + hit_lines(
            fragments[m - 1].lines,
            fragments[m - 1].lines.len() as int,
        )
    }
}

proof fn lemma_stretch_hits(log: Log, from: int, len: int, n: int)
    requires
        0 <= from,
        0 <= n <= len,
    ensures
        hit_lines(log.stretch(from, from + len), n) + log.hits(from) == log.hits(from + n),
    decreases n,
{
    if n > 0 {
        lemma_stretch_hits(log, from, len, n - 1);
        assert(log.stretch(from, from + len)[n - 1] == log.log_line(from + n - 1));
    }
}

proof fn lemma_no_hits_between(log: Log, a: int, b: int)
    requires
        0 <= a <= b,
        forall|i: int| a <= i < b ==> !#[trigger] log.hit(i),
    ensures
        log.hits(a) == log.hits(b),
    decreases b - a,
{
    if a < b {
        lemma_no_hits_between(log, a, b - 1);
        assert(!log.hit(b - 1));
    }
}

proof fn lemma_shown_hits(log: Log, n: int, m: int)
    requires
        0 <= n,
        0 <= m <= log.runs(n).len(),
    ensures
        shown_hits(log.fragments(n), m) == log.hits(
            if m == 0 {
                0
            } else {
                log.run_stop(log.runs(n)[m - 1], n)
            },
        ),
    decreases m,
{
    let runs = log.runs(n);
    lemma_runs(log, n);
    lemma_runs_apart(log, n);
    if m > 0 {
        lemma_shown_hits(log, n, m - 1);
        let run = runs[m - 1];
        let from = log.run_start(run);
        let stop = log.run_stop(run, n);
        let last = if m == 1 {
            0
        } else {
            log.run_stop(runs[m - 2], n)
        };
        if m > 1 {
            assert(runs[m - 2].1 + log.reach() < runs[m - 1].0);
        }
        assert forall|i: int| last <= i < from implies !#[trigger] log.hit(i) by {
            if log.hit(i) {
                let k = lemma_hit_in_run(log, n, i);
                if k < m - 1 {
                    if k < m - 2 {
                        assert(runs[k].1 + log.reach() < runs[m - 2].0);
                    }
                } else if k > m - 1 {
                    assert(runs[m - 1].1 + log.reach() < runs[k].0);
                }
            }
        }
        lemma_no_hits_between(log, last, from);
        assert(log.fragments(n)[m - 1] == log.fragment(run, n));
        lemma_stretch_hits(log, from, stop - from, stop - from);
    }
}

/// The count of a scan is the number of hits that its fragments show.
pub proof fn law_the_count_is_what_is_shown(log: Log, n: int)
    requires
        0 <= n,
    ensures
        shown_hits(log.fragments(n), log.fragments(n).len() as int) == log.hits(n),
{
    let runs = log.runs(n);
    lemma_runs(log, n);
    lemma_runs_apart(log, n);
    lemma_shown_hits(log, n, runs.len() as int);
    let last = if runs.len() == 0 {
        0
    } else {
        log.run_stop(runs[runs.len() - 1], n)
    };
    assert forall|i: int| last <= i < n implies !#[trigger] log.hit(i) by {
        if log.hit(i) {
            let k = lemma_hit_in_run(log, n, i);
            if k < runs.len() - 1 {
                assert(runs[k].1 + log.reach() < runs[runs.len() - 1].0);
            }
        }
    }
    lemma_no_hits_between(log, last, n);
}

/// Neighbouring hits of one run are within reach of each other.
proof fn lemma_run_gaps(log: Log, n: int, k: int, i: int, j: int)
    requires
        0 <= k < log.runs(n).len(),
        log.runs(n)[k].0 <= i < j <= log.runs(n)[k].1,
        0 <= i,
        j < n,
        log.hit(i),
        log.hit(j),
        forall|x: int| i < x < j ==> !#[trigger] log.hit(x),
    ensures
        j - i <= log.reach(),
    decreases n,
{
    let r = log.runs(n - 1);
    let s = log.runs(n);
    lemma_runs(log, n - 1);
    lemma_runs_apart(log, n - 1);
    let a = lemma_hit_in_run(log, n - 1, i);
    if log.hit(n - 1) && k == s.len() - 1 {
        // The run that ends at the last line: it was extended, since it holds an
        // earlier hit.
        assert(r.last() == r[r.len() - 1]);
        if !(n - 1 - r.last().1 <= log.reach()) {
            assert(s[k] == (n - 1, n - 1));
        }
        assert(s[k] == (r.last().0, n - 1));
        if a < r.len() - 1 {
            assert(r[a].1 + log.reach() < r[r.len() - 1].0);
        }
        if j == n - 1 {
            assert(log.hit(r.last().1));
            assert(i <= r.last().1 < j);
        } else {
            let b = lemma_hit_in_run(log, n - 1, j);
            if b < r.len() - 1 {
                assert(r[b].1 + log.reach() < r[r.len() - 1].0);
            }
            lemma_run_gaps(log, n - 1, r.len() - 1, i, j);
        }
    } else {
        assert(s[k] == r[k]);
        lemma_run_gaps(log, n - 1, k, i, j);
    }
}

/// Whether two lines are shown in one fragment.
pub open spec fn share_fragment(log: Log, n: int, i: int, j: int) -> bool {
    exists|k: int|
        0 <= k < log.runs(n).len() && #[trigger] in_fragment(log, n, k, i) && in_fragment(
            log,
            n,
            k,
            j,
        )
}

/// Two hits with none between them are shown in one fragment exactly where their
/// contexts meet: where the second is no further from the first than the lines
/// that the rule asks for before and after a hit.
pub proof fn law_near_hits_share_a_fragment(log: Log, n: int, i: int, j: int)
    requires
        0 <= i < j < n <= log.lines.len(),
        log.hit(i),
        log.hit(j),
        forall|x: int| i < x < j ==> !#[trigger] log.hit(x),
    ensures
        share_fragment(log, n, i, j) <==> j - i <= log.rule.before + log.rule.after,
{
    let runs = log.runs(n);
    lemma_runs(log, n);
    lemma_runs_apart(log, n);
    let a = lemma_hit_in_run(log, n, i);
    let b = lemma_hit_in_run(log, n, j);
    assert(in_fragment(log, n, a, i));
    assert(in_fragment(log, n, b, j));
    if a == b {
        lemma_run_gaps(log, n, a, i, j);
    } else {
        if b < a {
            assert(runs[b].1 + log.reach() < runs[a].0);
        }
        assert(runs[a].1 + log.reach() < runs[b].0);
        assert(log.hit(runs[a].1));
        assert(runs[a].1 == i);
        if share_fragment(log, n, i, j) {
            let k = choose|k: int|
                0 <= k < runs.len() && #[trigger] in_fragment(log, n, k, i) && in_fragment(
                    log,
                    n,
                    k,
                    j,
                );
            if k < a {
                law_fragments_do_not_overlap(log, n, k, a);
            } else if a < k {
                law_fragments_do_not_overlap(log, n, a, k);
            }
            if k < b {
                law_fragments_do_not_overlap(log, n, k, b);
            } else if b < k {
                law_fragments_do_not_overlap(log, n, b, k);
            }
        }
    }
}

} // verus!
