//! How much evidence a report holds of a rule.

use crate::engine::model::{Finding, FindingView, Fragment, FragmentView, LogLine, LogLineView};
use crate::text::{same, views, Duplicate};
use vstd::prelude::*;

verus! {

/// A report holds this many distinct hits of a rule.
pub const HIT_LIMIT: usize = 500;

/// The hits met in the lines from number `i` on, behind those met before, and
/// where the limit stops the walk: at the first new hit beyond it.
pub open spec fn walk(
    file: Seq<char>,
    lines: Seq<LogLineView>,
    i: int,
    seen: Seq<(Seq<char>, usize)>,
) -> (Seq<(Seq<char>, usize)>, Option<int>)
    decreases lines.len() - i,
{
    if i >= lines.len() {
        (seen, None)
    } else if !lines[i].hit || seen.contains((file, lines[i].number)) {
        walk(file, lines, i + 1, seen)
    } else if seen.len() == HIT_LIMIT {
        (seen, Some(i))
    } else {
        walk(file, lines, i + 1, seen.push((file, lines[i].number)))
    }
}

pub open spec fn holds_hit(lines: Seq<LogLineView>) -> bool {
    exists|i: int| 0 <= i < lines.len() && (#[trigger] lines[i]).hit
}

/// A fragment where it holds a hit.
pub open spec fn with_hit(f: FragmentView) -> Seq<FragmentView> {
    if holds_hit(f.lines) {
        seq![f]
    } else {
        Seq::empty()
    }
}

/// The fragments from number `i` on up to the limit: the fragment in which the
/// walk stops ends before the hit that is left out.
pub open spec fn limited(s: Seq<FragmentView>, i: int, seen: Seq<(Seq<char>, usize)>) -> Seq<
    FragmentView,
>
    decreases s.len() - i,
{
    if i >= s.len() {
        Seq::empty()
    } else {
        let (next, stop) = walk(s[i].file, s[i].lines, 0, seen);
        match stop {
            Some(e) => with_hit(FragmentView { lines: s[i].lines.take(e), ..s[i] }),
            None => with_hit(s[i]) + limited(s, i + 1, next),
        }
    }
}

/// The finding as a report holds it. The count is that of all hits.
pub open spec fn limited_finding(f: FindingView) -> FindingView {
    if f.count <= HIT_LIMIT {
        f
    } else {
        FindingView { fragments: limited(f.fragments, 0, Seq::empty()), ..f }
    }
}

pub open spec fn seen_views(v: Seq<(String, usize)>) -> Seq<(Seq<char>, usize)> {
    Seq::new(v.len(), |i: int| (v[i].0@, v[i].1))
}

fn was_seen(seen: &Vec<(String, usize)>, file: &str, number: usize) -> (r: bool)
    ensures
        r == seen_views(seen@).contains((file@, number)),
{
    let ghost sv = seen_views(seen@);
    let mut i: usize = 0;
    while i < seen.len()
        invariant
            i <= seen.len(),
            sv == seen_views(seen@),
            forall|j: int| 0 <= j < i ==> sv[j] != (file@, number),
        decreases seen.len() - i,
    {
        if seen[i].1 == number && same(seen[i].0.as_str(), file) {
            proof {
                assert(sv[i as int] == (file@, number));
            }
            return true;
        }
        i += 1;
    }
    false
}

fn walk_lines(file: &str, lines: &Vec<LogLine>, seen: &mut Vec<(String, usize)>) -> (r: Option<
    usize,
>)
    requires
        old(seen).len() <= HIT_LIMIT,
    ensures
        final(seen).len() <= HIT_LIMIT,
        ({
            let (s, e) = walk(file@, views(lines@), 0, seen_views(old(seen)@));
            &&& seen_views(final(seen)@) == s
            &&& match r {
                Some(k) => k < lines.len() && e == Some(k as int),
                None => e is None,
            }
        }),
{
    let ghost lv = views(lines@);
    let ghost start = seen_views(seen@);
    let mut i: usize = 0;
    while i < lines.len()
        invariant
            i <= lines.len(),
            lv == views(lines@),
            start == seen_views(old(seen)@),
            seen.len() <= HIT_LIMIT,
            walk(file@, lv, 0, start) == walk(file@, lv, i as int, seen_views(seen@)),
        decreases lines.len() - i,
    {
        proof {
            assert(lv[i as int] == lines@[i as int]@);
            assert(seen_views(seen@).len() == seen.len());
        }
        if lines[i].hit && !was_seen(seen, file, lines[i].number) {
            if seen.len() == HIT_LIMIT {
                return Some(i);
            }
            let ghost was = seen_views(seen@);
            seen.push((file.to_owned(), lines[i].number));
            proof {
                assert(seen_views(seen@) =~= was.push((file@, lv[i as int].number)));
            }
        }
        i += 1;
    }
    None
}

fn has_hit(lines: &Vec<LogLine>) -> (r: bool)
    ensures
        r == holds_hit(views(lines@)),
{
    let ghost lv = views(lines@);
    let mut i: usize = 0;
    while i < lines.len()
        invariant
            i <= lines.len(),
            lv == views(lines@),
            forall|j: int| 0 <= j < i ==> !(#[trigger] lv[j]).hit,
        decreases lines.len() - i,
    {
        proof {
            assert(lv[i as int] == lines@[i as int]@);
        }
        if lines[i].hit {
            return true;
        }
        i += 1;
    }
    false
}

/// Cuts the evidence of a finding down to what a report holds.
pub fn limit_report_evidence(finding: &mut Finding)
    ensures
        final(finding)@ == limited_finding(old(finding)@),
{
    if finding.count <= HIT_LIMIT {
        return;
    }
    let ghost fv = finding@.fragments;
    let ghost start = finding@;
    let mut out: Vec<Fragment> = Vec::new();
    let mut seen: Vec<(String, usize)> = Vec::new();
    let mut i: usize = 0;
    proof {
        assert(seen_views(seen@) =~= Seq::empty());
        assert(views(out@) + limited(fv, 0, seen_views(seen@)) =~= limited(fv, 0, Seq::empty()));
    }
    let mut stopped = false;
    while i < finding.fragments.len() && !stopped
        invariant
            finding@ == start,
            fv == views(finding.fragments@),
            i <= finding.fragments.len(),
            seen.len() <= HIT_LIMIT,
            !stopped ==> views(out@) + limited(fv, i as int, seen_views(seen@)) == limited(
                fv,
                0,
                Seq::empty(),
            ),
            stopped ==> views(out@) == limited(fv, 0, Seq::empty()),
        decreases finding.fragments.len() - i + if stopped {
            0int
        } else {
            1
        },
    {
        let mut f = finding.fragments[i].duplicate();
        let ghost was = views(out@);
        let ghost had = seen_views(seen@);
        proof {
            assert(fv[i as int] == f@);
        }
        match walk_lines(f.file.as_str(), &f.lines, &mut seen) {
            Some(e) => {
                let ghost whole = f@;
                f.lines.truncate(e);
                proof {
                    assert(views(f.lines@) =~= whole.lines.take(e as int));
                    assert(f@ =~= (FragmentView { lines: whole.lines.take(e as int), ..whole }));
                }
                stopped = true;
            },
            None => {},
        }
        let ghost one = f@;
        if has_hit(&f.lines) {
            out.push(f);
            proof {
                assert(views(out@) =~= was + seq![one]);
            }
        } else {
            proof {
                assert(was + Seq::<FragmentView>::empty() =~= was);
            }
        }
        proof {
            assert(views(out@) == was + with_hit(one));
            if !stopped {
                assert(was + (with_hit(one) + limited(fv, i + 1, seen_views(seen@))) =~= views(out@)
                    + limited(fv, i + 1, seen_views(seen@)));
            }
        }
        i += 1;
    }
    proof {
        if !stopped {
            assert(views(out@) + limited(fv, i as int, seen_views(seen@)) =~= views(out@));
        }
    }
    finding.fragments = out;
    proof {
        assert(finding@ =~= limited_finding(start));
    }
}

} // verus!
