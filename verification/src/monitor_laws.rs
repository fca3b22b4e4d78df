//! When the packages of a watched directory are reported, and when not.

use crate::monitor::{
    by_change, files_apart, has_rested, known_stamp, lemma_noticed_apart, not_pending_at,
    not_rested, noticed, pending_at, pending_path, rested, seen_at, seen_path, still_there, touched,
    DirectoryStateView, PendingView, SeenView, REST,
};
use crate::order::sorted;
use crate::order_laws::{
    by_text, in_order, law_sorting_keeps_elements, law_sorting_puts_in_order, law_texts_are_ordered,
    lemma_kept_apart, lemma_sorted_apart, orders,
};
use crate::select::{lemma_first_holds, lemma_first_of_any, lemma_kept_source};
use crate::tasks::Stamp;
use crate::text::{any, before, first_place, kept};
use vstd::prelude::*;

verus! {

proof fn lemma_known(s: Seq<SeenView>, i: int)
    requires
        files_apart(s),
        0 <= i < s.len(),
    ensures
        known_stamp(s, s[i].path) == Some(s[i].stamp),
{
    let f = seen_at(s[i].path);
    lemma_first_of_any(s, f, 0, i);
    lemma_first_holds(s, f, 0);
    let k = first_place(s, f, 0)->0;
    let key = seen_path();
    if k < i {
        assert(key(s[k]) != key(s[i]));
        assert(s[k].path == s[i].path);
    }
}

/// A path becomes pending only where its version is not the known one.
proof fn lemma_noticed(
    pending: Seq<PendingView>,
    known: Seq<SeenView>,
    current: Seq<SeenView>,
    now: u64,
    n: int,
    path: Seq<char>,
)
    requires
        0 <= n <= current.len(),
        any(noticed(pending, known, current, now, n), pending_at(path)),
    ensures
        any(pending, pending_at(path)) || exists|k: int|
            0 <= k < n && (#[trigger] current[k]).path == path && known_stamp(known, path) != Some(
                current[k].stamp,
            ),
    decreases n,
{
    if n > 0 {
        let before = noticed(pending, known, current, now, n - 1);
        let after = noticed(pending, known, current, now, n);
        let c = current[n - 1];
        let f = pending_at(path);
        let i = choose|i: int| 0 <= i < after.len() && f(#[trigger] after[i]);
        if known_stamp(known, c.path) == Some(c.stamp) {
            assert(f(before[i]));
            lemma_noticed(pending, known, current, now, n - 1, path);
        } else if c.path != path {
            lemma_first_holds(before, pending_at(c.path), 0);
            assert(i < before.len());
            assert(f(before[i]));
            lemma_noticed(pending, known, current, now, n - 1, path);
        } else {
            assert(current[n - 1].path == path);
        }
    }
}

/// A package that is reported has not changed for the whole time of rest.
pub proof fn law_reported_packages_have_rested(
    d: DirectoryStateView,
    current: Seq<SeenView>,
    now: u64,
    k: int,
)
    requires
        0 <= k < d.ready(current, now).len(),
    ensures
        exists|i: int|
            0 <= i < d.waiting(current, now).len() && (#[trigger] d.waiting(current, now)[i]).path
                == d.ready(current, now)[k] && now - d.waiting(current, now)[i].since >= REST,
        any(current, seen_at(d.ready(current, now)[k])),
{
    broadcast use vstd::seq_lib::group_to_multiset_ensures;

    let w = d.waiting(current, now);
    let r = kept(w, has_rested(now), 0);
    let s = sorted(r, by_change());
    law_sorting_keeps_elements(r, by_change());
    assert(s.contains(s[k]));
    assert(s.to_multiset().count(s[k]) > 0);
    assert(r.contains(s[k]));
    let j = choose|j: int| 0 <= j < r.len() && r[j] == s[k];
    let i = lemma_kept_source(w, has_rested(now), j);
    assert(w[i].path == d.ready(current, now)[k]);
    let all = noticed(d.pending, d.known, current, now, current.len() as int);
    lemma_kept_source(all, still_there(current), i);
}

/// A package that is neither pending nor has another version than the known one
/// is not reported.
pub proof fn law_unchanged_packages_are_not_reported(
    d: DirectoryStateView,
    current: Seq<SeenView>,
    now: u64,
    path: Seq<char>,
)
    requires
        !any(d.pending, pending_at(path)),
        forall|k: int|
            0 <= k < current.len() && (#[trigger] current[k]).path == path ==> known_stamp(
                d.known,
                path,
            ) == Some(current[k].stamp),
    ensures
        !d.ready(current, now).contains(path),
        !any(d.polled(current, now).pending, pending_at(path)),
{
    let f = pending_at(path);
    let all = noticed(d.pending, d.known, current, now, current.len() as int);
    let w = d.waiting(current, now);
    if any(all, f) {
        lemma_noticed(d.pending, d.known, current, now, current.len() as int, path);
    }
    if d.ready(current, now).contains(path) {
        let k = choose|k: int|
            0 <= k < d.ready(current, now).len() && d.ready(current, now)[k] == path;
        law_reported_packages_have_rested(d, current, now, k);
        let i = choose|i: int|
            0 <= i < w.len() && (#[trigger] w[i]).path == path && now - w[i].since >= REST;
        let j = lemma_kept_source(all, still_there(current), i);
        assert(f(all[j]));
    }
    let left = d.polled(current, now).pending;
    if any(left, f) {
        let i = choose|i: int| 0 <= i < left.len() && f(#[trigger] left[i]);
        let j = lemma_kept_source(w, not_rested(now), i);
        let m = lemma_kept_source(all, still_there(current), j);
        assert(f(all[m]));
    }
}

/// What is in a directory when it begins to be watched is not reported as long
/// as it does not change.
pub proof fn law_existing_packages_are_not_reported(current: Seq<SeenView>, now: u64, path: Seq<char>)
    requires
        files_apart(current),
    ensures
        ({
            let d = DirectoryStateView { known: current, pending: Seq::empty() };
            !d.ready(current, now).contains(path)
        }),
{
    let d = DirectoryStateView { known: current, pending: Seq::empty() };
    assert forall|k: int| 0 <= k < current.len() && (#[trigger] current[k]).path == path implies
        known_stamp(d.known, path) == Some(current[k].stamp) by {
        lemma_known(current, k);
    }
    law_unchanged_packages_are_not_reported(d, current, now, path);
}

/// A package that was dismissed is not reported until it changes.
pub proof fn law_dismissed_packages_are_not_reported(
    d: DirectoryStateView,
    path: Seq<char>,
    stamp: Stamp,
    current: Seq<SeenView>,
    now: u64,
)
    requires
        forall|k: int|
            0 <= k < current.len() && (#[trigger] current[k]).path == path ==> current[k].stamp
                == stamp,
    ensures
        !d.dismissed(path, Some(stamp)).ready(current, now).contains(path),
{
    let e = d.dismissed(path, Some(stamp));
    let f = pending_at(path);
    if any(e.pending, f) {
        let i = choose|i: int| 0 <= i < e.pending.len() && f(#[trigger] e.pending[i]);
        lemma_kept_source(d.pending, not_pending_at(path), i);
    }
    let g = seen_at(path);
    lemma_first_holds(d.known, g, 0);
    let at = match first_place(d.known, g, 0) {
        Some(i) => i,
        None => d.known.len() as int,
    };
    assert(g(e.known[at]));
    lemma_first_of_any(e.known, g, 0, at);
    lemma_first_holds(e.known, g, 0);
    let k = first_place(e.known, g, 0)->0;
    if k < at {
        assert(e.known[k] == d.known[k]);
        assert(!g(d.known[k]));
    }
    law_unchanged_packages_are_not_reported(e, current, now, path);
}

/// A package whose version is new counts as changed now, so its rest begins.
pub proof fn law_new_versions_begin_to_rest(
    d: DirectoryStateView,
    current: Seq<SeenView>,
    now: u64,
    n: int,
    i: int,
)
    requires
        files_apart(current),
        0 <= i < n <= current.len(),
        known_stamp(d.known, current[i].path) != Some(current[i].stamp),
    ensures
        any(noticed(d.pending, d.known, current, now, n), pending_now(current[i].path, now)),
    decreases n,
{
    let p = noticed(d.pending, d.known, current, now, n - 1);
    let out = noticed(d.pending, d.known, current, now, n);
    let c = current[n - 1];
    let f = pending_now(current[i].path, now);
    lemma_first_holds(p, pending_at(c.path), 0);
    if i == n - 1 {
        let at = match first_place(p, pending_at(c.path), 0) {
            Some(j) => j,
            None => p.len() as int,
        };
        assert(f(out[at]));
    } else {
        law_new_versions_begin_to_rest(d, current, now, n - 1, i);
        let j = choose|j: int| 0 <= j < p.len() && f(#[trigger] p[j]);
        assert(seen_path()(current[i]) != seen_path()(current[n - 1]));
        assert(c.path != current[i].path);
        assert(out[j] == p[j]);
        assert(f(out[j]));
    }
}

pub open spec fn pending_now(path: Seq<char>, now: u64) -> spec_fn(PendingView) -> bool {
    |p: PendingView| p.path == path && p.since == now
}

/// The packages that are reported together stand in the order in which they came
/// to rest.
pub proof fn law_reports_stand_in_order(d: DirectoryStateView, current: Seq<SeenView>, now: u64)
    ensures
        orders(by_change()),
        in_order(
            sorted(kept(d.waiting(current, now), has_rested(now), 0), by_change()),
            by_change(),
        ),
{
    law_texts_are_ordered();
    let t = by_text();
    let lt = by_change();
    assert forall|a: PendingView, b: PendingView| #[trigger] lt(a, b) implies !lt(b, a) by {
        assert(t(a.path, b.path) == before(a.path, b.path));
    }
    assert forall|a: PendingView, b: PendingView, c: PendingView| #[trigger] lt(a, c) implies
        #[trigger] lt(a, b) || lt(b, c) by {
        assert(t(a.path, c.path) == before(a.path, c.path));
        assert(t(a.path, b.path) == before(a.path, b.path));
        assert(t(b.path, c.path) == before(b.path, c.path));
    }
    law_sorting_puts_in_order(
        kept(d.waiting(current, now), has_rested(now), 0),
        by_change(),
    );
}

/// A look at a directory reports no package twice, none that still waits, and
/// none that is gone; nothing waits that is gone either.
pub proof fn law_packages_are_reported_once(
    d: DirectoryStateView,
    current: Seq<SeenView>,
    now: u64,
)
    requires
        d.wf(),
        files_apart(current),
    ensures
        ({
            let ready = d.ready(current, now);
            let left = d.polled(current, now).pending;
            &&& forall|i: int, j: int| 0 <= i < j < ready.len() ==> ready[i] != ready[j]
            &&& forall|i: int, j: int|
                0 <= i < ready.len() && 0 <= j < left.len() ==> #[trigger] ready[i] != (
                #[trigger] left[j]).path
            &&& forall|i: int|
                0 <= i < ready.len() ==> any(current, seen_at(#[trigger] ready[i]))
            &&& forall|j: int|
                0 <= j < left.len() ==> any(current, seen_at((#[trigger] left[j]).path))
        }),
{
    let key = pending_path();
    let all = noticed(d.pending, d.known, current, now, current.len() as int);
    let w = d.waiting(current, now);
    let r = kept(w, has_rested(now), 0);
    let s = sorted(r, by_change());
    let ready = d.ready(current, now);
    let left = d.polled(current, now).pending;
    lemma_noticed_apart(d.pending, d.known, current, now, current.len() as int);
    lemma_kept_apart(all, still_there(current), key, 0);
    lemma_kept_apart(w, has_rested(now), key, 0);
    lemma_sorted_apart(r, by_change(), key);
    assert forall|i: int, j: int| 0 <= i < j < ready.len() implies ready[i] != ready[j] by {
        assert(key(s[i]) != key(s[j]));
    }
    assert forall|i: int, j: int| 0 <= i < ready.len() && 0 <= j < left.len() implies
        #[trigger] ready[i] != (#[trigger] left[j]).path by {
        let k = choose|k: int| 0 <= k < r.len() && r[k] == s[i];
        let a = lemma_kept_source(w, has_rested(now), k);
        let b = lemma_kept_source(w, not_rested(now), j);
        if a < b {
            assert(key(w[a]) != key(w[b]));
        } else if b < a {
            assert(key(w[b]) != key(w[a]));
        }
    }
    assert forall|i: int| 0 <= i < ready.len() implies any(
        current,
        seen_at(#[trigger] ready[i]),
    ) by {
        law_reported_packages_have_rested(d, current, now, i);
    }
    assert forall|j: int| 0 <= j < left.len() implies any(
        current,
        seen_at((#[trigger] left[j]).path),
    ) by {
        let b = lemma_kept_source(w, not_rested(now), j);
        lemma_kept_source(all, still_there(current), b);
    }
}

/// A package rests for ten seconds, counted in nanoseconds.
pub proof fn law_packages_rest_ten_seconds(now: u64, p: PendingView)
    ensures
        rested(now, p) <==> now - p.since >= 10 * 1_000_000_000,
{
}

/// A package that has waited its time in the directory and does not change is
/// reported, and then waits no more.
pub proof fn law_rested_packages_are_reported(
    d: DirectoryStateView,
    current: Seq<SeenView>,
    now: u64,
    i: int,
)
    requires
        0 <= i < d.waiting(current, now).len(),
        now - d.waiting(current, now)[i].since >= 10 * 1_000_000_000,
    ensures
        d.ready(current, now).contains(d.waiting(current, now)[i].path),
{
    let w = d.waiting(current, now);
    let f = has_rested(now);
    assert(f(w[i]));
    let k = crate::select::lemma_kept_there(w, f, i);
    let a = kept(w, f, 0);
    let s = sorted(a, by_change());
    law_sorting_keeps_elements(a, by_change());
    a.to_multiset_ensures();
    s.to_multiset_ensures();
    assert(a[k] == w[i]);
    assert(a.contains(w[i]));
    assert(a.to_multiset().count(w[i]) > 0);
    assert(s.contains(w[i]));
    let j = choose|j: int| 0 <= j < s.len() && s[j] == w[i];
    assert(d.ready(current, now)[j] == w[i].path);
}

/// A change that is told begins the rest of a package anew, unless that very version
/// is known and nothing of it waits; what is no package or is gone is passed over.
pub proof fn law_told_changes_begin_to_rest(
    d: DirectoryStateView,
    path: crate::tasks::PackagePathView,
    stamp: Stamp,
    now: u64,
)
    ensures
        d.told(path, None, now) == d,
        !crate::tasks::package_path(path) ==> d.told(path, Some(stamp), now) == d,
        crate::tasks::package_path(path) && known_stamp(d.known, path.text) != Some(stamp)
            ==> pending_since(d.told(path, Some(stamp), now).pending, path.text, now),
        crate::tasks::package_path(path) && any(d.pending, pending_at(path.text))
            ==> pending_since(d.told(path, Some(stamp), now).pending, path.text, now),
        known_stamp(d.known, path.text) == Some(stamp) && !any(d.pending, pending_at(path.text))
            ==> d.told(path, Some(stamp), now) == d,
        d.told(path, Some(stamp), now).known == d.known,
{
    let f = pending_at(path.text);
    let t = touched(d.pending, path.text, now);
    lemma_first_holds(d.pending, f, 0);
    match first_place(d.pending, f, 0) {
        Some(i) => {
            assert(t[i].path == path.text);
        },
        None => {
            assert(t[d.pending.len() as int].path == path.text);
        },
    }
}

/// Whether a path waits since a time.
pub open spec fn pending_since(s: Seq<PendingView>, path: Seq<char>, since: u64) -> bool {
    exists|i: int| 0 <= i < s.len() && (#[trigger] s[i]).path == path && s[i].since == since
}

} // verus!
