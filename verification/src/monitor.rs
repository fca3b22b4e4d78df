//! A watched directory: which packages are new and have come to rest.

use crate::order::{sort_by, sorted};
use crate::order_laws::{apart, lemma_kept_apart};
use crate::select::lemma_first_holds;
pub use crate::tasks::is_package;
use crate::tasks::{package_path, PackagePath, PackagePathView, Stamp};
use crate::text::{any, before, comes_before, first_place, kept, same, views};
use vstd::prelude::*;

verus! {

/// A package must rest this long before it is taken, in nanoseconds.
pub const REST: u64 = 10_000_000_000;

/// A path and what was seen of it.
#[derive(Debug)]
pub struct Seen {
    pub path: String,
    pub stamp: Stamp,
}

/// A path and when it last changed.
#[derive(Clone, Debug)]
pub struct Pending {
    pub path: String,
    pub since: u64,
}

#[verifier::ext_equal]
pub ghost struct SeenView {
    pub path: Seq<char>,
    pub stamp: Stamp,
}

#[verifier::ext_equal]
pub ghost struct PendingView {
    pub path: Seq<char>,
    pub since: u64,
}

impl View for Seen {
    type V = SeenView;

    open spec fn view(&self) -> SeenView {
        SeenView { path: self.path@, stamp: self.stamp }
    }
}

impl View for Pending {
    type V = PendingView;

    open spec fn view(&self) -> PendingView {
        PendingView { path: self.path@, since: self.since }
    }
}

/// What is known of a watched directory: the versions of the packages that were
/// seen, and those that changed and have not come to rest.
#[derive(Debug)]
pub struct DirectoryState {
    pub known: Vec<Seen>,
    pub pending: Vec<Pending>,
}

#[verifier::ext_equal]
pub ghost struct DirectoryStateView {
    pub known: Seq<SeenView>,
    pub pending: Seq<PendingView>,
}

impl View for DirectoryState {
    type V = DirectoryStateView;

    open spec fn view(&self) -> DirectoryStateView {
        DirectoryStateView { known: views(self.known@), pending: views(self.pending@) }
    }
}

pub open spec fn seen_at(path: Seq<char>) -> spec_fn(SeenView) -> bool {
    |s: SeenView| s.path == path
}

pub open spec fn pending_at(path: Seq<char>) -> spec_fn(PendingView) -> bool {
    |p: PendingView| p.path == path
}

/// The version of a path that is known.
pub open spec fn known_stamp(s: Seq<SeenView>, path: Seq<char>) -> Option<Stamp> {
    match first_place(s, seen_at(path), 0) {
        Some(i) => Some(s[i].stamp),
        None => None,
    }
}

/// The pending paths with one that changed now.
pub open spec fn touched(s: Seq<PendingView>, path: Seq<char>, now: u64) -> Seq<PendingView> {
    match first_place(s, pending_at(path), 0) {
        Some(i) => s.update(i, PendingView { path, since: now }),
        None => s.push(PendingView { path, since: now }),
    }
}

/// The pending paths after the first `n` files of the directory were seen: one
/// whose version is not known changed now.
pub open spec fn noticed(
    pending: Seq<PendingView>,
    known: Seq<SeenView>,
    current: Seq<SeenView>,
    now: u64,
    n: int,
) -> Seq<PendingView>
    decreases n,
{
    if n <= 0 {
        pending
    } else {
        let p = noticed(pending, known, current, now, n - 1);
        if known_stamp(known, current[n - 1].path) == Some(current[n - 1].stamp) {
            p
        } else {
            touched(p, current[n - 1].path, now)
        }
    }
}

/// Being still in the directory.
pub open spec fn still_there(current: Seq<SeenView>) -> spec_fn(PendingView) -> bool {
    |p: PendingView| any(current, seen_at(p.path))
}

pub open spec fn rested(now: u64, p: PendingView) -> bool {
    now >= p.since && now - p.since >= REST
}

pub open spec fn has_rested(now: u64) -> spec_fn(PendingView) -> bool {
    |p: PendingView| rested(now, p)
}

pub open spec fn not_rested(now: u64) -> spec_fn(PendingView) -> bool {
    |p: PendingView| !rested(now, p)
}

/// The order in which packages are taken: the one that changed first comes
/// first.
pub open spec fn taken_before(a: PendingView, b: PendingView) -> bool {
    a.since < b.since || (a.since == b.since && before(a.path, b.path))
}

pub open spec fn by_change() -> spec_fn(PendingView, PendingView) -> bool {
    |a: PendingView, b: PendingView| taken_before(a, b)
}

pub open spec fn seen_path() -> spec_fn(SeenView) -> Seq<char> {
    |s: SeenView| s.path
}

pub open spec fn pending_path() -> spec_fn(PendingView) -> Seq<char> {
    |p: PendingView| p.path
}

/// Whether each file of a directory is named once.
pub open spec fn files_apart(current: Seq<SeenView>) -> bool {
    apart(current, seen_path())
}

impl DirectoryStateView {
    /// Each path stands once among the known and once among the pending ones.
    pub open spec fn wf(self) -> bool {
        files_apart(self.known) && apart(self.pending, pending_path())
    }

    /// The pending paths once the directory was seen.
    pub open spec fn waiting(self, current: Seq<SeenView>, now: u64) -> Seq<PendingView> {
        kept(
            noticed(self.pending, self.known, current, now, current.len() as int),
            still_there(current),
            0,
        )
    }

    /// The packages that have come to rest.
    pub open spec fn ready(self, current: Seq<SeenView>, now: u64) -> Seq<Seq<char>> {
        let s = sorted(kept(self.waiting(current, now), has_rested(now), 0), by_change());
        Seq::new(s.len(), |i: int| s[i].path)
    }

    /// The state after the directory was seen.
    pub open spec fn polled(self, current: Seq<SeenView>, now: u64) -> DirectoryStateView {
        DirectoryStateView {
            known: current,
            pending: kept(self.waiting(current, now), not_rested(now), 0),
        }
    }

    /// The state after a change of a path was told: a version that is known and
    /// not pending is no change.
    pub open spec fn told(self, path: PackagePathView, stamp: Option<Stamp>, now: u64)
        -> DirectoryStateView {
        if package_path(path) && stamp is Some && (known_stamp(self.known, path.text) != stamp
            || any(self.pending, pending_at(path.text))) {
            DirectoryStateView { pending: touched(self.pending, path.text, now), ..self }
        } else {
            self
        }
    }

    /// The state after a path was dismissed: its version is taken as known.
    pub open spec fn dismissed(self, path: Seq<char>, stamp: Option<Stamp>) -> DirectoryStateView {
        DirectoryStateView {
            pending: kept(self.pending, not_pending_at(path), 0),
            known: match stamp {
                Some(s) => remembered(self.known, path, s),
                None => self.known,
            },
        }
    }
}

pub open spec fn not_pending_at(path: Seq<char>) -> spec_fn(PendingView) -> bool {
    |p: PendingView| p.path != path
}

/// The known versions with one of a path.
pub open spec fn remembered(s: Seq<SeenView>, path: Seq<char>, stamp: Stamp) -> Seq<SeenView> {
    match first_place(s, seen_at(path), 0) {
        Some(i) => s.update(i, SeenView { path, stamp }),
        None => s.push(SeenView { path, stamp }),
    }
}

/// A path that changed stands once among the pending ones.
pub proof fn lemma_touched_apart(s: Seq<PendingView>, path: Seq<char>, now: u64)
    requires
        apart(s, pending_path()),
    ensures
        apart(touched(s, path, now), pending_path()),
{
    let key = pending_path();
    lemma_first_holds(s, pending_at(path), 0);
    let out = touched(s, path, now);
    assert forall|i: int, j: int| 0 <= i < j < out.len() implies key(out[i]) != key(out[j]) by {
        if j < s.len() {
            assert(key(s[i]) != key(s[j]));
        } else {
            assert(!pending_at(path)(s[i]));
        }
    }
}

pub proof fn lemma_noticed_apart(
    pending: Seq<PendingView>,
    known: Seq<SeenView>,
    current: Seq<SeenView>,
    now: u64,
    n: int,
)
    requires
        apart(pending, pending_path()),
    ensures
        apart(noticed(pending, known, current, now, n), pending_path()),
    decreases n,
{
    if n > 0 {
        lemma_noticed_apart(pending, known, current, now, n - 1);
        lemma_touched_apart(
            noticed(pending, known, current, now, n - 1),
            current[n - 1].path,
            now,
        );
    }
}

proof fn lemma_polled_wf(d: DirectoryStateView, current: Seq<SeenView>, now: u64)
    requires
        d.wf(),
        files_apart(current),
    ensures
        d.polled(current, now).wf(),
        apart(d.waiting(current, now), pending_path()),
{
    let all = noticed(d.pending, d.known, current, now, current.len() as int);
    lemma_noticed_apart(d.pending, d.known, current, now, current.len() as int);
    lemma_kept_apart(all, still_there(current), pending_path(), 0);
    lemma_kept_apart(d.waiting(current, now), not_rested(now), pending_path(), 0);
}

proof fn lemma_dismissed_wf(d: DirectoryStateView, path: Seq<char>, stamp: Option<Stamp>)
    requires
        d.wf(),
    ensures
        d.dismissed(path, stamp).wf(),
{
    lemma_kept_apart(d.pending, not_pending_at(path), pending_path(), 0);
    if let Some(stamp) = stamp {
        let key = seen_path();
        lemma_first_holds(d.known, seen_at(path), 0);
        let out = remembered(d.known, path, stamp);
        assert forall|i: int, j: int| 0 <= i < j < out.len() implies key(out[i]) != key(out[j]) by {
            if j < d.known.len() {
                assert(key(d.known[i]) != key(d.known[j]));
            } else {
                assert(!seen_at(path)(d.known[i]));
            }
        }
    }
}

fn find_seen(s: &Vec<Seen>, path: &str) -> (r: Option<usize>)
    ensures
        (match r {
            Some(i) => i < s.len() && first_place(views(s@), seen_at(path@), 0) == Some(i as int),
            None => first_place(views(s@), seen_at(path@), 0) is None,
        }),
        r is Some == any(views(s@), seen_at(path@)),
{
    let ghost sv = views(s@);
    let ghost f = seen_at(path@);
    let mut i: usize = 0;
    while i < s.len()
        invariant
            i <= s.len(),
            sv == views(s@),
            f == seen_at(path@),
            first_place(sv, f, 0) == first_place(sv, f, i as int),
            forall|j: int| 0 <= j < i ==> !f(#[trigger] sv[j]),
        decreases s.len() - i,
    {
        let hit = same(s[i].path.as_str(), path);
        proof {
            assert(sv[i as int] == s@[i as int]@);
            assert(hit == f(sv[i as int]));
        }
        if hit {
            return Some(i);
        }
        i += 1;
    }
    None
}

fn find_pending(s: &Vec<Pending>, path: &str) -> (r: Option<usize>)
    ensures
        (match r {
            Some(i) => i < s.len() && first_place(views(s@), pending_at(path@), 0) == Some(
                i as int,
            ),
            None => first_place(views(s@), pending_at(path@), 0) is None,
        }),
        r is Some == any(views(s@), pending_at(path@)),
{
    let ghost sv = views(s@);
    let ghost f = pending_at(path@);
    let mut i: usize = 0;
    while i < s.len()
        invariant
            i <= s.len(),
            sv == views(s@),
            f == pending_at(path@),
            first_place(sv, f, 0) == first_place(sv, f, i as int),
            forall|j: int| 0 <= j < i ==> !f(#[trigger] sv[j]),
        decreases s.len() - i,
    {
        let hit = same(s[i].path.as_str(), path);
        proof {
            assert(sv[i as int] == s@[i as int]@);
            assert(hit == f(sv[i as int]));
        }
        if hit {
            return Some(i);
        }
        i += 1;
    }
    None
}

fn is_known(s: &Vec<Seen>, path: &str, stamp: Stamp) -> (r: bool)
    ensures
        r == (known_stamp(views(s@), path@) == Some(stamp)),
{
    match find_seen(s, path) {
        Some(i) => {
            proof {
                assert(views(s@)[i as int] == s@[i as int]@);
            }
            s[i].stamp.0 == stamp.0 && s[i].stamp.1 == stamp.1
        },
        None => false,
    }
}

fn touch(s: &mut Vec<Pending>, path: &str, now: u64)
    ensures
        views(final(s)@) == touched(views(old(s)@), path@, now),
{
    let ghost sv = views(s@);
    let p = Pending { path: path.to_owned(), since: now };
    let ghost pv = p@;
    match find_pending(s, path) {
        Some(i) => {
            s.set(i, p);
            proof {
                assert(views(s@) =~= sv.update(i as int, pv));
            }
        },
        None => {
            s.push(p);
            proof {
                assert(views(s@) =~= sv.push(pv));
            }
        },
    }
}

fn copy_pending(p: &Pending) -> (r: Pending)
    ensures
        r@ == p@,
{
    Pending { path: p.path.clone(), since: p.since }
}

fn is_taken_before(a: &Pending, b: &Pending) -> (r: bool)
    ensures
        r == taken_before(a@, b@),
{
    a.since < b.since || (a.since == b.since && comes_before(a.path.as_str(), b.path.as_str()))
}

impl DirectoryState {
    /// The state of a directory whose packages are all known.
    pub fn start(current: Vec<Seen>) -> (r: Self)
        ensures
            r@ == (DirectoryStateView { known: views(current@), pending: Seq::empty() }),
            files_apart(views(current@)) ==> r@.wf(),
    {
        let r = DirectoryState { known: current, pending: Vec::new() };
        proof {
            assert(r@.pending =~= Seq::<PendingView>::empty());
        }
        r
    }

    /// Takes in that a path changed; its stamp where it could be read.
    pub fn changed(&mut self, path: &PackagePath, stamp: Option<Stamp>, now: u64)
        ensures
            final(self)@ == old(self)@.told(path@, stamp, now),
            old(self)@.wf() ==> final(self)@.wf(),
    {
        proof {
            if self@.wf() {
                lemma_touched_apart(self@.pending, path@.text, now);
            }
        }
        if !is_package(path) {
            return;
        }
        if let Some(s) = stamp {
            if !is_known(&self.known, path.text.as_str(), s) || find_pending(
                &self.pending,
                path.text.as_str(),
            ).is_some() {
                touch(&mut self.pending, path.text.as_str(), now);
            }
        }
    }

    /// Passes over the present version of a path; a later change is found again.
    pub fn dismiss(&mut self, path: &str, stamp: Option<Stamp>)
        ensures
            final(self)@ == old(self)@.dismissed(path@, stamp),
            old(self)@.wf() ==> final(self)@.wf(),
    {
        let ghost sv = self@;
        proof {
            if sv.wf() {
                lemma_dismissed_wf(sv, path@, stamp);
            }
        }
        let ghost pv = sv.pending;
        let ghost f = not_pending_at(path@);
        let mut out: Vec<Pending> = Vec::new();
        let mut i: usize = 0;
        proof {
            assert(views(out@) + kept(pv, f, 0) =~= kept(pv, f, 0));
        }
        while i < self.pending.len()
            invariant
                i <= self.pending.len(),
                self@ == sv,
                pv == views(self.pending@),
                f == not_pending_at(path@),
                views(out@) + kept(pv, f, i as int) == kept(pv, f, 0),
            decreases self.pending.len() - i,
        {
            let ghost was = views(out@);
            let hit = !same(self.pending[i].path.as_str(), path);
            proof {
                assert(pv[i as int] == self.pending@[i as int]@);
                assert(hit == f(pv[i as int]));
            }
            if hit {
                out.push(copy_pending(&self.pending[i]));
                proof {
                    assert(views(out@) =~= was.push(pv[i as int]));
                    assert(was + kept(pv, f, i as int) =~= views(out@) + kept(pv, f, i + 1));
                }
            }
            i += 1;
        }
        proof {
            assert(views(out@) + kept(pv, f, i as int) =~= views(out@));
        }
        self.pending = out;
        if let Some(stamp) = stamp {
            let ghost kv = views(self.known@);
            let new = Seen { path: path.to_owned(), stamp };
            let ghost nv = new@;
            match find_seen(&self.known, path) {
                Some(k) => {
                    self.known.set(k, new);
                    proof {
                        assert(views(self.known@) =~= kv.update(k as int, nv));
                    }
                },
                None => {
                    self.known.push(new);
                    proof {
                        assert(views(self.known@) =~= kv.push(nv));
                    }
                },
            }
        }
        proof {
            assert(self@ =~= sv.dismissed(path@, stamp));
        }
    }

    /// The paths that have not come to rest.
    pub fn pending_paths(&self) -> (r: Vec<String>)
        ensures
            views(r@) == Seq::new(self@.pending.len(), |i: int| self@.pending[i].path),
    {
        let mut out: Vec<String> = Vec::new();
        let mut i: usize = 0;
        while i < self.pending.len()
            invariant
                i <= self.pending.len(),
                out.len() == i,
                forall|j: int| 0 <= j < i ==> (#[trigger] out@[j])@ == self.pending@[j].path@,
            decreases self.pending.len() - i,
        {
            out.push(self.pending[i].path.clone());
            i += 1;
        }
        proof {
            assert(views(out@) =~= Seq::new(
                self@.pending.len(),
                |i: int| self@.pending[i].path,
            ));
        }
        out
    }

    fn see(&mut self, current: &Vec<Seen>, now: u64)
        ensures
            final(self)@ == (DirectoryStateView {
                pending: old(self)@.waiting(views(current@), now),
                ..old(self)@
            }),
    {
        let ghost sv = self@;
        let ghost cv = views(current@);
        let mut i: usize = 0;
        while i < current.len()
            invariant
                i <= current.len(),
                cv == views(current@),
                sv.known == views(self.known@),
                views(self.pending@) == noticed(sv.pending, sv.known, cv, now, i as int),
            decreases current.len() - i,
        {
            proof {
                assert(cv[i as int] == current@[i as int]@);
            }
            if !is_known(&self.known, current[i].path.as_str(), current[i].stamp) {
                touch(&mut self.pending, current[i].path.as_str(), now);
            }
            i += 1;
        }
        let ghost pv = views(self.pending@);
        let ghost f = still_there(cv);
        let mut out: Vec<Pending> = Vec::new();
        let mut k: usize = 0;
        proof {
            assert(views(out@) + kept(pv, f, 0) =~= kept(pv, f, 0));
        }
        while k < self.pending.len()
            invariant
                k <= self.pending.len(),
                cv == views(current@),
                sv.known == views(self.known@),
                pv == views(self.pending@),
                f == still_there(cv),
                views(out@) + kept(pv, f, k as int) == kept(pv, f, 0),
            decreases self.pending.len() - k,
        {
            let ghost was = views(out@);
            let hit = find_seen(current, self.pending[k].path.as_str()).is_some();
            proof {
                assert(pv[k as int] == self.pending@[k as int]@);
                assert(hit == f(pv[k as int]));
            }
            if hit {
                out.push(copy_pending(&self.pending[k]));
                proof {
                    assert(views(out@) =~= was.push(pv[k as int]));
                    assert(was + kept(pv, f, k as int) =~= views(out@) + kept(pv, f, k + 1));
                }
            }
            k += 1;
        }
        proof {
            assert(views(out@) + kept(pv, f, k as int) =~= views(out@));
        }
        self.pending = out;
    }

    /// Looks at the directory as it is now and takes the packages that have come
    /// to rest.
    pub fn poll(&mut self, current: Vec<Seen>, now: u64) -> (r: Vec<String>)
        ensures
            final(self)@ == old(self)@.polled(views(current@), now),
            views(r@) == old(self)@.ready(views(current@), now),
            old(self)@.wf() && files_apart(views(current@)) ==> final(self)@.wf(),
    {
        let ghost sv = self@;
        let ghost cv = views(current@);
        proof {
            if sv.wf() && files_apart(cv) {
                lemma_polled_wf(sv, cv, now);
            }
        }
        self.see(&current, now);
        let ghost wv = views(self.pending@);
        let ghost f = has_rested(now);
        let ghost g = not_rested(now);
        let mut done: Vec<Pending> = Vec::new();
        let mut left: Vec<Pending> = Vec::new();
        let mut i: usize = 0;
        proof {
            assert(views(done@) + kept(wv, f, 0) =~= kept(wv, f, 0));
            assert(views(left@) + kept(wv, g, 0) =~= kept(wv, g, 0));
        }
        while i < self.pending.len()
            invariant
                i <= self.pending.len(),
                wv == views(self.pending@),
                f == has_rested(now),
                g == not_rested(now),
                views(done@) + kept(wv, f, i as int) == kept(wv, f, 0),
                views(left@) + kept(wv, g, i as int) == kept(wv, g, 0),
            decreases self.pending.len() - i,
        {
            let ghost was_done = views(done@);
            let ghost was_left = views(left@);
            let p = copy_pending(&self.pending[i]);
            let hit = now >= p.since && now - p.since >= REST;
            proof {
                assert(wv[i as int] == p@);
                assert(hit == f(wv[i as int]));
                assert(!hit == g(wv[i as int]));
            }
            if hit {
                done.push(p);
                proof {
                    assert(views(done@) =~= was_done.push(wv[i as int]));
                    assert(was_done + kept(wv, f, i as int) =~= views(done@) + kept(
                        wv,
                        f,
                        i + 1,
                    ));
                }
            } else {
                left.push(p);
                proof {
                    assert(views(left@) =~= was_left.push(wv[i as int]));
                    assert(was_left + kept(wv, g, i as int) =~= views(left@) + kept(
                        wv,
                        g,
                        i + 1,
                    ));
                }
            }
            i += 1;
        }
        proof {
            assert(views(done@) + kept(wv, f, i as int) =~= views(done@));
            assert(views(left@) + kept(wv, g, i as int) =~= views(left@));
        }
        let done = sort_by(done, is_taken_before, Ghost(by_change()));
        let ghost dv = views(done@);
        let mut out: Vec<String> = Vec::new();
        let mut k: usize = 0;
        while k < done.len()
            invariant
                k <= done.len(),
                dv == views(done@),
                out.len() == k,
                forall|j: int| 0 <= j < k ==> (#[trigger] out@[j])@ == dv[j].path,
            decreases done.len() - k,
        {
            out.push(done[k].path.clone());
            k += 1;
        }
        self.known = current;
        self.pending = left;
        proof {
            assert(views(out@) =~= sv.ready(cv, now));
            assert(self@ =~= sv.polled(cv, now));
        }
        out
    }
}

} // verus!
