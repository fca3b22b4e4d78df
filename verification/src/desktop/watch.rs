//! The watched directory and the packages that wait for it.

use crate::desktop::settings::{Settings, SettingsView};
use crate::desktop::window::{
    cleaned_at, deferred_at, deferred_elsewhere, Deferred, DeferredView, Window, WindowView,
};
use crate::fault::{refusal, Fault, FaultKind, FaultView};
use crate::monitor::{DirectoryState, DirectoryStateView, Seen, SeenView, REST};
use crate::select::{any_by, find_by};
use crate::tasks::{
    with_path, Ending, PackagePath, PackagePathView, Phase, Stamp, Task, TaskView, TasksView,
};
use crate::text::{any, first_place, kept, opt_view, same, views, Duplicate};
use vstd::prelude::*;

verus! {

/// What is shown while the watched directory cannot be read.
pub open spec fn unreachable_text() -> Seq<char> {
    "监控目录不可访问，等待目录恢复"@
}

impl WindowView {
    /// The window after a file changed; only the watched directory itself counts.
    pub open spec fn told(self, path: PackagePathView, stamp: Option<Stamp>, now: u64) -> WindowView {
        match self.directory {
            Some(d) => if path.parent == Some(self.settings.directory) {
                WindowView { directory: Some(d.told(path, stamp, now)), ..self }
            } else {
                self
            },
            None => self,
        }
    }

    /// The window after the watched directory was read, where it could be.
    pub open spec fn polled(self, current: Option<Seq<SeenView>>, now: u64) -> WindowView {
        if !self.settings.watching {
            self
        } else {
            match current {
                Some(c) => WindowView {
                    status: if self.status == unreachable_text() {
                        Seq::empty()
                    } else {
                        self.status
                    },
                    directory: match self.directory {
                        Some(d) => Some(d.polled(c, now)),
                        None => None,
                    },
                    ..self
                },
                None => WindowView { status: unreachable_text(), ..self },
            }
        }
    }

    /// The packages that have come to rest when the directory was read.
    pub open spec fn ready(self, current: Option<Seq<SeenView>>, now: u64) -> Seq<Seq<char>> {
        if self.settings.watching && current is Some && self.directory is Some {
            self.directory->0.ready(current->0, now)
        } else {
            Seq::empty()
        }
    }

    /// The window after the first `n` packages that are still changing got a row;
    /// those that are cleaned up get none.
    pub open spec fn awaiting(self, pending: Seq<PackagePathView>, n: int) -> WindowView
        decreases n,
    {
        if n <= 0 {
            self
        } else {
            let w = self.awaiting(pending, n - 1);
            if any(w.tasks.rows, cleaned_at(w.cleaning, pending[n - 1].text)) {
                w
            } else {
                w.with_tasks(w.tasks.registered(pending[n - 1], Phase::Waiting))
            }
        }
    }
}

pub open spec fn path_is(text: Seq<char>) -> spec_fn(PackagePathView) -> bool {
    |p: PackagePathView| p.text == text
}

/// Whether a row waits for a file that is neither pending nor deferred.
pub open spec fn waits_for_nothing(
    t: TaskView,
    pending: Seq<PackagePathView>,
    deferred: Seq<DeferredView>,
) -> bool {
    t.phase == Phase::Waiting && !any(pending, path_is(t.package.text)) && !any(
        deferred,
        deferred_at(t.package.text),
    )
}

/// The identities of the first `n` rows that wait for nothing.
pub open spec fn gone_ids(
    rows: Seq<TaskView>,
    pending: Seq<PackagePathView>,
    deferred: Seq<DeferredView>,
    n: int,
) -> Seq<i32>
    decreases n,
{
    if n <= 0 {
        Seq::empty()
    } else if waits_for_nothing(rows[n - 1], pending, deferred) {
        gone_ids(rows, pending, deferred, n - 1).push(rows[n - 1].id)
    } else {
        gone_ids(rows, pending, deferred, n - 1)
    }
}

/// The tasks after the first `n` of the identities ended in the same way.
pub open spec fn all_ended(tasks: TasksView, ids: Seq<i32>, e: Ending, n: int) -> TasksView
    decreases n,
{
    if n <= 0 {
        tasks
    } else {
        all_ended(tasks, ids, e, n - 1).finished(ids[n - 1], e)
    }
}

/// How a task ends whose file was taken away before it came to rest.
pub open spec fn taken_away() -> Ending {
    Ending {
        phase: Phase::Cancelled,
        status: "文件已移除，等待已结束"@,
        report: None,
        source: None,
        output: None,
    }
}

/// How a task ends whose package is gone.
pub open spec fn package_gone() -> Ending {
    Ending {
        phase: Phase::Failed,
        status: "诊断包已不存在"@,
        report: None,
        source: None,
        output: None,
    }
}

impl WindowView {
    /// The window after the rows that wait for nothing ended.
    pub open spec fn without_gone(self, pending: Seq<PackagePathView>) -> WindowView {
        let ids = gone_ids(self.tasks.rows, pending, self.deferred, self.tasks.rows.len() as int);
        self.with_tasks(all_ended(self.tasks, ids, taken_away(), ids.len() as int))
    }
}

/// A deferred package after it was looked at again.
pub open spec fn looked_at(d: DeferredView, stamp: Option<Stamp>, now: u64) -> DeferredView {
    if stamp is Some && stamp != d.stamp {
        DeferredView { stamp, since: now, ..d }
    } else {
        d
    }
}

/// Whether a deferred package has come to rest.
pub open spec fn settles(d: DeferredView, stamp: Option<Stamp>, now: u64) -> bool {
    stamp is Some && stamp == d.stamp && now >= d.since && now - d.since >= REST
}

/// The paths of the first `n` deferred packages that are gone.
pub open spec fn lost(s: Seq<DeferredView>, stamps: Seq<Option<Stamp>>, n: int) -> Seq<
    PackagePathView,
>
    decreases n,
{
    if n <= 0 {
        Seq::empty()
    } else if stamps[n - 1] is None {
        lost(s, stamps, n - 1).push(s[n - 1].path)
    } else {
        lost(s, stamps, n - 1)
    }
}

/// The paths of the first `n` deferred packages that have come to rest.
pub open spec fn settled(s: Seq<DeferredView>, stamps: Seq<Option<Stamp>>, now: u64, n: int) -> Seq<
    PackagePathView,
>
    decreases n,
{
    if n <= 0 {
        Seq::empty()
    } else if settles(s[n - 1], stamps[n - 1], now) {
        settled(s, stamps, now, n - 1).push(s[n - 1].path)
    } else {
        settled(s, stamps, now, n - 1)
    }
}

impl WindowView {
    pub open spec fn without_deferred(self, path: Seq<char>) -> WindowView {
        WindowView { deferred: kept(self.deferred, deferred_elsewhere(path), 0), ..self }
    }

    /// The window after the first `n` of the packages that are gone were given
    /// up.
    pub open spec fn giving_up(self, paths: Seq<PackagePathView>, n: int) -> WindowView
        decreases n,
    {
        if n <= 0 {
            self
        } else {
            let w = self.giving_up(paths, n - 1).without_deferred(paths[n - 1].text);
            match first_place(w.tasks.rows, with_path(paths[n - 1].text), 0) {
                Some(i) => w.with_tasks(w.tasks.finished(w.tasks.rows[i].id, package_gone())),
                None => w,
            }
        }
    }

    /// The window after the first `n` of the packages that rest were queued
    /// again.
    pub open spec fn resuming(self, paths: Seq<PackagePathView>, n: int) -> WindowView
        decreases n,
    {
        if n <= 0 {
            self
        } else {
            self.resuming(paths, n - 1).without_deferred(paths[n - 1].text).queued(paths[n - 1])
        }
    }

    /// The window after the deferred packages were looked at again: those that
    /// are gone are given up, those that rest are queued again.
    pub open spec fn reconsidered(self, stamps: Seq<Option<Stamp>>, now: u64) -> WindowView {
        let s = self.deferred;
        let n = s.len() as int;
        let gone = lost(s, stamps, n);
        let back = settled(s, stamps, now, n);
        let w = WindowView {
            deferred: Seq::new(s.len(), |i: int| looked_at(s[i], stamps[i], now)),
            ..self
        };
        w.giving_up(gone, gone.len() as int).resuming(back, back.len() as int)
    }

    /// The rows that wait for a file and are not deferred.
    pub open spec fn waiting_ids(self) -> Seq<i32> {
        gone_ids(self.tasks.rows, Seq::empty(), self.deferred, self.tasks.rows.len() as int)
    }

    /// The window after the watched directory was changed: rows that waited for
    /// files of the old one end, queued ones go on.
    pub open spec fn watching(self, settings: SettingsView, directory: Option<DirectoryStateView>)
        -> WindowView {
        let ids = self.waiting_ids();
        WindowView {
            tasks: all_cancelled(self.tasks, ids, ids.len() as int),
            settings,
            directory,
            status: Seq::empty(),
            ..self
        }
    }

    /// Why a directory cannot be watched.
    pub open spec fn watch_fault(self, s: SettingsView, is_directory: bool) -> Option<FaultView> {
        if s.directory.len() > 0 && !is_directory && (s.watching || s.directory
            != self.settings.directory) {
            Some(refusal(FaultKind::DirectoryAccess, Seq::empty()))
        } else if s.watching && s.directory.len() == 0 {
            Some(refusal(FaultKind::DirectoryMissing, Seq::empty()))
        } else {
            None
        }
    }
}

/// The tasks after the first `n` of the identities were stopped.
pub open spec fn all_cancelled(tasks: TasksView, ids: Seq<i32>, n: int) -> TasksView
    decreases n,
{
    if n <= 0 {
        tasks
    } else {
        all_cancelled(tasks, ids, n - 1).cancelled(ids[n - 1])
    }
}

/// Ending tasks moves the clock by one each.
proof fn lemma_ended_clock(tasks: TasksView, ids: Seq<i32>, e: Ending, n: int)
    requires
        0 <= n,
        tasks.clock + n <= u64::MAX,
    ensures
        all_ended(tasks, ids, e, n).clock == tasks.clock + n,
    decreases n,
{
    if n > 0 {
        lemma_ended_clock(tasks, ids, e, n - 1);
    }
}

proof fn lemma_cancelled_clock(tasks: TasksView, ids: Seq<i32>, n: int)
    requires
        0 <= n,
        tasks.clock + n <= u64::MAX,
    ensures
        all_cancelled(tasks, ids, n).clock <= tasks.clock + n,
    decreases n,
{
    if n > 0 {
        lemma_cancelled_clock(tasks, ids, n - 1);
    }
}

impl Window {
    /// Takes in that a file changed.
    pub fn file_changed(&mut self, path: &PackagePath, stamp: Option<Stamp>, now: u64)
        ensures
            final(self)@ == old(self)@.told(path@, stamp, now),
    {
        let inside = match &path.parent {
            Some(p) => same(p.as_str(), self.settings.directory.as_str()),
            None => false,
        };
        if inside {
            if let Some(d) = &mut self.directory {
                d.changed(path, stamp, now);
            }
        }
    }

    /// Takes in what the watched directory holds, nothing where it cannot be
    /// read, and gives the packages that have come to rest.
    pub fn poll(&mut self, current: Option<Vec<Seen>>, now: u64) -> (r: Vec<String>)
        ensures
            ({
                let c = match current {
                    Some(v) => Some(views(v@)),
                    None => None,
                };
                &&& final(self)@ == old(self)@.polled(c, now)
                &&& views(r@) == old(self)@.ready(c, now)
            }),
    {
        let none: Vec<String> = Vec::new();
        proof {
            assert(views(none@) =~= Seq::<Seq<char>>::empty());
        }
        if !self.settings.watching {
            return none;
        }
        match current {
            Some(c) => {
                if same(self.status.as_str(), "监控目录不可访问，等待目录恢复") {
                    self.status = String::new();
                    proof {
                        assert(self.status@ =~= Seq::<char>::empty());
                    }
                }
                match &mut self.directory {
                    Some(d) => d.poll(c, now),
                    None => none,
                }
            },
            None => {
                self.status = "监控目录不可访问，等待目录恢复".to_owned();
                none
            },
        }
    }

    /// Gives a row to each package that is still changing.
    pub fn show_pending(&mut self, pending: &Vec<PackagePath>)
        requires
            old(self).tasks.next_id + pending.len() <= i32::MAX,
        ensures
            final(self)@ == old(self)@.awaiting(views(pending@), pending.len() as int),
            final(self).tasks.next_id <= old(self).tasks.next_id + pending.len(),
    {
        let ghost sv = self@;
        let ghost pv = views(pending@);
        let mut i: usize = 0;
        while i < pending.len()
            invariant
                i <= pending.len(),
                pv == views(pending@),
                self@ == sv.awaiting(pv, i as int),
                self.tasks.next_id <= sv.tasks.next_id + i,
                sv.tasks.next_id + pending.len() <= i32::MAX,
            decreases pending.len() - i,
        {
            proof {
                assert(pv[i as int] == pending@[i as int]@);
            }
            let ghost w = self@;
            if !self.is_cleaned(pending[i].text.as_str()) {
                self.tasks.register(pending[i].duplicate(), Phase::Waiting);
                proof {
                    assert(self@ =~= w.with_tasks(w.tasks.registered(pv[i as int], Phase::Waiting)));
                }
            }
            i += 1;
        }
    }

    fn waiting_for_nothing(&self, pending: &Vec<PackagePath>) -> (r: Vec<i32>)
        ensures
            r@ == gone_ids(
                self@.tasks.rows,
                views(pending@),
                self@.deferred,
                self.tasks.rows.len() as int,
            ),
            r.len() <= self.tasks.rows.len(),
    {
        let ghost rv = self@.tasks.rows;
        let ghost pv = views(pending@);
        let ghost dv = self@.deferred;
        let mut out: Vec<i32> = Vec::new();
        let mut i: usize = 0;
        while i < self.tasks.rows.len()
            invariant
                i <= self.tasks.rows.len(),
                rv == self@.tasks.rows,
                pv == views(pending@),
                dv == self@.deferred,
                out@ == gone_ids(rv, pv, dv, i as int),
                out.len() <= i,
            decreases self.tasks.rows.len() - i,
        {
            let t = &self.tasks.rows[i];
            proof {
                assert(rv[i as int] == t@);
            }
            let text = t.package.text.as_str();
            let f = |p: &PackagePath| -> (r: bool)
                ensures
                    r == path_is(text@)(p@),
                { same(p.text.as_str(), text) };
            let g = |d: &Deferred| -> (r: bool)
                ensures
                    r == deferred_at(text@)(d@),
                { same(d.path.text.as_str(), text) };
            if t.phase == Phase::Waiting && !any_by(pending, &f, Ghost(path_is(text@))) && !any_by(
                &self.deferred,
                &g,
                Ghost(deferred_at(text@)),
            ) {
                out.push(t.id);
            }
            i += 1;
        }
        out
    }

    /// Ends the rows that wait for a file that was taken away.
    pub fn end_gone(&mut self, pending: &Vec<PackagePath>)
        requires
            old(self).tasks.clock + old(self).tasks.rows.len() <= u64::MAX,
        ensures
            final(self)@ == old(self)@.without_gone(views(pending@)),
    {
        let ghost sv = self@;
        let ids = self.waiting_for_nothing(pending);
        let ghost e = taken_away();
        let mut i: usize = 0;
        proof {
            assert(sv.tasks.rows.len() == self.tasks.rows.len());
        }
        while i < ids.len()
            invariant
                i <= ids.len(),
                sv.tasks.clock + ids.len() <= u64::MAX,
                e == taken_away(),
                self@ == sv.with_tasks(all_ended(sv.tasks, ids@, e, i as int)),
            decreases ids.len() - i,
        {
            proof {
                lemma_ended_clock(sv.tasks, ids@, e, i as int);
            }
            self.tasks.finish(
                ids[i],
                Phase::Cancelled,
                "文件已移除，等待已结束".to_owned(),
                None,
                None,
                None,
            );
            i += 1;
        }
    }

    /// Checks whether the directory of new settings can be watched.
    pub fn check_watch(&self, settings: &Settings, is_directory: bool) -> (r: Result<(), Fault>)
        ensures
            (match r {
                Ok(_) => self@.watch_fault(settings@, is_directory) is None,
                Err(f) => self@.watch_fault(settings@, is_directory) == Some(f@),
            }),
    {
        let empty = settings.directory.as_str().is_empty();
        if !empty && !is_directory && (settings.watching || !same(
            settings.directory.as_str(),
            self.settings.directory.as_str(),
        )) {
            return Err(Fault::plain(FaultKind::DirectoryAccess));
        }
        if settings.watching && empty {
            return Err(Fault::plain(FaultKind::DirectoryMissing));
        }
        Ok(())
    }

    /// Goes over to another watched directory, once it is watched and saved.
    pub fn watch(&mut self, settings: Settings, directory: Option<DirectoryState>)
        requires
            old(self).tasks.clock + old(self).tasks.rows.len() <= u64::MAX,
        ensures
            final(self)@ == old(self)@.watching(settings@, opt_view(directory)),
    {
        let ghost sv = self@;
        let none: Vec<PackagePath> = Vec::new();
        proof {
            assert(views(none@) =~= Seq::<PackagePathView>::empty());
            assert(sv.tasks.rows.len() == self.tasks.rows.len());
        }
        let ids = self.waiting_for_nothing(&none);
        let mut i: usize = 0;
        while i < ids.len()
            invariant
                i <= ids.len(),
                sv.tasks.clock + ids.len() <= u64::MAX,
                self@ == sv.with_tasks(all_cancelled(sv.tasks, ids@, i as int)),
            decreases ids.len() - i,
        {
            proof {
                lemma_cancelled_clock(sv.tasks, ids@, i as int);
            }
            self.tasks.cancel(ids[i]);
            i += 1;
        }
        self.settings = settings;
        self.directory = directory;
        self.status = String::new();
        proof {
            assert(self.status@ =~= Seq::<char>::empty());
            assert(self@ =~= sv.watching(settings@, opt_view(directory)));
        }
    }

    fn give_up(&mut self, path: &PackagePath)
        requires
            old(self).tasks.clock < u64::MAX,
        ensures
            ({
                let w = old(self)@.without_deferred(path@.text);
                final(self)@ == match first_place(w.tasks.rows, with_path(path@.text), 0) {
                    Some(i) => w.with_tasks(w.tasks.finished(w.tasks.rows[i].id, package_gone())),
                    None => w,
                }
            }),
            final(self).tasks.clock <= old(self).tasks.clock + 1,
            final(self).tasks.next_id == old(self).tasks.next_id,
    {
        self.forget_deferred(path.text.as_str());
        let ghost w = self@;
        let text = path.text.as_str();
        let f = |t: &Task| -> (r: bool)
            ensures
                r == with_path(text@)(t@),
            { same(t.package.text.as_str(), text) };
        if let Some(i) = find_by(&self.tasks.rows, &f, Ghost(with_path(text@))) {
            let id = self.tasks.rows[i].id;
            proof {
                assert(w.tasks.rows[i as int] == self.tasks.rows@[i as int]@);
            }
            self.tasks.finish(id, Phase::Failed, "诊断包已不存在".to_owned(), None, None, None);
            proof {
                assert(self@ =~= w.with_tasks(
                    w.tasks.finished(w.tasks.rows[i as int].id, package_gone()),
                ));
            }
        }
    }

    fn resume(&mut self, path: &PackagePath)
        requires
            old(self).tasks.next_id < i32::MAX,
        ensures
            final(self)@ == old(self)@.without_deferred(path@.text).queued(path@),
            final(self).tasks.next_id <= old(self).tasks.next_id + 1,
    {
        self.forget_deferred(path.text.as_str());
        self.enqueue(path.duplicate());
    }

    /// Looks at the deferred packages again. `stamps` holds what each of them is
    /// now.
    pub fn look_again(&mut self, stamps: &Vec<Option<Stamp>>, now: u64)
        requires
            stamps.len() == old(self).deferred.len(),
            old(self).tasks.clock + stamps.len() <= u64::MAX,
            old(self).tasks.next_id + stamps.len() <= i32::MAX,
        ensures
            final(self)@ == old(self)@.reconsidered(stamps@, now),
    {
        let ghost sv = self@;
        let ghost dv = sv.deferred;
        let mut gone: Vec<PackagePath> = Vec::new();
        let mut back: Vec<PackagePath> = Vec::new();
        let mut next: Vec<Deferred> = Vec::new();
        let mut i: usize = 0;
        proof {
            assert(views(gone@) =~= lost(dv, stamps@, 0));
            assert(views(back@) =~= settled(dv, stamps@, now, 0));
        }
        while i < self.deferred.len()
            invariant
                i <= self.deferred.len(),
                stamps.len() == self.deferred.len(),
                self@ == sv,
                dv == views(self.deferred@),
                next.len() == i,
                gone.len() <= i,
                back.len() <= i,
                forall|j: int|
                    0 <= j < i ==> (#[trigger] next@[j])@ == looked_at(dv[j], stamps@[j], now),
                views(gone@) == lost(dv, stamps@, i as int),
                views(back@) == settled(dv, stamps@, now, i as int),
            decreases self.deferred.len() - i,
        {
            let ghost g = gone@;
            let ghost b = back@;
            let mut d = self.deferred[i].duplicate();
            proof {
                assert(dv[i as int] == self.deferred@[i as int]@);
            }
            match stamps[i] {
                None => {
                    gone.push(d.path.duplicate());
                    proof {
                        assert(views(gone@) =~= views(g).push(dv[i as int].path));
                    }
                },
                Some(s) => {
                    let unchanged = match d.stamp {
                        Some(t) => s.0 == t.0 && s.1 == t.1,
                        None => false,
                    };
                    if !unchanged {
                        d.stamp = Some(s);
                        d.since = now;
                    } else if now >= d.since && now - d.since >= REST {
                        back.push(d.path.duplicate());
                        proof {
                            assert(views(back@) =~= views(b).push(dv[i as int].path));
                        }
                    }
                },
            }
            proof {
                assert(d@ =~= looked_at(dv[i as int], stamps@[i as int], now));
            }
            next.push(d);
            i += 1;
        }
        let ghost w = WindowView {
            deferred: Seq::new(dv.len(), |i: int| looked_at(dv[i], stamps@[i], now)),
            ..sv
        };
        self.deferred = next;
        proof {
            assert(dv.len() == stamps.len());
            assert(views(self.deferred@).len() == self.deferred.len());
            assert(self@.deferred =~= w.deferred);
            assert(self@ =~= w);
        }
        let ghost gv = views(gone@);
        let ghost bv = views(back@);
        let mut k: usize = 0;
        while k < gone.len()
            invariant
                k <= gone.len() <= stamps.len(),
                gv == views(gone@),
                self@ == w.giving_up(gv, k as int),
                sv.tasks.clock + stamps.len() <= u64::MAX,
                self.tasks.clock <= sv.tasks.clock + k,
                self.tasks.next_id == sv.tasks.next_id,
            decreases gone.len() - k,
        {
            proof {
                assert(gv[k as int] == gone@[k as int]@);
            }
            self.give_up(&gone[k]);
            k += 1;
        }
        let ghost u = self@;
        let mut m: usize = 0;
        proof {
            assert(gv.len() == gone.len());
            assert(bv.len() == back.len());
        }
        while m < back.len()
            invariant
                m <= back.len() <= stamps.len(),
                bv == views(back@),
                self@ == u.resuming(bv, m as int),
                sv.tasks.next_id + stamps.len() <= i32::MAX,
                self.tasks.next_id <= sv.tasks.next_id + m,
            decreases back.len() - m,
        {
            proof {
                assert(bv[m as int] == back@[m as int]@);
            }
            self.resume(&back[m]);
            m += 1;
        }
    }
}

} // verus!
