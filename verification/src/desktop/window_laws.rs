//! How the window goes on when tasks end, packages change and files are deleted.

use crate::desktop::cleanup::{
    deletable, has_failed, tally, task_row, was_deleted, was_skipped, Cleaned,
};
use crate::desktop::settings::{server_saved, startup_saved, SaveEnd};
use crate::desktop::watch::{
    gone_ids, looked_at, lost, package_gone, settled, settles, taken_away, waits_for_nothing,
};
use crate::desktop::window::{
    cleaned_at, deferred_at, deferred_elsewhere, deferring, end_phase, end_report, end_status,
    notice_of, package_changed, DeferredView, NoticeView, Outcome, WindowView,
};
use crate::fault::{refusal, FaultKind};
use crate::monitor::SeenView;
use crate::progress_laws::lemma_id_place;
use crate::select::{lemma_first_holds, lemma_kept_holds, lemma_kept_source, lemma_kept_there};
use crate::task_laws::ids_apart;
use crate::tasks::{active_in, completed_in, PackagePathView, Phase, Stamp, TaskView, TasksView};
use crate::text::{any, first_place, has, kept};
use vstd::prelude::*;

verus! {

/// An analysis that is done completes its task with its report. One that failed ends
/// it as stopped where it was stopped, else as damaged where the package is, else as
/// waiting where the package changed meanwhile, else as failed; it brings no report.
pub proof fn law_tasks_end_as_the_analysis_did(
    report: String,
    seconds: String,
    text: String,
    damaged: bool,
)
    ensures
        ({
            let o = Outcome::Done { report, seconds };
            &&& end_phase(o) == Phase::Completed
            &&& end_report(o) == Some(report@)
            &&& end_status(o) == "分析完成（耗时 "@ + seconds@ + " 秒）"@
            &&& !package_changed(o)
        }),
        ({
            let o = Outcome::Failed { cancelled: true, damaged, text };
            &&& end_phase(o) == Phase::Cancelled
            &&& end_report(o) is None
            &&& !package_changed(o)
            &&& !damaged ==> end_status(o) == text@
        }),
        ({
            let o = Outcome::Failed { cancelled: false, damaged: true, text };
            &&& end_phase(o) == Phase::Damaged
            &&& end_report(o) is None
            &&& has(text@, "发生变化"@) == false ==> end_status(o) == "压缩包损坏："@ + text@
        }),
        ({
            let o = Outcome::Failed { cancelled: false, damaged: false, text };
            &&& end_report(o) is None
            &&& has(text@, "发生变化"@) ==> end_phase(o) == Phase::Waiting && package_changed(o)
                && end_status(o) == "文件发生变化，等待稳定后重新分析"@
            &&& has(text@, "发生变化"@) == false ==> end_phase(o) == Phase::Failed
                && !package_changed(o) && end_status(o) == text@
        }),
{
}

/// The user is told of a report exactly where a task is completed with one, and of a
/// failure exactly where it failed or its package is damaged.
pub proof fn law_users_are_told_of_ends(t: TaskView, p: Seq<char>)
    ensures
        notice_of(t) == Some(NoticeView::Report(p)) <==> t.phase == Phase::Completed && t.report
            == Some(p),
        notice_of(t) == Some(
            NoticeView::Failed { id: t.id, package: t.package, error: t.status },
        ) <==> t.phase == Phase::Failed || t.phase == Phase::Damaged,
        notice_of(t) is None <==> t.phase == Phase::Waiting || t.phase == Phase::Queued || t.phase
            == Phase::Running || t.phase == Phase::Cancelling || t.phase == Phase::Cancelled || (
        t.phase == Phase::Completed && t.report is None),
{
}

/// Whether a package is being cleaned up.
pub open spec fn is_cleaned(w: WindowView, path: Seq<char>) -> bool {
    exists|i: int|
        0 <= i < w.tasks.rows.len() && (#[trigger] w.tasks.rows[i]).package.text == path
            && w.cleaning.contains(w.tasks.rows[i].id)
}

proof fn lemma_cleaned(w: WindowView, path: Seq<char>)
    ensures
        any(w.tasks.rows, cleaned_at(w.cleaning, path)) == is_cleaned(w, path),
{
    let f = cleaned_at(w.cleaning, path);
    if any(w.tasks.rows, f) {
        let i = choose|i: int| 0 <= i < w.tasks.rows.len() && f(#[trigger] w.tasks.rows[i]);
        assert(w.tasks.rows[i].package.text == path);
    }
    if is_cleaned(w, path) {
        let i = choose|i: int|
            0 <= i < w.tasks.rows.len() && (#[trigger] w.tasks.rows[i]).package.text == path
                && w.cleaning.contains(w.tasks.rows[i].id);
        assert(f(w.tasks.rows[i]));
    }
}

/// A package is put in the queue unless it is being cleaned up; nothing else of the
/// window changes.
pub proof fn law_packages_that_are_cleaned_up_are_not_queued(w: WindowView, path: PackagePathView)
    ensures
        is_cleaned(w, path.text) ==> w.queued(path) == w,
        !is_cleaned(w, path.text) ==> w.queued(path).tasks == w.tasks.enqueued(path),
        w.queued(path).cleaning == w.cleaning,
        w.queued(path).deferred == w.deferred,
        w.queued(path).directory == w.directory,
{
    lemma_cleaned(w, path.text);
}

/// Only an ended task is tried again, and only a running one tells how far it is.
pub proof fn law_tasks_are_tried_again_once_ended(w: WindowView, i: int, text: Seq<char>)
    requires
        ids_apart(w.tasks.rows),
        0 <= i < w.tasks.rows.len(),
    ensures
        ({
            let t = w.tasks.rows[i];
            &&& t.phase == Phase::Waiting || t.phase == Phase::Queued || t.phase == Phase::Running
                || t.phase == Phase::Cancelling ==> w.retried(t.id) == w
            &&& t.phase == Phase::Completed || t.phase == Phase::Failed || t.phase == Phase::Damaged
                || t.phase == Phase::Cancelled ==> w.retried(t.id) == w.queued(t.package)
            &&& t.phase != Phase::Running ==> w.progressed(t.id, text) == w
            &&& t.phase == Phase::Running ==> {
                let out = w.progressed(t.id, text);
                &&& out.tasks.rows[i].status == text
                &&& out.tasks.rows[i].phase == Phase::Running
                &&& out.tasks.rows.len() == w.tasks.rows.len()
                &&& forall|k: int|
                    0 <= k < w.tasks.rows.len() && k != i ==> #[trigger] out.tasks.rows[k]
                        == w.tasks.rows[k]
                &&& out.tasks.queue == w.tasks.queue
            }
        }),
{
    lemma_id_place(w.tasks.rows, i);
}

/// Whether a package waits for its rest since a time.
pub open spec fn waits_since(s: Seq<DeferredView>, path: Seq<char>, since: u64) -> bool {
    exists|i: int| 0 <= i < s.len() && (#[trigger] s[i]).path.text == path && s[i].since == since
}

/// A package that changed while it was analysed waits from then on, and only such a
/// one; the task of an unknown identity changes nothing.
pub proof fn law_changed_packages_wait_for_their_rest(
    w: WindowView,
    i: int,
    o: Outcome,
    source: Option<Stamp>,
    output: Option<Stamp>,
    stamp: Option<Stamp>,
    now: u64,
)
    requires
        ids_apart(w.tasks.rows),
        0 <= i < w.tasks.rows.len(),
    ensures
        ({
            let out = w.analysed(w.tasks.rows[i].id, o, source, output, stamp, now);
            let changed = o matches Outcome::Failed { cancelled: false, damaged: _, text } && has(
                text@,
                "发生变化"@,
            );
            &&& changed ==> waits_since(out.deferred, w.tasks.rows[i].package.text, now)
            &&& !changed ==> out.deferred == w.deferred
            &&& out.tasks == w.tasks.finished(w.tasks.rows[i].id, w.ending(o, source, output))
            &&& out.directory == w.directory && out.cleaning == w.cleaning
        }),
{
    lemma_id_place(w.tasks.rows, i);
    let d = DeferredView { path: w.tasks.rows[i].package, stamp, since: now };
    let s = w.deferred;
    let f = deferred_at(d.path.text);
    lemma_first_holds(s, f, 0);
    let t = deferring(s, d);
    match first_place(s, f, 0) {
        Some(k) => {
            assert(t[k] == d);
            assert(t[k].path.text == w.tasks.rows[i].package.text);
        },
        None => {
            assert(t[s.len() as int] == d);
            assert(t[s.len() as int].path.text == w.tasks.rows[i].package.text);
        },
    }
}

/// A task that is stopped is passed over by the watch as it stands, and no longer
/// waits; one that is being cleaned up cannot be stopped.
pub proof fn law_stopped_packages_count_as_known(w: WindowView, i: int, stamp: Option<Stamp>)
    requires
        ids_apart(w.tasks.rows),
        0 <= i < w.tasks.rows.len(),
    ensures
        ({
            let t = w.tasks.rows[i];
            let out = w.stopped(t.id, stamp);
            &&& w.cleaning.contains(t.id) ==> out == w
            &&& !w.cleaning.contains(t.id) ==> {
                &&& out.tasks == w.tasks.cancelled(t.id)
                &&& w.directory matches Some(d) ==> out.directory == Some(
                    d.dismissed(t.package.text, stamp),
                )
                &&& forall|k: int|
                    0 <= k < out.deferred.len() ==> (#[trigger] out.deferred[k]).path.text
                        != t.package.text
                &&& forall|d: DeferredView|
                    w.deferred.contains(d) && d.path.text != t.package.text
                        ==> #[trigger] out.deferred.contains(d)
            }
        }),
{
    lemma_id_place(w.tasks.rows, i);
    let t = w.tasks.rows[i];
    let f = deferred_elsewhere(t.package.text);
    let s = w.deferred;
    let r = kept(s, f, 0);
    lemma_kept_holds(s, f, 0);
    assert forall|k: int| 0 <= k < r.len() implies (#[trigger] r[k]).path.text != t.package.text by {
        assert(f(r[k]));
    }
    assert forall|d: DeferredView| s.contains(d) && d.path.text != t.package.text implies
        #[trigger] r.contains(d) by {
        let j = choose|j: int| 0 <= j < s.len() && s[j] == d;
        assert(f(s[j]));
        let k = lemma_kept_there(s, f, j);
        assert(r[k] == d);
    }
}

/// A package that waits begins its rest anew with every change, and has rested once it
/// did not change for ten seconds.
pub proof fn law_waiting_packages_rest_ten_seconds(d: DeferredView, stamp: Stamp, now: u64)
    ensures
        Some(stamp) != d.stamp ==> looked_at(d, Some(stamp), now).since == now && looked_at(
            d,
            Some(stamp),
            now,
        ).stamp == Some(stamp) && !settles(d, Some(stamp), now),
        Some(stamp) == d.stamp ==> looked_at(d, Some(stamp), now) == d,
        looked_at(d, None, now) == d,
        !settles(d, None, now),
        Some(stamp) == d.stamp ==> (settles(d, Some(stamp), now) <==> now - d.since >= 10
            * 1_000_000_000),
{
}

/// Those that are gone are given up and those that have rested come back; the rest
/// goes on waiting.
pub proof fn law_packages_are_given_up_or_come_back(
    s: Seq<DeferredView>,
    stamps: Seq<Option<Stamp>>,
    now: u64,
    n: int,
    p: PackagePathView,
)
    requires
        0 <= n <= s.len() == stamps.len(),
    ensures
        lost(s, stamps, n).contains(p) <==> exists|i: int|
            0 <= i < n && (#[trigger] s[i]).path == p && stamps[i] is None,
        settled(s, stamps, now, n).contains(p) <==> exists|i: int|
            0 <= i < n && (#[trigger] s[i]).path == p && settles(s[i], stamps[i], now),
    decreases n,
{
    if n > 0 {
        law_packages_are_given_up_or_come_back(s, stamps, now, n - 1, p);
        let a = lost(s, stamps, n - 1);
        let b = settled(s, stamps, now, n - 1);
        let x = s[n - 1].path;
        lemma_pushed(a, x, p);
        lemma_pushed(b, x, p);
    }
}

proof fn lemma_pushed<A>(s: Seq<A>, x: A, p: A)
    ensures
        s.push(x).contains(p) == (s.contains(p) || x == p),
{
    let t = s.push(x);
    assert(t[s.len() as int] == x);
    if s.contains(p) {
        let i = choose|i: int| 0 <= i < s.len() && s[i] == p;
        assert(t[i] == p);
    }
    if t.contains(p) {
        let i = choose|i: int| 0 <= i < t.len() && t[i] == p;
        if i < s.len() {
            assert(s[i] == p);
        }
    }
}

/// Whether a row waits for a file that is neither pending nor waits for its rest.
pub open spec fn is_stranded(
    t: TaskView,
    pending: Seq<PackagePathView>,
    deferred: Seq<DeferredView>,
) -> bool {
    &&& t.phase == Phase::Waiting
    &&& forall|i: int| 0 <= i < pending.len() ==> (#[trigger] pending[i]).text != t.package.text
    &&& forall|i: int|
        0 <= i < deferred.len() ==> (#[trigger] deferred[i]).path.text != t.package.text
}

proof fn lemma_stranded(t: TaskView, pending: Seq<PackagePathView>, deferred: Seq<DeferredView>)
    ensures
        waits_for_nothing(t, pending, deferred) == is_stranded(t, pending, deferred),
{
    let f = crate::desktop::watch::path_is(t.package.text);
    let g = deferred_at(t.package.text);
    if any(pending, f) {
        let i = choose|i: int| 0 <= i < pending.len() && f(#[trigger] pending[i]);
        assert(pending[i].text == t.package.text);
    } else {
        assert forall|i: int| 0 <= i < pending.len() implies (#[trigger] pending[i]).text
            != t.package.text by {
            assert(!f(pending[i]));
        }
    }
    if any(deferred, g) {
        let i = choose|i: int| 0 <= i < deferred.len() && g(#[trigger] deferred[i]);
        assert(deferred[i].path.text == t.package.text);
    } else {
        assert forall|i: int| 0 <= i < deferred.len() implies (#[trigger] deferred[i]).path.text
            != t.package.text by {
            assert(!g(deferred[i]));
        }
    }
}

/// The rows that wait for a file that is gone are ended, as stopped, and no others.
pub proof fn law_rows_without_a_file_end(
    rows: Seq<TaskView>,
    pending: Seq<PackagePathView>,
    deferred: Seq<DeferredView>,
    n: int,
    id: i32,
)
    requires
        0 <= n <= rows.len(),
    ensures
        gone_ids(rows, pending, deferred, n).contains(id) <==> exists|i: int|
            0 <= i < n && (#[trigger] rows[i]).id == id && is_stranded(rows[i], pending, deferred),
        taken_away().phase == Phase::Cancelled && taken_away().report is None,
        package_gone().phase == Phase::Failed && package_gone().report is None,
    decreases n,
{
    if n > 0 {
        law_rows_without_a_file_end(rows, pending, deferred, n - 1, id);
        lemma_stranded(rows[n - 1], pending, deferred);
        lemma_pushed(gone_ids(rows, pending, deferred, n - 1), rows[n - 1].id, id);
    }
}

/// A change counts only where it is told of a file of the watched directory itself.
pub proof fn law_only_the_watched_directory_counts(
    w: WindowView,
    path: PackagePathView,
    stamp: Option<Stamp>,
    now: u64,
)
    ensures
        path.parent != Some(w.settings.directory) || w.directory is None ==> w.told(
            path,
            stamp,
            now,
        ) == w,
        path.parent == Some(w.settings.directory) ==> (w.directory matches Some(d) ==> w.told(
            path,
            stamp,
            now,
        ).directory == Some(d.told(path, stamp, now))),
        w.told(path, stamp, now).tasks == w.tasks,
{
}

/// While nothing is watched a look changes nothing and reports nothing; a directory
/// that cannot be read is said to be so and keeps its state, and once it can be read
/// again that is no longer said.
pub proof fn law_unreadable_directories_are_told(w: WindowView, current: Seq<SeenView>, now: u64)
    ensures
        !w.settings.watching ==> w.polled(Some(current), now) == w && w.polled(None, now) == w
            && w.ready(Some(current), now).len() == 0,
        w.settings.watching ==> {
            &&& w.polled(None, now).status == "监控目录不可访问，等待目录恢复"@
            &&& w.polled(None, now).directory == w.directory
            &&& w.ready(None, now).len() == 0
            &&& w.directory matches Some(d) ==> w.polled(Some(current), now).directory == Some(
                d.polled(current, now),
            ) && w.ready(Some(current), now) == d.ready(current, now)
            &&& w.status == "监控目录不可访问，等待目录恢复"@ ==> w.polled(
                Some(current),
                now,
            ).status.len() == 0
            &&& w.status != "监控目录不可访问，等待目录恢复"@ ==> w.polled(
                Some(current),
                now,
            ).status == w.status
        },
        w.polled(Some(current), now).tasks == w.tasks,
{
}

/// A directory can be watched exactly where one is named and it is there; one that is
/// not there may stay named as long as it is not watched.
pub proof fn law_watched_directories_are_there(
    w: WindowView,
    s: crate::desktop::settings::SettingsView,
    is_directory: bool,
)
    ensures
        s.watching ==> (w.watch_fault(s, is_directory) is None <==> s.directory.len() > 0
            && is_directory),
        !s.watching ==> (w.watch_fault(s, is_directory) is None <==> s.directory.len() == 0
            || is_directory || s.directory == w.settings.directory),
        s.watching && s.directory.len() == 0 ==> w.watch_fault(s, is_directory) == Some(
            refusal(FaultKind::DirectoryMissing, Seq::empty()),
        ),
{
}

/// A clean-up of a directory takes its completed tasks and, while anything is active
/// there, none; one of a single task takes that task where it is completed.
pub proof fn law_completed_tasks_are_cleaned_up(w: WindowView, t: TaskView, i: int)
    requires
        ids_apart(w.tasks.rows),
        0 <= i < w.tasks.rows.len(),
    ensures
        ({
            let dir = w.settings.directory;
            let busy = exists|k: int|
                0 <= k < w.tasks.rows.len() && (#[trigger] w.tasks.rows[k]).package.parent == Some(
                    dir,
                ) && w.tasks.rows[k].phase.is_active();
            &&& busy ==> w.cleanup_tasks(None).len() == 0
            &&& !busy ==> (w.cleanup_tasks(None).contains(t) <==> w.tasks.rows.contains(t)
                && t.package.parent == Some(dir) && t.phase == Phase::Completed)
        }),
        w.tasks.rows[i].phase == Phase::Completed ==> w.cleanup_tasks(Some(w.tasks.rows[i].id))
            == seq![w.tasks.rows[i]],
        w.tasks.rows[i].phase != Phase::Completed ==> w.cleanup_tasks(
            Some(w.tasks.rows[i].id),
        ).len() == 0,
{
    lemma_id_place(w.tasks.rows, i);
    let dir = w.settings.directory;
    let rows = w.tasks.rows;
    let f = active_in(dir);
    let g = completed_in(dir);
    let s = kept(rows, g, 0);
    if any(rows, f) {
        let k = choose|k: int| 0 <= k < rows.len() && f(#[trigger] rows[k]);
        assert(rows[k].package.parent == Some(dir));
    }
    if exists|k: int|
        0 <= k < rows.len() && (#[trigger] rows[k]).package.parent == Some(dir)
            && rows[k].phase.is_active() {
        let k = choose|k: int|
            0 <= k < rows.len() && (#[trigger] rows[k]).package.parent == Some(dir)
                && rows[k].phase.is_active();
        assert(f(rows[k]));
    }
    lemma_kept_holds(rows, g, 0);
    if s.contains(t) {
        let k = choose|k: int| 0 <= k < s.len() && s[k] == t;
        let j = lemma_kept_source(rows, g, k);
        assert(g(s[k]));
        assert(rows[j] == t);
    }
    if rows.contains(t) && g(t) {
        let j = choose|j: int| 0 <= j < rows.len() && rows[j] == t;
        let k = lemma_kept_there(rows, g, j);
        assert(s[k] == t);
    }
}

/// A task that could not be checked is not deleted, nor is one that is no longer
/// completed as it was.
pub proof fn law_only_checked_tasks_are_deleted(
    tasks: TasksView,
    items: Seq<TaskView>,
    checks: Seq<Option<Seq<char>>>,
    n: int,
    k: int,
)
    requires
        0 <= n <= items.len() == checks.len(),
        0 <= k < deletable(tasks, items, checks, n).len(),
    ensures
        exists|i: int|
            0 <= i < n && #[trigger] items[i] == deletable(tasks, items, checks, n)[k] && checks[i]
                is None,
    decreases n,
{
    if n > 0 {
        let was = deletable(tasks, items, checks, n - 1);
        if k < was.len() {
            law_only_checked_tasks_are_deleted(tasks, items, checks, n - 1, k);
        } else {
            assert(items[n - 1] == deletable(tasks, items, checks, n)[k]);
        }
    }
}

/// A clean-up does not begin while a task of the directory is active.
pub proof fn law_clean_ups_wait_for_active_tasks(
    w: WindowView,
    dir: Seq<char>,
    items: Seq<TaskView>,
    checks: Seq<Option<Seq<char>>>,
    i: int,
)
    requires
        0 <= i < w.tasks.rows.len(),
        w.tasks.rows[i].package.parent == Some(dir),
        w.tasks.rows[i].phase == Phase::Waiting || w.tasks.rows[i].phase == Phase::Queued
            || w.tasks.rows[i].phase == Phase::Running || w.tasks.rows[i].phase
            == Phase::Cancelling,
    ensures
        w.cleaning_up(dir, items, checks).tasks == w.tasks,
        w.cleaning_up(dir, items, checks).cleaning == w.cleaning,
        w.cleaning_up(dir, items, checks).cleanup_directory == w.cleanup_directory,
        w.cleaning_up(dir, items, checks).status == "目录中有活动任务，未执行清理"@,
{
    let f = active_in(dir);
    assert(f(w.tasks.rows[i]));
}

/// A task that was deleted is gone from the list; one that was not stays and says
/// whether it was passed over or failed.
pub proof fn law_deleted_tasks_leave_the_list(t: TasksView, c: Cleaned, i: int)
    requires
        ids_apart(t.rows),
        0 <= i < t.rows.len(),
        t.rows[i].id == c.id,
    ensures
        c.error is None ==> forall|k: int|
            0 <= k < t.cleaned(c).rows.len() ==> (#[trigger] t.cleaned(c).rows[k]).id != c.id,
        c.error is None ==> forall|x: TaskView|
            t.rows.contains(x) && x.id != c.id ==> #[trigger] t.cleaned(c).rows.contains(x),
        c.error matches Some(e) ==> {
            let out = t.cleaned(c);
            &&& out.rows.len() == t.rows.len()
            &&& c.skipped ==> out.rows[i].status == "清理已跳过："@ + e@
            &&& !c.skipped ==> out.rows[i].status == "清理未完成："@ + e@ && out.rows[i].output_stamp
                == c.output
            &&& out.rows[i].phase == t.rows[i].phase
            &&& forall|k: int|
                0 <= k < t.rows.len() && k != i ==> #[trigger] out.rows[k] == t.rows[k]
        },
        t.cleaned(c).queue == t.queue,
{
    lemma_id_place(t.rows, i);
    let f = crate::desktop::cleanup::other_task(c.id);
    let r = kept(t.rows, f, 0);
    lemma_kept_holds(t.rows, f, 0);
    assert forall|k: int| 0 <= k < r.len() implies (#[trigger] r[k]).id != c.id by {
        assert(f(r[k]));
    }
    assert forall|x: TaskView| t.rows.contains(x) && x.id != c.id implies #[trigger] r.contains(
        x,
    ) by {
        let j = choose|j: int| 0 <= j < t.rows.len() && t.rows[j] == x;
        assert(f(t.rows[j]));
        let k = lemma_kept_there(t.rows, f, j);
        assert(r[k] == x);
    }
}

/// What was deleted, passed over and failed adds up to all results.
pub proof fn law_results_add_up(results: Seq<Cleaned>, n: int)
    requires
        0 <= n <= results.len(),
    ensures
        tally(results, was_deleted(), n) + tally(results, was_skipped(), n) + tally(
            results,
            has_failed(),
            n,
        ) == n,
    decreases n,
{
    if n > 0 {
        law_results_add_up(results, n - 1);
    }
}

/// A row tells its task: it can be stopped until it is stopped or ended.
pub proof fn law_rows_tell_their_task(t: TaskView, cleaning: Seq<i32>)
    ensures
        ({
            let r = task_row(t, cleaning);
            &&& r.id == t.id && r.status == t.status && r.package == t.package.name
            &&& r.cancellable <==> t.phase == Phase::Waiting || t.phase == Phase::Queued || t.phase
                == Phase::Running
            &&& r.active <==> r.cancellable || t.phase == Phase::Cancelling
            &&& r.completed <==> t.phase == Phase::Completed
            &&& r.damaged <==> t.phase == Phase::Damaged
            &&& r.cleaning <==> cleaning.contains(t.id)
        }),
{
}

/// A damaged package whose deletion failed stays in the list and says why; one that
/// was deleted leaves it and is passed over by the watch.
pub proof fn law_damaged_packages_leave_once_deleted(
    w: WindowView,
    i: int,
    path: Seq<char>,
    e: Seq<char>,
    stamp: Option<Stamp>,
)
    requires
        ids_apart(w.tasks.rows),
        0 <= i < w.tasks.rows.len(),
    ensures
        ({
            let id = w.tasks.rows[i].id;
            let kept_on = w.damaged_deleted(id, path, Some(e), stamp);
            let gone = w.damaged_deleted(id, path, None, stamp);
            &&& kept_on.tasks.rows.len() == w.tasks.rows.len()
            &&& kept_on.tasks.rows[i].status == "删除失败："@ + e
            &&& kept_on.directory == w.directory
            &&& gone.tasks == w.tasks.without(id)
            &&& w.directory matches Some(d) ==> gone.directory == Some(d.dismissed(path, stamp))
            &&& w.still_damaged(id, w.tasks.rows[i].finished) <==> w.tasks.rows[i].phase
                == Phase::Damaged
        }),
{
    lemma_id_place(w.tasks.rows, i);
}

/// The settings of a server are saved exactly where the kept password could be looked
/// up, the new one kept and the settings written.
pub proof fn law_servers_are_saved_step_by_step(
    looked: Result<Option<String>, String>,
    kept_new: Result<(), String>,
    written: Result<(), String>,
    restored: Result<(), String>,
)
    ensures
        server_saved(looked, kept_new, written, restored) is Saved <==> looked is Ok && kept_new is Ok
            && written is Ok,
        startup_saved(looked, kept_new, written, restored) is Saved <==> looked is Ok
            && kept_new is Ok && written is Ok,
        looked is Ok && kept_new is Ok && written is Err && restored is Err ==> {
            &&& server_saved(looked, kept_new, written, restored) matches SaveEnd::Refused(f)
                && f.kind == FaultKind::ConfigNotRestored
            &&& startup_saved(looked, kept_new, written, restored) matches SaveEnd::Refused(f)
                && f.kind == FaultKind::SettingsNotRestored
        },
        looked is Ok && kept_new is Ok && written is Err && restored is Ok ==> {
            &&& server_saved(looked, kept_new, written, restored) matches SaveEnd::Refused(f)
                && f.kind == FaultKind::ConfigSave
            &&& startup_saved(looked, kept_new, written, restored) matches SaveEnd::Refused(f)
                && f.kind == FaultKind::SettingsSave
        },
        looked is Ok && kept_new is Err && restored is Err ==> (startup_saved(
            looked,
            kept_new,
            written,
            restored,
        ) matches SaveEnd::Refused(f) && f.kind == FaultKind::StartupNotRestored),
{
}

} // verus!
