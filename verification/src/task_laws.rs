//! What every operation on the tasks of a session keeps.

use crate::order::sorted;
use crate::order_laws::{law_sorting_keeps_elements, law_sorting_puts_in_order, orders};
use crate::select::{
    lemma_first_holds, lemma_first_of_any, lemma_kept_order, lemma_kept_source, lemma_kept_there,
};
use crate::tasks::{
    by_ending, dropped, endings, id_not_in, other_id, package_path, with_id, with_path, Ending,
    PackagePathView, Phase, TaskView, TasksView, ENDED_LIMIT,
};
use crate::text::{first_place, kept};
use vstd::prelude::*;

verus! {

/// Whether no two rows have the same identity.
pub open spec fn ids_apart(rows: Seq<TaskView>) -> bool {
    forall|i: int, j: int| 0 <= i < j < rows.len() ==> rows[i].id != rows[j].id
}

/// Whether no two rows are of the same package.
pub open spec fn paths_apart(rows: Seq<TaskView>) -> bool {
    forall|i: int, j: int|
        0 <= i < j < rows.len() ==> rows[i].package.text != rows[j].package.text
}

pub open spec fn in_progress(p: Phase) -> bool {
    p == Phase::Running || p == Phase::Cancelling
}

/// Whether a queued row has the identity.
pub open spec fn is_queued(rows: Seq<TaskView>, id: i32) -> bool {
    exists|i: int|
        0 <= i < rows.len() && (#[trigger] rows[i]).id == id && rows[i].phase == Phase::Queued
}

/// Whether a row in progress has the identity.
pub open spec fn is_in_progress(rows: Seq<TaskView>, id: i32) -> bool {
    exists|i: int|
        0 <= i < rows.len() && (#[trigger] rows[i]).id == id && in_progress(rows[i].phase)
}

/// Whether identities up to a bound were given out.
pub open spec fn ids_below(rows: Seq<TaskView>, next_id: i32) -> bool {
    forall|i: int| 0 <= i < rows.len() ==> (#[trigger] rows[i]).id <= next_id
}

/// Whether a queue names nothing twice.
pub open spec fn queue_apart(queue: Seq<i32>) -> bool {
    forall|j: int, k: int| 0 <= j < k < queue.len() ==> queue[j] != queue[k]
}

/// Whether a queue names queued rows.
pub open spec fn queue_names_rows(rows: Seq<TaskView>, queue: Seq<i32>) -> bool {
    forall|k: int| 0 <= k < queue.len() ==> is_queued(rows, #[trigger] queue[k])
}

/// Whether a queue names all queued rows.
pub open spec fn rows_are_named(rows: Seq<TaskView>, queue: Seq<i32>) -> bool {
    forall|i: int|
        0 <= i < rows.len() && (#[trigger] rows[i]).phase == Phase::Queued ==> queue.contains(
            rows[i].id,
        )
}

/// Whether only the running task is in progress.
pub open spec fn only_running(rows: Seq<TaskView>, running: Option<i32>) -> bool {
    forall|i: int|
        0 <= i < rows.len() && in_progress((#[trigger] rows[i]).phase) ==> running == Some(
            rows[i].id,
        )
}

impl TasksView {
    /// What always holds: rows have identities and packages of their own, the
    /// queue names each queued row once and no other, and the running task is
    /// the one row in progress.
    pub open spec fn wf(self) -> bool {
        &&& ids_apart(self.rows)
        &&& paths_apart(self.rows)
        &&& ids_below(self.rows, self.next_id)
        &&& queue_apart(self.queue)
        &&& queue_names_rows(self.rows, self.queue)
        &&& rows_are_named(self.rows, self.queue)
        &&& only_running(self.rows, self.running)
        &&& self.running matches Some(id) ==> is_in_progress(self.rows, id)
    }
}

proof fn lemma_place(t: TasksView, i: int)
    requires
        ids_apart(t.rows),
        0 <= i < t.rows.len(),
    ensures
        t.place(t.rows[i].id) == Some(i),
{
    let f = with_id(t.rows[i].id);
    lemma_first_of_any(t.rows, f, 0, i);
    lemma_first_holds(t.rows, f, 0);
    let k = first_place(t.rows, f, 0)->0;
    if k < i {
        assert(t.rows[k].id == t.rows[i].id);
    }
}

/// A session without tasks is in order.
pub proof fn law_a_new_session_is_in_order()
    ensures
        crate::tasks::no_tasks().wf(),
{
}

/// Changing a row in place keeps what holds, where the change fits the queue and
/// the running task.
proof fn lemma_row_changed(t: TasksView, i: int, new: TaskView, queue: Seq<i32>, running: Option<i32>)
    requires
        t.wf(),
        0 <= i < t.rows.len(),
        new.id == t.rows[i].id,
        new.package == t.rows[i].package,
        queue_apart(queue),
        forall|x: i32|
            x != new.id ==> (#[trigger] queue.contains(x) <==> t.queue.contains(x)),
        queue.contains(new.id) <==> new.phase == Phase::Queued,
        in_progress(new.phase) ==> running == Some(new.id),
        running == t.running || running == Some(new.id) || running is None,
        running == Some(new.id) ==> in_progress(new.phase) && (t.running is None || t.running
            == Some(new.id)),
        running is None ==> t.running is None || t.running == Some(new.id),
        t.running == Some(new.id) && running != Some(new.id) ==> running is None,
    ensures
        (TasksView { rows: t.rows.update(i, new), queue, running, ..t }).wf(),
{
    let out = TasksView { rows: t.rows.update(i, new), queue, running, ..t };
    assert forall|k: int| 0 <= k < out.queue.len() implies is_queued(
        out.rows,
        #[trigger] out.queue[k],
    ) by {
        let x = queue[k];
        assert(queue.contains(x));
        if x == new.id {
            assert(out.rows[i].id == x);
        } else {
            assert(t.queue.contains(x));
            let m = choose|m: int| 0 <= m < t.queue.len() && t.queue[m] == x;
            let j = choose|j: int|
                0 <= j < t.rows.len() && (#[trigger] t.rows[j]).id == t.queue[m]
                    && t.rows[j].phase == Phase::Queued;
            assert(j != i);
            assert(out.rows[j] == t.rows[j]);
        }
    }
    assert forall|j: int|
        0 <= j < out.rows.len() && (#[trigger] out.rows[j]).phase == Phase::Queued implies
        out.queue.contains(out.rows[j].id) by {
        if j != i {
            assert(out.rows[j] == t.rows[j]);
            assert(t.queue.contains(t.rows[j].id));
            if i < j {
                assert(t.rows[i].id != t.rows[j].id);
            } else {
                assert(t.rows[j].id != t.rows[i].id);
            }
        }
    }
    assert forall|j: int|
        0 <= j < out.rows.len() && in_progress((#[trigger] out.rows[j]).phase) implies running
        == Some(out.rows[j].id) by {
        if j != i {
            assert(out.rows[j] == t.rows[j]);
            assert(t.running == Some(t.rows[j].id));
            if i < j {
                assert(t.rows[i].id != t.rows[j].id);
            } else {
                assert(t.rows[j].id != t.rows[i].id);
            }
        }
    }
    if running is Some {
        if running == Some(new.id) {
            assert(out.rows[i].id == new.id);
        } else {
            let j = choose|j: int|
                0 <= j < t.rows.len() && (#[trigger] t.rows[j]).id == running->0 && in_progress(
                    t.rows[j].phase,
                );
            assert(out.rows[j] == t.rows[j]);
        }
    }
    assert forall|a: int, b: int| 0 <= a < b < out.rows.len() implies out.rows[a].id
        != out.rows[b].id by {
        assert(t.rows[a].id != t.rows[b].id);
    }
    assert forall|a: int, b: int| 0 <= a < b < out.rows.len() implies out.rows[a].package.text
        != out.rows[b].package.text by {
        assert(t.rows[a].package.text != t.rows[b].package.text);
    }
    assert forall|j: int| 0 <= j < out.rows.len() implies (#[trigger] out.rows[j]).id
        <= out.next_id by {
        assert(t.rows[j].id <= t.next_id);
    }
}

proof fn lemma_not_queued(t: TasksView, i: int)
    requires
        t.wf(),
        0 <= i < t.rows.len(),
        t.rows[i].phase != Phase::Queued,
    ensures
        !t.queue.contains(t.rows[i].id),
{
    if t.queue.contains(t.rows[i].id) {
        let k = choose|k: int| 0 <= k < t.queue.len() && t.queue[k] == t.rows[i].id;
        let j = choose|j: int|
            0 <= j < t.rows.len() && (#[trigger] t.rows[j]).id == t.queue[k] && t.rows[j].phase
                == Phase::Queued;
        lemma_place(t, i);
        lemma_place(t, j);
    }
}

proof fn lemma_not_running(t: TasksView, i: int)
    requires
        t.wf(),
        0 <= i < t.rows.len(),
        !in_progress(t.rows[i].phase),
    ensures
        t.running != Some(t.rows[i].id),
{
    if t.running == Some(t.rows[i].id) {
        let j = choose|j: int|
            0 <= j < t.rows.len() && (#[trigger] t.rows[j]).id == t.rows[i].id && in_progress(
                t.rows[j].phase,
            );
        lemma_place(t, i);
        lemma_place(t, j);
    }
}

/// A package that is registered gets one row, and everything stays in order: at
/// once where it neither is queued nor in progress, else with its identity at the
/// end of the queue.
pub proof fn law_registering_keeps_order(t: TasksView, path: PackagePathView, phase: Phase)
    requires
        t.wf(),
        t.next_id < i32::MAX,
        !in_progress(phase),
    ensures
        phase != Phase::Queued ==> t.registered(path, phase).wf(),
        phase == Phase::Queued && (t.placed(path) is None || !t.rows[t.placed(
            path,
        )->0].phase.is_active()) ==> (TasksView {
            queue: t.queue.push(t.registered_id(path)),
            ..t.registered(path, phase)
        }).wf(),
        phase == Phase::Queued && t.placed(path) is Some && t.rows[t.placed(
            path,
        )->0].phase.is_active() ==> t.registered(path, phase) == t,
{
    let f = with_path(path.text);
    lemma_first_holds(t.rows, f, 0);
    match first_place(t.rows, f, 0) {
        Some(i) => {
            if !t.rows[i].phase.is_active() {
                lemma_not_queued(t, i);
                lemma_not_running(t, i);
                let new = TaskView {
                    phase,
                    status: crate::tasks::fresh_status(phase),
                    ..t.rows[i]
                };
                if phase == Phase::Queued {
                    let queue = t.queue.push(new.id);
                    lemma_queue_with(t.queue, new.id);
                    lemma_row_changed(t, i, new, queue, t.running);
                } else {
                    lemma_row_changed(t, i, new, t.queue, t.running);
                }
            }
        },
        None => {
            if phase == Phase::Queued {
                lemma_new_row(t, path, phase, t.queue.push((t.next_id + 1) as i32));
            } else {
                lemma_new_row(t, path, phase, t.queue);
            }
        },
    }
}

proof fn lemma_queue_with(queue: Seq<i32>, id: i32)
    requires
        queue_apart(queue),
        !queue.contains(id),
    ensures
        queue_apart(queue.push(id)),
        queue.push(id).contains(id),
        forall|x: i32| x != id ==> (#[trigger] queue.push(id).contains(x) <==> queue.contains(x)),
{
    let q = queue.push(id);
    assert(q[queue.len() as int] == id);
    assert forall|a: int, b: int| 0 <= a < b < q.len() implies q[a] != q[b] by {
        if b == queue.len() {
            assert(queue.contains(queue[a]));
        }
    }
    assert forall|x: i32| x != id implies (#[trigger] q.contains(x) <==> queue.contains(x)) by {
        if queue.contains(x) {
            let k = choose|k: int| 0 <= k < queue.len() && queue[k] == x;
            assert(q[k] == x);
        }
        if q.contains(x) {
            let k = choose|k: int| 0 <= k < q.len() && q[k] == x;
            assert(queue[k] == x);
        }
    }
}

impl TasksView {
    /// The place of the row of a package.
    pub open spec fn placed(self, path: PackagePathView) -> Option<int> {
        first_place(self.rows, with_path(path.text), 0)
    }
}

/// A new row in front, with a fresh identity.
proof fn lemma_new_row(t: TasksView, path: PackagePathView, phase: Phase, queue: Seq<i32>)
    requires
        t.wf(),
        t.next_id < i32::MAX,
        first_place(t.rows, with_path(path.text), 0) is None,
        !in_progress(phase),
        phase != Phase::Queued && queue == t.queue || phase == Phase::Queued && queue
            == t.queue.push((t.next_id + 1) as i32),
    ensures
        (TasksView { queue, ..t.registered(path, phase) }).wf(),
        !t.queue.contains((t.next_id + 1) as i32),
{
    let out = TasksView { queue, ..t.registered(path, phase) };
    let id = (t.next_id + 1) as i32;
    let f = with_path(path.text);
    lemma_first_holds(t.rows, f, 0);
    assert forall|j: int| 0 <= j < t.rows.len() implies out.rows[j + 1] == #[trigger] t.rows[j]
        && t.rows[j].id < id && t.rows[j].package.text != path.text by {
        assert(!f(t.rows[j]));
    }
    if t.queue.contains(id) {
        let k = choose|k: int| 0 <= k < t.queue.len() && t.queue[k] == id;
        let j = choose|j: int|
            0 <= j < t.rows.len() && (#[trigger] t.rows[j]).id == t.queue[k] && t.rows[j].phase
                == Phase::Queued;
        assert(t.rows[j].id < id);
    }
    assert(out.rows[0].id == id);
    assert forall|a: int, b: int| 0 <= a < b < out.rows.len() implies out.rows[a].id
        != out.rows[b].id && out.rows[a].package.text != out.rows[b].package.text by {
        assert(out.rows[b] == t.rows[b - 1]);
        if a > 0 {
            assert(out.rows[a] == t.rows[a - 1]);
        }
    }
    assert forall|j: int| 0 <= j < out.rows.len() implies (#[trigger] out.rows[j]).id
        <= out.next_id by {
        if j > 0 {
            assert(out.rows[j] == t.rows[j - 1]);
        }
    }
    assert forall|a: int, b: int| 0 <= a < b < out.queue.len() implies out.queue[a]
        != out.queue[b] by {
        if b == t.queue.len() {
            assert(t.queue.contains(t.queue[a]));
        }
    }
    assert forall|k: int| 0 <= k < out.queue.len() implies is_queued(
        out.rows,
        #[trigger] out.queue[k],
    ) by {
        if k < t.queue.len() {
            assert(out.queue[k] == t.queue[k]);
            let j = choose|j: int|
                0 <= j < t.rows.len() && (#[trigger] t.rows[j]).id == t.queue[k]
                    && t.rows[j].phase == Phase::Queued;
            assert(out.rows[j + 1] == t.rows[j]);
        } else {
            assert(out.rows[0].id == out.queue[k]);
        }
    }
    assert forall|j: int|
        0 <= j < out.rows.len() && (#[trigger] out.rows[j]).phase == Phase::Queued implies
        out.queue.contains(out.rows[j].id) by {
        if j > 0 {
            assert(out.rows[j] == t.rows[j - 1]);
            let m = choose|m: int| 0 <= m < t.queue.len() && t.queue[m] == t.rows[j - 1].id;
            assert(out.queue[m] == out.rows[j].id);
        } else {
            assert(out.queue[t.queue.len() as int] == id);
        }
    }
    assert forall|j: int|
        0 <= j < out.rows.len() && in_progress((#[trigger] out.rows[j]).phase) implies out.running
        == Some(out.rows[j].id) by {
        assert(out.rows[j] == t.rows[j - 1]);
    }
    if out.running is Some {
        let j = choose|j: int|
            0 <= j < t.rows.len() && (#[trigger] t.rows[j]).id == out.running->0 && in_progress(
                t.rows[j].phase,
            );
        assert(out.rows[j + 1] == t.rows[j]);
    }
}

/// Putting a package in the queue keeps everything in order: it is there once,
/// however often it is put there.
pub proof fn law_queueing_keeps_order(t: TasksView, path: PackagePathView)
    requires
        t.wf(),
        t.next_id < i32::MAX,
    ensures
        t.enqueued(path).wf(),
{
    if package_path(path) {
        let f = with_path(path.text);
        lemma_first_holds(t.rows, f, 0);
        let r = t.registered(path, Phase::Queued);
        let id = t.registered_id(path);
        match first_place(t.rows, f, 0) {
            Some(i) => {
                let new = TaskView { phase: Phase::Queued, status: "排队中"@, ..t.rows[i] };
                assert(r.rows[i].id == id);
                assert(ids_apart(r.rows)) by {
                    assert forall|a: int, b: int| 0 <= a < b < r.rows.len() implies r.rows[a].id
                        != r.rows[b].id by {
                        assert(t.rows[a].id != t.rows[b].id);
                    }
                }
                lemma_place(r, i);
                if in_progress(t.rows[i].phase) {
                    assert(t.enqueued(path) == t);
                } else {
                    lemma_not_running(t, i);
                    let queue = if t.queue.contains(id) {
                        t.queue
                    } else {
                        t.queue.push(id)
                    };
                    assert forall|x: i32| x != id implies (#[trigger] queue.contains(x)
                        <==> t.queue.contains(x)) by {
                        if t.queue.contains(x) {
                            let k = choose|k: int| 0 <= k < t.queue.len() && t.queue[k] == x;
                            assert(queue[k] == x);
                        }
                        if queue.contains(x) {
                            let k = choose|k: int| 0 <= k < queue.len() && queue[k] == x;
                            assert(t.queue[k] == x);
                        }
                    }
                    assert(queue.contains(id)) by {
                        if !t.queue.contains(id) {
                            assert(queue[t.queue.len() as int] == id);
                        }
                    }
                    assert forall|a: int, b: int| 0 <= a < b < queue.len() implies queue[a]
                        != queue[b] by {
                        if b == t.queue.len() {
                            assert(t.queue.contains(t.queue[a]));
                        }
                    }
                    lemma_row_changed(t, i, new, queue, t.running);
                    assert(t.enqueued(path).rows =~= t.rows.update(i, new));
                    assert(t.enqueued(path) =~= (TasksView {
                        rows: t.rows.update(i, new),
                        queue,
                        ..t
                    }));
                }
            },
            None => {
                let queue = t.queue.push(id);
                lemma_new_row(t, path, Phase::Queued, queue);
                assert(r.rows[0].id == id);
                let g = with_id(id);
                assert(g(r.rows[0]));
                assert(r.place(id) == Some(0int));
                assert(t.enqueued(path).rows =~= r.rows);
                assert(t.enqueued(path) =~= (TasksView { queue, ..r }));
            },
        }
    }
}

/// Starting a task keeps everything in order: it leaves the queue and is the one
/// that runs.
pub proof fn law_starting_keeps_order(t: TasksView, paused: Option<Seq<char>>)
    requires
        t.wf(),
        t.next_place(paused) is Some,
    ensures
        t.started(t.next_place(paused)->0).wf(),
        t.running is None,
{
    let f = t.may_start(paused);
    lemma_first_holds(t.queue, f, 0);
    let k = t.next_place(paused)->0;
    let id = t.queue[k];
    let i = choose|i: int|
        0 <= i < t.rows.len() && (#[trigger] t.rows[i]).id == t.queue[k] && t.rows[i].phase
            == Phase::Queued;
    lemma_place(t, i);
    let queue = t.queue.remove(k);
    assert forall|x: i32| x != id implies (#[trigger] queue.contains(x) <==> t.queue.contains(
        x,
    )) by {
        if t.queue.contains(x) {
            let m = choose|m: int| 0 <= m < t.queue.len() && t.queue[m] == x;
            if m < k {
                assert(queue[m] == x);
            } else {
                assert(queue[m - 1] == x);
            }
        }
        if queue.contains(x) {
            let m = choose|m: int| 0 <= m < queue.len() && queue[m] == x;
            if m < k {
                assert(t.queue[m] == x);
            } else {
                assert(t.queue[m + 1] == x);
            }
        }
    }
    assert(!queue.contains(id)) by {
        if queue.contains(id) {
            let m = choose|m: int| 0 <= m < queue.len() && queue[m] == id;
            if m < k {
                assert(t.queue[m] == id);
            } else {
                assert(t.queue[m + 1] == id);
            }
        }
    }
    assert forall|a: int, b: int| 0 <= a < b < queue.len() implies queue[a] != queue[b] by {
        let x = if a < k {
            a
        } else {
            a + 1
        };
        let y = if b < k {
            b
        } else {
            b + 1
        };
        assert(queue[a] == t.queue[x] && queue[b] == t.queue[y]);
    }
    let new = TaskView { phase: Phase::Running, status: "准备解压诊断包…"@, ..t.rows[i] };
    lemma_row_changed(t, i, new, queue, Some(id));
    assert(t.started(k) =~= (TasksView {
        rows: t.rows.update(i, new),
        queue,
        running: Some(id),
        ..t
    }));
}

proof fn lemma_endings(rows: Seq<TaskView>, n: int)
    requires
        0 <= n <= rows.len(),
    ensures
        forall|p: (u64, i32)| #[trigger]
            endings(rows, n).contains(p) ==> exists|i: int|
                0 <= i < n && !(#[trigger] rows[i]).phase.is_active() && rows[i].id == p.1
                    && rows[i].finished == p.0,
        forall|i: int|
            0 <= i < n && !(#[trigger] rows[i]).phase.is_active() ==> endings(rows, n).contains(
                (rows[i].finished, rows[i].id),
            ),
    decreases n,
{
    if n > 0 {
        lemma_endings(rows, n - 1);
        let e = endings(rows, n - 1);
        let out = endings(rows, n);
        assert forall|p: (u64, i32)| #[trigger] out.contains(p) implies exists|i: int|
            0 <= i < n && !(#[trigger] rows[i]).phase.is_active() && rows[i].id == p.1
                && rows[i].finished == p.0 by {
            let k = choose|k: int| 0 <= k < out.len() && out[k] == p;
            if k < e.len() {
                assert(e[k] == p);
                assert(e.contains(p));
            } else {
                assert(!rows[n - 1].phase.is_active());
            }
        }
        assert forall|i: int| 0 <= i < n && !(#[trigger] rows[i]).phase.is_active() implies
            out.contains((rows[i].finished, rows[i].id)) by {
            if i < n - 1 {
                let k = choose|k: int|
                    0 <= k < e.len() && e[k] == (rows[i].finished, rows[i].id);
                assert(out[k] == (rows[i].finished, rows[i].id));
            } else {
                assert(out[e.len() as int] == (rows[i].finished, rows[i].id));
            }
        }
    }
}

/// What is dropped has ended.
pub proof fn law_only_ended_tasks_are_dropped(rows: Seq<TaskView>, i: int)
    requires
        ids_apart(rows),
        0 <= i < rows.len(),
        dropped(rows).contains(rows[i].id),
    ensures
        !rows[i].phase.is_active(),
{
    broadcast use vstd::seq_lib::group_to_multiset_ensures;

    let e = endings(rows, rows.len() as int);
    let s = sorted(e, by_ending());
    law_sorting_keeps_elements(e, by_ending());
    let d = dropped(rows);
    let k = choose|k: int| 0 <= k < d.len() && d[k] == rows[i].id;
    let p = s[ENDED_LIMIT + k];
    assert(s.contains(p));
    assert(s.to_multiset().count(p) > 0);
    assert(e.contains(p));
    lemma_endings(rows, rows.len() as int);
    let j = choose|j: int|
        0 <= j < rows.len() && !(#[trigger] rows[j]).phase.is_active() && rows[j].id == p.1
            && rows[j].finished == p.0;
    if j < i {
        assert(rows[j].id != rows[i].id);
    } else if i < j {
        assert(rows[i].id != rows[j].id);
    }
}

/// What is left after dropping old tasks.
pub open spec fn left(rows: Seq<TaskView>) -> Seq<TaskView> {
    kept(rows, id_not_in(dropped(rows)), 0)
}

/// A row that is left was there.
proof fn lemma_left_source(rows: Seq<TaskView>, k: int) -> (i: int)
    requires
        0 <= k < left(rows).len(),
    ensures
        0 <= i < rows.len(),
        rows[i] == left(rows)[k],
        !dropped(rows).contains(rows[i].id),
{
    lemma_kept_source(rows, id_not_in(dropped(rows)), k)
}

/// A row that has not ended is left.
proof fn lemma_active_left(rows: Seq<TaskView>, i: int) -> (k: int)
    requires
        ids_apart(rows),
        0 <= i < rows.len(),
        rows[i].phase.is_active(),
    ensures
        0 <= k < left(rows).len(),
        left(rows)[k] == rows[i],
{
    if dropped(rows).contains(rows[i].id) {
        law_only_ended_tasks_are_dropped(rows, i);
    }
    lemma_kept_there(rows, id_not_in(dropped(rows)), i)
}

proof fn lemma_left_apart(rows: Seq<TaskView>)
    ensures
        ids_apart(rows) ==> ids_apart(left(rows)),
        paths_apart(rows) ==> paths_apart(left(rows)),
{
    let out = left(rows);
    assert forall|a: int, b: int| 0 <= a < b < out.len() implies (ids_apart(rows) ==> out[a].id
        != out[b].id) && (paths_apart(rows) ==> out[a].package.text != out[b].package.text) by {
        let (x, y) = lemma_kept_order(rows, id_not_in(dropped(rows)), 0, a, b);
        if ids_apart(rows) {
            assert(rows[x].id != rows[y].id);
        }
        if paths_apart(rows) {
            assert(rows[x].package.text != rows[y].package.text);
        }
    }
}

/// Dropping old tasks keeps everything in order.
pub proof fn law_trimming_keeps_order(t: TasksView)
    requires
        t.wf(),
    ensures
        t.trimmed().wf(),
{
    let out = left(t.rows);
    lemma_left_apart(t.rows);
    assert(queue_names_rows(out, t.queue)) by {
        assert forall|k: int| 0 <= k < t.queue.len() implies is_queued(
            out,
            #[trigger] t.queue[k],
        ) by {
            assert(is_queued(t.rows, t.queue[k]));
            let i = choose|i: int|
                0 <= i < t.rows.len() && (#[trigger] t.rows[i]).id == t.queue[k]
                    && t.rows[i].phase == Phase::Queued;
            let j = lemma_active_left(t.rows, i);
            assert(out[j].id == t.queue[k]);
        }
    }
    assert(ids_below(out, t.next_id) && rows_are_named(out, t.queue) && only_running(
        out,
        t.running,
    )) by {
        assert forall|j: int| 0 <= j < out.len() implies (#[trigger] out[j]).id <= t.next_id && (
        out[j].phase == Phase::Queued ==> t.queue.contains(out[j].id)) && (in_progress(
            out[j].phase,
        ) ==> t.running == Some(out[j].id)) by {
            let i = lemma_left_source(t.rows, j);
            assert(t.rows[i].id <= t.next_id);
        }
    }
    if t.running is Some {
        let id = t.running->0;
        assert(is_in_progress(t.rows, id));
        let i = choose|i: int|
            0 <= i < t.rows.len() && (#[trigger] t.rows[i]).id == id && in_progress(
                t.rows[i].phase,
            );
        let j = lemma_active_left(t.rows, i);
        assert(out[j].id == id);
        assert(is_in_progress(out, id));
    }
}

/// Dropping old tasks keeps every task that has not ended.
pub proof fn law_trimming_keeps_active_tasks(t: TasksView, i: int)
    requires
        ids_apart(t.rows),
        0 <= i < t.rows.len(),
        t.rows[i].phase.is_active(),
    ensures
        t.trimmed().rows.contains(t.rows[i]),
{
    let k = lemma_active_left(t.rows, i);
    assert(t.trimmed().rows[k] == t.rows[i]);
}

/// Ending a task that runs or waits keeps everything in order.
pub proof fn law_finishing_keeps_order(t: TasksView, id: i32, e: Ending)
    requires
        t.wf(),
        t.clock < u64::MAX,
        e.phase != Phase::Queued,
        !in_progress(e.phase),
        t.place(id) is None || t.rows[t.place(id)->0].phase != Phase::Queued,
    ensures
        t.finished(id, e).wf(),
{
    let f = with_id(id);
    lemma_first_holds(t.rows, f, 0);
    let clock = (t.clock + 1) as u64;
    let running = if t.running == Some(id) {
        None
    } else {
        t.running
    };
    let base = TasksView { running, clock, ..t };
    match t.place(id) {
        Some(i) => {
            lemma_not_queued(t, i);
            let new = crate::tasks::ended_row(t.rows[i], e, clock);
            lemma_row_changed(t, i, new, t.queue, running);
            let changed = TasksView { rows: t.rows.update(i, new), queue: t.queue, running, ..t };
            assert(base.place(id) == t.place(id));
            assert(t.ended(id, e) =~= (TasksView { clock, ..changed }));
        },
        None => {
            if t.running == Some(id) {
                let j = choose|j: int|
                    0 <= j < t.rows.len() && (#[trigger] t.rows[j]).id == id && in_progress(
                        t.rows[j].phase,
                    );
                assert(f(t.rows[j]));
            }
            assert(base.place(id) == t.place(id));
            assert(t.ended(id, e) =~= (TasksView { clock, ..t }));
        },
    }
    law_trimming_keeps_order(t.ended(id, e));
}

/// Stopping a task keeps everything in order.
pub proof fn law_cancelling_keeps_order(t: TasksView, id: i32)
    requires
        t.wf(),
        t.clock < u64::MAX,
    ensures
        t.cancelled(id).wf(),
{
    let f = with_id(id);
    lemma_first_holds(t.rows, f, 0);
    if t.place(id) is Some {
        let i = t.place(id)->0;
        let row = t.rows[i];
        if row.phase == Phase::Running {
            let new = TaskView { phase: Phase::Cancelling, status: "正在取消…"@, ..row };
            lemma_not_queued(t, i);
            lemma_row_changed(t, i, new, t.queue, t.running);
        } else if row.phase == Phase::Waiting || row.phase == Phase::Queued {
            let queue = kept(t.queue, other_id(id), 0);
            lemma_not_running(t, i);
            lemma_queue_without(t.queue, id);
            let e = Ending {
                phase: Phase::Cancelled,
                status: "已取消"@,
                report: None,
                source: None,
                output: None,
            };
            let clock = (t.clock + 1) as u64;
            let new = crate::tasks::ended_row(row, e, clock);
            lemma_row_changed(t, i, new, queue, t.running);
            let base = TasksView { queue, ..t };
            let run = TasksView { clock, ..base };
            assert(run.place(id) == t.place(id));
            assert(base.ended(id, e) =~= (TasksView {
                rows: t.rows.update(i, new),
                queue,
                clock,
                ..t
            }));
            law_trimming_keeps_order(base.ended(id, e));
        }
    }
}

proof fn lemma_queue_without(queue: Seq<i32>, id: i32)
    requires
        queue_apart(queue),
    ensures
        ({
            let q = kept(queue, other_id(id), 0);
            &&& !q.contains(id)
            &&& forall|x: i32| x != id ==> (#[trigger] q.contains(x) <==> queue.contains(x))
            &&& queue_apart(q)
        }),
{
    let f = other_id(id);
    let q = kept(queue, f, 0);
    if q.contains(id) {
        let k = choose|k: int| 0 <= k < q.len() && q[k] == id;
        lemma_kept_source(queue, f, k);
    }
    assert forall|x: i32| x != id implies (#[trigger] q.contains(x) <==> queue.contains(x)) by {
        if q.contains(x) {
            let k = choose|k: int| 0 <= k < q.len() && q[k] == x;
            let j = lemma_kept_source(queue, f, k);
            assert(queue[j] == x);
        }
        if queue.contains(x) {
            let j = choose|j: int| 0 <= j < queue.len() && queue[j] == x;
            let k = lemma_kept_there(queue, f, j);
            assert(q[k] == x);
        }
    }
    assert forall|j: int, k: int| 0 <= j < k < q.len() implies q[j] != q[k] by {
        let (a, b) = lemma_kept_order(queue, f, 0, j, k);
    }
}

/// Nothing starts in a directory that is paused.
pub proof fn law_paused_directories_do_not_start(t: TasksView, dir: Seq<char>)
    requires
        t.next_place(Some(dir)) is Some,
    ensures
        ({
            let id = t.queue[t.next_place(Some(dir))->0];
            &&& t.place(id) is Some
            &&& t.rows[t.place(id)->0].package.parent != Some(dir)
        }),
{
    lemma_first_holds(t.queue, t.may_start(Some(dir)), 0);
}

/// The report of a task stays when a later try fails.
pub proof fn law_a_failed_retry_keeps_the_report(t: TaskView, e: Ending, clock: u64)
    requires
        e.report is None,
    ensures
        crate::tasks::ended_row(t, e, clock).report == t.report,
        crate::tasks::ended_row(t, e, clock).output_stamp == t.output_stamp,
        crate::tasks::ended_row(t, e, clock).id == t.id,
        crate::tasks::ended_row(t, e, clock).package == t.package,
{
}

proof fn lemma_endings_apart(rows: Seq<TaskView>, n: int)
    requires
        ids_apart(rows),
        0 <= n <= rows.len(),
    ensures
        endings(rows, n).no_duplicates(),
    decreases n,
{
    if n > 0 {
        lemma_endings_apart(rows, n - 1);
        lemma_endings(rows, n - 1);
        let e = endings(rows, n - 1);
        let p = (rows[n - 1].finished, rows[n - 1].id);
        if e.contains(p) {
            let i = choose|i: int|
                0 <= i < n - 1 && !(#[trigger] rows[i]).phase.is_active() && rows[i].id == p.1
                    && rows[i].finished == p.0;
            assert(rows[i].id != rows[n - 1].id);
        }
        let out = endings(rows, n);
        assert forall|a: int, b: int|
            0 <= a < out.len() && 0 <= b < out.len() && a != b implies out[a] != out[b] by {
            if a < e.len() {
                assert(e.contains(out[a]));
            }
            if b < e.len() {
                assert(e.contains(out[b]));
            }
        }
    }
}

/// A task that is left and has ended is among the latest.
proof fn lemma_left_is_late(rows: Seq<TaskView>, p: (u64, i32)) -> (k: int)
    requires
        endings(left(rows), left(rows).len() as int).contains(p),
    ensures
        ({
            let s = sorted(endings(rows, rows.len() as int), by_ending());
            0 <= k < s.len() && k < ENDED_LIMIT && s[k] == p
        }),
{
    broadcast use vstd::seq_lib::group_to_multiset_ensures;

    let e = endings(rows, rows.len() as int);
    let s = sorted(e, by_ending());
    let out = left(rows);
    lemma_endings(out, out.len() as int);
    let i = choose|i: int|
        0 <= i < out.len() && !(#[trigger] out[i]).phase.is_active() && out[i].id == p.1
            && out[i].finished == p.0;
    let j = lemma_left_source(rows, i);
    lemma_endings(rows, rows.len() as int);
    assert(e.contains((rows[j].finished, rows[j].id)));
    law_sorting_keeps_elements(e, by_ending());
    assert(e.to_multiset().count(p) > 0);
    assert(s.contains(p));
    let k = choose|k: int| 0 <= k < s.len() && s[k] == p;
    if k >= ENDED_LIMIT {
        assert(dropped(rows)[k - ENDED_LIMIT] == p.1);
        assert(dropped(rows).contains(p.1));
    }
    k
}

/// No more ended tasks are shown than the limit.
pub proof fn law_ended_tasks_are_limited(t: TasksView)
    requires
        ids_apart(t.rows),
    ensures
        endings(t.trimmed().rows, t.trimmed().rows.len() as int).len() <= ENDED_LIMIT,
{
    let rows = t.rows;
    let out = left(rows);
    let s = sorted(endings(rows, rows.len() as int), by_ending());
    let after = endings(out, out.len() as int);
    lemma_left_apart(rows);
    lemma_endings_apart(out, out.len() as int);
    let n = if s.len() > ENDED_LIMIT {
        ENDED_LIMIT as int
    } else {
        s.len() as int
    };
    let first = s.take(n);
    assert(after.to_set().subset_of(first.to_set())) by {
        assert forall|p: (u64, i32)| after.to_set().contains(p) implies first.to_set().contains(
            p,
        ) by {
            assert(after.contains(p));
            let k = lemma_left_is_late(rows, p);
            assert(first[k] == p);
        }
    }
    after.unique_seq_to_set();
    first.lemma_cardinality_of_set();
    vstd::set_lib::lemma_len_subset(after.to_set(), first.to_set());
}

/// Having ended later than another, or at the same time with a larger identity.
pub open spec fn ended_after(p: (u64, i32)) -> spec_fn((u64, i32)) -> bool {
    |q: (u64, i32)| q.0 > p.0 || (q.0 == p.0 && q.1 > p.1)
}

/// A task is dropped only where as many others as the limit ended after it.
pub proof fn law_dropped_tasks_have_later_ones(rows: Seq<TaskView>, i: int)
    requires
        ids_apart(rows),
        0 <= i < rows.len(),
        dropped(rows).contains(rows[i].id),
    ensures
        kept(
            endings(rows, rows.len() as int),
            ended_after((rows[i].finished, rows[i].id)),
            0,
        ).len() >= ENDED_LIMIT,
{
    broadcast use vstd::seq_lib::group_to_multiset_ensures;

    let e = endings(rows, rows.len() as int);
    let lt = by_ending();
    let s = sorted(e, lt);
    let d = dropped(rows);
    let k = choose|k: int| 0 <= k < d.len() && d[k] == rows[i].id;
    let p = s[ENDED_LIMIT + k];
    let f = ended_after(p);
    law_sorting_keeps_elements(e, lt);
    assert(orders(lt));
    law_sorting_puts_in_order(e, lt);
    lemma_endings(rows, rows.len() as int);
    lemma_endings_apart(rows, rows.len() as int);
    assert(s.to_multiset().count(p) > 0) by {
        assert(s.contains(p));
    }
    assert(e.contains(p));
    let j = choose|j: int|
        0 <= j < rows.len() && !(#[trigger] rows[j]).phase.is_active() && rows[j].id == p.1
            && rows[j].finished == p.0;
    if j < i {
        assert(rows[j].id != rows[i].id);
    } else if i < j {
        assert(rows[i].id != rows[j].id);
    }
    assert(p == (rows[i].finished, rows[i].id));
    e.lemma_multiset_has_no_duplicates();
    s.lemma_multiset_has_no_duplicates_conv();
    let first = s.take(ENDED_LIMIT as int);
    let later = kept(e, f, 0);
    assert(first.no_duplicates());
    assert(first.to_set().subset_of(later.to_set())) by {
        assert forall|q: (u64, i32)| first.to_set().contains(q) implies later.to_set().contains(
            q,
        ) by {
            let a = choose|a: int| 0 <= a < first.len() && first[a] == q;
            assert(s[a] == q);
            assert(s[a] != s[ENDED_LIMIT + k]);
            assert(!lt(s[ENDED_LIMIT + k], s[a]));
            assert(f(q));
            assert(s.contains(q));
            assert(s.to_multiset().count(q) > 0);
            assert(e.contains(q));
            let b = choose|b: int| 0 <= b < e.len() && e[b] == q;
            let c = lemma_kept_there(e, f, b);
            assert(later[c] == q);
        }
    }
    first.unique_seq_to_set();
    later.lemma_cardinality_of_set();
    vstd::set_lib::lemma_len_subset(first.to_set(), later.to_set());
}

/// Ending a task leaves the queue as it is, ends the run of that task only, shows
/// no more ended tasks than the limit, and keeps the rows that stay in their order.
pub proof fn law_finishing_changes_one_task(t: TasksView, id: i32, e: Ending)
    requires
        ids_apart(t.rows),
        t.clock < u64::MAX,
    ensures
        ({
            let out = t.finished(id, e);
            &&& out.queue == t.queue
            &&& out.running == (if t.running == Some(id) {
                None
            } else {
                t.running
            })
            &&& endings(out.rows, out.rows.len() as int).len() <= ENDED_LIMIT
            &&& ids_apart(out.rows)
            &&& forall|a: int, b: int|
                0 <= a < b < out.rows.len() ==> stand_so(
                    t.rows,
                    #[trigger] out.rows[a].id,
                    #[trigger] out.rows[b].id,
                )
        }),
{
    let mid = t.ended(id, e);
    let f = with_id(id);
    lemma_first_holds(t.rows, f, 0);
    assert(mid.rows.len() == t.rows.len());
    assert forall|a: int| 0 <= a < mid.rows.len() implies (#[trigger] mid.rows[a]).id
        == t.rows[a].id by {}
    assert forall|a: int, b: int| 0 <= a < b < mid.rows.len() implies mid.rows[a].id
        != mid.rows[b].id by {
        assert(t.rows[a].id != t.rows[b].id);
    }
    law_ended_tasks_are_limited(mid);
    lemma_left_apart(mid.rows);
    let out = left(mid.rows);
    assert forall|a: int, b: int| 0 <= a < b < out.len() implies stand_so(
        t.rows,
        #[trigger] out[a].id,
        #[trigger] out[b].id,
    ) by {
        let (x, y) = lemma_kept_order(mid.rows, id_not_in(dropped(mid.rows)), 0, a, b);
        assert(mid.rows[x].id == t.rows[x].id && mid.rows[y].id == t.rows[y].id);
    }
}

/// Whether a row with one identity stands before a row with another.
pub open spec fn stand_so(rows: Seq<TaskView>, a: i32, b: i32) -> bool {
    exists|x: int, y: int|
        0 <= x < y < rows.len() && (#[trigger] rows[x]).id == a && (#[trigger] rows[y]).id == b
}

} // verus!
