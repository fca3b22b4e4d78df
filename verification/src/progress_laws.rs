//! How the tasks of a session go on, and what may be deleted once they ended.

use crate::fault::{refusal, FaultKind};
use crate::select::{lemma_first_holds, lemma_first_of_any};
use crate::task_laws::ids_apart;
use crate::tasks::{
    active_in, cleanup_fault, completed_in, damaged_verdict, endings, output_verdict, package_path,
    package_verdict, with_id, with_path, other_id, Ending, PackagePathView, PathFact, Phase,
    TaskView, TasksView, Verdict,
};
use crate::text::{first_place, kept, lower};
use vstd::prelude::*;

verus! {

/// Whether a file or a directory is there with a stamp.
pub open spec fn is_there(fact: PathFact, directory: bool, stamp: Option<crate::tasks::Stamp>)
    -> bool {
    fact matches PathFact::Present { file: f, directory: d, link: _, stamp: Ok(s) } && (if directory {
        d
    } else {
        f
    }) && stamp == Some(s)
}

/// A package may be deleted exactly where it is still the file that the analysis
/// read, an output exactly where it is still the directory that the analysis wrote,
/// and a damaged package exactly where it is still the file, and no link to one, that
/// was found damaged. Where nothing is there, nothing is done.
pub proof fn law_only_what_was_seen_is_deleted(t: TaskView, fact: PathFact)
    ensures
        package_verdict(t, fact) is Delete <==> is_there(fact, false, t.source_stamp),
        output_verdict(t, fact) is Delete <==> is_there(fact, true, t.output_stamp),
        damaged_verdict(t, fact) is Delete <==> t.phase == Phase::Damaged && is_there(
            fact,
            false,
            t.source_stamp,
        ) && !(fact->link),
        package_verdict(t, fact) is Nothing <==> fact is Missing,
        output_verdict(t, fact) is Nothing <==> fact is Missing,
        damaged_verdict(t, fact) is Nothing <==> fact is Missing && t.phase == Phase::Damaged,
{
}

/// What is kept says why: the system's own words where it could not be asked or its
/// stamp could not be read, else that it changed.
pub proof fn law_what_is_kept_says_why(t: TaskView, fact: PathFact, why: String)
    ensures
        fact == PathFact::Failed(why) ==> package_verdict(t, fact) == Verdict::Refused(
            refusal(FaultKind::System, why@),
        ) && output_verdict(t, fact) == Verdict::Refused(refusal(FaultKind::System, why@)),
        t.phase != Phase::Damaged ==> damaged_verdict(t, fact) == Verdict::Refused(
            refusal(FaultKind::TaskChanged, Seq::empty()),
        ),
        (fact matches PathFact::Present { file: f, directory: d, link: l, stamp: Ok(s) } ==> {
            &&& !f || t.source_stamp != Some(s) ==> package_verdict(t, fact) == Verdict::Refused(
                refusal(FaultKind::CleanupPackage, Seq::empty()),
            )
            &&& !d ==> output_verdict(t, fact) == Verdict::Refused(
                refusal(FaultKind::OutputNotDirectory, Seq::empty()),
            )
            &&& d && t.output_stamp != Some(s) ==> output_verdict(t, fact) == Verdict::Refused(
                refusal(FaultKind::OutputChanged, Seq::empty()),
            )
            &&& t.phase == Phase::Damaged && (!f || l || t.source_stamp != Some(s))
                ==> damaged_verdict(t, fact) == Verdict::Refused(
                refusal(FaultKind::FileChanged, Seq::empty()),
            )
        }),
{
}

/// A task may be cleaned up exactly where it is completed, its report is that of its
/// package, no link lies on the way, and package and output are each gone or as the
/// analysis left them.
pub proof fn law_only_completed_tasks_are_cleaned_up(
    t: TaskView,
    expected: Seq<char>,
    link: Option<Seq<char>>,
    package: PathFact,
    output: PathFact,
)
    ensures
        cleanup_fault(t, expected, link, package, output) is None <==> {
            &&& t.phase == Phase::Completed
            &&& t.report == Some(expected)
            &&& link is None
            &&& package is Missing || is_there(package, false, t.source_stamp)
            &&& output is Missing || is_there(output, true, t.output_stamp)
        },
        t.phase != Phase::Completed ==> cleanup_fault(t, expected, link, package, output) == Some(
            refusal(FaultKind::NotCompleted, Seq::empty()),
        ),
        t.phase == Phase::Completed && t.report != Some(expected) ==> cleanup_fault(
            t,
            expected,
            link,
            package,
            output,
        ) == Some(refusal(FaultKind::WrongOutput, Seq::empty())),
{
    law_only_what_was_seen_is_deleted(t, package);
    law_only_what_was_seen_is_deleted(t, output);
}

/// A task is active as long as it waits, is queued, runs or is being stopped; a
/// package is a file whose name ends in `tgz`, in small or capital letters.
pub proof fn law_active_tasks_have_not_ended(t: TaskView, dir: Seq<char>, p: PackagePathView)
    ensures
        t.phase.is_active() <==> t.phase == Phase::Waiting || t.phase == Phase::Queued || t.phase
            == Phase::Running || t.phase == Phase::Cancelling,
        active_in(dir)(t) <==> t.package.parent == Some(dir) && (t.phase == Phase::Waiting
            || t.phase == Phase::Queued || t.phase == Phase::Running || t.phase
            == Phase::Cancelling),
        completed_in(dir)(t) <==> t.package.parent == Some(dir) && t.phase == Phase::Completed,
        package_path(p) <==> (p.extension matches Some(e) && lower(e) == seq!['t', 'g', 'z']),
{
    reveal_strlit("tgz");
    assert(lower("tgz"@) =~= seq!['t', 'g', 'z']);
}

/// Whether a row is that of a path.
pub open spec fn has_path(rows: Seq<TaskView>, path: Seq<char>, i: int) -> bool {
    0 <= i < rows.len() && rows[i].package.text == path
}

proof fn lemma_path_place(rows: Seq<TaskView>, path: Seq<char>, i: int)
    requires
        has_path(rows, path, i),
        forall|k: int| 0 <= k < rows.len() && k != i ==> (#[trigger] rows[k]).package.text != path,
    ensures
        first_place(rows, with_path(path), 0) == Some(i),
{
    let f = with_path(path);
    assert(f(rows[i]));
    lemma_first_of_any(rows, f, 0, i);
    lemma_first_holds(rows, f, 0);
    let k = first_place(rows, f, 0)->0;
    assert(f(rows[k]));
}

proof fn lemma_no_path(rows: Seq<TaskView>, path: Seq<char>)
    requires
        forall|k: int| 0 <= k < rows.len() ==> (#[trigger] rows[k]).package.text != path,
    ensures
        first_place(rows, with_path(path), 0) is None,
{
    let f = with_path(path);
    lemma_first_holds(rows, f, 0);
    if first_place(rows, f, 0) is Some {
        let k = first_place(rows, f, 0)->0;
        assert(f(rows[k]));
    }
}

pub proof fn lemma_id_place(rows: Seq<TaskView>, i: int)
    requires
        ids_apart(rows),
        0 <= i < rows.len(),
    ensures
        first_place(rows, with_id(rows[i].id), 0) == Some(i),
{
    let f = with_id(rows[i].id);
    assert(f(rows[i]));
    lemma_first_of_any(rows, f, 0, i);
    lemma_first_holds(rows, f, 0);
    let k = first_place(rows, f, 0)->0;
    assert(f(rows[k]));
    if k < i {
        assert(rows[k].id != rows[i].id);
    }
    if i < k {
        assert(rows[i].id != rows[k].id);
    }
}

/// A new package stands in front with the next identity, without a report; the
/// others stay behind it as they were.
pub proof fn law_new_packages_stand_in_front(t: TasksView, path: PackagePathView, phase: Phase)
    requires
        t.next_id < i32::MAX,
        forall|k: int| 0 <= k < t.rows.len() ==> (#[trigger] t.rows[k]).package.text != path.text,
    ensures
        ({
            let out = t.registered(path, phase);
            &&& out.rows.len() == t.rows.len() + 1
            &&& out.rows.subrange(1, out.rows.len() as int) == t.rows
            &&& out.rows[0].package == path
            &&& out.rows[0].phase == phase
            &&& out.rows[0].report is None
            &&& out.rows[0].source_stamp is None
            &&& out.rows[0].output_stamp is None
            &&& out.rows[0].id == t.next_id + 1
            &&& out.next_id == t.next_id + 1
            &&& t.registered_id(path) == out.rows[0].id
            &&& out.queue == t.queue
            &&& out.running == t.running
            &&& phase == Phase::Waiting ==> out.rows[0].status == "等待文件稳定"@
            &&& phase == Phase::Queued ==> out.rows[0].status == "排队中"@
        }),
{
    lemma_no_path(t.rows, path.text);
    let out = t.registered(path, phase);
    assert(out.rows.subrange(1, out.rows.len() as int) =~= t.rows);
}

/// A package that is known again keeps its row: where its task ended the task
/// starts anew with its report, where it has not ended nothing changes.
pub proof fn law_known_packages_keep_their_row(
    t: TasksView,
    path: PackagePathView,
    phase: Phase,
    i: int,
)
    requires
        has_path(t.rows, path.text, i),
        forall|k: int|
            0 <= k < t.rows.len() && k != i ==> (#[trigger] t.rows[k]).package.text != path.text,
    ensures
        t.registered_id(path) == t.rows[i].id,
        t.rows[i].phase == Phase::Waiting || t.rows[i].phase == Phase::Queued || t.rows[i].phase
            == Phase::Running || t.rows[i].phase == Phase::Cancelling ==> t.registered(path, phase)
            == t,
        t.rows[i].phase == Phase::Completed || t.rows[i].phase == Phase::Failed || t.rows[i].phase
            == Phase::Damaged || t.rows[i].phase == Phase::Cancelled ==> {
            let out = t.registered(path, phase);
            &&& out.rows.len() == t.rows.len()
            &&& out.rows[i].phase == phase
            &&& out.rows[i].report == t.rows[i].report
            &&& out.rows[i].id == t.rows[i].id
            &&& out.rows[i].package == t.rows[i].package
            &&& forall|k: int|
                0 <= k < t.rows.len() && k != i ==> #[trigger] out.rows[k] == t.rows[k]
        },
{
    lemma_path_place(t.rows, path.text, i);
}

/// A package that is put in the queue stands there behind those that wait already,
/// and its task says so; what runs stays as it is, and what is no package is not
/// taken.
pub proof fn law_queued_packages_wait_their_turn(t: TasksView, path: PackagePathView, i: int)
    requires
        ids_apart(t.rows),
        has_path(t.rows, path.text, i),
        forall|k: int|
            0 <= k < t.rows.len() && k != i ==> (#[trigger] t.rows[k]).package.text != path.text,
    ensures
        !package_path(path) ==> t.enqueued(path) == t,
        package_path(path) && (t.rows[i].phase == Phase::Running || t.rows[i].phase
            == Phase::Cancelling) ==> t.enqueued(path) == t,
        package_path(path) && t.rows[i].phase != Phase::Running && t.rows[i].phase
            != Phase::Cancelling ==> {
            let out = t.enqueued(path);
            &&& out.rows[i].phase == Phase::Queued
            &&& out.queue.contains(t.rows[i].id)
            &&& !t.queue.contains(t.rows[i].id) ==> out.queue == t.queue.push(t.rows[i].id)
            &&& t.queue.contains(t.rows[i].id) ==> out.queue == t.queue
            &&& out.running == t.running
        },
{
    lemma_path_place(t.rows, path.text, i);
    let r = t.registered(path, Phase::Queued);
    assert(ids_apart(r.rows)) by {
        assert forall|a: int, b: int| 0 <= a < b < r.rows.len() implies r.rows[a].id
            != r.rows[b].id by {
            assert(t.rows[a].id != t.rows[b].id);
        }
    }
    lemma_id_place(r.rows, i);
    assert(r.rows[i].id == t.rows[i].id);
    let q = t.queue.push(t.rows[i].id);
    assert(q[t.queue.len() as int] == t.rows[i].id);
}

/// While a task runs none starts; else the first of the queue whose directory is not
/// paused does, and it leaves the queue.
pub proof fn law_the_first_that_may_starts(t: TasksView, paused: Option<Seq<char>>, at: int, i: int)
    requires
        ids_apart(t.rows),
        0 <= i < t.rows.len(),
        0 <= at < t.queue.len(),
        t.queue[at] == t.rows[i].id,
        paused is None || t.rows[i].package.parent != paused,
        forall|k: int|
            0 <= k < at ==> exists|x: int|
                0 <= x < t.rows.len() && (#[trigger] t.rows[x]).id == #[trigger] t.queue[k] && paused
                    is Some && t.rows[x].package.parent == paused,
    ensures
        t.running is Some ==> t.next_place(paused) is None,
        t.running is None ==> t.next_place(paused) == Some(at),
        ({
            let out = t.started(at);
            &&& out.running == Some(t.rows[i].id)
            &&& out.rows[i].phase == Phase::Running
            &&& out.queue == t.queue.remove(at)
            &&& out.rows.len() == t.rows.len()
            &&& forall|k: int|
                0 <= k < t.rows.len() && k != i ==> #[trigger] out.rows[k] == t.rows[k]
        }),
{
    lemma_id_place(t.rows, i);
    let f = t.may_start(paused);
    assert(f(t.queue[at]));
    lemma_first_of_any(t.queue, f, 0, at);
    lemma_first_holds(t.queue, f, 0);
    let k = first_place(t.queue, f, 0)->0;
    assert(f(t.queue[k]));
    if k < at {
        let x = choose|x: int|
            0 <= x < t.rows.len() && (#[trigger] t.rows[x]).id == t.queue[k] && paused is Some
                && t.rows[x].package.parent == paused;
        lemma_id_place(t.rows, x);
    }
}

/// A task that runs is told to stop and goes on until it does, one that has not
/// started leaves the queue and ends at once, one that has ended stays as it is.
pub proof fn law_stopping_goes_by_the_phase(t: TasksView, i: int)
    requires
        ids_apart(t.rows),
        0 <= i < t.rows.len(),
    ensures
        ({
            let id = t.rows[i].id;
            let out = t.cancelled(id);
            &&& t.rows[i].phase == Phase::Running ==> out.rows[i].phase == Phase::Cancelling
                && out.running == t.running && out.queue == t.queue
            &&& t.rows[i].phase == Phase::Waiting || t.rows[i].phase == Phase::Queued
                ==> !out.queue.contains(id)
            &&& t.rows[i].phase != Phase::Running && t.rows[i].phase != Phase::Waiting
                && t.rows[i].phase != Phase::Queued ==> out == t
        }),
{
    lemma_id_place(t.rows, i);
    let id = t.rows[i].id;
    let f = other_id(id);
    let q = kept(t.queue, f, 0);
    if q.contains(id) {
        let k = choose|k: int| 0 <= k < q.len() && q[k] == id;
        crate::select::lemma_kept_holds(t.queue, f, 0);
        assert(f(q[k]));
    }
}

/// A task that ends takes the ending's phase and words, and the report where there is
/// one; it ended later than every task before it.
pub proof fn law_tasks_end_as_they_are_told(t: TasksView, i: int, e: Ending)
    requires
        ids_apart(t.rows),
        0 <= i < t.rows.len(),
        t.clock < u64::MAX,
    ensures
        ({
            let out = t.ended(t.rows[i].id, e);
            &&& out.rows[i].phase == e.phase
            &&& out.rows[i].status == e.status
            &&& out.rows[i].finished == t.clock + 1
            &&& out.clock == t.clock + 1
            &&& e.report is Some ==> out.rows[i].report == e.report && out.rows[i].source_stamp
                == e.source && out.rows[i].output_stamp == e.output
            &&& e.report is None ==> out.rows[i].report == t.rows[i].report
                && out.rows[i].output_stamp == t.rows[i].output_stamp
            &&& e.report is None && e.phase == Phase::Damaged ==> out.rows[i].source_stamp
                == e.source
            &&& e.report is None && e.phase != Phase::Damaged ==> out.rows[i].source_stamp
                == t.rows[i].source_stamp
            &&& forall|k: int|
                0 <= k < t.rows.len() && k != i ==> #[trigger] out.rows[k] == t.rows[k]
        }),
{
    lemma_id_place(t.rows, i);
}

/// Twenty ended tasks stay.
pub proof fn law_twenty_ended_tasks_stay(t: TasksView)
    requires
        ids_apart(t.rows),
    ensures
        endings(t.trimmed().rows, t.trimmed().rows.len() as int).len() <= 20,
        endings(t.rows, t.rows.len() as int).len() <= 20 ==> t.trimmed().rows == t.rows,
{
    crate::task_laws::law_ended_tasks_are_limited(t);
    let s = crate::order::sorted(
        endings(t.rows, t.rows.len() as int),
        crate::tasks::by_ending(),
    );
    crate::order_laws::law_sorting_keeps_elements(
        endings(t.rows, t.rows.len() as int),
        crate::tasks::by_ending(),
    );
    if endings(t.rows, t.rows.len() as int).len() <= 20 {
        assert(s.to_multiset().len() == s.len()) by {
            s.to_multiset_ensures();
        }
        endings(t.rows, t.rows.len() as int).to_multiset_ensures();
        let f = crate::tasks::id_not_in(crate::tasks::dropped(t.rows));
        assert forall|k: int| 0 <= k < t.rows.len() implies f(#[trigger] t.rows[k]) by {}
        lemma_all_stay(t.rows, f, 0);
        assert(t.rows.subrange(0, t.rows.len() as int) =~= t.rows);
    }
}

proof fn lemma_all_stay(s: Seq<TaskView>, f: spec_fn(TaskView) -> bool, i: int)
    requires
        0 <= i <= s.len(),
        forall|k: int| 0 <= k < s.len() ==> f(#[trigger] s[k]),
    ensures
        kept(s, f, i) == s.subrange(i, s.len() as int),
    decreases s.len() - i,
{
    if i < s.len() {
        lemma_all_stay(s, f, i + 1);
        assert(kept(s, f, i) =~= s.subrange(i, s.len() as int));
    } else {
        assert(s.subrange(i, s.len() as int) =~= Seq::<TaskView>::empty());
    }
}

} // verus!
