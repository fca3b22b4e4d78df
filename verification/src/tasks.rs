//! The diagnostic packages of a session: waiting, queued, running and ended.

use crate::fault::{refusal, Fault, FaultKind, FaultView};
use crate::order::{sort_by, sorted};
use crate::text::{
    any, duplicate_option, first_place, kept, opt_view, same, same_ignoring_case, views, Duplicate,
};
use vstd::prelude::*;

verus! {

/// The size of a file and when it was last changed, in nanoseconds.
pub type Stamp = (u64, i128);

/// Where a task stands.
#[derive(Clone, Copy, Debug, PartialEq, Eq, Structural)]
pub enum Phase {
    Waiting,
    Queued,
    Running,
    Cancelling,
    Cancelled,
    Failed,
    Damaged,
    Completed,
}

impl Phase {
    /// Whether something is still to be done.
    pub open spec fn is_active(self) -> bool {
        self == Phase::Waiting || self == Phase::Queued || self == Phase::Running || self
            == Phase::Cancelling
    }

    pub fn active(self) -> (r: bool)
        ensures
            r == self.is_active(),
    {
        match self {
            Phase::Waiting | Phase::Queued | Phase::Running | Phase::Cancelling => true,
            _ => false,
        }
    }
}

/// A path with what the operating system tells of it.
#[derive(Clone, Debug)]
pub struct PackagePath {
    pub text: String,
    pub parent: Option<String>,
    pub extension: Option<String>,
    /// The name of the file, empty where the path ends in none.
    pub name: String,
}

/// What a `PackagePath` holds.
#[verifier::ext_equal]
pub ghost struct PackagePathView {
    pub text: Seq<char>,
    pub parent: Option<Seq<char>>,
    pub extension: Option<Seq<char>>,
    pub name: Seq<char>,
}

impl View for PackagePath {
    type V = PackagePathView;

    open spec fn view(&self) -> PackagePathView {
        PackagePathView {
            text: self.text@,
            parent: opt_view(self.parent),
            extension: opt_view(self.extension),
            name: self.name@,
        }
    }
}

impl Duplicate for PackagePath {
    fn duplicate(&self) -> (r: Self) {
        PackagePath {
            text: self.text.clone(),
            parent: duplicate_option(&self.parent),
            extension: duplicate_option(&self.extension),
            name: self.name.clone(),
        }
    }
}

/// A diagnostic package of this session. Its path names the file, its identity the
/// row that shows it.
#[derive(Clone, Debug)]
pub struct Task {
    pub id: i32,
    pub package: PackagePath,
    pub phase: Phase,
    pub status: String,
    pub report: Option<String>,
    pub source_stamp: Option<Stamp>,
    pub output_stamp: Option<Stamp>,
    /// When it ended, as a running number.
    pub finished: u64,
}

/// What a `Task` holds.
#[verifier::ext_equal]
pub ghost struct TaskView {
    pub id: i32,
    pub package: PackagePathView,
    pub phase: Phase,
    pub status: Seq<char>,
    pub report: Option<Seq<char>>,
    pub source_stamp: Option<Stamp>,
    pub output_stamp: Option<Stamp>,
    pub finished: u64,
}

impl View for Task {
    type V = TaskView;

    open spec fn view(&self) -> TaskView {
        TaskView {
            id: self.id,
            package: self.package@,
            phase: self.phase,
            status: self.status@,
            report: opt_view(self.report),
            source_stamp: self.source_stamp,
            output_stamp: self.output_stamp,
            finished: self.finished,
        }
    }
}

impl Duplicate for Task {
    fn duplicate(&self) -> (r: Self) {
        Task {
            id: self.id,
            package: self.package.duplicate(),
            phase: self.phase,
            status: self.status.clone(),
            report: duplicate_option(&self.report),
            source_stamp: self.source_stamp,
            output_stamp: self.output_stamp,
            finished: self.finished,
        }
    }
}

/// Whether a path is that of a diagnostic package.
pub open spec fn package_path(p: PackagePathView) -> bool {
    match p.extension {
        Some(e) => crate::text::lower(e) == crate::text::lower("tgz"@),
        None => false,
    }
}

/// Whether a path is that of a diagnostic package.
pub fn is_package(p: &PackagePath) -> (r: bool)
    ensures
        r == package_path(p@),
{
    match &p.extension {
        Some(e) => same_ignoring_case(e.as_str(), "tgz"),
        None => false,
    }
}

/// The path that names a file: the canonical one where there is one, else that
/// of the canonical directory with the file name, else the full one.
pub fn absolute(
    canonical: Option<PackagePath>,
    in_canonical_parent: Option<PackagePath>,
    full: PackagePath,
) -> (r: PackagePath)
    ensures
        r == (match canonical {
            Some(p) => p,
            None => match in_canonical_parent {
                Some(p) => p,
                None => full,
            },
        }),
{
    match canonical {
        Some(p) => p,
        None => match in_canonical_parent {
            Some(p) => p,
            None => full,
        },
    }
}

/// The tasks of a session. Only ended tasks are dropped, the oldest first; a
/// task that is tried again keeps its row.
#[derive(Debug)]
pub struct Tasks {
    pub rows: Vec<Task>,
    pub queue: Vec<i32>,
    pub running: Option<i32>,
    pub next_id: i32,
    pub clock: u64,
}

#[verifier::ext_equal]
pub ghost struct TasksView {
    pub rows: Seq<TaskView>,
    pub queue: Seq<i32>,
    pub running: Option<i32>,
    pub next_id: i32,
    pub clock: u64,
}

impl View for Tasks {
    type V = TasksView;

    open spec fn view(&self) -> TasksView {
        TasksView {
            rows: views(self.rows@),
            queue: self.queue@,
            running: self.running,
            next_id: self.next_id,
            clock: self.clock,
        }
    }
}

impl Default for Tasks {
    fn default() -> (r: Self)
        ensures
            r@ == no_tasks(),
    {
        let r = Tasks {
            rows: Vec::new(),
            queue: Vec::new(),
            running: None,
            next_id: 0,
            clock: 0,
        };
        proof {
            assert(r@ =~= no_tasks());
        }
        r
    }
}

pub open spec fn no_tasks() -> TasksView {
    TasksView { rows: Seq::empty(), queue: Seq::empty(), running: None, next_id: 0, clock: 0 }
}

/// An ended task is shown among this many.
pub const ENDED_LIMIT: usize = 20;

pub open spec fn with_id(id: i32) -> spec_fn(TaskView) -> bool {
    |t: TaskView| t.id == id
}

pub open spec fn with_path(text: Seq<char>) -> spec_fn(TaskView) -> bool {
    |t: TaskView| t.package.text == text
}

pub open spec fn fresh_status(phase: Phase) -> Seq<char> {
    if phase == Phase::Waiting {
        "等待文件稳定"@
    } else {
        "排队中"@
    }
}

impl TasksView {
    /// The row of a task.
    pub open spec fn place(self, id: i32) -> Option<int> {
        first_place(self.rows, with_id(id), 0)
    }

    pub open spec fn with_row(self, i: int, t: TaskView) -> TasksView {
        TasksView { rows: self.rows.update(i, t), ..self }
    }

    /// The tasks with one for a path; a task of that path which has ended starts
    /// again, one that has not stays as it is.
    pub open spec fn registered(self, path: PackagePathView, phase: Phase) -> TasksView {
        match first_place(self.rows, with_path(path.text), 0) {
            Some(i) => if self.rows[i].phase.is_active() {
                self
            } else {
                self.with_row(
                    i,
                    TaskView { phase, status: fresh_status(phase), ..self.rows[i] },
                )
            },
            None => TasksView {
                rows: seq![
                    TaskView {
                        id: (self.next_id + 1) as i32,
                        package: path,
                        phase,
                        status: fresh_status(phase),
                        report: None,
                        source_stamp: None,
                        output_stamp: None,
                        finished: 0,
                    },
                ] + self.rows,
                next_id: (self.next_id + 1) as i32,
                ..self
            },
        }
    }

    /// The identity of the task of a path.
    pub open spec fn registered_id(self, path: PackagePathView) -> i32 {
        match first_place(self.rows, with_path(path.text), 0) {
            Some(i) => self.rows[i].id,
            None => (self.next_id + 1) as i32,
        }
    }

    /// The tasks with a path in the queue; one that runs is left alone.
    pub open spec fn enqueued(self, path: PackagePathView) -> TasksView {
        if !package_path(path) {
            self
        } else {
            let t = self.registered(path, Phase::Queued);
            let id = self.registered_id(path);
            match t.place(id) {
                Some(i) => if t.rows[i].phase == Phase::Running || t.rows[i].phase
                    == Phase::Cancelling {
                    t
                } else {
                    TasksView {
                        queue: if t.queue.contains(id) {
                            t.queue
                        } else {
                            t.queue.push(id)
                        },
                        ..t.with_row(
                            i,
                            TaskView { phase: Phase::Queued, status: "排队中"@, ..t.rows[i] },
                        )
                    }
                },
                None => t,
            }
        }
    }

    /// Whether a queued task may start: its directory is not paused.
    pub open spec fn may_start(self, paused: Option<Seq<char>>) -> spec_fn(i32) -> bool {
        |id: i32|
            match self.place(id) {
                Some(i) => paused is None || self.rows[i].package.parent != paused,
                None => false,
            }
    }

    /// The place in the queue of the task that starts next.
    pub open spec fn next_place(self, paused: Option<Seq<char>>) -> Option<int> {
        if self.running is Some {
            None
        } else {
            first_place(self.queue, self.may_start(paused), 0)
        }
    }

    /// The tasks after the one at a place in the queue started.
    pub open spec fn started(self, place: int) -> TasksView {
        let id = self.queue[place];
        let i = self.place(id)->0;
        TasksView {
            queue: self.queue.remove(place),
            running: Some(id),
            ..self.with_row(
                i,
                TaskView { phase: Phase::Running, status: "准备解压诊断包…"@, ..self.rows[i] },
            )
        }
    }
}

/// When the rows ended that have, with their identities.
pub open spec fn endings(rows: Seq<TaskView>, n: int) -> Seq<(u64, i32)>
    decreases n,
{
    if n <= 0 {
        Seq::empty()
    } else if rows[n - 1].phase.is_active() {
        endings(rows, n - 1)
    } else {
        endings(rows, n - 1).push((rows[n - 1].finished, rows[n - 1].id))
    }
}

/// The order of endings: the latest first.
pub open spec fn later(a: (u64, i32), b: (u64, i32)) -> bool {
    b.0 < a.0 || (b.0 == a.0 && b.1 < a.1)
}

pub open spec fn by_ending() -> spec_fn((u64, i32), (u64, i32)) -> bool {
    |a: (u64, i32), b: (u64, i32)| later(a, b)
}

/// The identities of ended tasks beyond the limit.
pub open spec fn dropped(rows: Seq<TaskView>) -> Seq<i32> {
    let s = sorted(endings(rows, rows.len() as int), by_ending());
    if s.len() > ENDED_LIMIT {
        Seq::new((s.len() - ENDED_LIMIT) as nat, |i: int| s[ENDED_LIMIT + i].1)
    } else {
        Seq::empty()
    }
}

pub open spec fn id_not_in(ids: Seq<i32>) -> spec_fn(TaskView) -> bool {
    |t: TaskView| !ids.contains(t.id)
}

pub open spec fn other_id(id: i32) -> spec_fn(i32) -> bool {
    |x: i32| x != id
}

/// How a task ended.
pub ghost struct Ending {
    pub phase: Phase,
    pub status: Seq<char>,
    pub report: Option<Seq<char>>,
    pub source: Option<Stamp>,
    pub output: Option<Stamp>,
}

/// A row of a task that ended. A report that was written before stays.
pub open spec fn ended_row(t: TaskView, e: Ending, clock: u64) -> TaskView {
    TaskView {
        phase: e.phase,
        status: e.status,
        finished: clock,
        report: if e.report is Some {
            e.report
        } else {
            t.report
        },
        source_stamp: if e.report is Some || e.phase == Phase::Damaged {
            e.source
        } else {
            t.source_stamp
        },
        output_stamp: if e.report is Some {
            e.output
        } else {
            t.output_stamp
        },
        ..t
    }
}

impl TasksView {
    /// The tasks after one ended, before old ones are dropped.
    pub open spec fn ended(self, id: i32, e: Ending) -> TasksView {
        let clock = (self.clock + 1) as u64;
        let t = TasksView {
            running: if self.running == Some(id) {
                None
            } else {
                self.running
            },
            clock,
            ..self
        };
        match t.place(id) {
            Some(i) => t.with_row(i, ended_row(t.rows[i], e, clock)),
            None => t,
        }
    }

    /// The tasks without the ended ones beyond the limit.
    pub open spec fn trimmed(self) -> TasksView {
        TasksView { rows: kept(self.rows, id_not_in(dropped(self.rows)), 0), ..self }
    }

    /// The tasks after one ended.
    pub open spec fn finished(self, id: i32, e: Ending) -> TasksView {
        self.ended(id, e).trimmed()
    }

    /// The tasks after the user asked to stop one: a running one is told to, one
    /// that has not started ends.
    pub open spec fn cancelled(self, id: i32) -> TasksView {
        match self.place(id) {
            Some(i) => {
                let t = self.rows[i];
                if t.phase == Phase::Running {
                    self.with_row(
                        i,
                        TaskView { phase: Phase::Cancelling, status: "正在取消…"@, ..t },
                    )
                } else if t.phase == Phase::Waiting || t.phase == Phase::Queued {
                    (TasksView { queue: kept(self.queue, other_id(id), 0), ..self }).finished(
                        id,
                        Ending {
                            phase: Phase::Cancelled,
                            status: "已取消"@,
                            report: None,
                            source: None,
                            output: None,
                        },
                    )
                } else {
                    self
                }
            },
            None => self,
        }
    }

    pub open spec fn runs(self, id: i32) -> bool {
        match self.place(id) {
            Some(i) => self.rows[i].phase == Phase::Running,
            None => false,
        }
    }
}

pub open spec fn active_in(dir: Seq<char>) -> spec_fn(TaskView) -> bool {
    |t: TaskView| t.package.parent == Some(dir) && t.phase.is_active()
}

pub open spec fn completed_in(dir: Seq<char>) -> spec_fn(TaskView) -> bool {
    |t: TaskView| t.phase == Phase::Completed && t.package.parent == Some(dir)
}

fn fresh_text(phase: Phase) -> (r: String)
    ensures
        r@ == fresh_status(phase),
{
    if phase == Phase::Waiting {
        "等待文件稳定".to_owned()
    } else {
        "排队中".to_owned()
    }
}

impl Tasks {
    /// The row of a task.
    pub fn find(&self, id: i32) -> (r: Option<usize>)
        ensures
            (match r {
                Some(i) => i < self.rows.len() && self@.place(id) == Some(i as int)
                    && self.rows@[i as int].id == id,
                None => self@.place(id) is None,
            }),
    {
        let ghost rv = self@.rows;
        let ghost f = with_id(id);
        let mut i: usize = 0;
        while i < self.rows.len()
            invariant
                i <= self.rows.len(),
                rv == views(self.rows@),
                f == with_id(id),
                first_place(rv, f, 0) == first_place(rv, f, i as int),
            decreases self.rows.len() - i,
        {
            proof {
                assert(rv[i as int] == self.rows@[i as int]@);
                assert(f(rv[i as int]) == (self.rows@[i as int].id == id));
            }
            if self.rows[i].id == id {
                return Some(i);
            }
            i += 1;
        }
        None
    }

    /// The task with an identity.
    pub fn get(&self, id: i32) -> (r: Option<&Task>)
        ensures
            (match r {
                Some(t) => self@.place(id) matches Some(i) && t@ == self@.rows[i],
                None => self@.place(id) is None,
            }),
    {
        match self.find(id) {
            Some(i) => Some(&self.rows[i]),
            None => None,
        }
    }

    /// The task with an identity, to be changed.
    pub fn get_mut(&mut self, id: i32) -> (r: Option<&mut Task>)
        ensures
            (match r {
                Some(t) => {
                    &&& old(self)@.place(id) matches Some(i)
                    &&& *t == old(self).rows@[i]
                    &&& final(self).rows@ == old(self).rows@.update(i, *final(t))
                    &&& final(self).queue == old(self).queue
                    &&& final(self).running == old(self).running
                    &&& final(self).next_id == old(self).next_id
                    &&& final(self).clock == old(self).clock
                },
                None => old(self)@.place(id) is None && *final(self) == *old(self),
            }),
    {
        match self.find(id) {
            Some(i) => Some(&mut self.rows[i]),
            None => None,
        }
    }

    /// Puts a task in the place of the one with its identity, and tells whether
    /// there is one.
    pub fn replace(&mut self, task: Task) -> (r: bool)
        ensures
            (match old(self)@.place(task.id) {
                Some(i) => r && final(self)@ == old(self)@.with_row(i, task@),
                None => !r && final(self)@ == old(self)@,
            }),
    {
        match self.find(task.id) {
            Some(i) => {
                self.set_row(i, task);
                true
            },
            None => false,
        }
    }

    fn set_row(&mut self, i: usize, task: Task)
        requires
            i < old(self).rows.len(),
        ensures
            final(self)@ == old(self)@.with_row(i as int, task@),
    {
        let ghost rv = self@.rows;
        let ghost tv = task@;
        self.rows.set(i, task);
        proof {
            assert(self@.rows =~= rv.update(i as int, tv));
        }
    }

    fn find_path(&self, text: &str) -> (r: Option<usize>)
        ensures
            (match r {
                Some(i) => i < self.rows.len() && first_place(self@.rows, with_path(text@), 0)
                    == Some(i as int),
                None => first_place(self@.rows, with_path(text@), 0) is None,
            }),
    {
        let ghost rv = self@.rows;
        let ghost f = with_path(text@);
        let mut i: usize = 0;
        while i < self.rows.len()
            invariant
                i <= self.rows.len(),
                rv == views(self.rows@),
                f == with_path(text@),
                first_place(rv, f, 0) == first_place(rv, f, i as int),
            decreases self.rows.len() - i,
        {
            let hit = same(self.rows[i].package.text.as_str(), text);
            proof {
                assert(rv[i as int] == self.rows@[i as int]@);
                assert(hit == f(rv[i as int]));
            }
            if hit {
                return Some(i);
            }
            i += 1;
        }
        None
    }

    /// The task of a path; a new row goes to the top.
    pub fn register(&mut self, path: PackagePath, phase: Phase) -> (r: i32)
        requires
            old(self).next_id < i32::MAX,
        ensures
            final(self)@ == old(self)@.registered(path@, phase),
            r == old(self)@.registered_id(path@),
    {
        let ghost sv = self@;
        let ghost pv = path@;
        if let Some(i) = self.find_path(path.text.as_str()) {
            proof {
                assert(sv.rows[i as int] == self.rows@[i as int]@);
            }
            let id = self.rows[i].id;
            if !self.rows[i].phase.active() {
                let mut t = self.rows[i].duplicate();
                t.phase = phase;
                t.status = fresh_text(phase);
                self.set_row(i, t);
            }
            return id;
        }
        self.next_id = self.next_id + 1;
        let t = Task {
            id: self.next_id,
            package: path,
            phase,
            status: fresh_text(phase),
            report: None,
            source_stamp: None,
            output_stamp: None,
            finished: 0,
        };
        let ghost tv = t@;
        self.rows.insert(0, t);
        proof {
            assert(self@.rows =~= seq![tv] + sv.rows);
            assert(self@ =~= sv.registered(pv, phase));
        }
        self.next_id
    }

    /// Queues a package once; a path that is no package is passed over.
    pub fn enqueue(&mut self, path: PackagePath)
        requires
            old(self).next_id < i32::MAX,
        ensures
            final(self)@ == old(self)@.enqueued(path@),
    {
        if !is_package(&path) {
            return;
        }
        let id = self.register(path, Phase::Queued);
        if let Some(i) = self.find(id) {
            proof {
                assert(self@.rows[i as int] == self.rows@[i as int]@);
            }
            let phase = self.rows[i].phase;
            if phase == Phase::Running || phase == Phase::Cancelling {
                return;
            }
            let mut t = self.rows[i].duplicate();
            t.phase = Phase::Queued;
            t.status = "排队中".to_owned();
            self.set_row(i, t);
            if !holds_id(&self.queue, id) {
                self.queue.push(id);
            }
        }
    }

    fn can_start(&self, id: i32, paused: &Option<String>) -> (r: bool)
        ensures
            r == self@.may_start(opt_view(*paused))(id),
    {
        match self.find(id) {
            Some(i) => {
                proof {
                    assert(self@.rows[i as int] == self.rows@[i as int]@);
                }
                match paused {
                    Some(p) => match &self.rows[i].package.parent {
                        Some(q) => !same(q.as_str(), p.as_str()),
                        None => true,
                    },
                    None => true,
                }
            },
            None => false,
        }
    }

    /// Starts the next queued task whose directory is not paused, where none
    /// runs.
    pub fn start(&mut self, paused: &Option<String>) -> (r: Option<(i32, PackagePath)>)
        ensures
            (match old(self)@.next_place(opt_view(*paused)) {
                Some(k) => r matches Some((id, p)) && final(self)@ == old(self)@.started(k) && id
                    == old(self)@.queue[k] && p@ == old(self)@.rows[old(self)@.place(
                    id,
                )->0].package,
                None => r is None && final(self)@ == old(self)@,
            }),
    {
        if self.running.is_some() {
            return None;
        }
        let ghost sv = self@;
        let ghost qv = self.queue@;
        let ghost f = sv.may_start(opt_view(*paused));
        let mut k: usize = 0;
        while k < self.queue.len()
            invariant
                k <= self.queue.len(),
                self@ == sv,
                old(self)@ == sv,
                sv.running is None,
                qv == self.queue@,
                sv.queue == qv,
                f == sv.may_start(opt_view(*paused)),
                first_place(qv, f, 0) == first_place(qv, f, k as int),
            decreases self.queue.len() - k,
        {
            if self.can_start(self.queue[k], paused) {
                let id = self.queue.remove(k);
                self.running = Some(id);
                proof {
                    assert(self@.rows == sv.rows);
                    assert(self@.place(id) == sv.place(id));
                }
                if let Some(i) = self.find(id) {
                    proof {
                        assert(sv.rows[i as int] == self.rows@[i as int]@);
                    }
                    let mut t = self.rows[i].duplicate();
                    let path = t.package.duplicate();
                    t.phase = Phase::Running;
                    t.status = "准备解压诊断包…".to_owned();
                    self.set_row(i, t);
                    proof {
                        assert(self@ =~= sv.started(k as int));
                    }
                    return Some((id, path));
                }
                return None;
            }
            k += 1;
        }
        None
    }

    /// Ends a task. A report that was written counts, even where the task was
    /// told to stop. Ended tasks beyond the limit are dropped.
    pub fn finish(
        &mut self,
        id: i32,
        phase: Phase,
        status: String,
        report: Option<String>,
        stamp: Option<Stamp>,
        output_stamp: Option<Stamp>,
    )
        requires
            old(self).clock < u64::MAX,
        ensures
            final(self)@ == old(self)@.finished(
                id,
                (Ending {
                    phase,
                    status: status@,
                    report: opt_view(report),
                    source: stamp,
                    output: output_stamp,
                }),
            ),
    {
        let ghost sv = self@;
        let ghost e = Ending {
            phase,
            status: status@,
            report: opt_view(report),
            source: stamp,
            output: output_stamp,
        };
        if let Some(r) = self.running {
            if r == id {
                self.running = None;
            }
        }
        self.clock = self.clock + 1;
        let clock = self.clock;
        proof {
            assert(self@.rows == sv.rows);
        }
        if let Some(i) = self.find(id) {
            proof {
                assert(sv.rows[i as int] == self.rows@[i as int]@);
            }
            let mut t = self.rows[i].duplicate();
            t.phase = phase;
            t.status = status;
            t.finished = clock;
            if phase == Phase::Damaged {
                t.source_stamp = stamp;
            }
            if report.is_some() {
                t.output_stamp = output_stamp;
                t.report = report;
                t.source_stamp = stamp;
            }
            proof {
                assert(t@ =~= ended_row(sv.rows[i as int], e, clock));
            }
            self.set_row(i, t);
        }
        proof {
            assert(self@ =~= sv.ended(id, e));
        }
        self.trim();
    }

    fn trim(&mut self)
        ensures
            final(self)@ == old(self)@.trimmed(),
    {
        let ghost sv = self@;
        let ghost rv = sv.rows;
        let ends = endings_of(&self.rows);
        proof {
            assert(views(ends@) =~= ends@);
        }
        let ends = sort_by(ends, is_later, Ghost(by_ending()));
        proof {
            assert(views(ends@) =~= ends@);
        }
        let mut gone: Vec<i32> = Vec::new();
        let mut i: usize = ENDED_LIMIT;
        while i < ends.len()
            invariant
                ENDED_LIMIT <= i,
                i <= ends.len() || i == ENDED_LIMIT,
                gone.len() == i - ENDED_LIMIT,
                forall|j: int| 0 <= j < gone.len() ==> gone@[j] == ends@[ENDED_LIMIT + j].1,
            decreases ends.len() - i,
        {
            gone.push(ends[i].1);
            i += 1;
        }
        proof {
            assert(gone@ =~= dropped(rv));
        }
        let ghost f = id_not_in(dropped(rv));
        let mut rows: Vec<Task> = Vec::new();
        let mut k: usize = 0;
        proof {
            assert(views(rows@) + kept(rv, f, 0) =~= kept(rv, f, 0));
        }
        while k < self.rows.len()
            invariant
                k <= self.rows.len(),
                self@ == sv,
                rv == views(self.rows@),
                gone@ == dropped(rv),
                f == id_not_in(dropped(rv)),
                views(rows@) + kept(rv, f, k as int) == kept(rv, f, 0),
            decreases self.rows.len() - k,
        {
            let ghost was = views(rows@);
            let hit = !holds_id(&gone, self.rows[k].id);
            proof {
                assert(rv[k as int] == self.rows@[k as int]@);
                assert(hit == f(rv[k as int]));
            }
            if hit {
                rows.push(self.rows[k].duplicate());
                proof {
                    assert(views(rows@) =~= was.push(rv[k as int]));
                    assert(was + kept(rv, f, k as int) =~= views(rows@) + kept(rv, f, k + 1));
                }
            }
            k += 1;
        }
        proof {
            assert(views(rows@) + kept(rv, f, k as int) =~= views(rows@));
        }
        self.rows = rows;
        proof {
            assert(self@ =~= sv.trimmed());
        }
    }

    /// Stops a task, and tells whether the running analysis has to be told.
    pub fn cancel(&mut self, id: i32) -> (r: bool)
        requires
            old(self).clock < u64::MAX,
        ensures
            r == old(self)@.runs(id),
            final(self)@ == old(self)@.cancelled(id),
    {
        let ghost sv = self@;
        match self.find(id) {
            Some(i) => {
                proof {
                    assert(sv.rows[i as int] == self.rows@[i as int]@);
                }
                let phase = self.rows[i].phase;
                if phase == Phase::Running {
                    let mut t = self.rows[i].duplicate();
                    t.phase = Phase::Cancelling;
                    t.status = "正在取消…".to_owned();
                    self.set_row(i, t);
                    return true;
                }
                if phase == Phase::Waiting || phase == Phase::Queued {
                    let queue = other_ids(&self.queue, id);
                    self.queue = queue;
                    self.finish(id, Phase::Cancelled, "已取消".to_owned(), None, None, None);
                }
                false
            },
            None => false,
        }
    }

    /// Whether a directory has a task that has not ended.
    pub fn has_active_in(&self, dir: &str) -> (r: bool)
        ensures
            r == any(self@.rows, active_in(dir@)),
    {
        let ghost rv = self@.rows;
        let ghost f = active_in(dir@);
        let mut i: usize = 0;
        while i < self.rows.len()
            invariant
                i <= self.rows.len(),
                rv == views(self.rows@),
                f == active_in(dir@),
                forall|j: int| 0 <= j < i ==> !f(#[trigger] rv[j]),
            decreases self.rows.len() - i,
        {
            let hit = is_in(&self.rows[i], dir) && self.rows[i].phase.active();
            proof {
                assert(rv[i as int] == self.rows@[i as int]@);
                assert(hit == f(rv[i as int]));
            }
            if hit {
                return true;
            }
            i += 1;
        }
        false
    }

    /// The completed tasks of a directory, where none there is still active.
    pub fn candidates(&self, dir: &str) -> (r: Vec<Task>)
        ensures
            views(r@) == if any(self@.rows, active_in(dir@)) {
                Seq::empty()
            } else {
                kept(self@.rows, completed_in(dir@), 0)
            },
    {
        let mut out: Vec<Task> = Vec::new();
        proof {
            assert(views(out@) =~= Seq::<TaskView>::empty());
        }
        if self.has_active_in(dir) {
            return out;
        }
        let ghost rv = self@.rows;
        let ghost f = completed_in(dir@);
        let mut i: usize = 0;
        proof {
            assert(views(out@) + kept(rv, f, 0) =~= kept(rv, f, 0));
        }
        while i < self.rows.len()
            invariant
                i <= self.rows.len(),
                rv == views(self.rows@),
                f == completed_in(dir@),
                views(out@) + kept(rv, f, i as int) == kept(rv, f, 0),
            decreases self.rows.len() - i,
        {
            let ghost was = views(out@);
            let hit = self.rows[i].phase == Phase::Completed && is_in(&self.rows[i], dir);
            proof {
                assert(rv[i as int] == self.rows@[i as int]@);
                assert(hit == f(rv[i as int]));
            }
            if hit {
                out.push(self.rows[i].duplicate());
                proof {
                    assert(views(out@) =~= was.push(rv[i as int]));
                    assert(was + kept(rv, f, i as int) =~= views(out@) + kept(rv, f, i + 1));
                }
            }
            i += 1;
        }
        proof {
            assert(views(out@) + kept(rv, f, i as int) =~= views(out@));
        }
        out
    }
}

fn is_in(t: &Task, dir: &str) -> (r: bool)
    ensures
        r == (t@.package.parent == Some(dir@)),
{
    match &t.package.parent {
        Some(p) => same(p.as_str(), dir),
        None => false,
    }
}

pub fn holds_id(ids: &Vec<i32>, id: i32) -> (r: bool)
    ensures
        r == ids@.contains(id),
{
    let mut i: usize = 0;
    while i < ids.len()
        invariant
            i <= ids.len(),
            forall|j: int| 0 <= j < i ==> ids@[j] != id,
        decreases ids.len() - i,
    {
        if ids[i] == id {
            return true;
        }
        i += 1;
    }
    false
}

fn other_ids(ids: &Vec<i32>, id: i32) -> (r: Vec<i32>)
    ensures
        r@ == kept(ids@, other_id(id), 0),
{
    let ghost f = other_id(id);
    let mut out: Vec<i32> = Vec::new();
    let mut i: usize = 0;
    proof {
        assert(out@ + kept(ids@, f, 0) =~= kept(ids@, f, 0));
    }
    while i < ids.len()
        invariant
            i <= ids.len(),
            f == other_id(id),
            out@ + kept(ids@, f, i as int) == kept(ids@, f, 0),
        decreases ids.len() - i,
    {
        let ghost was = out@;
        if ids[i] != id {
            out.push(ids[i]);
            proof {
                assert(was + kept(ids@, f, i as int) =~= out@ + kept(ids@, f, i + 1));
            }
        }
        i += 1;
    }
    proof {
        assert(out@ + kept(ids@, f, i as int) =~= out@);
    }
    out
}

fn is_later(a: &(u64, i32), b: &(u64, i32)) -> (r: bool)
    ensures
        r == later(a@, b@),
{
    b.0 < a.0 || (b.0 == a.0 && b.1 < a.1)
}

fn endings_of(rows: &Vec<Task>) -> (r: Vec<(u64, i32)>)
    ensures
        r@ == endings(views(rows@), rows.len() as int),
{
    let ghost rv = views(rows@);
    let mut out: Vec<(u64, i32)> = Vec::new();
    let mut i: usize = 0;
    while i < rows.len()
        invariant
            i <= rows.len(),
            rv == views(rows@),
            out@ == endings(rv, i as int),
        decreases rows.len() - i,
    {
        proof {
            assert(rv[i as int] == rows@[i as int]@);
        }
        if !rows[i].phase.active() {
            out.push((rows[i].finished, rows[i].id));
        }
        i += 1;
    }
    out
}

/// What the operating system tells of a path.
#[derive(Debug)]
pub enum PathFact {
    /// There is nothing.
    Missing,
    /// It could not be asked.
    Failed(String),
    /// A file, a directory or neither, and its stamp where it could be read.
    Present { file: bool, directory: bool, link: bool, stamp: Result<Stamp, String> },
}

/// What a clean-up decides of a path.
pub ghost enum Verdict {
    /// Nothing is there to delete.
    Nothing,
    /// It is what the analysis saw and may be deleted.
    Delete,
    /// It is kept.
    Refused(FaultView),
}

/// Whether a damaged package may be deleted: it must still be the file that was
/// found damaged.
pub open spec fn damaged_verdict(t: TaskView, fact: PathFact) -> Verdict {
    if t.phase != Phase::Damaged {
        Verdict::Refused(refusal(FaultKind::TaskChanged, Seq::empty()))
    } else {
        match fact {
            PathFact::Missing => Verdict::Nothing,
            PathFact::Failed(e) => Verdict::Refused(refusal(FaultKind::System, e@)),
            PathFact::Present { file, directory, link, stamp } => if !file || link {
                Verdict::Refused(refusal(FaultKind::FileChanged, Seq::empty()))
            } else {
                match stamp {
                    Ok(s) => if t.source_stamp == Some(s) {
                        Verdict::Delete
                    } else {
                        Verdict::Refused(refusal(FaultKind::FileChanged, Seq::empty()))
                    },
                    Err(e) => Verdict::Refused(refusal(FaultKind::System, e@)),
                }
            },
        }
    }
}

pub open spec fn verdict_of(r: Result<bool, Fault>) -> Verdict {
    match r {
        Ok(true) => Verdict::Delete,
        Ok(false) => Verdict::Nothing,
        Err(f) => Verdict::Refused(f@),
    }
}

fn is_stamp(a: &Option<Stamp>, b: Stamp) -> (r: bool)
    ensures
        r == (*a == Some(b)),
{
    match a {
        Some(s) => s.0 == b.0 && s.1 == b.1,
        None => false,
    }
}

/// Whether the package of a task that was found damaged is to be deleted; its
/// reports are never touched.
pub fn delete_damaged(task: &Task, fact: &PathFact) -> (r: Result<bool, Fault>)
    ensures
        verdict_of(r) == damaged_verdict(task@, *fact),
{
    if task.phase != Phase::Damaged {
        return Err(Fault::plain(FaultKind::TaskChanged));
    }
    match fact {
        PathFact::Missing => Ok(false),
        PathFact::Failed(e) => Err(Fault::new(FaultKind::System, e.as_str())),
        PathFact::Present { file, directory: _, link, stamp } => {
            if !*file || *link {
                return Err(Fault::plain(FaultKind::FileChanged));
            }
            match stamp {
                Ok(s) => if is_stamp(&task.source_stamp, *s) {
                    Ok(true)
                } else {
                    Err(Fault::plain(FaultKind::FileChanged))
                },
                Err(e) => Err(Fault::new(FaultKind::System, e.as_str())),
            }
        },
    }
}

/// Whether the package of a completed task is what the analysis read.
pub open spec fn package_verdict(t: TaskView, fact: PathFact) -> Verdict {
    match fact {
        PathFact::Missing => Verdict::Nothing,
        PathFact::Failed(e) => Verdict::Refused(refusal(FaultKind::System, e@)),
        PathFact::Present { file, directory, link, stamp } => if !file {
            Verdict::Refused(refusal(FaultKind::CleanupPackage, Seq::empty()))
        } else {
            match stamp {
                Ok(s) => if t.source_stamp == Some(s) {
                    Verdict::Delete
                } else {
                    Verdict::Refused(refusal(FaultKind::CleanupPackage, Seq::empty()))
                },
                Err(e) => Verdict::Refused(refusal(FaultKind::System, e@)),
            }
        },
    }
}

/// Whether the output of a completed task is what the analysis wrote.
pub open spec fn output_verdict(t: TaskView, fact: PathFact) -> Verdict {
    match fact {
        PathFact::Missing => Verdict::Nothing,
        PathFact::Failed(e) => Verdict::Refused(refusal(FaultKind::System, e@)),
        PathFact::Present { file, directory, link, stamp } => if !directory {
            Verdict::Refused(refusal(FaultKind::OutputNotDirectory, Seq::empty()))
        } else {
            match stamp {
                Ok(s) => if t.output_stamp == Some(s) {
                    Verdict::Delete
                } else {
                    Verdict::Refused(refusal(FaultKind::OutputChanged, Seq::empty()))
                },
                Err(e) => Verdict::Refused(refusal(FaultKind::System, e@)),
            }
        },
    }
}

/// Why a task may not be cleaned up: it is not completed, its report is not that
/// of its package, a link lies on the way, or a file is not what the analysis
/// saw. `link` is the first path on the way that is a link.
pub open spec fn cleanup_fault(
    t: TaskView,
    expected: Seq<char>,
    link: Option<Seq<char>>,
    package: PathFact,
    output: PathFact,
) -> Option<FaultView> {
    if t.phase != Phase::Completed {
        Some(refusal(FaultKind::NotCompleted, Seq::empty()))
    } else if t.report != Some(expected) {
        Some(refusal(FaultKind::WrongOutput, Seq::empty()))
    } else if link is Some {
        Some(refusal(FaultKind::LinkOnPath, link->0))
    } else if package_verdict(t, package) is Refused {
        Some(package_verdict(t, package)->Refused_0)
    } else if output_verdict(t, output) is Refused {
        Some(output_verdict(t, output)->Refused_0)
    } else {
        None
    }
}

fn check_package(task: &Task, fact: &PathFact) -> (r: Result<bool, Fault>)
    ensures
        verdict_of(r) == package_verdict(task@, *fact),
{
    match fact {
        PathFact::Missing => Ok(false),
        PathFact::Failed(e) => Err(Fault::new(FaultKind::System, e.as_str())),
        PathFact::Present { file, directory: _, link: _, stamp } => {
            if !*file {
                return Err(Fault::plain(FaultKind::CleanupPackage));
            }
            match stamp {
                Ok(s) => if is_stamp(&task.source_stamp, *s) {
                    Ok(true)
                } else {
                    Err(Fault::plain(FaultKind::CleanupPackage))
                },
                Err(e) => Err(Fault::new(FaultKind::System, e.as_str())),
            }
        },
    }
}

fn check_output(task: &Task, fact: &PathFact) -> (r: Result<bool, Fault>)
    ensures
        verdict_of(r) == output_verdict(task@, *fact),
{
    match fact {
        PathFact::Missing => Ok(false),
        PathFact::Failed(e) => Err(Fault::new(FaultKind::System, e.as_str())),
        PathFact::Present { file: _, directory, link: _, stamp } => {
            if !*directory {
                return Err(Fault::plain(FaultKind::OutputNotDirectory));
            }
            match stamp {
                Ok(s) => if is_stamp(&task.output_stamp, *s) {
                    Ok(true)
                } else {
                    Err(Fault::plain(FaultKind::OutputChanged))
                },
                Err(e) => Err(Fault::new(FaultKind::System, e.as_str())),
            }
        },
    }
}

/// Checks whether a task may be cleaned up; tells whether its package and its
/// output are there to delete.
pub fn validate_cleanup(
    task: &Task,
    expected: &str,
    link: &Option<String>,
    package: &PathFact,
    output: &PathFact,
) -> (r: Result<(bool, bool), Fault>)
    ensures
        (match r {
            Ok((p, o)) => cleanup_fault(task@, expected@, opt_view(*link), *package, *output)
                is None && p == (package_verdict(task@, *package) is Delete) && o == (
            output_verdict(task@, *output) is Delete),
            Err(f) => cleanup_fault(task@, expected@, opt_view(*link), *package, *output) == Some(
                f@,
            ),
        }),
{
    if task.phase != Phase::Completed {
        return Err(Fault::plain(FaultKind::NotCompleted));
    }
    let matching = match &task.report {
        Some(r) => same(r.as_str(), expected),
        None => false,
    };
    if !matching {
        return Err(Fault::plain(FaultKind::WrongOutput));
    }
    if let Some(l) = link {
        return Err(Fault::new(FaultKind::LinkOnPath, l.as_str()));
    }
    let p = match check_package(task, package) {
        Ok(b) => b,
        Err(f) => {
            return Err(f);
        },
    };
    match check_output(task, output) {
        Ok(o) => Ok((p, o)),
        Err(f) => Err(f),
    }
}

} // verus!
