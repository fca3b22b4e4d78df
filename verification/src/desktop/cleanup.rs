//! Cleaning up packages that are done, and deleting damaged ones.

use crate::desktop::window::{Window, WindowView};
use crate::select::{count_by, find_by, keep_by};
use crate::tasks::{active_in, completed_in, holds_id, Phase, Stamp, Task, TaskView, TasksView};
use crate::text::{
    any, concat2, concat3, concat5, decimal, decimal_text, first_place, join, joined, kept,
    opt_view, same, views, Duplicate,
};
use vstd::prelude::*;

verus! {

impl WindowView {
    /// The directory that a clean-up is about: that of the task, else the watched
    /// one.
    pub open spec fn cleanup_place(self, single: Option<i32>) -> Seq<char> {
        match single {
            Some(id) => match self.tasks.place(id) {
                Some(i) => match self.tasks.rows[i].package.parent {
                    Some(p) => p,
                    None => self.settings.directory,
                },
                None => self.settings.directory,
            },
            None => self.settings.directory,
        }
    }

    /// The tasks that would be cleaned up: one that is completed, or all
    /// completed ones of the directory where nothing is active.
    pub open spec fn cleanup_tasks(self, single: Option<i32>) -> Seq<TaskView> {
        match single {
            Some(id) => match self.tasks.place(id) {
                Some(i) => if self.tasks.rows[i].phase == Phase::Completed {
                    seq![self.tasks.rows[i]]
                } else {
                    Seq::empty()
                },
                None => Seq::empty(),
            },
            None => {
                let dir = self.cleanup_place(single);
                if any(self.tasks.rows, active_in(dir)) {
                    Seq::empty()
                } else {
                    kept(self.tasks.rows, completed_in(dir), 0)
                }
            },
        }
    }
}

/// The lines that name the first `n` tasks and what would be deleted of them.
pub open spec fn cleanup_lines(
    tasks: Seq<TaskView>,
    outputs: Seq<Seq<char>>,
    n: int,
) -> Seq<Seq<char>>
    decreases n,
{
    if n <= 0 {
        Seq::empty()
    } else {
        cleanup_lines(tasks, outputs, n - 1).push(
            "诊断包："@ + tasks[n - 1].package.text + "\n输出目录："@ + outputs[n - 1],
        )
    }
}

/// What the user is asked before a clean-up.
pub open spec fn cleanup_question(dir: Seq<char>, tasks: Seq<TaskView>, outputs: Seq<Seq<char>>) -> Seq<
    char,
> {
    "将永久删除以下 "@ + decimal(tasks.len()) + " 个诊断包及输出目录，无法恢复。\n监控目录："@ + dir + "\n\n"@
        + joined(cleanup_lines(tasks, outputs, tasks.len() as int), "\n\n"@)
}

/// What the user is asked before a clean-up. `outputs` holds the output
/// directory of each task.
pub fn ask_cleanup(dir: &str, tasks: &Vec<Task>, outputs: &Vec<String>) -> (r: String)
    requires
        outputs.len() == tasks.len(),
    ensures
        r@ == cleanup_question(dir@, views(tasks@), views(outputs@)),
{
    let ghost tv = views(tasks@);
    let ghost ov = views(outputs@);
    let mut out: Vec<String> = Vec::new();
    let mut i: usize = 0;
    proof {
        assert(views(out@) =~= cleanup_lines(tv, ov, 0));
    }
    while i < tasks.len()
        invariant
            i <= tasks.len(),
            outputs.len() == tasks.len(),
            tv == views(tasks@),
            ov == views(outputs@),
            views(out@) == cleanup_lines(tv, ov, i as int),
        decreases tasks.len() - i,
    {
        proof {
            assert(tv[i as int] == tasks@[i as int]@);
            assert(ov[i as int] == outputs@[i as int]@);
        }
        let head = concat3("诊断包：", tasks[i].package.text.as_str(), "\n输出目录：");
        out.push(concat2(head.as_str(), outputs[i].as_str()));
        i += 1;
        proof {
            assert(views(out@) =~= cleanup_lines(tv, ov, i as int));
        }
    }
    let list = join(&out, "\n\n");
    let n = decimal_text(tasks.len() as u64);
    proof {
        assert(tv.len() == tasks.len());
    }
    let head = concat5(
        "将永久删除以下 ",
        n.as_str(),
        " 个诊断包及输出目录，无法恢复。\n监控目录：",
        dir,
        "\n\n",
    );
    concat2(head.as_str(), list.as_str())
}

impl TasksView {
    /// Whether a task is still completed as it was.
    pub open spec fn still_completed(self, t: TaskView) -> bool {
        match self.place(t.id) {
            Some(i) => self.rows[i].phase == Phase::Completed && self.rows[i].finished
                == t.finished,
            None => false,
        }
    }

    /// The tasks with another status of one of them.
    pub open spec fn with_status(self, id: i32, text: Seq<char>) -> TasksView {
        match self.place(id) {
            Some(i) => self.with_row(i, TaskView { status: text, ..self.rows[i] }),
            None => self,
        }
    }
}

/// The tasks after the first `n` candidates were checked: one that must not be
/// deleted says why.
pub open spec fn marked(
    tasks: TasksView,
    items: Seq<TaskView>,
    checks: Seq<Option<Seq<char>>>,
    n: int,
) -> TasksView
    decreases n,
{
    if n <= 0 {
        tasks
    } else {
        let t = marked(tasks, items, checks, n - 1);
        if t.still_completed(items[n - 1]) && checks[n - 1] is Some {
            t.with_status(items[n - 1].id, "清理已跳过："@ + checks[n - 1]->0)
        } else {
            t
        }
    }
}

/// Those of the first `n` candidates that are deleted.
pub open spec fn deletable(
    tasks: TasksView,
    items: Seq<TaskView>,
    checks: Seq<Option<Seq<char>>>,
    n: int,
) -> Seq<TaskView>
    decreases n,
{
    if n <= 0 {
        Seq::empty()
    } else if marked(tasks, items, checks, n - 1).still_completed(items[n - 1]) && checks[n - 1]
        is None {
        deletable(tasks, items, checks, n - 1).push(items[n - 1])
    } else {
        deletable(tasks, items, checks, n - 1)
    }
}

pub open spec fn opt_views(s: Seq<Option<String>>) -> Seq<Option<Seq<char>>> {
    s.map_values(|o: Option<String>| opt_view(o))
}

impl WindowView {
    /// The window after a clean-up was confirmed. It does not begin while a task
    /// of the directory is active.
    pub open spec fn cleaning_up(
        self,
        dir: Seq<char>,
        items: Seq<TaskView>,
        checks: Seq<Option<Seq<char>>>,
    ) -> WindowView {
        if any(self.tasks.rows, active_in(dir)) {
            WindowView { status: "目录中有活动任务，未执行清理"@, ..self }
        } else {
            WindowView {
                tasks: marked(self.tasks, items, checks, items.len() as int),
                cleanup_directory: Some(dir),
                cleaning: deletable(self.tasks, items, checks, items.len() as int).map_values(
                    |t: TaskView| t.id,
                ),
                status: "正在清理已完成诊断包…"@,
                ..self
            }
        }
    }
}

fn ids_of(tasks: &Vec<Task>) -> (r: Vec<i32>)
    ensures
        r@ == views(tasks@).map_values(|t: TaskView| t.id),
{
    let ghost tv = views(tasks@);
    let mut out: Vec<i32> = Vec::new();
    let mut i: usize = 0;
    while i < tasks.len()
        invariant
            i <= tasks.len(),
            tv == views(tasks@),
            out.len() == i,
            forall|j: int| 0 <= j < i ==> #[trigger] out@[j] == tv[j].id,
        decreases tasks.len() - i,
    {
        proof {
            assert(tv[i as int] == tasks@[i as int]@);
        }
        out.push(tasks[i].id);
        i += 1;
    }
    proof {
        assert(tv.len() == tasks.len());
        assert(out@ =~= tv.map_values(|t: TaskView| t.id));
    }
    out
}

/// What deleting the files of a task came to.
#[derive(Debug)]
pub struct Cleaned {
    pub id: i32,
    /// Why not all was deleted.
    pub error: Option<String>,
    /// What the output directory is now.
    pub output: Option<Stamp>,
    /// Whether nothing was tried.
    pub skipped: bool,
}

pub open spec fn other_task(id: i32) -> spec_fn(TaskView) -> bool {
    |t: TaskView| t.id != id
}

impl TasksView {
    pub open spec fn without(self, id: i32) -> TasksView {
        TasksView { rows: kept(self.rows, other_task(id), 0), ..self }
    }

    /// The tasks after one was cleaned up, or could not be.
    pub open spec fn cleaned(self, c: Cleaned) -> TasksView {
        match c.error {
            None => self.without(c.id),
            Some(e) => match self.place(c.id) {
                Some(i) => self.with_row(
                    i,
                    TaskView {
                        status: if c.skipped {
                            "清理已跳过："@ + e@
                        } else {
                            "清理未完成："@ + e@
                        },
                        output_stamp: if c.skipped {
                            self.rows[i].output_stamp
                        } else {
                            c.output
                        },
                        ..self.rows[i]
                    },
                ),
                None => self,
            },
        }
    }
}

pub open spec fn all_cleaned(tasks: TasksView, results: Seq<Cleaned>, n: int) -> TasksView
    decreases n,
{
    if n <= 0 {
        tasks
    } else {
        all_cleaned(tasks, results, n - 1).cleaned(results[n - 1])
    }
}

pub open spec fn was_deleted() -> spec_fn(Cleaned) -> bool {
    |c: Cleaned| c.error is None
}

pub open spec fn was_skipped() -> spec_fn(Cleaned) -> bool {
    |c: Cleaned| c.error is Some && c.skipped
}

pub open spec fn has_failed() -> spec_fn(Cleaned) -> bool {
    |c: Cleaned| c.error is Some && !c.skipped
}

/// How many of the first `n` results are of a sort.
pub open spec fn tally(results: Seq<Cleaned>, f: spec_fn(Cleaned) -> bool, n: int) -> nat
    decreases n,
{
    if n <= 0 {
        0
    } else {
        tally(results, f, n - 1) + if f(results[n - 1]) {
            1nat
        } else {
            0nat
        }
    }
}

impl WindowView {
    /// The window after a clean-up ended; `skipped` were passed over before it
    /// began.
    pub open spec fn cleaned_up(self, results: Seq<Cleaned>, skipped: nat) -> WindowView {
        let n = results.len() as int;
        WindowView {
            tasks: all_cleaned(self.tasks, results, n),
            cleaning: Seq::empty(),
            cleanup_directory: None,
            status: "清理完成：成功 "@ + decimal(tally(results, was_deleted(), n)) + "，跳过 "@ + decimal(
                skipped + tally(results, was_skipped(), n),
            ) + "，失败 "@ + decimal(tally(results, has_failed(), n)),
            ..self
        }
    }

    /// Whether a damaged package may be deleted after the user agreed: its task
    /// is as it was.
    pub open spec fn still_damaged(self, id: i32, finished: u64) -> bool {
        match self.tasks.place(id) {
            Some(i) => self.tasks.rows[i].phase == Phase::Damaged && self.tasks.rows[i].finished
                == finished,
            None => false,
        }
    }

    /// The window after a damaged package was deleted, or could not be.
    pub open spec fn damaged_deleted(
        self,
        id: i32,
        path: Seq<char>,
        error: Option<Seq<char>>,
        stamp: Option<Stamp>,
    ) -> WindowView {
        match error {
            None => WindowView {
                tasks: self.tasks.without(id),
                directory: match self.directory {
                    Some(d) => Some(d.dismissed(path, stamp)),
                    None => None,
                },
                ..self
            },
            Some(e) => self.with_tasks(self.tasks.with_status(id, "删除失败："@ + e)),
        }
    }
}

impl Window {
    /// The directory and the tasks of a clean-up, of one task or of the watched
    /// directory; none while another runs or where there is nothing to do.
    pub fn cleanup_candidates(&self, single: Option<i32>) -> (r: Option<(String, Vec<Task>)>)
        ensures
            (match r {
                Some((dir, tasks)) => self.cleanup_directory is None && dir@
                    == self@.cleanup_place(single) && views(tasks@) == self@.cleanup_tasks(single)
                    && tasks.len() > 0,
                None => self.cleanup_directory is Some || self@.cleanup_tasks(single).len() == 0,
            }),
    {
        if self.cleanup_directory.is_some() {
            return None;
        }
        let mut dir = self.settings.directory.clone();
        let mut items: Vec<Task> = Vec::new();
        match single {
            Some(id) => {
                if let Some(i) = self.tasks.find(id) {
                    let t = &self.tasks.rows[i];
                    proof {
                        assert(self@.tasks.rows[i as int] == t@);
                    }
                    if let Some(p) = &t.package.parent {
                        dir = p.clone();
                    }
                    if t.phase == Phase::Completed {
                        items.push(t.duplicate());
                    }
                }
                proof {
                    assert(views(items@) =~= self@.cleanup_tasks(single));
                }
            },
            None => {
                items = self.tasks.candidates(dir.as_str());
            },
        }
        proof {
            assert(views(items@).len() == items.len());
        }
        if items.len() == 0 {
            return None;
        }
        Some((dir, items))
    }

    /// Begins a clean-up that the user confirmed. `checks` says of each task why
    /// it must not be deleted. Gives the tasks to delete and how many were passed
    /// over, nothing where a task of the directory is active.
    pub fn begin_cleanup(
        &mut self,
        dir: &str,
        items: &Vec<Task>,
        checks: &Vec<Option<String>>,
    ) -> (r: Option<(Vec<Task>, usize)>)
        requires
            items.len() == checks.len(),
        ensures
            final(self)@ == old(self)@.cleaning_up(dir@, views(items@), opt_views(checks@)),
            (match r {
                Some((valid, skipped)) => {
                    &&& !any(old(self)@.tasks.rows, active_in(dir@))
                    &&& views(valid@) == deletable(
                        old(self)@.tasks,
                        views(items@),
                        opt_views(checks@),
                        items.len() as int,
                    )
                    &&& valid.len() + skipped == items.len()
                },
                None => any(old(self)@.tasks.rows, active_in(dir@)),
            }),
    {
        let ghost sv = self@;
        let ghost iv = views(items@);
        let ghost cv = opt_views(checks@);
        if self.tasks.has_active_in(dir) {
            self.status = "目录中有活动任务，未执行清理".to_owned();
            return None;
        }
        let mut valid: Vec<Task> = Vec::new();
        let mut skipped: usize = 0;
        let mut i: usize = 0;
        proof {
            assert(views(valid@) =~= deletable(sv.tasks, iv, cv, 0));
        }
        while i < items.len()
            invariant
                i <= items.len(),
                items.len() == checks.len(),
                iv == views(items@),
                cv == opt_views(checks@),
                self@ == sv.with_tasks(marked(sv.tasks, iv, cv, i as int)),
                views(valid@) == deletable(sv.tasks, iv, cv, i as int),
                valid.len() + skipped == i,
            decreases items.len() - i,
        {
            let ghost v = valid@;
            proof {
                assert(iv[i as int] == items@[i as int]@);
                assert(cv[i as int] == opt_view(checks@[i as int]));
            }
            let mut at: Option<usize> = None;
            if let Some(k) = self.tasks.find(items[i].id) {
                proof {
                    assert(self@.tasks.rows[k as int] == self.tasks.rows@[k as int]@);
                }
                if self.tasks.rows[k].phase == Phase::Completed && self.tasks.rows[k].finished
                    == items[i].finished {
                    at = Some(k);
                }
            }
            match at {
                Some(k) => match &checks[i] {
                    None => {
                        valid.push(items[i].duplicate());
                        proof {
                            assert(views(valid@) =~= views(v).push(iv[i as int]));
                        }
                    },
                    Some(e) => {
                        skipped += 1;
                        let text = concat2("清理已跳过：", e.as_str());
                        self.set_status(k, text);
                    },
                },
                None => {
                    skipped += 1;
                },
            }
            i += 1;
            proof {
                assert(self@ =~= sv.with_tasks(marked(sv.tasks, iv, cv, i as int)));
            }
        }
        self.cleanup_directory = Some(dir.to_owned());
        self.cleaning = ids_of(&valid);
        self.status = "正在清理已完成诊断包…".to_owned();
        proof {
            assert(iv.len() == items.len());
            assert(self@ =~= sv.cleaning_up(dir@, iv, cv));
        }
        Some((valid, skipped))
    }

    fn drop_task(&mut self, id: i32)
        ensures
            final(self)@ == old(self)@.with_tasks(old(self)@.tasks.without(id)),
    {
        let ghost sv = self@;
        let f = |t: &Task| -> (r: bool)
            ensures
                r == other_task(id)(t@),
            { t.id != id };
        self.tasks.rows = keep_by(&self.tasks.rows, &f, Ghost(other_task(id)));
        proof {
            assert(self@.tasks =~= sv.tasks.without(id));
            assert(self@ =~= sv.with_tasks(sv.tasks.without(id)));
        }
    }

    fn take_result(&mut self, c: &Cleaned)
        ensures
            final(self)@ == old(self)@.with_tasks(old(self)@.tasks.cleaned(*c)),
    {
        let ghost sv = self@;
        match &c.error {
            None => {
                self.drop_task(c.id);
            },
            Some(e) => {
                if let Some(i) = self.tasks.find(c.id) {
                    proof {
                        assert(sv.tasks.rows[i as int] == self.tasks.rows@[i as int]@);
                    }
                    let mut t = self.tasks.rows[i].duplicate();
                    t.status = if c.skipped {
                        concat2("清理已跳过：", e.as_str())
                    } else {
                        concat2("清理未完成：", e.as_str())
                    };
                    if !c.skipped {
                        t.output_stamp = c.output;
                    }
                    let ghost new = t@;
                    self.tasks.rows.set(i, t);
                    proof {
                        assert(views(self.tasks.rows@) =~= sv.tasks.rows.update(i as int, new));
                        assert(self@.tasks =~= sv.tasks.cleaned(*c));
                    }
                }
                proof {
                    assert(self@ =~= sv.with_tasks(sv.tasks.cleaned(*c)));
                }
            },
        }
    }

    /// Takes in what a clean-up came to.
    pub fn cleanup_ended(&mut self, results: &Vec<Cleaned>, skipped: usize)
        requires
            skipped + results.len() <= usize::MAX,
        ensures
            final(self)@ == old(self)@.cleaned_up(results@, skipped as nat),
    {
        let ghost sv = self@;
        let mut success: usize = 0;
        let mut passed: usize = skipped;
        let mut failed: usize = 0;
        let mut i: usize = 0;
        while i < results.len()
            invariant
                i <= results.len(),
                skipped + results.len() <= usize::MAX,
                self@ == sv.with_tasks(all_cleaned(sv.tasks, results@, i as int)),
                success == tally(results@, was_deleted(), i as int),
                passed == skipped + tally(results@, was_skipped(), i as int),
                failed == tally(results@, has_failed(), i as int),
                success <= i,
                passed <= skipped + i,
                failed <= i,
            decreases results.len() - i,
        {
            let c = &results[i];
            self.take_result(c);
            if c.error.is_none() {
                success += 1;
            } else if c.skipped {
                passed += 1;
            } else {
                failed += 1;
            }
            i += 1;
        }
        self.cleaning = Vec::new();
        self.cleanup_directory = None;
        let a = decimal_text(success as u64);
        let b = decimal_text(passed as u64);
        let c = decimal_text(failed as u64);
        let head = concat5("清理完成：成功 ", a.as_str(), "，跳过 ", b.as_str(), "，失败 ");
        self.status = concat2(head.as_str(), c.as_str());
        proof {
            assert(self@ =~= sv.cleaned_up(results@, skipped as nat));
        }
    }

    /// Whether a damaged package may still be deleted.
    pub fn is_still_damaged(&self, id: i32, finished: u64) -> (r: bool)
        ensures
            r == self@.still_damaged(id, finished),
    {
        match self.tasks.find(id) {
            Some(i) => {
                proof {
                    assert(self@.tasks.rows[i as int] == self.tasks.rows@[i as int]@);
                }
                self.tasks.rows[i].phase == Phase::Damaged && self.tasks.rows[i].finished
                    == finished
            },
            None => false,
        }
    }

    /// Takes in that a damaged package was deleted, or why not. `stamp` is what
    /// the package is now.
    pub fn delete_ended(
        &mut self,
        id: i32,
        path: &str,
        error: &Option<String>,
        stamp: Option<Stamp>,
    )
        ensures
            final(self)@ == old(self)@.damaged_deleted(id, path@, opt_view(*error), stamp),
    {
        let ghost sv = self@;
        match error {
            None => {
                self.drop_task(id);
                self.dismiss(path, stamp);
            },
            Some(e) => {
                if let Some(i) = self.tasks.find(id) {
                    let text = concat2("删除失败：", e.as_str());
                    self.set_status(i, text);
                }
            },
        }
        proof {
            assert(self@ =~= sv.damaged_deleted(id, path@, opt_view(*error), stamp));
        }
    }
}

/// A row of the list of tasks.
#[derive(Clone, Debug)]
pub struct TaskRow {
    pub id: i32,
    /// The name of the package's file.
    pub package: String,
    pub status: String,
    pub active: bool,
    pub cancellable: bool,
    pub completed: bool,
    pub damaged: bool,
    pub cleaning: bool,
}

/// What a `TaskRow` holds.
#[verifier::ext_equal]
pub ghost struct TaskRowView {
    pub id: i32,
    pub package: Seq<char>,
    pub status: Seq<char>,
    pub active: bool,
    pub cancellable: bool,
    pub completed: bool,
    pub damaged: bool,
    pub cleaning: bool,
}

impl View for TaskRow {
    type V = TaskRowView;

    open spec fn view(&self) -> TaskRowView {
        TaskRowView {
            id: self.id,
            package: self.package@,
            status: self.status@,
            active: self.active,
            cancellable: self.cancellable,
            completed: self.completed,
            damaged: self.damaged,
            cleaning: self.cleaning,
        }
    }
}

/// A task as a row.
pub open spec fn task_row(t: TaskView, cleaning: Seq<i32>) -> TaskRowView {
    TaskRowView {
        id: t.id,
        package: t.package.name,
        status: t.status,
        active: t.phase.is_active(),
        cancellable: t.phase == Phase::Waiting || t.phase == Phase::Queued || t.phase
            == Phase::Running,
        completed: t.phase == Phase::Completed,
        damaged: t.phase == Phase::Damaged,
        cleaning: cleaning.contains(t.id),
    }
}

pub open spec fn waits() -> spec_fn(TaskView) -> bool {
    |t: TaskView| t.phase == Phase::Waiting || t.phase == Phase::Queued
}

/// The task of a failure that the user was notified of.
pub open spec fn failed_task(id: i32, path: Seq<char>) -> spec_fn(TaskView) -> bool {
    |t: TaskView| t.id == id && t.package.text == path
}

impl WindowView {
    /// What is shown of the watched directory.
    pub open spec fn shown_status(self) -> Seq<char> {
        if self.status.len() > 0 {
            self.status
        } else if self.settings.watching {
            "正在监控 · 托盘运行时继续处理"@
        } else {
            "仅处理开启后新增或发生变化的 TGZ"@
        }
    }

    /// How many tasks run and how many wait.
    pub open spec fn shown_queue(self) -> Seq<char> {
        "处理中 "@ + decimal(
            if self.tasks.running is Some {
                1
            } else {
                0
            },
        ) + " · 等待 "@ + decimal(kept(self.tasks.rows, waits(), 0).len())
    }
}

impl Window {
    /// The rows of the list of tasks.
    pub fn task_rows(&self) -> (r: Vec<TaskRow>)
        ensures
            views(r@) == self@.tasks.rows.map_values(|t: TaskView| task_row(t, self@.cleaning)),
    {
        let ghost rv = self@.tasks.rows;
        let mut out: Vec<TaskRow> = Vec::new();
        let mut i: usize = 0;
        while i < self.tasks.rows.len()
            invariant
                i <= self.tasks.rows.len(),
                rv == self@.tasks.rows,
                out.len() == i,
                forall|j: int|
                    0 <= j < i ==> (#[trigger] out@[j])@ == task_row(rv[j], self@.cleaning),
            decreases self.tasks.rows.len() - i,
        {
            let t = &self.tasks.rows[i];
            proof {
                assert(rv[i as int] == t@);
            }
            out.push(
                TaskRow {
                    id: t.id,
                    package: t.package.name.clone(),
                    status: t.status.clone(),
                    active: t.phase.active(),
                    cancellable: t.phase == Phase::Waiting || t.phase == Phase::Queued || t.phase
                        == Phase::Running,
                    completed: t.phase == Phase::Completed,
                    damaged: t.phase == Phase::Damaged,
                    cleaning: holds_id(&self.cleaning, t.id),
                },
            );
            i += 1;
        }
        proof {
            assert(views(out@).len() == out.len());
            assert(rv.len() == self.tasks.rows.len());
            assert(views(out@) =~= rv.map_values(|t: TaskView| task_row(t, self@.cleaning)));
        }
        out
    }

    /// What is shown of the watched directory.
    pub fn monitor_text(&self) -> (r: String)
        ensures
            r@ == self@.shown_status(),
    {
        if !self.status.as_str().is_empty() {
            self.status.clone()
        } else if self.settings.watching {
            "正在监控 · 托盘运行时继续处理".to_owned()
        } else {
            "仅处理开启后新增或发生变化的 TGZ".to_owned()
        }
    }

    /// How many tasks run and how many wait.
    pub fn queue_text(&self) -> (r: String)
        ensures
            r@ == self@.shown_queue(),
    {
        let f = |t: &Task| -> (r: bool)
            ensures
                r == waits()(t@),
            { t.phase == Phase::Waiting || t.phase == Phase::Queued };
        let n = count_by(&self.tasks.rows, &f, Ghost(waits()));
        let running: u64 = if self.tasks.running.is_some() {
            1
        } else {
            0
        };
        let a = decimal_text(running);
        let b = decimal_text(n as u64);
        let head = concat3("处理中 ", a.as_str(), " · 等待 ");
        concat2(head.as_str(), b.as_str())
    }

    /// Whether completed tasks of the watched directory can be cleaned up.
    pub fn can_cleanup(&self) -> (r: bool)
        ensures
            r == (self.cleanup_directory is None && self@.cleanup_tasks(None).len() > 0),
    {
        self.cleanup_candidates(None).is_some()
    }

    /// The row of a failure that the user was notified of.
    pub fn find_failed(&self, id: i32, path: &str) -> (r: Option<usize>)
        ensures
            (match r {
                Some(i) => first_place(self@.tasks.rows, failed_task(id, path@), 0) == Some(
                    i as int,
                ),
                None => first_place(self@.tasks.rows, failed_task(id, path@), 0) is None,
            }),
    {
        let f = |t: &Task| -> (r: bool)
            ensures
                r == failed_task(id, path@)(t@),
            { t.id == id && same(t.package.text.as_str(), path) };
        find_by(&self.tasks.rows, &f, Ghost(failed_task(id, path@)))
    }
}

} // verus!
