//! The main window: the tasks of the session, the watched directory and the
//! clean-up of what is done. Analyses and deletions run elsewhere and come back
//! under the identity of their task.

use crate::desktop::settings::{Settings, SettingsView};
use crate::monitor::{DirectoryState, DirectoryStateView};
use crate::select::{any_by, find_by, keep_by};
use crate::tasks::{
    Ending, PackagePath, PackagePathView, Phase, Stamp, Task, TaskView, Tasks, TasksView,
};
use crate::text::{
    any, concat2, concat3, contains, first_place, has, kept, opt_view, same, views, Duplicate,
};
use vstd::prelude::*;

verus! {

/// A package that changed while it was analysed: it waits until it rests.
#[derive(Debug)]
pub struct Deferred {
    pub path: PackagePath,
    pub stamp: Option<Stamp>,
    pub since: u64,
}

/// What a `Deferred` holds.
#[verifier::ext_equal]
pub ghost struct DeferredView {
    pub path: PackagePathView,
    pub stamp: Option<Stamp>,
    pub since: u64,
}

impl View for Deferred {
    type V = DeferredView;

    open spec fn view(&self) -> DeferredView {
        DeferredView { path: self.path@, stamp: self.stamp, since: self.since }
    }
}

impl Duplicate for Deferred {
    fn duplicate(&self) -> (r: Self) {
        Deferred { path: self.path.duplicate(), stamp: self.stamp, since: self.since }
    }
}

/// The state of the main window.
#[derive(Debug)]
pub struct Window {
    pub tasks: Tasks,
    pub deferred: Vec<Deferred>,
    pub directory: Option<DirectoryState>,
    pub settings: Settings,
    pub status: String,
    /// The tasks that are being cleaned up.
    pub cleaning: Vec<i32>,
    /// The directory that is being cleaned up; nothing starts there meanwhile.
    pub cleanup_directory: Option<String>,
}

#[verifier::ext_equal]
pub ghost struct WindowView {
    pub tasks: TasksView,
    pub deferred: Seq<DeferredView>,
    pub directory: Option<DirectoryStateView>,
    pub settings: SettingsView,
    pub status: Seq<char>,
    pub cleaning: Seq<i32>,
    pub cleanup_directory: Option<Seq<char>>,
}

impl View for Window {
    type V = WindowView;

    open spec fn view(&self) -> WindowView {
        WindowView {
            tasks: self.tasks@,
            deferred: views(self.deferred@),
            directory: opt_view(self.directory),
            settings: self.settings@,
            status: self.status@,
            cleaning: self.cleaning@,
            cleanup_directory: opt_view(self.cleanup_directory),
        }
    }
}

pub open spec fn deferred_at(path: Seq<char>) -> spec_fn(DeferredView) -> bool {
    |d: DeferredView| d.path.text == path
}

pub open spec fn deferred_elsewhere(path: Seq<char>) -> spec_fn(DeferredView) -> bool {
    |d: DeferredView| d.path.text != path
}

/// Being a task of a path that is cleaned up.
pub open spec fn cleaned_at(cleaning: Seq<i32>, path: Seq<char>) -> spec_fn(TaskView) -> bool {
    |t: TaskView| t.package.text == path && cleaning.contains(t.id)
}

/// How an analysis ended.
#[derive(Debug)]
pub enum Outcome {
    /// The report was written here; the time that it took, in seconds.
    Done { report: String, seconds: String },
    Failed { cancelled: bool, damaged: bool, text: String },
}

/// The phase that an analysis ends in.
pub open spec fn end_phase(o: Outcome) -> Phase {
    match o {
        Outcome::Done { report, seconds } => Phase::Completed,
        Outcome::Failed { cancelled, damaged, text } => if cancelled {
            Phase::Cancelled
        } else if damaged {
            Phase::Damaged
        } else if has(text@, "发生变化"@) {
            Phase::Waiting
        } else {
            Phase::Failed
        },
    }
}

/// Whether the package changed while it was analysed.
pub open spec fn package_changed(o: Outcome) -> bool {
    match o {
        Outcome::Done { report, seconds } => false,
        Outcome::Failed { cancelled, damaged, text } => !cancelled && has(text@, "发生变化"@),
    }
}

/// What is shown of an analysis that ended.
pub open spec fn end_status(o: Outcome) -> Seq<char> {
    match o {
        Outcome::Done { report, seconds } => "分析完成（耗时 "@ + seconds@ + " 秒）"@,
        Outcome::Failed { cancelled, damaged, text } => if package_changed(o) {
            "文件发生变化，等待稳定后重新分析"@
        } else if damaged {
            "压缩包损坏："@ + text@
        } else {
            text@
        },
    }
}

pub open spec fn end_report(o: Outcome) -> Option<Seq<char>> {
    match o {
        Outcome::Done { report, seconds } => Some(report@),
        Outcome::Failed { cancelled, damaged, text } => None,
    }
}

/// What the user is notified of.
#[derive(Debug)]
pub enum Notice {
    Report(String),
    Failed { id: i32, package: PackagePath, error: String },
}

pub ghost enum NoticeView {
    Report(Seq<char>),
    Failed { id: i32, package: PackagePathView, error: Seq<char> },
}

impl View for Notice {
    type V = NoticeView;

    open spec fn view(&self) -> NoticeView {
        match *self {
            Notice::Report(p) => NoticeView::Report(p@),
            Notice::Failed { id, package, error } => NoticeView::Failed {
                id,
                package: package@,
                error: error@,
            },
        }
    }
}

/// What the user is notified of when a task ended.
pub open spec fn notice_of(t: TaskView) -> Option<NoticeView> {
    if t.phase == Phase::Completed {
        match t.report {
            Some(p) => Some(NoticeView::Report(p)),
            None => None,
        }
    } else if t.phase == Phase::Failed || t.phase == Phase::Damaged {
        Some(NoticeView::Failed { id: t.id, package: t.package, error: t.status })
    } else {
        None
    }
}

/// The packages that wait, with one that changed now.
pub open spec fn deferring(s: Seq<DeferredView>, d: DeferredView) -> Seq<DeferredView> {
    match first_place(s, deferred_at(d.path.text), 0) {
        Some(i) => s.update(i, d),
        None => s.push(d),
    }
}

impl WindowView {
    /// The window after a package was put in the queue; one that is being
    /// cleaned up is passed over.
    pub open spec fn queued(self, path: PackagePathView) -> WindowView {
        if any(self.tasks.rows, cleaned_at(self.cleaning, path.text)) {
            self
        } else {
            WindowView { tasks: self.tasks.enqueued(path), ..self }
        }
    }

    pub open spec fn with_tasks(self, tasks: TasksView) -> WindowView {
        WindowView { tasks, ..self }
    }

    /// Whether the user can stop a task.
    pub open spec fn can_stop(self, id: i32) -> bool {
        self.tasks.place(id) is Some && !self.cleaning.contains(id)
    }

    /// The window after the user stopped a task; its package counts as known.
    pub open spec fn stopped(self, id: i32, stamp: Option<Stamp>) -> WindowView {
        if self.can_stop(id) {
            let path = self.tasks.rows[self.tasks.place(id)->0].package.text;
            WindowView {
                tasks: self.tasks.cancelled(id),
                deferred: kept(self.deferred, deferred_elsewhere(path), 0),
                directory: match self.directory {
                    Some(d) => Some(d.dismissed(path, stamp)),
                    None => None,
                },
                ..self
            }
        } else {
            self
        }
    }

    /// The window after a task was tried again; one that has not ended is left
    /// alone.
    pub open spec fn retried(self, id: i32) -> WindowView {
        match self.tasks.place(id) {
            Some(i) => if self.tasks.rows[i].phase.is_active() {
                self
            } else {
                self.queued(self.tasks.rows[i].package)
            },
            None => self,
        }
    }

    /// The window after a running task told how far it is.
    pub open spec fn progressed(self, id: i32, text: Seq<char>) -> WindowView {
        match self.tasks.place(id) {
            Some(i) => if self.tasks.rows[i].phase == Phase::Running {
                self.with_tasks(
                    self.tasks.with_row(i, TaskView { status: text, ..self.tasks.rows[i] }),
                )
            } else {
                self
            },
            None => self,
        }
    }

    /// How the task of an analysis ends.
    pub open spec fn ending(self, o: Outcome, source: Option<Stamp>, output: Option<Stamp>) -> Ending {
        Ending {
            phase: end_phase(o),
            status: end_status(o),
            report: end_report(o),
            source,
            output,
        }
    }

    /// The window after an analysis ended. A package that changed meanwhile is
    /// kept for another analysis until it rests, and its status says so. Its task
    /// ends as waiting, but as damaged where the package was found damaged too.
    pub open spec fn analysed(
        self,
        id: i32,
        o: Outcome,
        source: Option<Stamp>,
        output: Option<Stamp>,
        stamp: Option<Stamp>,
        now: u64,
    ) -> WindowView {
        match self.tasks.place(id) {
            Some(i) => WindowView {
                tasks: self.tasks.finished(id, self.ending(o, source, output)),
                deferred: if package_changed(o) {
                    deferring(
                        self.deferred,
                        DeferredView { path: self.tasks.rows[i].package, stamp, since: now },
                    )
                } else {
                    self.deferred
                },
                ..self
            },
            None => self,
        }
    }
}

impl Window {
    /// A window without tasks.
    pub fn new(settings: Settings) -> (r: Self)
        ensures
            r@ == (WindowView {
                tasks: crate::tasks::no_tasks(),
                deferred: Seq::empty(),
                directory: None,
                settings: settings@,
                status: Seq::empty(),
                cleaning: Seq::empty(),
                cleanup_directory: None,
            }),
    {
        let r = Window {
            tasks: Tasks::default(),
            deferred: Vec::new(),
            directory: None,
            settings,
            status: String::new(),
            cleaning: Vec::new(),
            cleanup_directory: None,
        };
        proof {
            assert(views(r.deferred@) =~= Seq::<DeferredView>::empty());
            assert(r.status@ =~= Seq::<char>::empty());
        }
        r
    }

    pub(crate) fn is_cleaned(&self, path: &str) -> (r: bool)
        ensures
            r == any(self@.tasks.rows, cleaned_at(self@.cleaning, path@)),
    {
        let cleaning = &self.cleaning;
        let f = |t: &Task| -> (r: bool)
            ensures
                r == cleaned_at(cleaning@, path@)(t@),
            { same(t.package.text.as_str(), path) && crate::tasks::holds_id(cleaning, t.id) };
        any_by(&self.tasks.rows, &f, Ghost(cleaned_at(cleaning@, path@)))
    }

    /// Puts a package in the queue.
    pub fn enqueue(&mut self, path: PackagePath)
        requires
            old(self).tasks.next_id < i32::MAX,
        ensures
            final(self)@ == old(self)@.queued(path@),
    {
        if !self.is_cleaned(path.text.as_str()) {
            self.tasks.enqueue(path);
        }
    }

    pub(crate) fn forget_deferred(&mut self, path: &str)
        ensures
            final(self)@ == (WindowView {
                deferred: kept(old(self)@.deferred, deferred_elsewhere(path@), 0),
                ..old(self)@
            }),
    {
        let f = |d: &Deferred| -> (r: bool)
            ensures
                r == deferred_elsewhere(path@)(d@),
            { !same(d.path.text.as_str(), path) };
        self.deferred = keep_by(&self.deferred, &f, Ghost(deferred_elsewhere(path@)));
    }

    pub(crate) fn dismiss(&mut self, path: &str, stamp: Option<Stamp>)
        ensures
            final(self)@ == (WindowView {
                directory: match old(self)@.directory {
                    Some(d) => Some(d.dismissed(path@, stamp)),
                    None => None,
                },
                ..old(self)@
            }),
    {
        if let Some(d) = &mut self.directory {
            d.dismiss(path, stamp);
        }
    }

    /// Stops a task, and tells whether the running analysis has to be told.
    /// `stamp` is what its package is now.
    pub fn cancel_task(&mut self, id: i32, stamp: Option<Stamp>) -> (r: bool)
        requires
            old(self).tasks.clock < u64::MAX,
        ensures
            final(self)@ == old(self)@.stopped(id, stamp),
            r == (old(self)@.can_stop(id) && old(self)@.tasks.runs(id)),
    {
        let ghost sv = self@;
        let path = match self.tasks.find(id) {
            Some(i) => {
                proof {
                    assert(sv.tasks.rows[i as int] == self.tasks.rows@[i as int]@);
                }
                self.tasks.rows[i].package.text.clone()
            },
            None => {
                return false;
            },
        };
        if crate::tasks::holds_id(&self.cleaning, id) {
            return false;
        }
        let tell = self.tasks.cancel(id);
        self.forget_deferred(path.as_str());
        self.dismiss(path.as_str(), stamp);
        proof {
            assert(self@ =~= sv.stopped(id, stamp));
        }
        tell
    }

    /// Tries a task again.
    pub fn retry(&mut self, id: i32)
        requires
            old(self).tasks.next_id < i32::MAX,
        ensures
            final(self)@ == old(self)@.retried(id),
    {
        let ghost sv = self@;
        if let Some(i) = self.tasks.find(id) {
            proof {
                assert(sv.tasks.rows[i as int] == self.tasks.rows@[i as int]@);
            }
            if !self.tasks.rows[i].phase.active() {
                let path = self.tasks.rows[i].package.duplicate();
                self.enqueue(path);
            }
        }
    }

    /// Shows how far a running task is.
    pub fn progress(&mut self, id: i32, text: &str)
        ensures
            final(self)@ == old(self)@.progressed(id, text@),
    {
        let ghost sv = self@;
        if let Some(i) = self.tasks.find(id) {
            proof {
                assert(sv.tasks.rows[i as int] == self.tasks.rows@[i as int]@);
            }
            if self.tasks.rows[i].phase == Phase::Running {
                self.set_status(i, text.to_owned());
            }
        }
    }

    pub(crate) fn set_status(&mut self, i: usize, text: String)
        requires
            i < old(self).tasks.rows.len(),
        ensures
            final(self)@ == old(self)@.with_tasks(
                old(self)@.tasks.with_row(
                    i as int,
                    TaskView { status: text@, ..old(self)@.tasks.rows[i as int] },
                ),
            ),
    {
        let ghost sv = self@;
        let mut t = self.tasks.rows[i].duplicate();
        let ghost tv = text@;
        t.status = text;
        let ghost new = t@;
        proof {
            assert(sv.tasks.rows[i as int] == self.tasks.rows@[i as int]@);
            assert(new =~= (TaskView { status: tv, ..sv.tasks.rows[i as int] }));
        }
        self.tasks.rows.set(i, t);
        proof {
            assert(views(self.tasks.rows@) =~= sv.tasks.rows.update(i as int, new));
            assert(self@.tasks =~= sv.tasks.with_row(i as int, new));
            assert(self@ =~= sv.with_tasks(sv.tasks.with_row(i as int, new)));
        }
    }

    /// Takes in how an analysis ended, and gives what the user is notified of.
    /// `source` is what the package was when the analysis began, `output` what
    /// the output directory is, `stamp` what the package is now.
    pub fn analysis_ended(
        &mut self,
        id: i32,
        outcome: &Outcome,
        source: Option<Stamp>,
        output: Option<Stamp>,
        stamp: Option<Stamp>,
        now: u64,
    ) -> (r: Option<Notice>)
        requires
            old(self).tasks.clock < u64::MAX,
        ensures
            final(self)@ == old(self)@.analysed(id, *outcome, source, output, stamp, now),
            opt_view(r) == (if old(self)@.tasks.place(id) is None {
                None
            } else {
                match final(self)@.tasks.place(id) {
                    Some(i) => notice_of(final(self)@.tasks.rows[i]),
                    None => None,
                }
            }),
    {
        let ghost sv = self@;
        let path = match self.tasks.find(id) {
            Some(i) => {
                proof {
                    assert(sv.tasks.rows[i as int] == self.tasks.rows@[i as int]@);
                }
                self.tasks.rows[i].package.duplicate()
            },
            None => {
                return None;
            },
        };
        let ghost pv = path@;
        match outcome {
            Outcome::Done { report, seconds } => {
                let status = concat3("分析完成（耗时 ", seconds.as_str(), " 秒）");
                self.tasks.finish(
                    id,
                    Phase::Completed,
                    status,
                    Some(report.clone()),
                    source,
                    output,
                );
            },
            Outcome::Failed { cancelled, damaged, text } => {
                let moved = contains(text.as_str(), "发生变化");
                let changed = !*cancelled && moved;
                let phase = if *cancelled {
                    Phase::Cancelled
                } else if *damaged {
                    Phase::Damaged
                } else if changed {
                    Phase::Waiting
                } else {
                    Phase::Failed
                };
                let status = if changed {
                    "文件发生变化，等待稳定后重新分析".to_owned()
                } else if *damaged {
                    concat2("压缩包损坏：", text.as_str())
                } else {
                    text.clone()
                };
                self.tasks.finish(id, phase, status, None, source, output);
                if changed {
                    self.defer(Deferred { path, stamp, since: now });
                }
            },
        }
        proof {
            assert(self@ =~= sv.analysed(id, *outcome, source, output, stamp, now));
        }
        match self.tasks.get(id) {
            Some(t) => notice_for(t),
            None => None,
        }
    }

    fn defer(&mut self, d: Deferred)
        ensures
            final(self)@ == (WindowView {
                deferred: deferring(old(self)@.deferred, d@),
                ..old(self)@
            }),
    {
        let ghost sv = self@;
        let ghost dv = d@;
        let path = d.path.text.clone();
        let f = |d: &Deferred| -> (r: bool)
            ensures
                r == deferred_at(path@)(d@),
            { same(d.path.text.as_str(), path.as_str()) };
        match find_by(&self.deferred, &f, Ghost(deferred_at(path@))) {
            Some(i) => {
                self.deferred.set(i, d);
                proof {
                    assert(views(self.deferred@) =~= sv.deferred.update(i as int, dv));
                }
            },
            None => {
                self.deferred.push(d);
                proof {
                    assert(views(self.deferred@) =~= sv.deferred.push(dv));
                }
            },
        }
    }
}

fn notice_for(t: &Task) -> (r: Option<Notice>)
    ensures
        opt_view(r) == notice_of(t@),
{
    match t.phase {
        Phase::Completed => match &t.report {
            Some(p) => Some(Notice::Report(p.clone())),
            None => None,
        },
        Phase::Failed | Phase::Damaged => Some(
            Notice::Failed {
                id: t.id,
                package: t.package.duplicate(),
                error: t.status.clone(),
            },
        ),
        _ => None,
    }
}

} // verus!
