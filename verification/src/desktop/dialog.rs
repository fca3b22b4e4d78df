//! The dialogs of the windows: what they show when they open, and their steps.

use crate::desktop::draft::{Draft, DraftView};
use crate::desktop::edit::{file_of_form, DraftOutcome, EditForm};
use crate::desktop::form::basics_missing;
use crate::desktop::rule_form::{clamped_width, fill_layout, panel_width, LayoutForm};
use crate::desktop::settings::{Settings, SettingsView};
use crate::fault::{refusal, Fault, FaultKind, FaultView};
use crate::outside::clock::now_nanos;
use crate::rules::catalog::{file_place, find_file};
use crate::rules::edit::{stamped, stamped_id};
use crate::rules::model::{LayoutView, LogFileView, RuleSetView};
use crate::tasks::{Task, TaskView};
use crate::text::{blank, concat2, duplicate_all, join, joined, opt_view, same, views};
use vstd::prelude::*;
use vstd::string::*;

verus! {

/// The texts of a list with one of them changed; a place that is not there
/// changes nothing.
pub open spec fn term_edited(terms: Seq<Seq<char>>, i: i32, value: Seq<char>) -> Seq<Seq<char>> {
    if 0 <= i < terms.len() {
        terms.update(i as int, value)
    } else {
        terms
    }
}

/// Changes one of the terms of a form; gives the terms and their text.
pub fn edit_term(terms: &Vec<String>, i: i32, value: &str) -> (r: (Vec<String>, String))
    ensures
        views(r.0@) == term_edited(views(terms@), i, value@),
        r.1@ == joined(term_edited(views(terms@), i, value@), "\n"@),
{
    let mut out = duplicate_all(terms);
    proof {
        assert(views(out@).len() == out.len());
    }
    if i >= 0 && (i as usize) < out.len() {
        out.set(i as usize, value.to_owned());
        proof {
            assert(views(out@) =~= views(terms@).update(i as int, value@));
        }
    }
    let text = join(&out, "\n");
    (out, text)
}

/// The texts of a list without one of them; a place that is not there changes
/// nothing.
pub open spec fn term_removed(terms: Seq<Seq<char>>, i: i32) -> Seq<Seq<char>> {
    if 0 <= i < terms.len() {
        terms.remove(i as int)
    } else {
        terms
    }
}

/// Removes one of the terms of a form; gives the terms and their text.
pub fn remove_term(terms: &Vec<String>, i: i32) -> (r: (Vec<String>, String))
    ensures
        views(r.0@) == term_removed(views(terms@), i),
        r.1@ == joined(term_removed(views(terms@), i), "\n"@),
{
    let mut out = duplicate_all(terms);
    proof {
        assert(views(out@).len() == out.len());
    }
    if i >= 0 && (i as usize) < out.len() {
        let ghost was = views(out@);
        out.remove(i as usize);
        proof {
            assert(views(out@) =~= was.remove(i as int));
        }
    }
    let text = join(&out, "\n");
    (out, text)
}

/// The form of a log file of the catalogue.
#[derive(Debug)]
pub struct FileForm {
    pub id: String,
    pub name: String,
    pub path: String,
    pub mode: i32,
    pub container: i32,
}

/// What a `FileForm` holds.
#[verifier::ext_equal]
pub ghost struct FileFormView {
    pub id: Seq<char>,
    pub name: Seq<char>,
    pub path: Seq<char>,
    pub mode: i32,
    pub container: i32,
}

impl View for FileForm {
    type V = FileFormView;

    open spec fn view(&self) -> FileFormView {
        FileFormView {
            id: self.id@,
            name: self.name@,
            path: self.path@,
            mode: self.mode,
            container: self.container,
        }
    }
}

/// The place of the way in which a path is compared.
pub open spec fn mode_place(mode: Seq<char>) -> i32 {
    if mode == "path"@ {
        1
    } else if mode == "exact"@ {
        2
    } else {
        0
    }
}

/// What the form shows of a log file.
pub open spec fn file_shown(f: LogFileView) -> FileFormView {
    FileFormView {
        id: f.id,
        name: f.name,
        path: f.path,
        mode: mode_place(f.mode),
        container: if f.container == "zip"@ {
            1
        } else {
            0
        },
    }
}

/// What the form shows of a log file that there is not yet.
pub open spec fn empty_file_form() -> FileFormView {
    FileFormView {
        id: Seq::empty(),
        name: Seq::empty(),
        path: Seq::empty(),
        mode: 0,
        container: 0,
    }
}

/// Whether a log file with this identity in its form is saved under the other: the
/// same, or one from the clock where it has none.
pub open spec fn given_id(form: Seq<char>, id: Seq<char>) -> bool {
    if form.len() > 0 {
        id == form
    } else {
        exists|n: i64| #[trigger] stamped("log-file-"@, n) == id
    }
}

/// Whether saving a log file ended so: it is saved where nothing is wrong with it,
/// else nothing changes.
pub open spec fn file_saved(
    before: DraftView,
    f: LogFileView,
    r: Result<(), Fault>,
    after: DraftView,
) -> bool {
    match r {
        Ok(_) => before.rules.save_fault(f) is None && after == before.with_saved_file(f),
        Err(e) => before.rules.save_fault(f) == Some(e@) && after == before,
    }
}

impl DraftView {
    /// The draft with another file shown and nothing selected.
    pub open spec fn showing(self, file: Seq<char>) -> DraftView {
        DraftView { active: file, selected: None, ..self.flushed() }
    }

    pub open spec fn with_layout(self, layout: LayoutView) -> DraftView {
        DraftView { rules: RuleSetView { layout, ..self.rules }, ..self }
    }

    /// The draft with the width of the list of files.
    pub open spec fn with_panel_width(self, width: u32) -> DraftView {
        if self.rules.layout.file_panel_width == panel_width(width) {
            self
        } else {
            DraftView {
                dirty: true,
                ..self.with_layout(
                    LayoutView { file_panel_width: panel_width(width), ..self.rules.layout },
                )
            }
        }
    }

    /// What the form of a log file shows: the one that is shown, or a new one.
    pub open spec fn file_form(self, new: bool) -> FileFormView {
        match file_place(self.rules.log_files, self.active) {
            Some(i) => if new {
                empty_file_form()
            } else {
                file_shown(self.rules.log_files[i])
            },
            None => empty_file_form(),
        }
    }

    /// Why a step of the dialog of a new rule cannot be left: the first needs a
    /// name and a log file, the others rules that are valid with the new one.
    pub open spec fn step_fault(
        self,
        step: i32,
        form: EditForm,
        typed: Seq<char>,
        source: Seq<char>,
    ) -> Option<FaultView> {
        if step == 0 {
            if blank(form.name()) || blank(source) {
                Some(refusal(FaultKind::BasicsMissing, Seq::empty()))
            } else {
                None
            }
        } else {
            match self.candidate(form, typed) {
                DraftOutcome::Made(d) => d.rules.fault(),
                DraftOutcome::Refused(f) => Some(f),
            }
        }
    }
}

impl Draft {
    /// Shows another file.
    pub fn select_file(&mut self, file: &str)
        ensures
            final(self)@ == old(self)@.showing(file@),
            old(self)@.wf() ==> final(self)@.wf(),
    {
        let ghost sv = self@;
        self.flush();
        self.active = file.to_owned();
        self.selected = None;
        proof {
            assert(self@ =~= sv.showing(file@));
        }
    }

    /// Opens a rule in a dialog.
    pub fn open_rule(&mut self)
        ensures
            final(self)@ == (DraftView { editing: true, ..old(self)@ }),
    {
        self.editing = true;
    }

    /// Closes the dialog of a rule without taking anything over.
    pub fn cancel_dialog(&mut self)
        ensures
            final(self)@ == (DraftView { editing: false, ..old(self)@ }),
    {
        self.editing = false;
    }

    /// Selects the rule of a row and opens it; gives the copy that it is edited
    /// in, or nothing where the row has no rule.
    pub fn select_rule(&mut self, row: i32) -> (r: Option<Draft>)
        requires
            old(self)@.wf(),
        ensures
            ({
                let d = DraftView {
                    selected: old(self)@.row_rule(row as int),
                    ..old(self)@.flushed()
                };
                &&& opt_view(r) == (if d.selected is Some {
                    Some(d.forked())
                } else {
                    None
                })
                &&& final(self)@ == (DraftView { editing: d.editing || d.selected is Some, ..d })
                &&& final(self)@.wf()
            }),
    {
        self.choose_row(row);
        if self.selected.is_none() {
            return None;
        }
        let edit = self.fork();
        self.open_rule();
        Some(edit)
    }

    /// Saves the form of a log file; one without an identity gets one from the
    /// clock.
    pub fn save_file_form(&mut self, form: &FileForm) -> (r: Result<(), Fault>)
        ensures
            exists|id: Seq<char>|
                given_id(form@.id, id) && #[trigger] file_saved(
                    old(self)@,
                    file_of_form(id, form@.name, form@.path, form.mode, form.container),
                    r,
                    final(self)@,
                ),
    {
        let id = if form.id.as_str().is_empty() {
            stamped_id("log-file-", now_nanos())
        } else {
            form.id.clone()
        };
        let r = self.save_file(
            id.as_str(),
            form.name.as_str(),
            form.path.as_str(),
            form.mode,
            form.container,
        );
        proof {
            assert(given_id(form@.id, id@));
            assert(file_saved(
                old(self)@,
                file_of_form(id@, form@.name, form@.path, form.mode, form.container),
                r,
                self@,
            ));
        }
        r
    }

    /// Takes over the form of the layout, which only its own section shows.
    pub fn apply_layout(&mut self, form: &LayoutForm)
        ensures
            final(self)@ == (if old(self).section == 3 {
                old(self)@.with_layout(form.filled(old(self)@.rules.layout))
            } else {
                old(self)@
            }),
    {
        let ghost sv = self@;
        if self.section == 3 {
            self.rules.layout = fill_layout(&self.rules.layout, form);
            proof {
                assert(self@.rules =~= sv.with_layout(form.filled(sv.rules.layout)).rules);
                assert(self@ =~= sv.with_layout(form.filled(sv.rules.layout)));
            }
        }
    }

    /// Takes over the width of the list of files, within its limits.
    pub fn set_panel_width(&mut self, width: u32)
        ensures
            final(self)@ == old(self)@.with_panel_width(width),
    {
        let ghost sv = self@;
        let width = clamped_width(width);
        if self.rules.layout.file_panel_width != width {
            self.rules.layout.file_panel_width = width;
            self.dirty = true;
            proof {
                let layout = LayoutView { file_panel_width: width, ..sv.rules.layout };
                assert(self@.rules.layout =~= layout);
                assert(self@.rules =~= sv.with_layout(layout).rules);
                assert(self@ =~= (DraftView { dirty: true, ..sv.with_layout(layout) }));
            }
        }
    }

    /// What the form of a log file shows when it opens.
    pub fn file_form(&self, new: bool) -> (r: FileForm)
        ensures
            r@ == self@.file_form(new),
    {
        let found = find_file(&self.rules.log_files, self.active.as_str());
        if let Some(i) = found {
            if !new {
                let f = &self.rules.log_files[i];
                proof {
                    assert(self@.rules.log_files[i as int] == f@);
                }
                let mode = f.mode.as_str();
                let r = FileForm {
                    id: f.id.clone(),
                    name: f.name.clone(),
                    path: f.path.clone(),
                    mode: if same(mode, "path") {
                        1
                    } else if same(mode, "exact") {
                        2
                    } else {
                        0
                    },
                    container: if same(f.container.as_str(), "zip") {
                        1
                    } else {
                        0
                    },
                };
                proof {
                    assert(r@ =~= file_shown(f@));
                }
                return r;
            }
        }
        let r = FileForm {
            id: String::new(),
            name: String::new(),
            path: String::new(),
            mode: 0,
            container: 0,
        };
        proof {
            assert(r@ =~= empty_file_form());
        }
        r
    }

    /// The next step of the dialog of a new rule; `source` is what it shows of
    /// the chosen log files.
    pub fn next_step(&self, step: i32, form: &EditForm, typed: &str, source: &str) -> (r: Result<
        i32,
        Fault,
    >)
        requires
            self@.wf(),
            form.wf(),
            (self.section == 1) == (form is Table),
            step < i32::MAX,
        ensures
            (match r {
                Ok(n) => self@.step_fault(step, *form, typed@, source@) is None && n == step + 1,
                Err(f) => self@.step_fault(step, *form, typed@, source@) == Some(f@),
            }),
    {
        if step == 0 {
            let missing = match form {
                EditForm::Rule(f) => basics_missing(f.name.as_str(), source),
                EditForm::Table(f) => basics_missing(f.name.as_str(), source),
            };
            if missing {
                return Err(Fault::plain(FaultKind::BasicsMissing));
            }
        } else {
            match self.candidate(form, typed) {
                Ok(d) => {
                    if let Err(f) = d.rules.validate() {
                        return Err(f);
                    }
                },
                Err(f) => {
                    return Err(f);
                },
            }
        }
        Ok(step + 1)
    }
}

/// What the form of a server shows: the one that was saved, else the usual file
/// name.
pub open spec fn server_shown(s: SettingsView) -> (Seq<char>, Seq<char>, Seq<char>) {
    match s.webdav {
        Some(c) => (c.url, c.remote_path, c.username),
        None => (Seq::empty(), "rules.json"@, Seq::empty()),
    }
}

/// What the form of a server shows when it opens: address, file and user.
pub fn reset_webdav_form(settings: &Settings) -> (r: (String, String, String))
    ensures
        (r.0@, r.1@, r.2@) == server_shown(settings@),
{
    match &settings.webdav {
        Some(c) => (c.url.clone(), c.remote_path.clone(), c.username.clone()),
        None => {
            let none = String::new();
            proof {
                assert(none@ =~= Seq::<char>::empty());
            }
            (none.clone(), "rules.json".to_owned(), none)
        },
    }
}

/// What the settings show of the start-up entry: whether it is there, and what is
/// said of it. Where it cannot be read, what was saved is shown.
pub open spec fn startup_shown(s: SettingsView, looked: Result<Option<String>, String>) -> (
    bool,
    Seq<char>,
) {
    match looked {
        Ok(Some(_)) => (true, "已保存：开机自启已开启"@),
        Ok(None) => (false, "已保存：开机自启未开启"@),
        Err(e) => (s.autostart, "无法读取启动项："@ + e@),
    }
}

/// What the settings show of the start-up entry when they open.
pub fn open_settings(settings: &Settings, looked: &Result<Option<String>, String>) -> (r: (
    bool,
    String,
))
    ensures
        (r.0, r.1@) == startup_shown(settings@, *looked),
{
    match looked {
        Ok(Some(_)) => (true, "已保存：开机自启已开启".to_owned()),
        Ok(None) => (false, "已保存：开机自启未开启".to_owned()),
        Err(e) => (settings.autostart, concat2("无法读取启动项：", e.as_str())),
    }
}

/// Whether the main window stays hidden when the program starts.
pub fn starts_hidden(settings: &Settings, with_system: bool) -> (r: bool)
    ensures
        r == (with_system && settings.start_minimized),
{
    with_system && settings.start_minimized
}

/// What is told of a task; where its report is there it can be opened.
pub open spec fn task_details(t: TaskView, report: bool) -> Seq<char> {
    t.package.text + "\n\n"@ + t.status + (if report {
        "\n\n打开已生成的报告？"@
    } else {
        Seq::empty()
    })
}

/// What is told of a task.
pub fn details_text(task: &Task, report: bool) -> (r: String)
    ensures
        r@ == task_details(task@, report),
{
    let mut out = concat2(task.package.text.as_str(), "\n\n");
    out.append(task.status.as_str());
    if report {
        out.append("\n\n打开已生成的报告？");
    } else {
        proof {
            assert(out@ + Seq::<char>::empty() =~= out@);
        }
    }
    out
}

} // verus!
