//! Editing one rule in a copy of the draft, the catalogue of log files, and what
//! is exported.

use crate::desktop::draft::{Draft, DraftView};
use crate::desktop::form::{add_term, mode_name, source_mode, term_added};
use crate::desktop::rule_form::{fill_rule, fill_system, RuleForm, SystemForm};
use crate::fault::{refusal, Fault, FaultKind, FaultView};
use crate::rules::catalog::{file_place, find_file};
use crate::rules::edit::{new_rule, new_system_rule, rule_with_id, system_rule_with_id};
use crate::rules::model::{
    LogFile, LogFileView, Rule, RuleSetView, RuleView, SystemRule, SystemRuleView,
};
use crate::text::{
    blank, concat2, is_blank, opt_view, replace_char, swap_char, trim, trimmed, views, Class,
    Duplicate,
};
use vstd::prelude::*;

verus! {

/// A rule as its form shows it.
#[derive(Debug)]
pub enum EditForm {
    Rule(RuleForm),
    Table(SystemForm),
}

impl EditForm {
    pub open spec fn wf(self) -> bool {
        match self {
            EditForm::Rule(f) => f.wf(),
            EditForm::Table(f) => f.wf(),
        }
    }

    pub open spec fn name(self) -> Seq<char> {
        match self {
            EditForm::Rule(f) => f.name@,
            EditForm::Table(f) => f.name@,
        }
    }
}

/// A draft or why there is none.
pub ghost enum DraftOutcome {
    Made(DraftView),
    Refused(FaultView),
}

pub open spec fn draft_outcome(r: Result<Draft, Fault>) -> DraftOutcome {
    match r {
        Ok(d) => DraftOutcome::Made(d@),
        Err(f) => DraftOutcome::Refused(f@),
    }
}

/// A rule with what its form says, with the term that is still being typed.
pub open spec fn rule_filled(form: RuleForm, typed: Seq<char>, r: RuleView) -> RuleView {
    RuleView {
        terms: crate::desktop::form::entries_of(term_added(form.terms@, typed)),
        ..form.filled(r)
    }
}

impl DraftView {
    pub open spec fn with_system_at(self, i: int, r: SystemRuleView) -> DraftView {
        DraftView {
            rules: RuleSetView { system: self.rules.system.update(i, r), ..self.rules },
            ..self
        }
    }

    pub open spec fn with_rule_at(self, i: int, r: RuleView) -> DraftView {
        DraftView {
            rules: RuleSetView { rules: self.rules.rules.update(i, r), ..self.rules },
            ..self
        }
    }

    /// The draft with its references resolved, where they can be.
    pub open spec fn resolving(self) -> DraftOutcome {
        match self.rules.reference_fault() {
            Some(f) => DraftOutcome::Refused(f),
            None => DraftOutcome::Made(DraftView { rules: self.rules.resolved(), ..self }),
        }
    }

    /// The draft after the form of the selected rule was taken over.
    pub open spec fn applied(self, form: EditForm, typed: Seq<char>) -> DraftOutcome {
        match self.selected {
            Some(i) => match form {
                EditForm::Table(f) => match f.filled(self.rules.system[i as int]) {
                    Some(r) => self.with_system_at(i as int, r).resolving(),
                    None => DraftOutcome::Refused(refusal(FaultKind::ChooseFile, Seq::empty())),
                },
                EditForm::Rule(f) => self.with_rule_at(
                    i as int,
                    rule_filled(f, typed, self.rules.rules[i as int]),
                ).resolving(),
            },
            None => DraftOutcome::Made(self),
        }
    }

    /// What a form makes of a copy of the draft: refused where the form cannot
    /// be taken over or has no name.
    pub open spec fn candidate(self, form: EditForm, typed: Seq<char>) -> DraftOutcome {
        match self.forked().applied(form, typed) {
            DraftOutcome::Made(d) => if blank(form.name()) {
                DraftOutcome::Refused(refusal(FaultKind::NameMissing, Seq::empty()))
            } else {
                DraftOutcome::Made(d)
            },
            refused => refused,
        }
    }

    /// The draft after an edited copy was taken back; its rule is shown unfolded.
    pub open spec fn committed(self, edit: DraftView) -> DraftView {
        let id = edit.selected_id();
        (DraftView {
            expanded: match id {
                Some(id) => if self.expanded.contains(id) {
                    self.expanded
                } else {
                    self.expanded.push(id)
                },
                None => self.expanded,
            },
            rules: edit.rules,
            indices: Seq::empty(),
            dirty: true,
            editing: false,
            ..self
        }).selecting(id)
    }
}

impl Draft {
    fn resolve(self) -> (r: Result<Draft, Fault>)
        ensures
            draft_outcome(r) == self@.resolving(),
    {
        let ghost sv = self@;
        let mut d = self;
        if let Err(f) = d.rules.resolve_sources() {
            return Err(f);
        }
        proof {
            assert(d@ =~= (DraftView { rules: sv.rules.resolved(), ..sv }));
        }
        Ok(d)
    }

    /// The copy of the draft that a form makes, which is checked and previewed
    /// before it is taken back.
    pub fn candidate(&self, form: &EditForm, typed: &str) -> (r: Result<Draft, Fault>)
        requires
            self@.wf(),
            form.wf(),
            (self.section == 1) == (form is Table),
        ensures
            draft_outcome(r) == self@.candidate(*form, typed@),
    {
        let edit = match self.fork().apply(form, typed) {
            Ok(d) => d,
            Err(f) => {
                return Err(f);
            },
        };
        let nameless = match form {
            EditForm::Rule(f) => is_blank(f.name.as_str()),
            EditForm::Table(f) => is_blank(f.name.as_str()),
        };
        if nameless {
            return Err(Fault::plain(FaultKind::NameMissing));
        }
        Ok(edit)
    }

    fn apply(self, form: &EditForm, typed: &str) -> (r: Result<Draft, Fault>)
        requires
            self@.wf(),
            form.wf(),
            (self.section == 1) == (form is Table),
        ensures
            draft_outcome(r) == self@.applied(*form, typed@),
    {
        let ghost sv = self@;
        let mut d = self;
        let i = match d.selected {
            Some(i) => i,
            None => {
                return Ok(d);
            },
        };
        match form {
            EditForm::Table(f) => {
                proof {
                    assert(sv.rules.system[i as int] == d.rules.system@[i as int]@);
                }
                match fill_system(&d.rules.system[i], f) {
                    Some(r) => {
                        let ghost new = r@;
                        d.rules.system.set(i, r);
                        proof {
                            assert(views(d.rules.system@) =~= sv.rules.system.update(
                                i as int,
                                new,
                            ));
                            assert(d@.rules =~= sv.with_system_at(i as int, new).rules);
                            assert(d@ =~= sv.with_system_at(i as int, new));
                        }
                    },
                    None => {
                        return Err(Fault::plain(FaultKind::ChooseFile));
                    },
                }
            },
            EditForm::Rule(f) => {
                proof {
                    assert(sv.rules.rules[i as int] == d.rules.rules@[i as int]@);
                }
                let mut r = fill_rule(&d.rules.rules[i], f);
                let terms = add_term(f.terms.as_str(), typed);
                r.terms = crate::desktop::form::strings(terms.as_str());
                let ghost new = r@;
                proof {
                    assert(new =~= rule_filled(*f, typed@, sv.rules.rules[i as int]));
                }
                d.rules.rules.set(i, r);
                proof {
                    assert(views(d.rules.rules@) =~= sv.rules.rules.update(i as int, new));
                    assert(d@.rules =~= sv.with_rule_at(i as int, new).rules);
                    assert(d@ =~= sv.with_rule_at(i as int, new));
                }
            },
        }
        d.resolve()
    }

    /// Takes an edited copy back where its rules are valid.
    pub fn commit(&mut self, edit: &Draft) -> (r: Result<(), Fault>)
        requires
            edit@.wf(),
            edit.section == old(self).section,
        ensures
            (match r {
                Ok(_) => edit@.rules.fault() is None && final(self)@ == old(self)@.committed(edit@)
                    && final(self)@.wf(),
                Err(f) => edit@.rules.fault() == Some(f@) && final(self)@ == old(self)@,
            }),
    {
        if let Err(f) = edit.rules.validate() {
            return Err(f);
        }
        let ghost sv = self@;
        let id = edit.selected_id();
        if let Some(id) = &id {
            if !crate::text::lists(&self.expanded, id.as_str()) {
                self.expanded.push(id.clone());
                proof {
                    assert(views(self.expanded@) =~= sv.expanded.push(id@));
                }
            }
        }
        self.rules = edit.rules.duplicate();
        self.indices = Vec::new();
        self.dirty = true;
        self.editing = false;
        self.select_id(&id);
        proof {
            assert(self@ =~= sv.committed(edit@));
        }
        Ok(())
    }
}

/// The keyword rule that a new one in a file starts from.
pub open spec fn fresh_rule(id: Seq<char>, file: Seq<char>, timeline: bool) -> RuleView {
    RuleView {
        name: Seq::empty(),
        target: if timeline {
            "timeline"@
        } else {
            "keywords"@
        },
        source_file_ids: seq![file],
        ..new_rule(id)
    }
}

/// The table that a new one in a file starts from.
pub open spec fn fresh_system_rule(id: Seq<char>, file: Seq<char>) -> SystemRuleView {
    SystemRuleView { name: Seq::empty(), source_file_id: file, ..new_system_rule(id) }
}

impl DraftView {
    /// The draft with a rule at the end, which is selected.
    pub open spec fn with_new_rule(self, r: RuleView) -> DraftView {
        DraftView {
            rules: RuleSetView { rules: self.rules.rules.push(r), ..self.rules },
            selected: Some(self.rules.rules.len() as usize),
            ..self
        }
    }

    /// The draft with a table at the end, which is selected.
    pub open spec fn with_new_system(self, r: SystemRuleView) -> DraftView {
        DraftView {
            rules: RuleSetView { system: self.rules.system.push(r), ..self.rules },
            selected: Some(self.rules.system.len() as usize),
            ..self
        }
    }

    /// A copy of the draft with a new rule in the file that is shown.
    pub open spec fn adding(self, id: Seq<char>) -> DraftOutcome {
        let d = self.forked();
        if file_place(d.rules.log_files, d.active) is None {
            DraftOutcome::Refused(refusal(FaultKind::NoLogFile, Seq::empty()))
        } else if d.section == 1 {
            d.with_new_system(fresh_system_rule(id, d.active)).resolving()
        } else {
            d.with_new_rule(fresh_rule(id, d.active, d.section == 2)).resolving()
        }
    }

    /// A copy of the draft with a copy of the selected rule under another
    /// identity.
    pub open spec fn copying(self, id: Seq<char>) -> Option<DraftView> {
        let d = self.forked();
        match d.selected {
            Some(i) => Some(
                if d.section == 1 {
                    let r = d.rules.system[i as int];
                    d.with_new_system(SystemRuleView { id, name: r.name + " 副本"@, ..r })
                } else {
                    let r = d.rules.rules[i as int];
                    d.with_new_rule(RuleView { id, name: r.name + " 副本"@, ..r })
                },
            ),
            None => None,
        }
    }
}

impl Draft {
    fn push_rule(&mut self, r: Rule)
        ensures
            final(self)@ == old(self)@.with_new_rule(r@),
    {
        let ghost sv = self@;
        let ghost rv = r@;
        proof {
            assert(sv.rules.rules.len() == self.rules.rules.len());
        }
        let n = self.rules.rules.len();
        self.rules.rules.push(r);
        self.selected = Some(n);
        proof {
            assert(views(self.rules.rules@) =~= sv.rules.rules.push(rv));
            assert(self@.rules =~= sv.with_new_rule(rv).rules);
            assert(self@ =~= sv.with_new_rule(rv));
        }
    }

    fn push_system(&mut self, r: SystemRule)
        ensures
            final(self)@ == old(self)@.with_new_system(r@),
    {
        let ghost sv = self@;
        let ghost rv = r@;
        proof {
            assert(sv.rules.system.len() == self.rules.system.len());
        }
        let n = self.rules.system.len();
        self.rules.system.push(r);
        self.selected = Some(n);
        proof {
            assert(views(self.rules.system@) =~= sv.rules.system.push(rv));
            assert(self@.rules =~= sv.with_new_system(rv).rules);
            assert(self@ =~= sv.with_new_system(rv));
        }
    }

    /// A copy with a new rule in the file that is shown.
    pub fn add_rule(&self, id: String) -> (r: Result<Draft, Fault>)
        ensures
            draft_outcome(r) == self@.adding(id@),
    {
        let ghost idv = id@;
        let mut d = self.fork();
        if find_file(&d.rules.log_files, d.active.as_str()).is_none() {
            return Err(Fault::plain(FaultKind::NoLogFile));
        }
        if d.section == 1 {
            let mut r = system_rule_with_id(id);
            r.name = String::new();
            r.source_file_id = d.active.clone();
            proof {
                assert(r@ =~= fresh_system_rule(idv, d@.active));
            }
            d.push_system(r);
        } else {
            let mut r = rule_with_id(id);
            r.name = String::new();
            r.target = if d.section == 2 {
                "timeline".to_owned()
            } else {
                "keywords".to_owned()
            };
            let mut files: Vec<String> = Vec::new();
            files.push(d.active.clone());
            r.source_file_ids = files;
            proof {
                assert(r@.source_file_ids =~= seq![d@.active]);
                assert(r@ =~= fresh_rule(idv, d@.active, d.section == 2));
            }
            d.push_rule(r);
        }
        d.resolve()
    }

    /// A copy with a copy of the selected rule.
    pub fn copy_rule(&self, id: String) -> (r: Option<Draft>)
        requires
            self@.wf(),
        ensures
            opt_view(r) == self@.copying(id@),
    {
        let ghost idv = id@;
        let mut d = self.fork();
        let ghost dv = d@;
        let i = match d.selected {
            Some(i) => i,
            None => {
                return None;
            },
        };
        if d.section == 1 {
            proof {
                assert(dv.rules.system[i as int] == d.rules.system@[i as int]@);
            }
            let mut r = d.rules.system[i].duplicate();
            r.id = id;
            r.name = concat2(r.name.as_str(), " 副本");
            d.push_system(r);
        } else {
            proof {
                assert(dv.rules.rules[i as int] == d.rules.rules@[i as int]@);
            }
            let mut r = d.rules.rules[i].duplicate();
            r.id = id;
            r.name = concat2(r.name.as_str(), " 副本");
            d.push_rule(r);
        }
        proof {
            assert(Some(d@) =~= self@.copying(idv));
        }
        Some(d)
    }
}

/// The log file that the form of the catalogue stands for.
pub open spec fn file_of_form(
    id: Seq<char>,
    name: Seq<char>,
    path: Seq<char>,
    mode: i32,
    container: i32,
) -> LogFileView {
    LogFileView {
        id,
        name: trim(name, Class::White),
        path: swap_char(trim(path, Class::White), '\\', '/'),
        mode: mode_name(mode),
        container: if container == 0 {
            "diagnostic_archive"@
        } else {
            "zip"@
        },
    }
}

impl DraftView {
    /// The draft after a log file was saved, which is the one that is shown.
    pub open spec fn with_saved_file(self, f: LogFileView) -> DraftView {
        DraftView {
            rules: self.rules.with_file(f).resolved(),
            active: f.id,
            dirty: true,
            ..self
        }
    }
}

impl Draft {
    /// Saves the form of a log file; it is the one that is shown then.
    pub fn save_file(
        &mut self,
        id: &str,
        name: &str,
        path: &str,
        mode: i32,
        container: i32,
    ) -> (r: Result<(), Fault>)
        ensures
            ({
                let f = file_of_form(id@, name@, path@, mode, container);
                let s = old(self)@;
                match r {
                    Ok(_) => s.rules.save_fault(f) is None && final(self)@ == s.with_saved_file(f),
                    Err(e) => s.rules.save_fault(f) == Some(e@) && final(self)@ == s,
                }
            }),
    {
        let ghost s = self@;
        let cut = trimmed(path, Class::White);
        let file = LogFile {
            id: id.to_owned(),
            name: trimmed(name, Class::White),
            path: replace_char(cut.as_str(), '\\', '/'),
            mode: source_mode(mode),
            container: if container == 0 {
                "diagnostic_archive".to_owned()
            } else {
                "zip".to_owned()
            },
        };
        proof {
            assert(file@ =~= file_of_form(id@, name@, path@, mode, container));
        }
        if let Err(f) = self.rules.save_log_file(file) {
            proof {
                assert(self@ =~= s);
            }
            return Err(f);
        }
        self.active = id.to_owned();
        self.dirty = true;
        Ok(())
    }

    /// Deletes the log file that is shown, where no rule reads it.
    pub fn delete_file(&mut self) -> (r: Result<(), Fault>)
        ensures
            ({
                let s = old(self)@.flushed();
                match r {
                    Ok(_) => s.rules.delete_fault(s.active) is None && final(self)@ == (DraftView {
                        rules: s.rules.without_file(s.active),
                        selected: None,
                        dirty: true,
                        ..s
                    }),
                    Err(e) => s.rules.delete_fault(s.active) == Some(e@) && final(self)@ == s,
                }
            }),
    {
        self.flush();
        let ghost s = self@;
        let id = self.active.clone();
        if let Err(f) = self.rules.delete_log_file(id.as_str()) {
            proof {
                assert(self@ =~= s);
            }
            return Err(f);
        }
        self.selected = None;
        self.dirty = true;
        Ok(())
    }
}

} // verus!
