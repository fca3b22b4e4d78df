//! The log file catalogue and the references of the rules to it.

use crate::fault::{detailed, first_of, refusal, Fault, FaultKind, FaultView};
use crate::rules::model::{
    LogFile, LogFileView, Rule, RuleSet, RuleSetView, RuleView, Source, SourceView, SystemRule,
    SystemRuleView,
};
use crate::text::{
    any, begins, blank, concat3, contains_char, first_place, has_char, is_blank, lists, opt_view,
    same, split, split_text, starts_with, tail, tail_of, views, Class, Duplicate,
};
use crate::select::{find_by, lemma_first_of_any};
use vstd::prelude::*;

verus! {

pub open spec fn source_mode_known(mode: Seq<char>) -> bool {
    mode == "prefix"@ || mode == "path"@ || mode == "exact"@
}

/// Why a source is refused.
pub open spec fn source_fault(s: SourceView) -> Option<FaultView> {
    if blank(s.pattern) || !source_mode_known(s.mode) {
        Some(refusal(FaultKind::BadSource, Seq::empty()))
    } else {
        None
    }
}

pub fn validate_source(s: &Source) -> (r: Option<Fault>)
    ensures
        opt_view(r) == source_fault(s@),
{
    if is_blank(s.pattern.as_str()) || !(same(s.mode.as_str(), "prefix") || same(
        s.mode.as_str(),
        "path",
    ) || same(s.mode.as_str(), "exact")) {
        let none = String::new();
        proof {
            assert(none@ =~= Seq::<char>::empty());
        }
        Some(Fault::new(FaultKind::BadSource, none.as_str()))
    } else {
        None
    }
}

/// Whether a component of the path leads upwards.
pub open spec fn climbs(path: Seq<char>) -> bool {
    split(path, Class::One('/')).contains(".."@)
}

impl LogFileView {
    /// The last component of the path.
    pub open spec fn file_name(self) -> Seq<char> {
        tail(self.path, Class::One('/'))
    }

    /// The name and the file name.
    pub open spec fn label(self) -> Seq<char> {
        self.name + " · "@ + self.file_name()
    }

    pub open spec fn as_source(self) -> SourceView {
        SourceView { pattern: self.path, mode: self.mode }
    }

    /// Why the entry gives no source: its container cannot be read, its pattern
    /// or mode is not usable, or its path is not relative to the archive.
    pub open spec fn fault(self) -> Option<FaultView> {
        if self.container == "zip"@ {
            Some(refusal(FaultKind::ZipContainer, self.name))
        } else if self.container != "diagnostic_archive"@ {
            Some(detailed(FaultKind::Container, self.name, self.container))
        } else if source_fault(self.as_source()) is Some {
            source_fault(self.as_source())
        } else if has_char(self.path, '\\') || begins(self.path, "/"@) || has_char(self.path, ':')
            || climbs(self.path) {
            Some(refusal(FaultKind::NotRelative, self.path))
        } else {
            None
        }
    }
}

impl LogFile {
    /// The last component of the path.
    pub fn file_name(&self) -> (r: String)
        ensures
            r@ == self@.file_name(),
    {
        tail_of(self.path.as_str(), Class::One('/'))
    }

    /// What lists show of the entry.
    pub fn label(&self) -> (r: String)
        ensures
            r@ == self@.label(),
    {
        let file = self.file_name();
        concat3(self.name.as_str(), " · ", file.as_str())
    }

    /// The source that the entry stands for.
    pub fn source(&self) -> (r: Result<Source, Fault>)
        ensures
            (match r {
                Ok(s) => self@.fault() is None && s@ == self@.as_source(),
                Err(f) => self@.fault() == Some(f@),
            }),
    {
        if same(self.container.as_str(), "zip") {
            return Err(Fault::new(FaultKind::ZipContainer, self.name.as_str()));
        }
        if !same(self.container.as_str(), "diagnostic_archive") {
            return Err(
                Fault::with_detail(
                    FaultKind::Container,
                    self.name.as_str(),
                    self.container.as_str(),
                ),
            );
        }
        let source = Source { pattern: self.path.clone(), mode: self.mode.clone() };
        if let Some(f) = validate_source(&source) {
            return Err(f);
        }
        let parts = split_text(self.path.as_str(), Class::One('/'));
        if contains_char(self.path.as_str(), '\\') || starts_with(self.path.as_str(), "/")
            || contains_char(self.path.as_str(), ':') || lists(&parts, "..") {
            return Err(Fault::new(FaultKind::NotRelative, self.path.as_str()));
        }
        Ok(source)
    }
}

pub open spec fn file_with(id: Seq<char>) -> spec_fn(LogFileView) -> bool {
    |f: LogFileView| f.id == id
}

/// The position of the entry with the identity.
pub open spec fn file_place(files: Seq<LogFileView>, id: Seq<char>) -> Option<int> {
    first_place(files, file_with(id), 0)
}

/// An entry with the identity shows that there is a first one.
pub proof fn lemma_file_there(files: Seq<LogFileView>, id: Seq<char>, k: int)
    requires
        0 <= k < files.len(),
        files[k].id == id,
    ensures
        file_place(files, id) is Some,
{
    lemma_first_of_any(files, file_with(id), 0, k);
}

/// Why an identity gives no source.
pub open spec fn reference_fault(files: Seq<LogFileView>, id: Seq<char>) -> Option<FaultView> {
    match file_place(files, id) {
        Some(i) => files[i].fault(),
        None => Some(refusal(FaultKind::NoSuchFile, id)),
    }
}

/// The source that an identity stands for.
pub open spec fn referenced(files: Seq<LogFileView>, id: Seq<char>) -> SourceView {
    files[file_place(files, id)->0].as_source()
}

/// The position of the entry with the identity.
pub fn find_file(files: &Vec<LogFile>, id: &str) -> (r: Option<usize>)
    ensures
        (match r {
            Some(i) => i < files.len() && file_place(views(files@), id@) == Some(i as int),
            None => file_place(views(files@), id@) is None,
        }),
{
    let f = |f: &LogFile| -> (r: bool)
        ensures
            r == file_with(id@)(f@),
        { same(f.id.as_str(), id) };
    find_by(files, &f, Ghost(file_with(id@)))
}

/// Why the references of a rule from the one with number `i` on cannot be
/// resolved: the first that is made twice, that is missing, or whose entry gives
/// no source.
pub open spec fn ids_fault(files: Seq<LogFileView>, r: RuleView, i: int) -> Option<FaultView>
    decreases r.source_file_ids.len() - i,
{
    if i >= r.source_file_ids.len() {
        None
    } else {
        let id = r.source_file_ids[i];
        if r.source_file_ids.take(i).contains(id) {
            Some(detailed(FaultKind::RepeatedFile, r.name, id))
        } else if reference_fault(files, id) is Some {
            reference_fault(files, id)
        } else {
            ids_fault(files, r, i + 1)
        }
    }
}

/// Why a rule's references cannot be resolved.
pub open spec fn rule_reference_fault(files: Seq<LogFileView>, r: RuleView) -> Option<FaultView> {
    if r.source_file_ids.len() == 0 {
        Some(refusal(FaultKind::NoFileChosen, r.name))
    } else {
        ids_fault(files, r, 0)
    }
}

/// The sources that a rule's references stand for.
pub open spec fn rule_sources(files: Seq<LogFileView>, r: RuleView) -> Seq<SourceView> {
    Seq::new(r.source_file_ids.len(), |i: int| referenced(files, r.source_file_ids[i]))
}

pub open spec fn rules_reference_fault(
    files: Seq<LogFileView>,
    rules: Seq<RuleView>,
    i: int,
) -> Option<FaultView>
    decreases rules.len() - i,
{
    if i >= rules.len() {
        None
    } else if rule_reference_fault(files, rules[i]) is Some {
        rule_reference_fault(files, rules[i])
    } else {
        rules_reference_fault(files, rules, i + 1)
    }
}

pub open spec fn system_reference_fault(
    files: Seq<LogFileView>,
    system: Seq<SystemRuleView>,
    i: int,
) -> Option<FaultView>
    decreases system.len() - i,
{
    if i >= system.len() {
        None
    } else if reference_fault(files, system[i].source_file_id) is Some {
        reference_fault(files, system[i].source_file_id)
    } else {
        system_reference_fault(files, system, i + 1)
    }
}

pub open spec fn with_sources(files: Seq<LogFileView>, r: RuleView) -> RuleView {
    RuleView { sources: rule_sources(files, r), ..r }
}

pub open spec fn with_source(files: Seq<LogFileView>, r: SystemRuleView) -> SystemRuleView {
    SystemRuleView { source: referenced(files, r.source_file_id), ..r }
}

impl RuleSetView {
    /// Why the references of the rules cannot be resolved.
    pub open spec fn reference_fault(self) -> Option<FaultView> {
        first_of(
            rules_reference_fault(self.log_files, self.rules, 0),
            system_reference_fault(self.log_files, self.system, 0),
        )
    }

    /// The package with the sources that its references stand for.
    pub open spec fn resolved(self) -> RuleSetView {
        RuleSetView {
            rules: Seq::new(
                self.rules.len(),
                |i: int| with_sources(self.log_files, self.rules[i]),
            ),
            system: Seq::new(
                self.system.len(),
                |i: int| with_source(self.log_files, self.system[i]),
            ),
            ..self
        }
    }
}

fn resolve_id(files: &Vec<LogFile>, id: &str) -> (r: Result<Source, Fault>)
    ensures
        (match r {
            Ok(s) => reference_fault(views(files@), id@) is None && s@ == referenced(
                views(files@),
                id@,
            ),
            Err(f) => reference_fault(views(files@), id@) == Some(f@),
        }),
{
    match find_file(files, id) {
        Some(i) => {
            proof {
                assert(views(files@)[i as int] == files@[i as int]@);
            }
            files[i].source()
        },
        None => Err(Fault::new(FaultKind::NoSuchFile, id)),
    }
}

pub(crate) fn in_first(list: &Vec<String>, n: usize, id: &str) -> (r: bool)
    requires
        n <= list.len(),
    ensures
        r == views(list@).take(n as int).contains(id@),
{
    let ghost lv = views(list@);
    let mut i: usize = 0;
    while i < n
        invariant
            i <= n <= list.len(),
            lv == views(list@),
            forall|j: int| 0 <= j < i ==> lv[j] != id@,
        decreases n - i,
    {
        if same(list[i].as_str(), id) {
            proof {
                assert(lv.take(n as int)[i as int] == id@);
            }
            return true;
        }
        i += 1;
    }
    false
}

fn resolve_rule(files: &Vec<LogFile>, r: &Rule) -> (out: Result<Vec<Source>, Fault>)
    ensures
        (match out {
            Ok(s) => rule_reference_fault(views(files@), r@) is None && views(s@) == rule_sources(
                views(files@),
                r@,
            ),
            Err(f) => rule_reference_fault(views(files@), r@) == Some(f@),
        }),
{
    if r.source_file_ids.len() == 0 {
        return Err(Fault::new(FaultKind::NoFileChosen, r.name.as_str()));
    }
    let ghost fv = views(files@);
    let ghost rv = r@;
    let mut sources: Vec<Source> = Vec::new();
    let mut i: usize = 0;
    while i < r.source_file_ids.len()
        invariant
            fv == views(files@),
            rv == r@,
            i <= r.source_file_ids.len(),
            sources.len() == i,
            ids_fault(fv, rv, 0) == ids_fault(fv, rv, i as int),
            rv.source_file_ids.len() > 0,
            forall|j: int|
                0 <= j < i ==> (#[trigger] sources@[j])@ == referenced(fv, rv.source_file_ids[j]),
        decreases r.source_file_ids.len() - i,
    {
        proof {
            assert(rv.source_file_ids[i as int] == r.source_file_ids@[i as int]@);
        }
        let id = r.source_file_ids[i].as_str();
        if in_first(&r.source_file_ids, i, id) {
            return Err(Fault::with_detail(FaultKind::RepeatedFile, r.name.as_str(), id));
        }
        match resolve_id(files, id) {
            Ok(s) => {
                sources.push(s);
            },
            Err(f) => {
                return Err(f);
            },
        }
        i += 1;
    }
    proof {
        assert(views(sources@) =~= rule_sources(fv, rv));
    }
    Ok(sources)
}

fn replace_sources(r: &Rule, sources: Vec<Source>) -> (out: Rule)
    ensures
        out@ == (RuleView { sources: views(sources@), ..r@ }),
{
    let mut out = r.duplicate();
    out.sources = sources;
    out
}

impl RuleSet {
    /// The catalogue entry with the identity.
    pub fn log_file(&self, id: &str) -> (r: Result<&LogFile, Fault>)
        ensures
            (match r {
                Ok(f) => file_place(self@.log_files, id@) matches Some(i) && f@
                    == self@.log_files[i],
                Err(e) => file_place(self@.log_files, id@) is None && e@ == refusal(
                    FaultKind::NoSuchFile,
                    id@,
                ),
            }),
    {
        match find_file(&self.log_files, id) {
            Some(i) => Ok(&self.log_files[i]),
            None => Err(Fault::new(FaultKind::NoSuchFile, id)),
        }
    }

    /// Resolves the references of all rules, or changes nothing.
    pub fn resolve_sources(&mut self) -> (r: Result<(), Fault>)
        ensures
            (match r {
                Ok(_) => old(self)@.reference_fault() is None && final(self)@
                    == old(self)@.resolved(),
                Err(f) => old(self)@.reference_fault() == Some(f@) && final(self)@ == old(self)@,
            }),
    {
        let ghost sv = self@;
        let ghost fv = sv.log_files;
        let mut rules: Vec<Rule> = Vec::new();
        let mut i: usize = 0;
        while i < self.rules.len()
            invariant
                self@ == sv,
                fv == views(self.log_files@),
                fv == sv.log_files,
                sv.rules == views(self.rules@),
                i <= self.rules.len(),
                rules.len() == i,
                rules_reference_fault(fv, sv.rules, 0) == rules_reference_fault(
                    fv,
                    sv.rules,
                    i as int,
                ),
                forall|j: int|
                    0 <= j < i ==> (#[trigger] rules@[j])@ == with_sources(fv, sv.rules[j]),
                *self == *old(self),
            decreases self.rules.len() - i,
        {
            proof {
                assert(sv.rules[i as int] == self.rules@[i as int]@);
            }
            match resolve_rule(&self.log_files, &self.rules[i]) {
                Ok(sources) => {
                    rules.push(replace_sources(&self.rules[i], sources));
                },
                Err(f) => {
                    return Err(f);
                },
            }
            i += 1;
        }
        let mut system: Vec<SystemRule> = Vec::new();
        let mut k: usize = 0;
        while k < self.system.len()
            invariant
                self@ == sv,
                fv == views(self.log_files@),
                fv == sv.log_files,
                sv.system == views(self.system@),
                k <= self.system.len(),
                system.len() == k,
                rules_reference_fault(fv, sv.rules, 0) is None,
                system_reference_fault(fv, sv.system, 0) == system_reference_fault(
                    fv,
                    sv.system,
                    k as int,
                ),
                forall|j: int|
                    0 <= j < k ==> (#[trigger] system@[j])@ == with_source(fv, sv.system[j]),
                *self == *old(self),
            decreases self.system.len() - k,
        {
            proof {
                assert(sv.system[k as int] == self.system@[k as int]@);
            }
            match resolve_id(&self.log_files, self.system[k].source_file_id.as_str()) {
                Ok(source) => {
                    let mut s = self.system[k].duplicate();
                    s.source = source;
                    system.push(s);
                },
                Err(f) => {
                    return Err(f);
                },
            }
            k += 1;
        }
        proof {
            assert(views(rules@) =~= sv.resolved().rules);
            assert(views(system@) =~= sv.resolved().system);
        }
        self.rules = rules;
        self.system = system;
        proof {
            assert(self@ =~= sv.resolved());
        }
        Ok(())
    }
}

/// Why the catalogue from the entry with number `i` on is refused: each
/// identity, name and path within a container stands for one entry.
pub open spec fn files_fault(files: Seq<LogFileView>, i: int) -> Option<FaultView>
    decreases files.len() - i,
{
    if i >= files.len() {
        None
    } else {
        let f = files[i];
        let earlier = files.take(i);
        if blank(f.id) || any(earlier, |x: LogFileView| x.id == f.id) {
            Some(refusal(FaultKind::FileId, f.name))
        } else if blank(f.name) || any(earlier, |x: LogFileView| x.name == f.name) {
            Some(refusal(FaultKind::FileName, f.name))
        } else if f.fault() is Some {
            f.fault()
        } else if any(earlier, |x: LogFileView| x.container == f.container && x.path == f.path) {
            Some(refusal(FaultKind::FilePath, f.path))
        } else {
            files_fault(files, i + 1)
        }
    }
}

impl RuleSetView {
    /// Why the catalogue is refused.
    pub open spec fn catalog_fault(self) -> Option<FaultView> {
        first_of(
            files_fault(self.log_files, 0),
            if 180 <= self.layout.file_panel_width <= 360 {
                None
            } else {
                Some(refusal(FaultKind::PanelWidth, Seq::empty()))
            },
        )
    }
}

/// Which earlier entries an entry collides with: by identity, by name, by path.
fn collisions(files: &Vec<LogFile>, i: usize) -> (r: (bool, bool, bool))
    requires
        i < files.len(),
    ensures
        ({
            let fv = views(files@);
            let f = fv[i as int];
            let earlier = fv.take(i as int);
            &&& r.0 == any(earlier, |x: LogFileView| x.id == f.id)
            &&& r.1 == any(earlier, |x: LogFileView| x.name == f.name)
            &&& r.2 == any(
                earlier,
                |x: LogFileView| x.container == f.container && x.path == f.path,
            )
        }),
{
    let ghost fv = views(files@);
    let ghost f = fv[i as int];
    let ghost earlier = fv.take(i as int);
    let ghost by_id = |x: LogFileView| x.id == f.id;
    let ghost by_name = |x: LogFileView| x.name == f.name;
    let ghost by_path = |x: LogFileView| x.container == f.container && x.path == f.path;
    let mut id = false;
    let mut name = false;
    let mut path = false;
    let mut j: usize = 0;
    while j < i
        invariant
            j <= i < files.len(),
            fv == views(files@),
            f == fv[i as int],
            earlier == fv.take(i as int),
            by_id == (|x: LogFileView| x.id == f.id),
            by_name == (|x: LogFileView| x.name == f.name),
            by_path == (|x: LogFileView| x.container == f.container && x.path == f.path),
            id == exists|k: int| 0 <= k < j && by_id(#[trigger] earlier[k]),
            name == exists|k: int| 0 <= k < j && by_name(#[trigger] earlier[k]),
            path == exists|k: int| 0 <= k < j && by_path(#[trigger] earlier[k]),
        decreases i - j,
    {
        proof {
            assert(earlier[j as int] == files@[j as int]@);
            assert(f == files@[i as int]@);
        }
        let a = &files[j];
        let b = &files[i];
        let same_id = same(a.id.as_str(), b.id.as_str());
        let same_name = same(a.name.as_str(), b.name.as_str());
        let same_path = same(a.container.as_str(), b.container.as_str()) && same(
            a.path.as_str(),
            b.path.as_str(),
        );
        proof {
            assert(same_id == by_id(earlier[j as int]));
            assert(same_name == by_name(earlier[j as int]));
            assert(same_path == by_path(earlier[j as int]));
        }
        id = id || same_id;
        name = name || same_name;
        path = path || same_path;
        j += 1;
    }
    (id, name, path)
}

fn check_files(files: &Vec<LogFile>) -> (r: Option<Fault>)
    ensures
        opt_view(r) == files_fault(views(files@), 0),
{
    let ghost fv = views(files@);
    let mut i: usize = 0;
    while i < files.len()
        invariant
            i <= files.len(),
            fv == views(files@),
            files_fault(fv, 0) == files_fault(fv, i as int),
        decreases files.len() - i,
    {
        let (id, name, path) = collisions(files, i);
        let f = &files[i];
        proof {
            assert(fv[i as int] == f@);
        }
        if is_blank(f.id.as_str()) || id {
            return Some(Fault::new(FaultKind::FileId, f.name.as_str()));
        }
        if is_blank(f.name.as_str()) || name {
            return Some(Fault::new(FaultKind::FileName, f.name.as_str()));
        }
        if let Err(e) = f.source() {
            return Some(e);
        }
        if path {
            return Some(Fault::new(FaultKind::FilePath, f.path.as_str()));
        }
        i += 1;
    }
    None
}

impl RuleSet {
    /// Checks the catalogue.
    pub fn validate_catalog(&self) -> (r: Result<(), Fault>)
        ensures
            (match r {
                Ok(_) => self@.catalog_fault() is None,
                Err(f) => self@.catalog_fault() == Some(f@),
            }),
    {
        if let Some(f) = check_files(&self.log_files) {
            return Err(f);
        }
        if self.layout.file_panel_width < 180 || self.layout.file_panel_width > 360 {
            let none = String::new();
            proof {
                assert(none@ =~= Seq::<char>::empty());
            }
            return Err(Fault::new(FaultKind::PanelWidth, none.as_str()));
        }
        Ok(())
    }
}

} // verus!
