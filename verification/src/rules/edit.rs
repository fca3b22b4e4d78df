//! Edits of the log file catalogue, and the values that new rules start from.

use crate::fault::{refusal, Fault, FaultKind, FaultView};
use crate::outside::clock::now_nanos;
use crate::rules::catalog::{file_place, find_file};
use crate::rules::model::{
    Layout, LayoutView, LogFile, LogFileView, Rule, RuleSet, RuleSetView, RuleView, Source,
    SourceView, SystemRule, SystemRuleView, TimelineConfig, TimelineThresholds,
};
use crate::text::{
    concat2, decimal_i64, decimal_int, join, joined, kept, lists, same, views, Duplicate,
};
use vstd::prelude::*;

verus! {

/// The labels of the entries that the first `n` identities name.
pub open spec fn labels(files: Seq<LogFileView>, ids: Seq<Seq<char>>, n: int) -> Seq<Seq<char>>
    decreases n,
{
    if n <= 0 {
        Seq::empty()
    } else {
        labels(files, ids, n - 1) + (match file_place(files, ids[n - 1]) {
            Some(i) => seq![files[i].label()],
            None => Seq::empty(),
        })
    }
}

/// The catalogue with an entry in the place of the one with its identity, or at
/// the end.
pub open spec fn saved(files: Seq<LogFileView>, f: LogFileView) -> Seq<LogFileView> {
    match file_place(files, f.id) {
        Some(i) => files.update(i, f),
        None => files.push(f),
    }
}

impl RuleSetView {
    pub open spec fn with_file(self, f: LogFileView) -> RuleSetView {
        RuleSetView { log_files: saved(self.log_files, f), ..self }
    }

    /// Why an entry cannot be saved: the catalogue with it is refused, or the
    /// references of the rules can no longer be resolved.
    pub open spec fn save_fault(self, f: LogFileView) -> Option<FaultView> {
        crate::fault::first_of(
            self.with_file(f).catalog_fault(),
            self.with_file(f).reference_fault(),
        )
    }
}

/// The names of the first `n` rules that refer to an entry.
pub open spec fn rules_naming(rules: Seq<RuleView>, id: Seq<char>, n: int) -> Seq<Seq<char>>
    decreases n,
{
    if n <= 0 {
        Seq::empty()
    } else {
        rules_naming(rules, id, n - 1) + (if rules[n - 1].source_file_ids.contains(id) {
            seq![rules[n - 1].name]
        } else {
            Seq::empty()
        })
    }
}

pub open spec fn system_naming(system: Seq<SystemRuleView>, id: Seq<char>, n: int) -> Seq<Seq<char>>
    decreases n,
{
    if n <= 0 {
        Seq::empty()
    } else {
        system_naming(system, id, n - 1) + (if system[n - 1].source_file_id == id {
            seq![system[n - 1].name]
        } else {
            Seq::empty()
        })
    }
}

pub open spec fn other_file(id: Seq<char>) -> spec_fn(LogFileView) -> bool {
    |f: LogFileView| f.id != id
}

pub open spec fn other_text(id: Seq<char>) -> spec_fn(Seq<char>) -> bool {
    |s: Seq<char>| s != id
}

impl RuleSetView {
    /// The names of the rules that refer to an entry.
    pub open spec fn naming(self, id: Seq<char>) -> Seq<Seq<char>> {
        rules_naming(self.rules, id, self.rules.len() as int) + system_naming(
            self.system,
            id,
            self.system.len() as int,
        )
    }

    /// The package without an entry.
    pub open spec fn without_file(self, id: Seq<char>) -> RuleSetView {
        RuleSetView {
            log_files: kept(self.log_files, other_file(id), 0),
            layout: LayoutView {
                file_order: kept(self.layout.file_order, other_text(id), 0),
                ..self.layout
            },
            ..self
        }
    }

    /// Why an entry cannot be deleted: there is none, or a rule refers to it.
    pub open spec fn delete_fault(self, id: Seq<char>) -> Option<FaultView> {
        if file_place(self.log_files, id) is None {
            Some(refusal(FaultKind::NoSuchFile, id))
        } else if self.naming(id).len() > 0 {
            Some(refusal(FaultKind::StillReferenced, joined(self.naming(id), "、"@)))
        } else {
            None
        }
    }
}

fn names_of_users(set: &RuleSet, id: &str) -> (r: Vec<String>)
    ensures
        views(r@) == set@.naming(id@),
{
    let ghost rv = set@.rules;
    let ghost sv = set@.system;
    let mut out: Vec<String> = Vec::new();
    let mut i: usize = 0;
    proof {
        assert(views(out@) =~= rules_naming(rv, id@, 0));
    }
    while i < set.rules.len()
        invariant
            i <= set.rules.len(),
            rv == set@.rules,
            views(out@) == rules_naming(rv, id@, i as int),
        decreases set.rules.len() - i,
    {
        let ghost was = views(out@);
        let r = &set.rules[i];
        proof {
            assert(rv[i as int] == r@);
        }
        if lists(&r.source_file_ids, id) {
            out.push(r.name.clone());
        }
        proof {
            assert(views(out@) =~= rules_naming(rv, id@, i + 1));
        }
        i += 1;
    }
    let ghost first = views(out@);
    let mut k: usize = 0;
    proof {
        assert(first + system_naming(sv, id@, 0) =~= first);
    }
    while k < set.system.len()
        invariant
            k <= set.system.len(),
            sv == set@.system,
            views(out@) == first + system_naming(sv, id@, k as int),
        decreases set.system.len() - k,
    {
        let r = &set.system[k];
        proof {
            assert(sv[k as int] == r@);
        }
        let ghost was = views(out@);
        if same(r.source_file_id.as_str(), id) {
            out.push(r.name.clone());
            proof {
                assert(views(out@) =~= was.push(r.name@));
            }
        }
        proof {
            assert(system_naming(sv, id@, k + 1) =~= system_naming(sv, id@, k as int) + (if sv[
                k as int
            ].source_file_id == id@ {
                seq![sv[k as int].name]
            } else {
                Seq::empty()
            }));
            assert(views(out@) =~= first + system_naming(sv, id@, k + 1));
        }
        k += 1;
    }
    out
}

fn other_files(files: &Vec<LogFile>, id: &str) -> (r: Vec<LogFile>)
    ensures
        views(r@) == kept(views(files@), other_file(id@), 0),
{
    let ghost f = other_file(id@);
    let ghost fv = views(files@);
    let mut out: Vec<LogFile> = Vec::new();
    let mut i: usize = 0;
    proof {
        assert(views(out@) + kept(fv, f, 0) =~= kept(fv, f, 0));
    }
    while i < files.len()
        invariant
            i <= files.len(),
            fv == views(files@),
            f == other_file(id@),
            views(out@) + kept(fv, f, i as int) == kept(fv, f, 0),
        decreases files.len() - i,
    {
        let ghost was = views(out@);
        let hit = !same(files[i].id.as_str(), id);
        proof {
            assert(fv[i as int] == files@[i as int]@);
            assert(hit == f(fv[i as int]));
        }
        if hit {
            out.push(files[i].duplicate());
            proof {
                assert(views(out@) =~= was.push(fv[i as int]));
                assert(was + kept(fv, f, i as int) =~= views(out@) + kept(fv, f, i + 1));
            }
        }
        i += 1;
    }
    proof {
        assert(views(out@) + kept(fv, f, i as int) =~= views(out@));
    }
    out
}

pub fn other_texts(list: &Vec<String>, id: &str) -> (r: Vec<String>)
    ensures
        views(r@) == kept(views(list@), other_text(id@), 0),
{
    let ghost f = other_text(id@);
    let ghost fv = views(list@);
    let mut out: Vec<String> = Vec::new();
    let mut i: usize = 0;
    proof {
        assert(views(out@) + kept(fv, f, 0) =~= kept(fv, f, 0));
    }
    while i < list.len()
        invariant
            i <= list.len(),
            fv == views(list@),
            f == other_text(id@),
            views(out@) + kept(fv, f, i as int) == kept(fv, f, 0),
        decreases list.len() - i,
    {
        let ghost was = views(out@);
        let hit = !same(list[i].as_str(), id);
        proof {
            assert(hit == f(fv[i as int]));
        }
        if hit {
            out.push(list[i].clone());
            proof {
                assert(views(out@) =~= was.push(fv[i as int]));
                assert(was + kept(fv, f, i as int) =~= views(out@) + kept(fv, f, i + 1));
            }
        }
        i += 1;
    }
    proof {
        assert(views(out@) + kept(fv, f, i as int) =~= views(out@));
    }
    out
}

impl RuleSet {
    /// What lists show of the entries that the identities name.
    pub fn source_label(&self, ids: &Vec<String>) -> (r: String)
        ensures
            r@ == joined(labels(self@.log_files, views(ids@), ids.len() as int), "；"@),
    {
        let ghost fv = self@.log_files;
        let ghost iv = views(ids@);
        let mut out: Vec<String> = Vec::new();
        let mut i: usize = 0;
        proof {
            assert(views(out@) =~= labels(fv, iv, 0));
        }
        while i < ids.len()
            invariant
                i <= ids.len(),
                fv == self@.log_files,
                iv == views(ids@),
                views(out@) == labels(fv, iv, i as int),
            decreases ids.len() - i,
        {
            if let Some(k) = find_file(&self.log_files, ids[i].as_str()) {
                proof {
                    assert(fv[k as int] == self.log_files@[k as int]@);
                }
                out.push(self.log_files[k].label());
            }
            proof {
                assert(views(out@) =~= labels(fv, iv, i + 1));
            }
            i += 1;
        }
        join(&out, "；")
    }

    /// Saves an entry of the catalogue, or changes nothing.
    pub fn save_log_file(&mut self, file: LogFile) -> (r: Result<(), Fault>)
        ensures
            (match r {
                Ok(_) => old(self)@.save_fault(file@) is None && final(self)@ == old(
                    self,
                )@.with_file(file@).resolved(),
                Err(f) => old(self)@.save_fault(file@) == Some(f@) && final(self)@ == old(self)@,
            }),
    {
        let ghost fv = file@;
        let ghost sv = self@;
        let mut next = self.duplicate();
        match find_file(&next.log_files, file.id.as_str()) {
            Some(i) => {
                let ghost had = next.log_files@;
                next.log_files.set(i, file);
                proof {
                    assert(views(next.log_files@) =~= views(had).update(i as int, fv));
                }
            },
            None => {
                let ghost had = next.log_files@;
                next.log_files.push(file);
                proof {
                    assert(views(next.log_files@) =~= views(had).push(fv));
                }
            },
        }
        proof {
            assert(next@ =~= sv.with_file(fv));
        }
        if let Err(f) = next.validate_catalog() {
            return Err(f);
        }
        if let Err(f) = next.resolve_sources() {
            return Err(f);
        }
        *self = next;
        Ok(())
    }

    /// Deletes an entry of the catalogue, or changes nothing.
    pub fn delete_log_file(&mut self, id: &str) -> (r: Result<(), Fault>)
        ensures
            (match r {
                Ok(_) => old(self)@.delete_fault(id@) is None && final(self)@ == old(
                    self,
                )@.without_file(id@),
                Err(f) => old(self)@.delete_fault(id@) == Some(f@) && final(self)@ == old(self)@,
            }),
    {
        let ghost sv = self@;
        if find_file(&self.log_files, id).is_none() {
            return Err(Fault::new(FaultKind::NoSuchFile, id));
        }
        let users = names_of_users(self, id);
        proof {
            assert(users.len() == views(users@).len());
        }
        if users.len() > 0 {
            let names = join(&users, "、");
            return Err(Fault::new(FaultKind::StillReferenced, names.as_str()));
        }
        let files = other_files(&self.log_files, id);
        let order = other_texts(&self.layout.file_order, id);
        self.log_files = files;
        self.layout.file_order = order;
        proof {
            assert(self@ =~= sv.without_file(id@));
        }
        Ok(())
    }
}

/// The layout that a package without one gets.
pub open spec fn default_layout() -> LayoutView {
    LayoutView {
        title: "诊断信息汇总"@,
        system_title: "系统信息"@,
        keyword_title: "关键词线索"@,
        timeline_title: "开关机记录"@,
        sections: seq!["keywords"@, "timeline"@],
        accent: "#2468d8"@,
        font_size: 14,
        density: "comfortable"@,
        timeline_sort: "desc"@,
        first_open: true,
        log_lines_per_batch: 200,
        file_order: Seq::empty(),
        file_panel_width: 240,
    }
}

impl Default for Layout {
    fn default() -> (r: Self)
        ensures
            r@ == default_layout(),
    {
        let mut sections: Vec<String> = Vec::new();
        sections.push("keywords".to_owned());
        sections.push("timeline".to_owned());
        let r = Layout {
            title: "诊断信息汇总".to_owned(),
            system_title: "系统信息".to_owned(),
            keyword_title: "关键词线索".to_owned(),
            timeline_title: "开关机记录".to_owned(),
            sections,
            accent: "#2468d8".to_owned(),
            font_size: 14,
            density: "comfortable".to_owned(),
            timeline_sort: "desc".to_owned(),
            first_open: true,
            log_lines_per_batch: 200,
            file_order: Vec::new(),
            file_panel_width: 240,
        };
        proof {
            assert(r@.sections =~= default_layout().sections);
            assert(r@ =~= default_layout());
        }
        r
    }
}

impl Default for TimelineThresholds {
    fn default() -> (r: Self)
        ensures
            r.match_window_seconds == 300,
            r.gap_seconds == 120,
    {
        TimelineThresholds { match_window_seconds: 300, gap_seconds: 120 }
    }
}

impl Default for TimelineConfig {
    fn default() -> (r: Self)
        ensures
            r.events.len() == 0,
            r.judgements.len() == 0,
            r.thresholds.match_window_seconds == 300,
            r.thresholds.gap_seconds == 120,
            r.sources.len() == 0,
    {
        TimelineConfig {
            events: Vec::new(),
            judgements: Vec::new(),
            thresholds: TimelineThresholds { match_window_seconds: 300, gap_seconds: 120 },
            sources: Vec::new(),
        }
    }
}

impl Default for Source {
    fn default() -> (r: Self)
        ensures
            r@.pattern.len() == 0,
            r@.mode.len() == 0,
    {
        Source { pattern: String::new(), mode: String::new() }
    }
}

/// The rule that a new one starts from.
pub open spec fn new_rule(id: Seq<char>) -> RuleView {
    RuleView {
        id,
        name: "新规则"@,
        group: "自定义"@,
        enabled: true,
        source_file_ids: Seq::empty(),
        sources: seq![SourceView { pattern: "syslog"@, mode: "prefix"@ }],
        terms: Seq::empty(),
        mode: "any"@,
        regex: false,
        case_sensitive: true,
        exclude: Seq::empty(),
        note: Seq::empty(),
        before: 10,
        after: 10,
        target: "keywords"@,
        sort: "source"@,
        reverse: false,
        fmt: Seq::empty(),
        time_regex: Seq::empty(),
        time_format: Seq::empty(),
        timezone: Seq::empty(),
        legacy_group: Seq::empty(),
        open: false,
    }
}

/// The identity that a moment gives a new rule.
pub open spec fn stamped(prefix: Seq<char>, nanos: i64) -> Seq<char> {
    prefix + decimal_int(nanos as int)
}

pub fn stamped_id(prefix: &str, nanos: Option<i64>) -> (r: String)
    ensures
        r@ == stamped(
            prefix@,
            match nanos {
                Some(n) => n,
                None => 0,
            },
        ),
{
    let n: i64 = match nanos {
        Some(n) => n,
        None => 0,
    };
    let text = decimal_i64(n);
    concat2(prefix, text.as_str())
}

pub fn rule_with_id(id: String) -> (r: Rule)
    ensures
        r@ == new_rule(id@),
{
    let mut sources: Vec<Source> = Vec::new();
    sources.push(Source { pattern: "syslog".to_owned(), mode: "prefix".to_owned() });
    let r = Rule {
        id,
        name: "新规则".to_owned(),
        group: "自定义".to_owned(),
        enabled: true,
        source_file_ids: Vec::new(),
        sources,
        terms: Vec::new(),
        mode: "any".to_owned(),
        regex: false,
        case_sensitive: true,
        exclude: Vec::new(),
        note: String::new(),
        before: 10,
        after: 10,
        target: "keywords".to_owned(),
        sort: "source".to_owned(),
        reverse: false,
        fmt: String::new(),
        time_regex: String::new(),
        time_format: String::new(),
        timezone: String::new(),
        legacy_group: String::new(),
        open: false,
    };
    proof {
        assert(r@.sources =~= new_rule(id@).sources);
        assert(r@ =~= new_rule(id@));
    }
    r
}

impl Default for Rule {
    /// A new rule whose identity comes from the clock.
    fn default() -> (r: Self)
        ensures
            exists|n: i64| #[trigger] stamped("rule-"@, n) == r.id@,
            r@ == new_rule(r.id@),
    {
        rule_with_id(stamped_id("rule-", now_nanos()))
    }
}

/// The rule for a table that a new one starts from.
pub open spec fn new_system_rule(id: Seq<char>) -> SystemRuleView {
    SystemRuleView {
        id,
        name: "新信息组"@,
        group: "基本信息"@,
        enabled: true,
        source_file_id: Seq::empty(),
        source: SourceView { pattern: "sysinfo.json"@, mode: "prefix"@ },
        kind: "json"@,
        selector: Seq::empty(),
        pattern: Seq::empty(),
        view: "cards"@,
        fields: Seq::empty(),
        missing: "未获取"@,
        join_rule: Seq::empty(),
        join_key: Seq::empty(),
        join_foreign_key: Seq::empty(),
    }
}

pub fn system_rule_with_id(id: String) -> (r: SystemRule)
    ensures
        r@ == new_system_rule(id@),
{
    let r = SystemRule {
        id,
        name: "新信息组".to_owned(),
        group: "基本信息".to_owned(),
        enabled: true,
        source_file_id: String::new(),
        source: Source { pattern: "sysinfo.json".to_owned(), mode: "prefix".to_owned() },
        kind: "json".to_owned(),
        selector: String::new(),
        pattern: String::new(),
        view: "cards".to_owned(),
        fields: Vec::new(),
        missing: "未获取".to_owned(),
        join_rule: String::new(),
        join_key: String::new(),
        join_foreign_key: String::new(),
    };
    proof {
        assert(r@ =~= new_system_rule(id@));
    }
    r
}

impl Default for SystemRule {
    /// A new rule for a table whose identity comes from the clock.
    fn default() -> (r: Self)
        ensures
            exists|n: i64| #[trigger] stamped("system-"@, n) == r.id@,
            r@ == new_system_rule(r.id@),
    {
        system_rule_with_id(stamped_id("system-", now_nanos()))
    }
}

} // verus!
