//! Which rule packages are accepted, and what their users are told.

use crate::outside::clock::format_valid;
use crate::outside::pattern::{pattern_fault, pattern_matches};
use crate::rules::catalog::{file_place, file_with, source_fault};
use crate::rules::matcher::{term_fault, term_pattern};
use crate::rules::model::{
    FieldView, RuleSetView, RuleView, SourceView, SystemRuleView, TimelineEventRuleView,
    TimelineJudgementRuleView,
};
use crate::rules::validate::{
    event_files_fault, event_ids, event_terms_fault, events_fault, field_names, fields_fault,
    judgement_ids, judgements_fault, repeat_warnings, rule_fault, rule_ids, rule_warnings,
    rules_fault, same_conditions, sources_fault, style_fault, system_fault, system_ids,
};
use crate::select::{lemma_first_holds, lemma_first_of_any};
use crate::text::{any, blank, has, Class};
use crate::text_laws::law_trimming_leaves_the_rest;
use vstd::prelude::*;

verus! {

/// Whether a text holds something besides white space.
pub open spec fn says_something(s: Seq<char>) -> bool {
    exists|i: int| 0 <= i < s.len() && !Class::White.holds(#[trigger] s[i])
}

pub proof fn lemma_blank(s: Seq<char>)
    ensures
        blank(s) == !says_something(s),
{
    let r = law_trimming_leaves_the_rest(s, Class::White);
    let t = crate::text::trim(s, Class::White);
    if t.len() > 0 {
        assert(!Class::White.holds(t[0]));
        assert(s[r.0.len() as int] == t[0]);
    } else {
        assert forall|i: int| 0 <= i < s.len() implies Class::White.holds(#[trigger] s[i]) by {
            if i < r.0.len() {
                assert(s[i] == r.0[i]);
            } else {
                assert(s[i] == r.1[i - r.0.len()]);
            }
        }
    }
}

/// Whether a source says which files it stands for, in one of the three ways.
pub open spec fn is_good_source(s: SourceView) -> bool {
    &&& says_something(s.pattern)
    &&& s.mode == "prefix"@ || s.mode == "path"@ || s.mode == "exact"@
}

pub proof fn lemma_source(s: SourceView)
    ensures
        source_fault(s) is None <==> is_good_source(s),
{
    lemma_blank(s.pattern);
}

proof fn lemma_sources(sources: Seq<SourceView>, i: int)
    requires
        0 <= i,
    ensures
        sources_fault(sources, i) is None <==> forall|k: int|
            i <= k < sources.len() ==> is_good_source(#[trigger] sources[k]),
    decreases sources.len() - i,
{
    if i < sources.len() {
        lemma_sources(sources, i + 1);
        lemma_source(sources[i]);
    }
}

proof fn lemma_terms(r: RuleView, i: int)
    requires
        0 <= i,
    ensures
        term_fault(r, i) is None <==> forall|k: int|
            i <= k < r.terms.len() ==> compiles(r, #[trigger] r.terms[k]),
    decreases r.terms.len() - i,
{
    if i < r.terms.len() {
        lemma_terms(r, i + 1);
        assert(compiles(r, r.terms[i]) == (pattern_fault(
            term_pattern(r, r.terms[i]).source,
            term_pattern(r, r.terms[i]).insensitive,
        ) is None));
    }
}

pub open spec fn compiles(r: RuleView, term: Seq<char>) -> bool {
    pattern_fault(term_pattern(r, term).source, term_pattern(r, term).insensitive) is None
}

/// Whether a rule for log lines can be used: it has a name, terms that compile,
/// sources, known options, and a time zone, a time format and a time expression that
/// can be read where it has them.
pub open spec fn is_good_rule(r: RuleView) -> bool {
    &&& says_something(r.name)
    &&& r.terms.len() > 0
    &&& forall|k: int|
        0 <= k < r.terms.len() ==> (#[trigger] r.terms[k]).len() > 0 && compiles(r, r.terms[k])
    &&& r.sources.len() > 0
    &&& forall|k: int| 0 <= k < r.sources.len() ==> is_good_source(#[trigger] r.sources[k])
    &&& r.mode == "any"@ || r.mode == "all"@
    &&& r.target == "keywords"@ || r.target == "timeline"@ || r.target == "both"@
    &&& r.sort == "source"@ || r.sort == "asc"@ || r.sort == "desc"@
    &&& r.timezone.len() == 0 || (pattern_fault("^[+-](?:0\\d|1[0-4]):[0-5]\\d$"@, false) is None
        && pattern_matches("^[+-](?:0\\d|1[0-4]):[0-5]\\d$"@, false, r.timezone))
    &&& r.time_format.len() == 0 || format_valid(r.time_format)
    &&& r.time_regex.len() == 0 || pattern_fault(r.time_regex, false) is None
}

proof fn lemma_rule(r: RuleView)
    ensures
        rule_fault(r) is None <==> is_good_rule(r),
{
    lemma_blank(r.name);
    lemma_terms(r, 0);
    lemma_sources(r.sources, 0);
    let empty = |s: Seq<char>| s.len() == 0;
    let bare = |s: SourceView| s.pattern.len() == 0;
    if any(r.terms, empty) {
        let k = choose|k: int| 0 <= k < r.terms.len() && empty(#[trigger] r.terms[k]);
        assert(r.terms[k].len() == 0);
    } else {
        assert forall|k: int| 0 <= k < r.terms.len() implies (#[trigger] r.terms[k]).len() > 0 by {
            assert(!empty(r.terms[k]));
        }
    }
    if any(r.sources, bare) {
        let k = choose|k: int| 0 <= k < r.sources.len() && bare(#[trigger] r.sources[k]);
        assert(r.sources[k].pattern.len() == 0);
        assert(!is_good_source(r.sources[k]));
    }
}

/// Rules for log lines are accepted exactly where each can be used and no two have
/// the same identity.
pub proof fn law_usable_rules_are_accepted(rules: Seq<RuleView>)
    ensures
        rules_fault(rules, 0) is None <==> {
            &&& forall|k: int| 0 <= k < rules.len() ==> is_good_rule(#[trigger] rules[k])
            &&& forall|j: int, k: int|
                0 <= j < k < rules.len() ==> (#[trigger] rules[j]).id != (#[trigger] rules[k]).id
        },
{
    lemma_rules(rules, 0);
    if rules_fault(rules, 0) is None {
        assert forall|j: int, k: int| 0 <= j < k < rules.len() implies (#[trigger] rules[j]).id != (
        #[trigger] rules[k]).id by {
            assert(is_new(rule_ids(rules), k));
            assert(rule_ids(rules)[j] == rules[j].id);
        }
    }
}

/// Whether an element stands nowhere before its place.
pub open spec fn is_new(ids: Seq<Seq<char>>, k: int) -> bool {
    forall|j: int| 0 <= j < k ==> #[trigger] ids[j] != ids[k]
}

pub proof fn lemma_new(ids: Seq<Seq<char>>, k: int)
    requires
        0 <= k < ids.len(),
    ensures
        ids.take(k).contains(ids[k]) == !is_new(ids, k),
{
    let t = ids.take(k);
    if t.contains(ids[k]) {
        let j = choose|j: int| 0 <= j < t.len() && t[j] == ids[k];
        assert(ids[j] == ids[k]);
    }
    if !is_new(ids, k) {
        let j = choose|j: int| 0 <= j < k && #[trigger] ids[j] == ids[k];
        assert(t[j] == ids[k]);
    }
}

proof fn lemma_rules(rules: Seq<RuleView>, i: int)
    requires
        0 <= i,
    ensures
        rules_fault(rules, i) is None <==> forall|k: int|
            i <= k < rules.len() ==> is_good_rule(#[trigger] rules[k]) && is_new(
                rule_ids(rules),
                k,
            ),
    decreases rules.len() - i,
{
    if i < rules.len() {
        lemma_rules(rules, i + 1);
        lemma_rule(rules[i]);
        lemma_new(rule_ids(rules), i);
        assert(rule_ids(rules)[i] == rules[i].id);
    }
}

/// Whether a field has a name and a path, an expression that compiles where it has
/// one, and known options.
pub open spec fn is_good_field(f: FieldView) -> bool {
    &&& f.name.len() > 0
    &&& f.path.len() > 0
    &&& f.capture.len() == 0 || pattern_fault(f.capture, false) is None
    &&& f.format == ""@ || f.format == "bytes"@ || f.format == "unix"@ || f.format == "kib"@
    &&& f.view == ""@ || f.view == "cards"@ || f.view == "table"@
}

/// Whether a table of disks is extracted as its view needs it.
pub open spec fn is_good_view(s: SystemRuleView) -> bool {
    ||| s.view == "cards"@
    ||| s.view == "table"@
    ||| s.view == "storage"@ && s.kind == "json"@ && s.selector == "disk.devices[]"@
    ||| s.view == "storage-smart"@ && s.kind == "json"@ && s.selector
        == "disk.devices[].smart_info.report[]"@
}

/// Whether a rule for a table can be used, apart from its identity.
pub open spec fn is_good_table(s: SystemRuleView) -> bool {
    &&& is_good_source(s.source)
    &&& s.kind == "json"@ || s.kind == "kv"@ || s.kind == "sections"@ || s.kind == "columns"@
        || s.kind == "regex"@
    &&& is_good_view(s)
    &&& s.kind == "regex"@ ==> s.pattern.len() > 0
    &&& s.pattern.len() == 0 || pattern_fault(s.pattern, false) is None
    &&& s.fields.len() > 0
    &&& forall|k: int|
        0 <= k < s.fields.len() ==> is_good_field(#[trigger] s.fields[k]) && is_new(
            field_names(s.fields),
            k,
        )
}

/// Whether a rule joins nothing, or its table with that of another rule of the
/// package by two keys.
pub open spec fn joins_another(s: SystemRuleView, system: Seq<SystemRuleView>) -> bool {
    s.join_rule.len() == 0 || {
        &&& s.join_rule != s.id
        &&& s.join_key.len() > 0
        &&& s.join_foreign_key.len() > 0
        &&& exists|j: int| 0 <= j < system.len() && (#[trigger] system[j]).id == s.join_rule
    }
}

proof fn lemma_fields(name: Seq<char>, fields: Seq<FieldView>, i: int)
    requires
        0 <= i,
    ensures
        fields_fault(name, fields, i) is None <==> forall|k: int|
            i <= k < fields.len() ==> is_known_field(#[trigger] fields[k]) && is_new(
                field_names(fields),
                k,
            ),
    decreases fields.len() - i,
{
    if i < fields.len() {
        lemma_fields(name, fields, i + 1);
        lemma_new(field_names(fields), i);
        assert(field_names(fields)[i] == fields[i].name);
    }
}

pub open spec fn is_known_field(f: FieldView) -> bool {
    &&& f.capture.len() == 0 || pattern_fault(f.capture, false) is None
    &&& f.format == ""@ || f.format == "bytes"@ || f.format == "unix"@ || f.format == "kib"@
    &&& f.view == ""@ || f.view == "cards"@ || f.view == "table"@
}

/// Whether the identity of a rule for a table stands neither among the rules for log
/// lines nor among the tables before it.
pub open spec fn is_free(rules: Seq<RuleView>, system: Seq<SystemRuleView>, i: int) -> bool {
    &&& forall|j: int| 0 <= j < rules.len() ==> (#[trigger] rules[j]).id != system[i].id
    &&& forall|j: int| 0 <= j < i ==> (#[trigger] system[j]).id != system[i].id
}

proof fn lemma_free(rules: Seq<RuleView>, system: Seq<SystemRuleView>, i: int)
    requires
        0 <= i < system.len(),
    ensures
        (rule_ids(rules) + system_ids(system)).take(rules.len() + i).contains(system[i].id)
            == !is_free(rules, system, i),
{
    let all = rule_ids(rules) + system_ids(system);
    let t = all.take(rules.len() + i);
    if t.contains(system[i].id) {
        let j = choose|j: int| 0 <= j < t.len() && t[j] == system[i].id;
        if j < rules.len() {
            assert(rules[j].id == system[i].id);
        } else {
            assert(system[j - rules.len()].id == system[i].id);
        }
    }
    if exists|j: int| 0 <= j < rules.len() && (#[trigger] rules[j]).id == system[i].id {
        let j = choose|j: int| 0 <= j < rules.len() && (#[trigger] rules[j]).id == system[i].id;
        assert(t[j] == system[i].id);
    }
    if exists|j: int| 0 <= j < i && (#[trigger] system[j]).id == system[i].id {
        let j = choose|j: int| 0 <= j < i && (#[trigger] system[j]).id == system[i].id;
        assert(t[rules.len() + j] == system[i].id);
    }
}

proof fn lemma_join(s: SystemRuleView, system: Seq<SystemRuleView>)
    ensures
        (s.join_rule.len() > 0 && (!system_ids(system).contains(s.join_rule) || s.join_rule == s.id
            || s.join_key.len() == 0 || s.join_foreign_key.len() == 0)) == !joins_another(s, system),
{
    let ids = system_ids(system);
    if ids.contains(s.join_rule) {
        let j = choose|j: int| 0 <= j < ids.len() && ids[j] == s.join_rule;
        assert(system[j].id == s.join_rule);
    }
    if exists|j: int| 0 <= j < system.len() && (#[trigger] system[j]).id == s.join_rule {
        let j = choose|j: int| 0 <= j < system.len() && (#[trigger] system[j]).id == s.join_rule;
        assert(ids[j] == s.join_rule);
    }
}

proof fn lemma_table(s: SystemRuleView)
    ensures
        (source_fault(s.source) is None && crate::rules::validate::kind_known(s.kind)
            && crate::rules::validate::view_known(s.view) && crate::rules::validate::storage_fits(s)
            && !(s.kind == "regex"@ && s.pattern.len() == 0) && !(s.fields.len() == 0 || any(
            s.fields,
            |f: FieldView| f.name.len() == 0 || f.path.len() == 0,
        )) && fields_fault(s.name, s.fields, 0) is None && (s.pattern.len() == 0 || pattern_fault(
            s.pattern,
            false,
        ) is None)) == is_good_table(s),
{
    lemma_source(s.source);
    lemma_fields(s.name, s.fields, 0);
    reveal_strlit("cards");
    reveal_strlit("table");
    reveal_strlit("storage");
    reveal_strlit("storage-smart");
    assert("cards"@.len() == 5 && "table"@.len() == 5 && "storage"@.len() == 7
        && "storage-smart"@.len() == 13);
    let g = |f: FieldView| f.name.len() == 0 || f.path.len() == 0;
    if any(s.fields, g) {
        let k = choose|k: int| 0 <= k < s.fields.len() && g(#[trigger] s.fields[k]);
        assert(!is_good_field(s.fields[k]));
    } else {
        assert forall|k: int| 0 <= k < s.fields.len() implies is_good_field(#[trigger] s.fields[k])
            == is_known_field(s.fields[k]) by {
            assert(!g(s.fields[k]));
        }
    }
    if is_good_table(s) {
        assert forall|k: int| 0 <= k < s.fields.len() implies is_known_field(#[trigger] s.fields[k])
            by {
            assert(is_good_field(s.fields[k]));
        }
    }
}

proof fn lemma_system(rules: Seq<RuleView>, system: Seq<SystemRuleView>, i: int)
    requires
        0 <= i,
    ensures
        system_fault(rules, system, i) is None <==> forall|k: int|
            i <= k < system.len() ==> is_good_table(#[trigger] system[k]) && is_free(
                rules,
                system,
                k,
            ) && joins_another(system[k], system),
    decreases system.len() - i,
{
    if i < system.len() {
        lemma_system(rules, system, i + 1);
        lemma_table(system[i]);
        lemma_free(rules, system, i);
        lemma_join(system[i], system);
    }
}

/// Rules for tables are accepted exactly where each can be used, has an identity of
/// its own in the package and joins nothing or the table of another rule.
pub proof fn law_usable_tables_are_accepted(rules: Seq<RuleView>, system: Seq<SystemRuleView>)
    ensures
        system_fault(rules, system, 0) is None <==> forall|k: int|
            0 <= k < system.len() ==> is_good_table(#[trigger] system[k]) && is_free(
                rules,
                system,
                k,
            ) && joins_another(system[k], system),
{
    lemma_system(rules, system, 0);
}

/// The kinds of facts that a timeline is made of.
pub open spec fn is_kind_of_fact(kind: Seq<char>) -> bool {
    ||| kind == "boot"@ || kind == "systemd_ready"@
    ||| kind == "shutdown_request"@ || kind == "shutdown_complete"@
    ||| kind == "reboot_request"@ || kind == "reboot_complete"@
    ||| kind == "kernel_panic"@ || kind == "watchdog_reset"@ || kind == "hardware_reset"@
    ||| kind == "power_loss_hint"@ || kind == "filesystem_recovery"@
    ||| kind == "device_reenumeration"@ || kind == "log_gap"@ || kind == "reset_reason"@
    ||| kind == "evidence"@
}

/// Whether a fact can be recognised: it has an identity, a known kind and strength,
/// terms that compile where they are expressions, and files that the package knows.
pub open spec fn is_good_fact(set: RuleSetView, e: TimelineEventRuleView) -> bool {
    &&& says_something(e.id)
    &&& is_kind_of_fact(e.event_type)
    &&& e.terms.len() > 0
    &&& e.evidence_strength == "strong"@ || e.evidence_strength == "medium"@ || e.evidence_strength
        == "weak"@
    &&& forall|k: int|
        0 <= k < e.source_file_ids.len() ==> knows_file(set, #[trigger] e.source_file_ids[k])
    &&& e.regex ==> forall|k: int|
        0 <= k < e.terms.len() ==> pattern_fault(#[trigger] e.terms[k], false) is None
}

/// Whether the package has a file of an identity.
pub open spec fn knows_file(set: RuleSetView, id: Seq<char>) -> bool {
    exists|k: int| 0 <= k < set.log_files.len() && (#[trigger] set.log_files[k]).id == id
}

proof fn lemma_file(set: RuleSetView, id: Seq<char>)
    ensures
        file_place(set.log_files, id) is Some <==> knows_file(set, id),
{
    let f = file_with(id);
    lemma_first_holds(set.log_files, f, 0);
    if file_place(set.log_files, id) is Some {
        let k = file_place(set.log_files, id)->0;
        assert(f(set.log_files[k]));
        assert(set.log_files[k].id == id);
    }
    if knows_file(set, id) {
        let k = choose|k: int|
            0 <= k < set.log_files.len() && (#[trigger] set.log_files[k]).id == id;
        assert(f(set.log_files[k]));
        lemma_first_of_any(set.log_files, f, 0, k);
    }
}

proof fn lemma_event_files(set: RuleSetView, e: TimelineEventRuleView, i: int)
    requires
        0 <= i,
    ensures
        event_files_fault(set, e, i) is None <==> forall|k: int|
            i <= k < e.source_file_ids.len() ==> knows_file(set, #[trigger] e.source_file_ids[k]),
    decreases e.source_file_ids.len() - i,
{
    if i < e.source_file_ids.len() {
        lemma_event_files(set, e, i + 1);
        lemma_file(set, e.source_file_ids[i]);
    }
}

proof fn lemma_event_terms(e: TimelineEventRuleView, i: int)
    requires
        0 <= i,
    ensures
        event_terms_fault(e, i) is None <==> (e.regex ==> forall|k: int|
            i <= k < e.terms.len() ==> pattern_fault(#[trigger] e.terms[k], false) is None),
    decreases e.terms.len() - i,
{
    if i < e.terms.len() {
        lemma_event_terms(e, i + 1);
    }
}

proof fn lemma_events(set: RuleSetView, i: int)
    requires
        0 <= i,
    ensures
        events_fault(set, i) is None <==> forall|k: int|
            i <= k < set.timeline.events.len() ==> is_good_fact(
                set,
                #[trigger] set.timeline.events[k],
            ) && is_new(event_ids(set.timeline.events), k),
    decreases set.timeline.events.len() - i,
{
    let events = set.timeline.events;
    if i < events.len() {
        lemma_events(set, i + 1);
        let e = events[i];
        lemma_blank(e.id);
        lemma_new(event_ids(events), i);
        assert(event_ids(events)[i] == e.id);
        lemma_event_files(set, e, 0);
        lemma_event_terms(e, 0);
    }
}

/// Facts are accepted exactly where each can be recognised and no two have the same
/// identity.
pub proof fn law_usable_facts_are_accepted(set: RuleSetView)
    ensures
        events_fault(set, 0) is None <==> {
            let events = set.timeline.events;
            &&& forall|k: int|
                0 <= k < events.len() ==> is_good_fact(set, #[trigger] events[k])
            &&& forall|j: int, k: int|
                0 <= j < k < events.len() ==> (#[trigger] events[j]).id != (#[trigger] events[k]).id
        },
{
    let events = set.timeline.events;
    lemma_events(set, 0);
    if events_fault(set, 0) is None {
        assert forall|j: int, k: int| 0 <= j < k < events.len() implies (#[trigger] events[j]).id
            != (#[trigger] events[k]).id by {
            assert(is_new(event_ids(events), k));
            assert(event_ids(events)[j] == events[j].id);
        }
    }
}

/// Whether a conclusion can be drawn: it has an identity, says something and has a
/// known confidence.
pub open spec fn is_good_judgement(j: TimelineJudgementRuleView) -> bool {
    &&& says_something(j.id)
    &&& says_something(j.output)
    &&& j.confidence == "high"@ || j.confidence == "medium"@ || j.confidence == "low"@
}

/// Whether the identity of a conclusion stands neither among the facts nor among the
/// conclusions before it.
pub open spec fn is_own(set: RuleSetView, i: int) -> bool {
    let events = set.timeline.events;
    let judgements = set.timeline.judgements;
    &&& forall|j: int| 0 <= j < events.len() ==> (#[trigger] events[j]).id != judgements[i].id
    &&& forall|j: int| 0 <= j < i ==> (#[trigger] judgements[j]).id != judgements[i].id
}

proof fn lemma_own(set: RuleSetView, i: int)
    requires
        0 <= i < set.timeline.judgements.len(),
    ensures
        (event_ids(set.timeline.events) + judgement_ids(set.timeline.judgements)).take(
            set.timeline.events.len() + i,
        ).contains(set.timeline.judgements[i].id) == !is_own(set, i),
{
    let events = set.timeline.events;
    let judgements = set.timeline.judgements;
    let id = judgements[i].id;
    let t = (event_ids(events) + judgement_ids(judgements)).take(events.len() + i);
    if t.contains(id) {
        let j = choose|j: int| 0 <= j < t.len() && t[j] == id;
        if j < events.len() {
            assert(events[j].id == id);
        } else {
            assert(judgements[j - events.len()].id == id);
        }
    }
    if exists|j: int| 0 <= j < events.len() && (#[trigger] events[j]).id == id {
        let j = choose|j: int| 0 <= j < events.len() && (#[trigger] events[j]).id == id;
        assert(t[j] == id);
    }
    if exists|j: int| 0 <= j < i && (#[trigger] judgements[j]).id == id {
        let j = choose|j: int| 0 <= j < i && (#[trigger] judgements[j]).id == id;
        assert(t[events.len() + j] == id);
    }
}

proof fn lemma_judgements(set: RuleSetView, i: int)
    requires
        0 <= i,
    ensures
        judgements_fault(set, i) is None <==> forall|k: int|
            i <= k < set.timeline.judgements.len() ==> is_good_judgement(
                #[trigger] set.timeline.judgements[k],
            ) && is_own(set, k),
    decreases set.timeline.judgements.len() - i,
{
    if i < set.timeline.judgements.len() {
        lemma_judgements(set, i + 1);
        lemma_own(set, i);
        lemma_blank(set.timeline.judgements[i].id);
        lemma_blank(set.timeline.judgements[i].output);
    }
}

/// Conclusions are accepted exactly where each can be drawn and has an identity of
/// its own.
pub proof fn law_usable_conclusions_are_accepted(set: RuleSetView)
    ensures
        judgements_fault(set, 0) is None <==> forall|k: int|
            0 <= k < set.timeline.judgements.len() ==> is_good_judgement(
                #[trigger] set.timeline.judgements[k],
            ) && is_own(set, k),
{
    lemma_judgements(set, 0);
}

/// A package is accepted in its looks where its times are not zero, its colour has six
/// hexadecimal digits, its letters are between 10 and 24 and its batches between 10 and
/// 5000.
pub proof fn law_looks_have_their_limits(set: RuleSetView)
    ensures
        style_fault(set) is None <==> {
            &&& set.timeline.thresholds.match_window_seconds > 0
            &&& set.timeline.thresholds.gap_seconds > 0
            &&& pattern_fault("^#[0-9a-fA-F]{6}$"@, false) is None
            &&& pattern_matches("^#[0-9a-fA-F]{6}$"@, false, set.layout.accent)
            &&& 10 <= set.layout.font_size <= 24
            &&& 10 <= set.layout.log_lines_per_batch <= 5000
        },
{
}

/// A package whose references are resolved is accepted exactly where it has the third
/// version of the format and every part of it is accepted.
pub proof fn law_every_part_must_be_accepted(set: RuleSetView)
    ensures
        set.resolved_fault() is None <==> {
            &&& set.version == 3
            &&& rules_fault(set.rules, 0) is None
            &&& system_fault(set.rules, set.system, 0) is None
            &&& events_fault(set, 0) is None
            &&& judgements_fault(set, 0) is None
            &&& style_fault(set) is None
        },
        set.fault() is None <==> {
            &&& set.catalog_fault() is None
            &&& set.reference_fault() is None
            &&& set.resolved().resolved_fault() is None
        },
{
}

/// Whether a rule takes an expression as plain text.
pub open spec fn looks_like_expression(r: RuleView) -> bool {
    !r.regex && exists|k: int| 0 <= k < r.terms.len() && has(#[trigger] r.terms[k], ".*"@)
}

/// Whether a timeline rule has not become a fact yet.
pub open spec fn is_left_over(set: RuleSetView, r: RuleView) -> bool {
    r.target == "timeline"@ && forall|k: int|
        0 <= k < set.timeline.events.len() ==> (#[trigger] set.timeline.events[k]).id != "legacy-"@
            + r.id
}

/// Whether a warning is said of a rule.
pub open spec fn is_said_of(set: RuleSetView, r: RuleView, w: Seq<char>) -> bool {
    ||| looks_like_expression(r) && w == "「"@ + r.name + "」包含 .*，但使用普通关键词匹配"@
    ||| is_left_over(set, r) && w == "旧时间线规则「"@ + r.name
        + "」将在导入时迁移为基础事实事件"@
}

proof fn lemma_said(set: RuleSetView, r: RuleView)
    ensures
        (!r.regex && any(r.terms, |t: Seq<char>| has(t, ".*"@))) == looks_like_expression(r),
        (r.target == "timeline"@ && !event_ids(set.timeline.events).contains("legacy-"@ + r.id))
            == is_left_over(set, r),
{
    let f = |t: Seq<char>| has(t, ".*"@);
    if any(r.terms, f) {
        let k = choose|k: int| 0 <= k < r.terms.len() && f(#[trigger] r.terms[k]);
        assert(has(r.terms[k], ".*"@));
    }
    if exists|k: int| 0 <= k < r.terms.len() && has(#[trigger] r.terms[k], ".*"@) {
        let k = choose|k: int| 0 <= k < r.terms.len() && has(#[trigger] r.terms[k], ".*"@);
        assert(f(r.terms[k]));
    }
    let ids = event_ids(set.timeline.events);
    let id = "legacy-"@ + r.id;
    if ids.contains(id) {
        let k = choose|k: int| 0 <= k < ids.len() && ids[k] == id;
        assert(set.timeline.events[k].id == id);
    }
    if exists|k: int|
        0 <= k < set.timeline.events.len() && (#[trigger] set.timeline.events[k]).id == id {
        let k = choose|k: int|
            0 <= k < set.timeline.events.len() && (#[trigger] set.timeline.events[k]).id == id;
        assert(ids[k] == id);
    }
}

pub proof fn lemma_sum(a: Seq<Seq<char>>, b: Seq<Seq<char>>, w: Seq<char>)
    ensures
        (a + b).contains(w) == (a.contains(w) || b.contains(w)),
{
    let all = a + b;
    if all.contains(w) {
        let i = choose|i: int| 0 <= i < all.len() && all[i] == w;
        if i < a.len() {
            assert(a[i] == w);
        } else {
            assert(b[i - a.len()] == w);
        }
    }
    if a.contains(w) {
        let i = choose|i: int| 0 <= i < a.len() && a[i] == w;
        assert(all[i] == w);
    }
    if b.contains(w) {
        let i = choose|i: int| 0 <= i < b.len() && b[i] == w;
        assert(all[a.len() + i] == w);
    }
}

/// The user is told of a rule whose expression is taken as plain text and of a
/// timeline rule that has not become a fact, and of no other.
pub proof fn law_doubtful_rules_are_told(set: RuleSetView, n: int, w: Seq<char>)
    requires
        0 <= n <= set.rules.len(),
    ensures
        rule_warnings(set, n).contains(w) <==> exists|i: int|
            0 <= i < n && is_said_of(set, #[trigger] set.rules[i], w),
    decreases n,
{
    if n > 0 {
        law_doubtful_rules_are_told(set, n - 1, w);
        let r = set.rules[n - 1];
        lemma_said(set, r);
        let one = "「"@ + r.name + "」包含 .*，但使用普通关键词匹配"@;
        let two = "旧时间线规则「"@ + r.name + "」将在导入时迁移为基础事实事件"@;
        let a = if looks_like_expression(r) {
            seq![one]
        } else {
            Seq::empty()
        };
        let b = if is_left_over(set, r) {
            seq![two]
        } else {
            Seq::empty()
        };
        let was = rule_warnings(set, n - 1);
        assert(rule_warnings(set, n) == was + a + b);
        lemma_sum(was + a, b, w);
        lemma_sum(was, a, w);
        assert(seq![one][0] == one);
        assert(seq![two][0] == two);
        assert(a.contains(w) == (looks_like_expression(r) && w == one));
        assert(b.contains(w) == (is_left_over(set, r) && w == two));
    }
}

/// Whether two rules look for the same lines in the same files with the same context.
pub open spec fn look_for_the_same(a: RuleView, b: RuleView) -> bool {
    a.terms == b.terms && a.sources == b.sources && a.regex == b.regex && a.mode == b.mode
        && a.exclude == b.exclude && a.before == b.before && a.after == b.after
}

/// Whether a rule looks for the same as one before it.
pub open spec fn is_repeat(rules: Seq<RuleView>, i: int) -> bool {
    exists|j: int| 0 <= j < i && look_for_the_same(#[trigger] rules[j], rules[i])
}

/// The user is told of every rule that looks for the same as one before it, and of no
/// other.
pub proof fn law_repeated_rules_are_told(rules: Seq<RuleView>, n: int, w: Seq<char>)
    requires
        0 <= n <= rules.len(),
    ensures
        repeat_warnings(rules, n).contains(w) <==> exists|i: int|
            0 <= i < n && is_repeat(rules, i) && w == "「"@ + (#[trigger] rules[i]).name
                + "」与前面的规则匹配条件重复"@,
    decreases n,
{
    if n > 0 {
        law_repeated_rules_are_told(rules, n - 1, w);
        let r = rules[n - 1];
        let f = |x: RuleView| same_conditions(x, r);
        let t = rules.take(n - 1);
        assert(any(t, f) == is_repeat(rules, n - 1)) by {
            if any(t, f) {
                let j = choose|j: int| 0 <= j < t.len() && f(#[trigger] t[j]);
                assert(look_for_the_same(rules[j], r));
            }
            if is_repeat(rules, n - 1) {
                let j = choose|j: int|
                    0 <= j < n - 1 && look_for_the_same(#[trigger] rules[j], rules[n - 1]);
                assert(f(t[j]));
            }
        }
        let one = "「"@ + r.name + "」与前面的规则匹配条件重复"@;
        let a = if is_repeat(rules, n - 1) {
            seq![one]
        } else {
            Seq::empty()
        };
        let was = repeat_warnings(rules, n - 1);
        assert(repeat_warnings(rules, n) == was + a);
        lemma_sum(was, a, w);
        assert(seq![one][0] == one);
        assert(a.contains(w) == (is_repeat(rules, n - 1) && w == one));
    }
}

} // verus!
