//! What a rule package must meet.

use crate::fault::{caused, detailed, first_of, refusal, Fault, FaultKind, FaultView};
use crate::outside::clock::{format_ok, format_valid};
use crate::outside::pattern::{compile, pattern_fault, pattern_matches};
use crate::rules::catalog::{find_file, file_place, in_first, source_fault, validate_source};
use crate::rules::matcher::{term_fault, Matcher};
use crate::rules::model::{
    Field, FieldView, Rule, RuleSet, RuleSetView, RuleView, Source, SourceView, SystemRule,
    SystemRuleView, TimelineEventRule, TimelineEventRuleView, TimelineJudgementRule,
    TimelineJudgementRuleView,
};
use crate::text::{
    any, blank, concat2, concat3, contains, decimal, decimal_text, has, is_blank, lists, opt_view,
    same, same_list, views, Duplicate,
};
use vstd::prelude::*;

verus! {

pub const ZONE_PATTERN: &'static str = "^[+-](?:0\\d|1[0-4]):[0-5]\\d$";

pub const COLOUR_PATTERN: &'static str = "^#[0-9a-fA-F]{6}$";

/// The version of the rule format.
pub const RULE_VERSION: u32 = 3;

/// Why a text is refused that must have the form of an expression.
pub open spec fn form_fault(source: Seq<char>, text: Seq<char>, fault: FaultView) -> Option<
    FaultView,
> {
    match pattern_fault(source, false) {
        Some(e) => Some(refusal(FaultKind::BrokenPattern, e)),
        None => if pattern_matches(source, false, text) {
            None
        } else {
            Some(fault)
        },
    }
}

/// Why an expression is refused; an empty one is none.
pub open spec fn pattern_refusal(
    source: Seq<char>,
    kind: FaultKind,
    subject: Seq<char>,
    detail: Seq<char>,
) -> Option<FaultView> {
    if source.len() == 0 {
        None
    } else {
        match pattern_fault(source, false) {
            Some(e) => Some(caused(kind, subject, detail, e)),
            None => None,
        }
    }
}

fn check_form(source: &str, text: &str, fault: Fault) -> (r: Option<Fault>)
    ensures
        opt_view(r) == form_fault(source@, text@, fault@),
{
    match compile(source, false) {
        Ok(p) => if p.is_match(text) {
            None
        } else {
            Some(fault)
        },
        Err(e) => Some(Fault::new(FaultKind::BrokenPattern, e.as_str())),
    }
}

fn check_pattern(source: &str, kind: FaultKind, subject: &str, detail: &str) -> (r: Option<Fault>)
    ensures
        opt_view(r) == pattern_refusal(source@, kind, subject@, detail@),
{
    if source.is_empty() {
        return None;
    }
    match compile(source, false) {
        Ok(_) => None,
        Err(e) => Some(Fault::with_cause(kind, subject, detail, e.as_str())),
    }
}

pub open spec fn rule_ids(rules: Seq<RuleView>) -> Seq<Seq<char>> {
    Seq::new(rules.len(), |i: int| rules[i].id)
}

pub open spec fn system_ids(system: Seq<SystemRuleView>) -> Seq<Seq<char>> {
    Seq::new(system.len(), |i: int| system[i].id)
}

pub open spec fn event_ids(events: Seq<TimelineEventRuleView>) -> Seq<Seq<char>> {
    Seq::new(events.len(), |i: int| events[i].id)
}

pub open spec fn judgement_ids(judgements: Seq<TimelineJudgementRuleView>) -> Seq<Seq<char>> {
    Seq::new(judgements.len(), |i: int| judgements[i].id)
}

pub open spec fn options_known(r: RuleView) -> bool {
    &&& r.mode == "any"@ || r.mode == "all"@
    &&& r.target == "keywords"@ || r.target == "timeline"@ || r.target == "both"@
    &&& r.sort == "source"@ || r.sort == "asc"@ || r.sort == "desc"@
}

/// Why the sources from the one with number `i` on are refused.
pub open spec fn sources_fault(sources: Seq<SourceView>, i: int) -> Option<FaultView>
    decreases sources.len() - i,
{
    if i >= sources.len() {
        None
    } else if source_fault(sources[i]) is Some {
        source_fault(sources[i])
    } else {
        sources_fault(sources, i + 1)
    }
}

/// Why a rule is refused, apart from its identity, given why one of its terms
/// does not compile, what is wrong with its time zone, whether its time format can
/// be read, and what is wrong with its time expression.
pub open spec fn rule_refusal(
    r: RuleView,
    term: Option<Seq<char>>,
    zone: Option<FaultView>,
    format: bool,
    time: Option<FaultView>,
) -> Option<FaultView> {
    if blank(r.name) || r.terms.len() == 0 || any(r.terms, |s: Seq<char>| s.len() == 0) {
        Some(refusal(FaultKind::RuleTerms, r.name))
    } else if r.sources.len() == 0 || any(r.sources, |s: SourceView| s.pattern.len() == 0) {
        Some(refusal(FaultKind::RuleSources, r.name))
    } else if term is Some {
        Some(caused(FaultKind::RulePattern, r.name, Seq::empty(), term->0))
    } else if !options_known(r) {
        Some(refusal(FaultKind::RuleOptions, r.name))
    } else {
        first_of(
            sources_fault(r.sources, 0),
            first_of(
                zone,
                if format {
                    time
                } else {
                    Some(refusal(FaultKind::TimeFormat, r.name))
                },
            ),
        )
    }
}

/// What is wrong with the time zone of a rule; an empty one is none.
pub open spec fn zone_fault(r: RuleView) -> Option<FaultView> {
    if r.timezone.len() == 0 {
        None
    } else {
        form_fault(ZONE_PATTERN@, r.timezone, refusal(FaultKind::Timezone, r.name))
    }
}

/// Why a rule is refused, apart from its identity.
pub open spec fn rule_fault(r: RuleView) -> Option<FaultView> {
    rule_refusal(
        r,
        term_fault(r, 0),
        zone_fault(r),
        r.time_format.len() == 0 || format_valid(r.time_format),
        pattern_refusal(r.time_regex, FaultKind::TimePattern, r.name, Seq::empty()),
    )
}

/// Why the rules from the one with number `i` on are refused.
pub open spec fn rules_fault(rules: Seq<RuleView>, i: int) -> Option<FaultView>
    decreases rules.len() - i,
{
    if i >= rules.len() {
        None
    } else if rule_ids(rules).take(i).contains(rules[i].id) {
        Some(refusal(FaultKind::RuleId, rules[i].name))
    } else if rule_fault(rules[i]) is Some {
        rule_fault(rules[i])
    } else {
        rules_fault(rules, i + 1)
    }
}

fn holds_empty(list: &Vec<String>) -> (r: bool)
    ensures
        r == any(views(list@), |s: Seq<char>| s.len() == 0),
{
    let ghost f = |s: Seq<char>| s.len() == 0;
    let ghost lv = views(list@);
    let mut i: usize = 0;
    while i < list.len()
        invariant
            i <= list.len(),
            lv == views(list@),
            f == (|s: Seq<char>| s.len() == 0),
            forall|j: int| 0 <= j < i ==> !f(#[trigger] lv[j]),
        decreases list.len() - i,
    {
        let hit = list[i].as_str().is_empty();
        proof {
            assert(hit == f(lv[i as int]));
        }
        if hit {
            return true;
        }
        i += 1;
    }
    false
}

fn holds_empty_source(list: &Vec<Source>) -> (r: bool)
    ensures
        r == any(views(list@), |s: SourceView| s.pattern.len() == 0),
{
    let ghost f = |s: SourceView| s.pattern.len() == 0;
    let ghost lv = views(list@);
    let mut i: usize = 0;
    while i < list.len()
        invariant
            i <= list.len(),
            lv == views(list@),
            f == (|s: SourceView| s.pattern.len() == 0),
            forall|j: int| 0 <= j < i ==> !f(#[trigger] lv[j]),
        decreases list.len() - i,
    {
        let hit = list[i].pattern.as_str().is_empty();
        proof {
            assert(lv[i as int] == list@[i as int]@);
            assert(hit == f(lv[i as int]));
        }
        if hit {
            return true;
        }
        i += 1;
    }
    false
}

fn check_sources(sources: &Vec<Source>) -> (r: Option<Fault>)
    ensures
        opt_view(r) == sources_fault(views(sources@), 0),
{
    let ghost sv = views(sources@);
    let mut i: usize = 0;
    while i < sources.len()
        invariant
            i <= sources.len(),
            sv == views(sources@),
            sources_fault(sv, 0) == sources_fault(sv, i as int),
        decreases sources.len() - i,
    {
        proof {
            assert(sv[i as int] == sources@[i as int]@);
        }
        let f = validate_source(&sources[i]);
        if f.is_some() {
            return f;
        }
        i += 1;
    }
    None
}

fn check_options(r: &Rule) -> (out: bool)
    ensures
        out == options_known(r@),
{
    let mode = r.mode.as_str();
    let target = r.target.as_str();
    let sort = r.sort.as_str();
    (same(mode, "any") || same(mode, "all")) && (same(target, "keywords") || same(
        target,
        "timeline",
    ) || same(target, "both")) && (same(sort, "source") || same(sort, "asc") || same(sort, "desc"))
}

/// Why a rule is refused, apart from its identity, given why one of its terms
/// does not compile, what is wrong with its time zone, whether its time format can
/// be read, and what is wrong with its time expression.
pub fn refuse_rule(
    r: &Rule,
    term: Option<String>,
    zone: Option<Fault>,
    format: bool,
    time: Option<Fault>,
) -> (out: Option<Fault>)
    ensures
        opt_view(out) == rule_refusal(r@, opt_view(term), opt_view(zone), format, opt_view(time)),
{
    let name = r.name.as_str();
    if is_blank(name) || r.terms.len() == 0 || holds_empty(&r.terms) {
        return Some(Fault::new(FaultKind::RuleTerms, name));
    }
    if r.sources.len() == 0 || holds_empty_source(&r.sources) {
        return Some(Fault::new(FaultKind::RuleSources, name));
    }
    if let Some(e) = term {
        let none = String::new();
        proof {
            assert(none@ =~= Seq::<char>::empty());
        }
        return Some(Fault::with_cause(FaultKind::RulePattern, name, none.as_str(), e.as_str()));
    }
    if !check_options(r) {
        return Some(Fault::new(FaultKind::RuleOptions, name));
    }
    let f = check_sources(&r.sources);
    if f.is_some() {
        return f;
    }
    if zone.is_some() {
        return zone;
    }
    if !format {
        return Some(Fault::new(FaultKind::TimeFormat, name));
    }
    time
}

/// Why a rule is refused, apart from its identity.
pub fn check_rule(r: &Rule) -> (out: Option<Fault>)
    ensures
        opt_view(out) == rule_fault(r@),
{
    let name = r.name.as_str();
    let none = String::new();
    proof {
        assert(none@ =~= Seq::<char>::empty());
    }
    let term = match Matcher::new(r) {
        Ok(_) => None,
        Err(e) => Some(e),
    };
    let zone = if r.timezone.as_str().is_empty() {
        None
    } else {
        check_form(ZONE_PATTERN, r.timezone.as_str(), Fault::new(FaultKind::Timezone, name))
    };
    let format = r.time_format.as_str().is_empty() || format_ok(r.time_format.as_str());
    let time = check_pattern(
        r.time_regex.as_str(),
        FaultKind::TimePattern,
        name,
        none.as_str(),
    );
    refuse_rule(r, term, zone, format, time)
}

fn ids_of_rules(rules: &Vec<Rule>) -> (r: Vec<String>)
    ensures
        views(r@) == rule_ids(views(rules@)),
{
    let mut out: Vec<String> = Vec::new();
    let mut i: usize = 0;
    while i < rules.len()
        invariant
            i <= rules.len(),
            out.len() == i,
            forall|j: int| 0 <= j < i ==> (#[trigger] out@[j])@ == rules@[j].id@,
        decreases rules.len() - i,
    {
        out.push(rules[i].id.clone());
        i += 1;
    }
    proof {
        assert(views(out@) =~= rule_ids(views(rules@)));
    }
    out
}

fn check_rules(rules: &Vec<Rule>, ids: &Vec<String>) -> (r: Option<Fault>)
    requires
        views(ids@) == rule_ids(views(rules@)),
    ensures
        opt_view(r) == rules_fault(views(rules@), 0),
{
    let ghost rv = views(rules@);
    let mut i: usize = 0;
    proof {
        assert(ids.len() == views(ids@).len());
    }
    while i < rules.len()
        invariant
            i <= rules.len(),
            ids.len() == rules.len(),
            rv == views(rules@),
            views(ids@) == rule_ids(rv),
            rules_fault(rv, 0) == rules_fault(rv, i as int),
        decreases rules.len() - i,
    {
        proof {
            assert(rv[i as int] == rules@[i as int]@);
        }
        if in_first(ids, i, rules[i].id.as_str()) {
            return Some(Fault::new(FaultKind::RuleId, rules[i].name.as_str()));
        }
        let f = check_rule(&rules[i]);
        if f.is_some() {
            return f;
        }
        i += 1;
    }
    None
}

/// What a user is told of the first `n` rules: an expression that is taken as
/// plain text, and a timeline rule that has not become a fact yet.
pub open spec fn rule_warnings(set: RuleSetView, n: int) -> Seq<Seq<char>>
    decreases n,
{
    if n <= 0 {
        Seq::empty()
    } else {
        let r = set.rules[n - 1];
        rule_warnings(set, n - 1) + (if !r.regex && any(r.terms, |t: Seq<char>| has(t, ".*"@)) {
            seq!["「"@ + r.name + "」包含 .*，但使用普通关键词匹配"@]
        } else {
            Seq::empty()
        }) + (if r.target == "timeline"@ && !event_ids(set.timeline.events).contains(
            "legacy-"@ + r.id,
        ) {
            seq!["旧时间线规则「"@ + r.name + "」将在导入时迁移为基础事实事件"@]
        } else {
            Seq::empty()
        })
    }
}

/// Whether two rules match the same lines with the same context.
pub open spec fn same_conditions(x: RuleView, r: RuleView) -> bool {
    &&& x.terms == r.terms
    &&& x.sources == r.sources
    &&& x.regex == r.regex
    &&& x.mode == r.mode
    &&& x.exclude == r.exclude
    &&& x.before == r.before
    &&& x.after == r.after
}

/// What a user is told of the first `n` rules that repeat an earlier one.
pub open spec fn repeat_warnings(rules: Seq<RuleView>, n: int) -> Seq<Seq<char>>
    decreases n,
{
    if n <= 0 {
        Seq::empty()
    } else {
        let r = rules[n - 1];
        repeat_warnings(rules, n - 1) + (if any(
            rules.take(n - 1),
            |x: RuleView| same_conditions(x, r),
        ) {
            seq!["「"@ + r.name + "」与前面的规则匹配条件重复"@]
        } else {
            Seq::empty()
        })
    }
}

fn holds_wildcard(list: &Vec<String>) -> (r: bool)
    ensures
        r == any(views(list@), |t: Seq<char>| has(t, ".*"@)),
{
    let ghost f = |t: Seq<char>| has(t, ".*"@);
    let ghost lv = views(list@);
    let mut i: usize = 0;
    while i < list.len()
        invariant
            i <= list.len(),
            lv == views(list@),
            f == (|t: Seq<char>| has(t, ".*"@)),
            forall|j: int| 0 <= j < i ==> !f(#[trigger] lv[j]),
        decreases list.len() - i,
    {
        let hit = contains(list[i].as_str(), ".*");
        proof {
            assert(hit == f(lv[i as int]));
        }
        if hit {
            return true;
        }
        i += 1;
    }
    false
}

pub fn same_sources(a: &Vec<Source>, b: &Vec<Source>) -> (r: bool)
    ensures
        r == (views(a@) == views(b@)),
{
    if a.len() != b.len() {
        proof {
            assert(views(a@).len() != views(b@).len());
        }
        return false;
    }
    let mut i: usize = 0;
    while i < a.len()
        invariant
            a.len() == b.len(),
            i <= a.len(),
            forall|j: int| 0 <= j < i ==> views(a@)[j] == views(b@)[j],
        decreases a.len() - i,
    {
        if !same(a[i].pattern.as_str(), b[i].pattern.as_str()) || !same(
            a[i].mode.as_str(),
            b[i].mode.as_str(),
        ) {
            proof {
                assert(views(a@)[i as int] != views(b@)[i as int]);
            }
            return false;
        }
        proof {
            assert(views(a@)[i as int] =~= views(b@)[i as int]);
        }
        i += 1;
    }
    proof {
        assert(views(a@) =~= views(b@));
    }
    true
}

fn repeats_earlier(rules: &Vec<Rule>, i: usize) -> (r: bool)
    requires
        i < rules.len(),
    ensures
        r == any(
            views(rules@).take(i as int),
            |x: RuleView| same_conditions(x, views(rules@)[i as int]),
        ),
{
    let ghost rv = views(rules@);
    let ghost earlier = rv.take(i as int);
    let ghost f = |x: RuleView| same_conditions(x, rv[i as int]);
    let b = &rules[i];
    let mut j: usize = 0;
    while j < i
        invariant
            j <= i < rules.len(),
            rv == views(rules@),
            earlier == rv.take(i as int),
            f == (|x: RuleView| same_conditions(x, rv[i as int])),
            *b == rules@[i as int],
            forall|k: int| 0 <= k < j ==> !f(#[trigger] earlier[k]),
        decreases i - j,
    {
        let a = &rules[j];
        let hit = same_list(&a.terms, &b.terms) && same_sources(&a.sources, &b.sources) && a.regex
            == b.regex && same(a.mode.as_str(), b.mode.as_str()) && same_list(
            &a.exclude,
            &b.exclude,
        ) && a.before == b.before && a.after == b.after;
        proof {
            assert(earlier[j as int] == a@);
            assert(rv[i as int] == b@);
            assert(hit == f(earlier[j as int]));
        }
        if hit {
            return true;
        }
        j += 1;
    }
    false
}

fn ids_of_events(events: &Vec<TimelineEventRule>) -> (r: Vec<String>)
    ensures
        views(r@) == event_ids(views(events@)),
{
    let mut out: Vec<String> = Vec::new();
    let mut i: usize = 0;
    while i < events.len()
        invariant
            i <= events.len(),
            out.len() == i,
            forall|j: int| 0 <= j < i ==> (#[trigger] out@[j])@ == events@[j].id@,
        decreases events.len() - i,
    {
        out.push(events[i].id.clone());
        i += 1;
    }
    proof {
        assert(views(out@) =~= event_ids(views(events@)));
    }
    out
}

fn push_owned(v: &mut Vec<String>, s: String)
    ensures
        views(final(v)@) == views(old(v)@) + seq![s@],
{
    let ghost sv = s@;
    v.push(s);
    proof {
        assert(views(v@) =~= views(old(v)@) + seq![sv]);
    }
}

fn collect_warnings(set: &RuleSet) -> (r: Vec<String>)
    ensures
        views(r@) == rule_warnings(set@, set.rules.len() as int) + repeat_warnings(
            set@.rules,
            set.rules.len() as int,
        ),
{
    let ghost sv = set@;
    let facts = ids_of_events(&set.timeline.events);
    let mut out: Vec<String> = Vec::new();
    let mut i: usize = 0;
    proof {
        assert(views(out@) =~= rule_warnings(sv, 0));
    }
    while i < set.rules.len()
        invariant
            i <= set.rules.len(),
            sv == set@,
            views(facts@) == event_ids(sv.timeline.events),
            views(out@) == rule_warnings(sv, i as int),
        decreases set.rules.len() - i,
    {
        let r = &set.rules[i];
        proof {
            assert(sv.rules[i as int] == r@);
        }
        let ghost was = views(out@);
        if !r.regex && holds_wildcard(&r.terms) {
            push_owned(
                &mut out,
                concat3("「", r.name.as_str(), "」包含 .*，但使用普通关键词匹配"),
            );
        }
        let ghost mid = views(out@);
        let legacy = concat2("legacy-", r.id.as_str());
        if same(r.target.as_str(), "timeline") && !lists(&facts, legacy.as_str()) {
            push_owned(
                &mut out,
                concat3("旧时间线规则「", r.name.as_str(), "」将在导入时迁移为基础事实事件"),
            );
        }
        proof {
            assert(mid =~= was + (if !r.regex && any(
                r@.terms,
                |t: Seq<char>| has(t, ".*"@),
            ) {
                seq!["「"@ + r.name@ + "」包含 .*，但使用普通关键词匹配"@]
            } else {
                Seq::empty()
            }));
            assert(views(out@) =~= rule_warnings(sv, i + 1));
        }
        i += 1;
    }
    let ghost first = views(out@);
    let mut k: usize = 0;
    proof {
        assert(first + repeat_warnings(sv.rules, 0) =~= first);
    }
    while k < set.rules.len()
        invariant
            k <= set.rules.len(),
            sv == set@,
            views(out@) == first + repeat_warnings(sv.rules, k as int),
        decreases set.rules.len() - k,
    {
        let ghost was = views(out@);
        let r = &set.rules[k];
        proof {
            assert(sv.rules[k as int] == r@);
        }
        if repeats_earlier(&set.rules, k) {
            push_owned(&mut out, concat3("「", r.name.as_str(), "」与前面的规则匹配条件重复"));
        }
        proof {
            assert(views(out@) =~= first + repeat_warnings(sv.rules, k + 1));
        }
        k += 1;
    }
    out
}

pub open spec fn kind_known(kind: Seq<char>) -> bool {
    kind == "json"@ || kind == "kv"@ || kind == "sections"@ || kind == "columns"@ || kind
        == "regex"@
}

pub open spec fn view_known(view: Seq<char>) -> bool {
    view == "cards"@ || view == "table"@ || view == "storage"@ || view == "storage-smart"@
}

/// Whether a table of disks is extracted as its view needs it.
pub open spec fn storage_fits(s: SystemRuleView) -> bool {
    if s.view == "storage"@ {
        s.kind == "json"@ && s.selector == "disk.devices[]"@
    } else if s.view == "storage-smart"@ {
        s.kind == "json"@ && s.selector == "disk.devices[].smart_info.report[]"@
    } else {
        true
    }
}

pub open spec fn field_known(f: FieldView) -> bool {
    &&& f.format == ""@ || f.format == "bytes"@ || f.format == "unix"@ || f.format == "kib"@
    &&& f.view == ""@ || f.view == "cards"@ || f.view == "table"@
}

pub open spec fn field_names(fields: Seq<FieldView>) -> Seq<Seq<char>> {
    Seq::new(fields.len(), |i: int| fields[i].name)
}

/// Why the fields from the one with number `i` on are refused.
pub open spec fn fields_fault(name: Seq<char>, fields: Seq<FieldView>, i: int) -> Option<FaultView>
    decreases fields.len() - i,
{
    if i >= fields.len() {
        None
    } else {
        let f = fields[i];
        if field_names(fields).take(i).contains(f.name) {
            Some(detailed(FaultKind::FieldName, name, f.name))
        } else if pattern_refusal(f.capture, FaultKind::FieldCapture, name, f.name) is Some {
            pattern_refusal(f.capture, FaultKind::FieldCapture, name, f.name)
        } else if !field_known(f) {
            Some(detailed(FaultKind::FieldOptions, name, f.name))
        } else {
            fields_fault(name, fields, i + 1)
        }
    }
}

/// Why the rules for tables from the one with number `i` on are refused.
pub open spec fn system_fault(rules: Seq<RuleView>, system: Seq<SystemRuleView>, i: int) -> Option<
    FaultView,
>
    decreases system.len() - i,
{
    if i >= system.len() {
        None
    } else {
        let s = system[i];
        if source_fault(s.source) is Some {
            source_fault(s.source)
        } else if !kind_known(s.kind) || !view_known(s.view) {
            Some(refusal(FaultKind::SystemOptions, s.name))
        } else if !storage_fits(s) {
            Some(refusal(FaultKind::SystemStorage, s.name))
        } else if s.kind == "regex"@ && s.pattern.len() == 0 {
            Some(refusal(FaultKind::SystemPatternMissing, s.name))
        } else if (rule_ids(rules) + system_ids(system)).take(rules.len() + i).contains(s.id) {
            Some(refusal(FaultKind::SystemId, s.name))
        } else if s.fields.len() == 0 || any(
            s.fields,
            |f: FieldView| f.name.len() == 0 || f.path.len() == 0,
        ) {
            Some(refusal(FaultKind::SystemFields, s.name))
        } else if fields_fault(s.name, s.fields, 0) is Some {
            fields_fault(s.name, s.fields, 0)
        } else if pattern_refusal(
            s.pattern,
            FaultKind::SystemPattern,
            s.name,
            Seq::empty(),
        ) is Some {
            pattern_refusal(s.pattern, FaultKind::SystemPattern, s.name, Seq::empty())
        } else if s.join_rule.len() > 0 && (!system_ids(system).contains(s.join_rule) || s.join_rule
            == s.id || s.join_key.len() == 0 || s.join_foreign_key.len() == 0) {
            Some(refusal(FaultKind::SystemJoin, s.name))
        } else {
            system_fault(rules, system, i + 1)
        }
    }
}

fn holds_bare_field(fields: &Vec<Field>) -> (r: bool)
    ensures
        r == any(views(fields@), |f: FieldView| f.name.len() == 0 || f.path.len() == 0),
{
    let ghost p = |f: FieldView| f.name.len() == 0 || f.path.len() == 0;
    let ghost lv = views(fields@);
    let mut i: usize = 0;
    while i < fields.len()
        invariant
            i <= fields.len(),
            lv == views(fields@),
            p == (|f: FieldView| f.name.len() == 0 || f.path.len() == 0),
            forall|j: int| 0 <= j < i ==> !p(#[trigger] lv[j]),
        decreases fields.len() - i,
    {
        let hit = fields[i].name.as_str().is_empty() || fields[i].path.as_str().is_empty();
        proof {
            assert(lv[i as int] == fields@[i as int]@);
            assert(hit == p(lv[i as int]));
        }
        if hit {
            return true;
        }
        i += 1;
    }
    false
}

fn names_of_fields(fields: &Vec<Field>) -> (r: Vec<String>)
    ensures
        views(r@) == field_names(views(fields@)),
{
    let mut out: Vec<String> = Vec::new();
    let mut i: usize = 0;
    while i < fields.len()
        invariant
            i <= fields.len(),
            out.len() == i,
            forall|j: int| 0 <= j < i ==> (#[trigger] out@[j])@ == fields@[j].name@,
        decreases fields.len() - i,
    {
        out.push(fields[i].name.clone());
        i += 1;
    }
    proof {
        assert(views(out@) =~= field_names(views(fields@)));
    }
    out
}

fn check_fields(name: &str, fields: &Vec<Field>) -> (r: Option<Fault>)
    ensures
        opt_view(r) == fields_fault(name@, views(fields@), 0),
{
    let ghost fv = views(fields@);
    let names = names_of_fields(fields);
    let mut i: usize = 0;
    proof {
        assert(names.len() == views(names@).len());
    }
    while i < fields.len()
        invariant
            i <= fields.len(),
            names.len() == fields.len(),
            fv == views(fields@),
            views(names@) == field_names(fv),
            fields_fault(name@, fv, 0) == fields_fault(name@, fv, i as int),
        decreases fields.len() - i,
    {
        let f = &fields[i];
        proof {
            assert(fv[i as int] == f@);
        }
        if in_first(&names, i, f.name.as_str()) {
            return Some(Fault::with_detail(FaultKind::FieldName, name, f.name.as_str()));
        }
        let e = check_pattern(
            f.capture.as_str(),
            FaultKind::FieldCapture,
            name,
            f.name.as_str(),
        );
        if e.is_some() {
            return e;
        }
        let format = f.format.as_str();
        let view = f.view.as_str();
        let known = (same(format, "") || same(format, "bytes") || same(format, "unix") || same(
            format,
            "kib",
        )) && (same(view, "") || same(view, "cards") || same(view, "table"));
        if !known {
            return Some(Fault::with_detail(FaultKind::FieldOptions, name, f.name.as_str()));
        }
        i += 1;
    }
    None
}

fn check_storage(s: &SystemRule) -> (r: bool)
    ensures
        r == storage_fits(s@),
{
    if same(s.view.as_str(), "storage") {
        same(s.kind.as_str(), "json") && same(s.selector.as_str(), "disk.devices[]")
    } else if same(s.view.as_str(), "storage-smart") {
        same(s.kind.as_str(), "json") && same(
            s.selector.as_str(),
            "disk.devices[].smart_info.report[]",
        )
    } else {
        true
    }
}

fn check_kind(s: &SystemRule) -> (r: bool)
    ensures
        r == (kind_known(s.kind@) && view_known(s.view@)),
{
    let kind = s.kind.as_str();
    let view = s.view.as_str();
    (same(kind, "json") || same(kind, "kv") || same(kind, "sections") || same(kind, "columns")
        || same(kind, "regex")) && (same(view, "cards") || same(view, "table") || same(
        view,
        "storage",
    ) || same(view, "storage-smart"))
}

fn ids_of_system(system: &Vec<SystemRule>) -> (r: Vec<String>)
    ensures
        views(r@) == system_ids(views(system@)),
{
    let mut out: Vec<String> = Vec::new();
    let mut i: usize = 0;
    while i < system.len()
        invariant
            i <= system.len(),
            out.len() == i,
            forall|j: int| 0 <= j < i ==> (#[trigger] out@[j])@ == system@[j].id@,
        decreases system.len() - i,
    {
        out.push(system[i].id.clone());
        i += 1;
    }
    proof {
        assert(views(out@) =~= system_ids(views(system@)));
    }
    out
}

fn check_system(set: &RuleSet, ids: Vec<String>) -> (r: Option<Fault>)
    requires
        views(ids@) == rule_ids(set@.rules),
    ensures
        opt_view(r) == system_fault(set@.rules, set@.system, 0),
{
    let ghost rv = set@.rules;
    let ghost sv = set@.system;
    let own = ids_of_system(&set.system);
    let mut ids = ids;
    let n = ids.len();
    let mut more = ids_of_system(&set.system);
    proof {
        crate::text::lemma_views_add(ids@, more@);
        assert(ids.len() == views(ids@).len());
        assert(more.len() == views(more@).len());
    }
    ids.append(&mut more);
    let none = String::new();
    let mut i: usize = 0;
    proof {
        assert(none@ =~= Seq::<char>::empty());
    }
    while i < set.system.len()
        invariant
            i <= set.system.len(),
            n == rv.len(),
            rv == set@.rules,
            sv == set@.system,
            ids.len() == n + set.system.len(),
            views(ids@) == rule_ids(rv) + system_ids(sv),
            views(own@) == system_ids(sv),
            none@ == Seq::<char>::empty(),
            system_fault(rv, sv, 0) == system_fault(rv, sv, i as int),
        decreases set.system.len() - i,
    {
        let s = &set.system[i];
        let name = s.name.as_str();
        proof {
            assert(sv[i as int] == s@);
        }
        let f = validate_source(&s.source);
        if f.is_some() {
            return f;
        }
        if !check_kind(s) {
            return Some(Fault::new(FaultKind::SystemOptions, name));
        }
        if !check_storage(s) {
            return Some(Fault::new(FaultKind::SystemStorage, name));
        }
        if same(s.kind.as_str(), "regex") && s.pattern.as_str().is_empty() {
            return Some(Fault::new(FaultKind::SystemPatternMissing, name));
        }
        if in_first(&ids, n + i, s.id.as_str()) {
            return Some(Fault::new(FaultKind::SystemId, name));
        }
        if s.fields.len() == 0 || holds_bare_field(&s.fields) {
            return Some(Fault::new(FaultKind::SystemFields, name));
        }
        let f = check_fields(name, &s.fields);
        if f.is_some() {
            return f;
        }
        let f = check_pattern(
            s.pattern.as_str(),
            FaultKind::SystemPattern,
            name,
            none.as_str(),
        );
        if f.is_some() {
            return f;
        }
        if !s.join_rule.as_str().is_empty() && (!lists(&own, s.join_rule.as_str()) || same(
            s.join_rule.as_str(),
            s.id.as_str(),
        ) || s.join_key.as_str().is_empty() || s.join_foreign_key.as_str().is_empty()) {
            return Some(Fault::new(FaultKind::SystemJoin, name));
        }
        i += 1;
    }
    None
}

pub open spec fn event_type_known(kind: Seq<char>) -> bool {
    ||| kind == "boot"@
    ||| kind == "systemd_ready"@
    ||| kind == "shutdown_request"@
    ||| kind == "shutdown_complete"@
    ||| kind == "reboot_request"@
    ||| kind == "reboot_complete"@
    ||| kind == "kernel_panic"@
    ||| kind == "watchdog_reset"@
    ||| kind == "hardware_reset"@
    ||| kind == "power_loss_hint"@
    ||| kind == "filesystem_recovery"@
    ||| kind == "device_reenumeration"@
    ||| kind == "log_gap"@
    ||| kind == "reset_reason"@
    ||| kind == "evidence"@
}

fn check_event_type(kind: &str) -> (r: bool)
    ensures
        r == event_type_known(kind@),
{
    same(kind, "boot") || same(kind, "systemd_ready") || same(kind, "shutdown_request") || same(
        kind,
        "shutdown_complete",
    ) || same(kind, "reboot_request") || same(kind, "reboot_complete") || same(kind, "kernel_panic")
        || same(kind, "watchdog_reset") || same(kind, "hardware_reset") || same(
        kind,
        "power_loss_hint",
    ) || same(kind, "filesystem_recovery") || same(kind, "device_reenumeration") || same(
        kind,
        "log_gap",
    ) || same(kind, "reset_reason") || same(kind, "evidence")
}

/// Why the references of a fact from the one with number `i` on are refused.
pub open spec fn event_files_fault(set: RuleSetView, e: TimelineEventRuleView, i: int) -> Option<
    FaultView,
>
    decreases e.source_file_ids.len() - i,
{
    if i >= e.source_file_ids.len() {
        None
    } else if file_place(set.log_files, e.source_file_ids[i]) is None {
        Some(
            caused(
                FaultKind::EventFile,
                e.id,
                e.source_file_ids[i],
                refusal(FaultKind::NoSuchFile, e.source_file_ids[i]).message(),
            ),
        )
    } else {
        event_files_fault(set, e, i + 1)
    }
}

/// Why the terms of a fact from the one with number `i` on are refused.
pub open spec fn event_terms_fault(e: TimelineEventRuleView, i: int) -> Option<FaultView>
    decreases e.terms.len() - i,
{
    if !e.regex || i >= e.terms.len() {
        None
    } else {
        match pattern_fault(e.terms[i], false) {
            Some(c) => Some(caused(FaultKind::EventPattern, e.id, Seq::empty(), c)),
            None => event_terms_fault(e, i + 1),
        }
    }
}

/// Why the facts from the one with number `i` on are refused.
pub open spec fn events_fault(set: RuleSetView, i: int) -> Option<FaultView>
    decreases set.timeline.events.len() - i,
{
    let events = set.timeline.events;
    if i >= events.len() {
        None
    } else {
        let e = events[i];
        if blank(e.id) || event_ids(events).take(i).contains(e.id) {
            Some(refusal(FaultKind::EventId, e.id))
        } else if !event_type_known(e.event_type) {
            Some(detailed(FaultKind::EventType, e.id, e.event_type))
        } else if e.terms.len() == 0 {
            Some(refusal(FaultKind::EventTerms, e.id))
        } else if !(e.evidence_strength == "strong"@ || e.evidence_strength == "medium"@
            || e.evidence_strength == "weak"@) {
            Some(detailed(FaultKind::EventStrength, e.id, e.evidence_strength))
        } else if event_files_fault(set, e, 0) is Some {
            event_files_fault(set, e, 0)
        } else if event_terms_fault(e, 0) is Some {
            event_terms_fault(e, 0)
        } else {
            events_fault(set, i + 1)
        }
    }
}

/// Why the conclusions from the one with number `i` on are refused.
pub open spec fn judgements_fault(set: RuleSetView, i: int) -> Option<FaultView>
    decreases set.timeline.judgements.len() - i,
{
    let events = set.timeline.events;
    let judgements = set.timeline.judgements;
    if i >= judgements.len() {
        None
    } else {
        let j = judgements[i];
        if blank(j.id) || (event_ids(events) + judgement_ids(judgements)).take(
            events.len() + i,
        ).contains(j.id) {
            Some(refusal(FaultKind::JudgementId, j.id))
        } else if blank(j.output) {
            Some(refusal(FaultKind::JudgementOutput, j.id))
        } else if !(j.confidence == "high"@ || j.confidence == "medium"@ || j.confidence
            == "low"@) {
            Some(detailed(FaultKind::JudgementConfidence, j.id, j.confidence))
        } else {
            judgements_fault(set, i + 1)
        }
    }
}

/// Why the thresholds or the layout are refused.
pub open spec fn style_fault(set: RuleSetView) -> Option<FaultView> {
    if set.timeline.thresholds.match_window_seconds == 0 || set.timeline.thresholds.gap_seconds
        == 0 {
        Some(refusal(FaultKind::Thresholds, Seq::empty()))
    } else {
        first_of(
            form_fault(COLOUR_PATTERN@, set.layout.accent, refusal(FaultKind::Style, Seq::empty())),
            if !(10 <= set.layout.font_size <= 24) {
                Some(refusal(FaultKind::Style, Seq::empty()))
            } else if !(10 <= set.layout.log_lines_per_batch <= 5000) {
                Some(refusal(FaultKind::Batch, Seq::empty()))
            } else {
                None
            },
        )
    }
}

impl RuleSetView {
    /// Why the package is refused once its references are resolved.
    pub open spec fn resolved_fault(self) -> Option<FaultView> {
        if self.version != RULE_VERSION {
            Some(refusal(FaultKind::Version, decimal(self.version as nat)))
        } else {
            first_of(
                rules_fault(self.rules, 0),
                first_of(
                    system_fault(self.rules, self.system, 0),
                    first_of(
                        events_fault(self, 0),
                        first_of(judgements_fault(self, 0), style_fault(self)),
                    ),
                ),
            )
        }
    }

    /// Why the package is refused.
    pub open spec fn fault(self) -> Option<FaultView> {
        first_of(
            self.catalog_fault(),
            first_of(self.reference_fault(), self.resolved().resolved_fault()),
        )
    }

    /// What a user is told of a package that is accepted.
    pub open spec fn warnings(self) -> Seq<Seq<char>> {
        rule_warnings(self, self.rules.len() as int) + repeat_warnings(
            self.rules,
            self.rules.len() as int,
        )
    }
}

fn check_event_files(set: &RuleSet, e: &TimelineEventRule) -> (r: Option<Fault>)
    ensures
        opt_view(r) == event_files_fault(set@, e@, 0),
{
    let ghost ev = e@;
    let mut i: usize = 0;
    while i < e.source_file_ids.len()
        invariant
            i <= e.source_file_ids.len(),
            ev == e@,
            event_files_fault(set@, ev, 0) == event_files_fault(set@, ev, i as int),
        decreases e.source_file_ids.len() - i,
    {
        proof {
            assert(ev.source_file_ids[i as int] == e.source_file_ids@[i as int]@);
        }
        let id = e.source_file_ids[i].as_str();
        if find_file(&set.log_files, id).is_none() {
            let missing = Fault::new(FaultKind::NoSuchFile, id).message();
            return Some(
                Fault::with_cause(FaultKind::EventFile, e.id.as_str(), id, missing.as_str()),
            );
        }
        i += 1;
    }
    None
}

fn check_event_terms(e: &TimelineEventRule) -> (r: Option<Fault>)
    ensures
        opt_view(r) == event_terms_fault(e@, 0),
{
    if !e.regex {
        return None;
    }
    let ghost ev = e@;
    let none = String::new();
    let mut i: usize = 0;
    proof {
        assert(none@ =~= Seq::<char>::empty());
    }
    while i < e.terms.len()
        invariant
            i <= e.terms.len(),
            ev == e@,
            ev.regex,
            none@ == Seq::<char>::empty(),
            event_terms_fault(ev, 0) == event_terms_fault(ev, i as int),
        decreases e.terms.len() - i,
    {
        proof {
            assert(ev.terms[i as int] == e.terms@[i as int]@);
        }
        if let Err(c) = compile(e.terms[i].as_str(), false) {
            return Some(
                Fault::with_cause(
                    FaultKind::EventPattern,
                    e.id.as_str(),
                    none.as_str(),
                    c.as_str(),
                ),
            );
        }
        i += 1;
    }
    None
}

fn check_events(set: &RuleSet, ids: &Vec<String>) -> (r: Option<Fault>)
    requires
        views(ids@) == event_ids(set@.timeline.events),
    ensures
        opt_view(r) == events_fault(set@, 0),
{
    let ghost sv = set@;
    let mut i: usize = 0;
    proof {
        assert(ids.len() == views(ids@).len());
    }
    while i < set.timeline.events.len()
        invariant
            i <= set.timeline.events.len(),
            sv == set@,
            ids.len() == set.timeline.events.len(),
            views(ids@) == event_ids(sv.timeline.events),
            events_fault(sv, 0) == events_fault(sv, i as int),
        decreases set.timeline.events.len() - i,
    {
        let e = &set.timeline.events[i];
        let id = e.id.as_str();
        proof {
            assert(sv.timeline.events[i as int] == e@);
        }
        if is_blank(id) || in_first(ids, i, id) {
            return Some(Fault::new(FaultKind::EventId, id));
        }
        if !check_event_type(e.event_type.as_str()) {
            return Some(Fault::with_detail(FaultKind::EventType, id, e.event_type.as_str()));
        }
        if e.terms.len() == 0 {
            return Some(Fault::new(FaultKind::EventTerms, id));
        }
        let strength = e.evidence_strength.as_str();
        if !(same(strength, "strong") || same(strength, "medium") || same(strength, "weak")) {
            return Some(Fault::with_detail(FaultKind::EventStrength, id, strength));
        }
        let f = check_event_files(set, e);
        if f.is_some() {
            return f;
        }
        let f = check_event_terms(e);
        if f.is_some() {
            return f;
        }
        i += 1;
    }
    None
}

fn ids_of_judgements(judgements: &Vec<TimelineJudgementRule>) -> (r: Vec<String>)
    ensures
        views(r@) == judgement_ids(views(judgements@)),
{
    let mut out: Vec<String> = Vec::new();
    let mut i: usize = 0;
    while i < judgements.len()
        invariant
            i <= judgements.len(),
            out.len() == i,
            forall|j: int| 0 <= j < i ==> (#[trigger] out@[j])@ == judgements@[j].id@,
        decreases judgements.len() - i,
    {
        out.push(judgements[i].id.clone());
        i += 1;
    }
    proof {
        assert(views(out@) =~= judgement_ids(views(judgements@)));
    }
    out
}

fn check_judgements(set: &RuleSet, ids: Vec<String>) -> (r: Option<Fault>)
    requires
        views(ids@) == event_ids(set@.timeline.events),
    ensures
        opt_view(r) == judgements_fault(set@, 0),
{
    let ghost sv = set@;
    let mut ids = ids;
    let n = ids.len();
    let mut more = ids_of_judgements(&set.timeline.judgements);
    proof {
        crate::text::lemma_views_add(ids@, more@);
        assert(ids.len() == views(ids@).len());
        assert(more.len() == views(more@).len());
    }
    ids.append(&mut more);
    let mut i: usize = 0;
    while i < set.timeline.judgements.len()
        invariant
            i <= set.timeline.judgements.len(),
            sv == set@,
            n == sv.timeline.events.len(),
            ids.len() == n + set.timeline.judgements.len(),
            views(ids@) == event_ids(sv.timeline.events) + judgement_ids(sv.timeline.judgements),
            judgements_fault(sv, 0) == judgements_fault(sv, i as int),
        decreases set.timeline.judgements.len() - i,
    {
        let j = &set.timeline.judgements[i];
        let id = j.id.as_str();
        proof {
            assert(sv.timeline.judgements[i as int] == j@);
        }
        if is_blank(id) || in_first(&ids, n + i, id) {
            return Some(Fault::new(FaultKind::JudgementId, id));
        }
        if is_blank(j.output.as_str()) {
            return Some(Fault::new(FaultKind::JudgementOutput, id));
        }
        let confidence = j.confidence.as_str();
        if !(same(confidence, "high") || same(confidence, "medium") || same(confidence, "low")) {
            return Some(Fault::with_detail(FaultKind::JudgementConfidence, id, confidence));
        }
        i += 1;
    }
    None
}

fn check_style(set: &RuleSet) -> (r: Option<Fault>)
    ensures
        opt_view(r) == style_fault(set@),
{
    let none = String::new();
    proof {
        assert(none@ =~= Seq::<char>::empty());
    }
    if set.timeline.thresholds.match_window_seconds == 0 || set.timeline.thresholds.gap_seconds
        == 0 {
        return Some(Fault::new(FaultKind::Thresholds, none.as_str()));
    }
    let f = check_form(
        COLOUR_PATTERN,
        set.layout.accent.as_str(),
        Fault::new(FaultKind::Style, none.as_str()),
    );
    if f.is_some() {
        return f;
    }
    if set.layout.font_size < 10 || set.layout.font_size > 24 {
        return Some(Fault::new(FaultKind::Style, none.as_str()));
    }
    if set.layout.log_lines_per_batch < 10 || set.layout.log_lines_per_batch > 5000 {
        return Some(Fault::new(FaultKind::Batch, none.as_str()));
    }
    None
}

impl RuleSet {
    /// Checks a package whose references are resolved.
    pub fn validate_resolved(&self) -> (r: Result<Vec<String>, Fault>)
        ensures
            (match r {
                Ok(w) => self@.resolved_fault() is None && views(w@) == self@.warnings(),
                Err(f) => self@.resolved_fault() == Some(f@),
            }),
    {
        if self.version != RULE_VERSION {
            let version = decimal_text(self.version as u64);
            return Err(Fault::new(FaultKind::Version, version.as_str()));
        }
        let ids = ids_of_rules(&self.rules);
        if let Some(f) = check_rules(&self.rules, &ids) {
            return Err(f);
        }
        let warnings = collect_warnings(self);
        if let Some(f) = check_system(self, ids) {
            return Err(f);
        }
        let facts = ids_of_events(&self.timeline.events);
        if let Some(f) = check_events(self, &facts) {
            return Err(f);
        }
        if let Some(f) = check_judgements(self, facts) {
            return Err(f);
        }
        if let Some(f) = check_style(self) {
            return Err(f);
        }
        Ok(warnings)
    }

    /// Checks the package as it stands and gives the warnings.
    pub fn validate(&self) -> (r: Result<Vec<String>, Fault>)
        ensures
            (match r {
                Ok(w) => self@.fault() is None && views(w@) == self@.resolved().warnings(),
                Err(f) => self@.fault() == Some(f@),
            }),
    {
        if let Err(f) = self.validate_catalog() {
            return Err(f);
        }
        let mut resolved = self.duplicate();
        if let Err(f) = resolved.resolve_sources() {
            return Err(f);
        }
        resolved.validate_resolved()
    }

    /// Takes in a package that was read from a file; none stands for a text that
    /// is no package.
    pub fn import(read: Option<RuleSet>) -> (r: Result<RuleSet, Fault>)
        ensures
            (match r {
                Ok(s) => read matches Some(p) && p@.fault() is None && s@ == p@.resolved(),
                Err(f) => match read {
                    Some(p) => p@.fault() == Some(f@),
                    None => f@ == refusal(FaultKind::RuleJson, Seq::empty()),
                },
            }),
    {
        match read {
            Some(p) => p.admitted(),
            None => {
                let none = String::new();
                proof {
                    assert(none@ =~= Seq::<char>::empty());
                }
                Err(Fault::new(FaultKind::RuleJson, none.as_str()))
            },
        }
    }

    /// The package with its references resolved, where it is accepted.
    pub fn admitted(self) -> (r: Result<RuleSet, Fault>)
        ensures
            (match r {
                Ok(s) => self@.fault() is None && s@ == self@.resolved(),
                Err(f) => self@.fault() == Some(f@),
            }),
    {
        let mut p = self;
        if let Err(f) = p.validate() {
            return Err(f);
        }
        match p.resolve_sources() {
            Ok(_) => Ok(p),
            Err(f) => Err(f),
        }
    }
}

} // verus!
