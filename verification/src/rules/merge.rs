//! Taking rules of one package into another. Identities alone decide what is
//! the same; names never do.

use crate::fault::Fault;
use crate::rules::group::{find_id, has_id, Member};
use crate::rules::model::{
    LayoutView, LogFile, LogFileView, Rule, RuleSet, RuleSetView, RuleView, SystemRule,
    SystemRuleView, TimelineConfigView, TimelineEventRule, TimelineEventRuleView,
};
use crate::rules::validate::{event_ids, system_ids};
use crate::text::{concat2, duplicate_all, first_place, kept, opt_view, same, views, Duplicate};
use vstd::prelude::*;

verus! {

/// Whether an entry stands for the same log: by its identity, or by its path,
/// mode and container.
pub open spec fn same_log(f: LogFileView) -> spec_fn(LogFileView) -> bool {
    |x: LogFileView|
        x.id == f.id || (x.path == f.path && x.mode == f.mode && x.container == f.container)
}

/// The catalogue after the first `n` entries of another were taken in.
pub open spec fn merged_files(
    files: Seq<LogFileView>,
    incoming: Seq<LogFileView>,
    replace: bool,
    n: int,
) -> Seq<LogFileView>
    decreases n,
{
    if n <= 0 {
        files
    } else {
        let s = merged_files(files, incoming, replace, n - 1);
        let f = incoming[n - 1];
        match first_place(s, same_log(f), 0) {
            Some(i) => if replace {
                s.update(i, LogFileView { id: s[i].id, ..f })
            } else {
                s
            },
            None => s.push(f),
        }
    }
}

/// Which identity each of the first `n` entries of another catalogue has after
/// it was taken in.
pub open spec fn new_ids(
    files: Seq<LogFileView>,
    incoming: Seq<LogFileView>,
    replace: bool,
    n: int,
) -> Seq<(Seq<char>, Seq<char>)>
    decreases n,
{
    if n <= 0 {
        Seq::empty()
    } else {
        let s = merged_files(files, incoming, replace, n - 1);
        let f = incoming[n - 1];
        new_ids(files, incoming, replace, n - 1).push(
            (
                f.id,
                match first_place(s, same_log(f), 0) {
                    Some(i) => s[i].id,
                    None => f.id,
                },
            ),
        )
    }
}

/// What the last of the first `n` pairs with a key gives it.
pub open spec fn given(pairs: Seq<(Seq<char>, Seq<char>)>, key: Seq<char>, n: int) -> Option<
    Seq<char>,
>
    decreases n,
{
    if n <= 0 {
        None
    } else if pairs[n - 1].0 == key {
        Some(pairs[n - 1].1)
    } else {
        given(pairs, key, n - 1)
    }
}

pub open spec fn lookup(pairs: Seq<(Seq<char>, Seq<char>)>, key: Seq<char>) -> Option<Seq<char>> {
    given(pairs, key, pairs.len() as int)
}

/// The identity that a reference names after the catalogues were merged.
pub open spec fn renamed(pairs: Seq<(Seq<char>, Seq<char>)>, id: Seq<char>) -> Seq<char> {
    match lookup(pairs, id) {
        Some(v) => v,
        None => id,
    }
}

pub open spec fn renamed_all(
    pairs: Seq<(Seq<char>, Seq<char>)>,
    ids: Seq<Seq<char>>,
) -> Seq<Seq<char>> {
    Seq::new(ids.len(), |i: int| renamed(pairs, ids[i]))
}

/// The identities among the first `n` that the merged catalogue knows.
pub open spec fn known_ids(pairs: Seq<(Seq<char>, Seq<char>)>, ids: Seq<Seq<char>>, n: int) -> Seq<
    Seq<char>,
>
    decreases n,
{
    if n <= 0 {
        Seq::empty()
    } else {
        known_ids(pairs, ids, n - 1) + (match lookup(pairs, ids[n - 1]) {
            Some(v) => seq![v],
            None => Seq::empty(),
        })
    }
}

pub open spec fn rule_renamed(pairs: Seq<(Seq<char>, Seq<char>)>, r: RuleView) -> RuleView {
    RuleView { source_file_ids: renamed_all(pairs, r.source_file_ids), ..r }
}

pub open spec fn system_renamed(
    pairs: Seq<(Seq<char>, Seq<char>)>,
    r: SystemRuleView,
) -> SystemRuleView {
    SystemRuleView { source_file_id: renamed(pairs, r.source_file_id), ..r }
}

pub open spec fn event_renamed(
    pairs: Seq<(Seq<char>, Seq<char>)>,
    e: TimelineEventRuleView,
) -> TimelineEventRuleView {
    TimelineEventRuleView { source_file_ids: renamed_all(pairs, e.source_file_ids), ..e }
}

pub open spec fn events_renamed(
    pairs: Seq<(Seq<char>, Seq<char>)>,
    events: Seq<TimelineEventRuleView>,
) -> Seq<TimelineEventRuleView> {
    Seq::new(events.len(), |i: int| event_renamed(pairs, events[i]))
}

impl RuleSetView {
    /// The package with the references that it has once its catalogue is merged.
    pub open spec fn with_ids(self, pairs: Seq<(Seq<char>, Seq<char>)>) -> RuleSetView {
        RuleSetView {
            rules: Seq::new(self.rules.len(), |i: int| rule_renamed(pairs, self.rules[i])),
            system: Seq::new(self.system.len(), |i: int| system_renamed(pairs, self.system[i])),
            layout: LayoutView {
                file_order: known_ids(
                    pairs,
                    self.layout.file_order,
                    self.layout.file_order.len() as int,
                ),
                ..self.layout
            },
            timeline: TimelineConfigView {
                events: events_renamed(pairs, self.timeline.events),
                ..self.timeline
            },
            ..self
        }
    }
}

pub open spec fn pair_seq(v: Seq<(String, String)>) -> Seq<(Seq<char>, Seq<char>)> {
    Seq::new(v.len(), |i: int| (v[i].0@, v[i].1@))
}

fn find_log(files: &Vec<LogFile>, f: &LogFile) -> (r: Option<usize>)
    ensures
        (match r {
            Some(i) => i < files.len() && first_place(views(files@), same_log(f@), 0) == Some(
                i as int,
            ),
            None => first_place(views(files@), same_log(f@), 0) is None,
        }),
{
    let ghost p = same_log(f@);
    let ghost fv = views(files@);
    let mut i: usize = 0;
    while i < files.len()
        invariant
            i <= files.len(),
            fv == views(files@),
            p == same_log(f@),
            first_place(fv, p, 0) == first_place(fv, p, i as int),
        decreases files.len() - i,
    {
        let x = &files[i];
        let hit = same(x.id.as_str(), f.id.as_str()) || (same(x.path.as_str(), f.path.as_str())
            && same(x.mode.as_str(), f.mode.as_str()) && same(
            x.container.as_str(),
            f.container.as_str(),
        ));
        proof {
            assert(fv[i as int] == x@);
            assert(hit == p(fv[i as int]));
        }
        if hit {
            return Some(i);
        }
        i += 1;
    }
    None
}

fn merge_files(files: &mut Vec<LogFile>, incoming: &Vec<LogFile>, replace: bool) -> (r: Vec<
    (String, String),
>)
    ensures
        views(final(files)@) == merged_files(
            views(old(files)@),
            views(incoming@),
            replace,
            incoming.len() as int,
        ),
        pair_seq(r@) == new_ids(
            views(old(files)@),
            views(incoming@),
            replace,
            incoming.len() as int,
        ),
{
    let ghost start = views(files@);
    let ghost inc = views(incoming@);
    let mut pairs: Vec<(String, String)> = Vec::new();
    let mut i: usize = 0;
    proof {
        assert(pair_seq(pairs@) =~= new_ids(start, inc, replace, 0));
    }
    while i < incoming.len()
        invariant
            i <= incoming.len(),
            inc == views(incoming@),
            views(files@) == merged_files(start, inc, replace, i as int),
            pair_seq(pairs@) == new_ids(start, inc, replace, i as int),
        decreases incoming.len() - i,
    {
        let f = &incoming[i];
        let ghost had = files@;
        let ghost was = pair_seq(pairs@);
        proof {
            assert(inc[i as int] == f@);
        }
        match find_log(files, f) {
            Some(k) => {
                let id = files[k].id.clone();
                proof {
                    assert(views(had)[k as int] == had[k as int]@);
                }
                if replace {
                    let mut new = f.duplicate();
                    new.id = id.clone();
                    let ghost nv = new@;
                    files.set(k, new);
                    proof {
                        assert(views(files@) =~= views(had).update(k as int, nv));
                        assert(nv =~= (LogFileView { id: views(had)[k as int].id, ..f@ }));
                    }
                }
                pairs.push((f.id.clone(), id));
                proof {
                    assert(pair_seq(pairs@) =~= was.push((f.id@, views(had)[k as int].id)));
                }
            },
            None => {
                files.push(f.duplicate());
                pairs.push((f.id.clone(), f.id.clone()));
                proof {
                    assert(views(files@) =~= views(had).push(f@));
                    assert(pair_seq(pairs@) =~= was.push((f.id@, f.id@)));
                }
            },
        }
        i += 1;
    }
    pairs
}

fn find_pair(pairs: &Vec<(String, String)>, key: &str) -> (r: Option<String>)
    ensures
        opt_view(r) == lookup(pair_seq(pairs@), key@),
{
    let ghost pv = pair_seq(pairs@);
    let mut i: usize = pairs.len();
    while i > 0
        invariant
            i <= pairs.len(),
            pv == pair_seq(pairs@),
            lookup(pv, key@) == given(pv, key@, i as int),
        decreases i,
    {
        i -= 1;
        if same(pairs[i].0.as_str(), key) {
            return Some(pairs[i].1.clone());
        }
    }
    None
}

fn rename_id(pairs: &Vec<(String, String)>, id: &str) -> (r: String)
    ensures
        r@ == renamed(pair_seq(pairs@), id@),
{
    match find_pair(pairs, id) {
        Some(v) => v,
        None => id.to_owned(),
    }
}

fn rename_ids(pairs: &Vec<(String, String)>, ids: &Vec<String>) -> (r: Vec<String>)
    ensures
        views(r@) == renamed_all(pair_seq(pairs@), views(ids@)),
{
    let mut out: Vec<String> = Vec::new();
    let mut i: usize = 0;
    while i < ids.len()
        invariant
            i <= ids.len(),
            out.len() == i,
            forall|j: int|
                0 <= j < i ==> (#[trigger] out@[j])@ == renamed(pair_seq(pairs@), ids@[j]@),
        decreases ids.len() - i,
    {
        out.push(rename_id(pairs, ids[i].as_str()));
        i += 1;
    }
    proof {
        assert(views(out@) =~= renamed_all(pair_seq(pairs@), views(ids@)));
    }
    out
}

fn keep_known(pairs: &Vec<(String, String)>, ids: &Vec<String>) -> (r: Vec<String>)
    ensures
        views(r@) == known_ids(pair_seq(pairs@), views(ids@), ids.len() as int),
{
    let ghost pv = pair_seq(pairs@);
    let ghost iv = views(ids@);
    let mut out: Vec<String> = Vec::new();
    let mut i: usize = 0;
    proof {
        assert(views(out@) =~= known_ids(pv, iv, 0));
    }
    while i < ids.len()
        invariant
            i <= ids.len(),
            pv == pair_seq(pairs@),
            iv == views(ids@),
            views(out@) == known_ids(pv, iv, i as int),
        decreases ids.len() - i,
    {
        let ghost was = views(out@);
        if let Some(v) = find_pair(pairs, ids[i].as_str()) {
            let ghost vv = v@;
            out.push(v);
            proof {
                assert(views(out@) =~= was.push(vv));
            }
        }
        proof {
            assert(iv[i as int] == ids@[i as int]@);
            assert(views(out@) =~= known_ids(pv, iv, i + 1));
        }
        i += 1;
    }
    out
}

fn rename_rules(rules: &Vec<Rule>, pairs: &Vec<(String, String)>) -> (r: Vec<Rule>)
    ensures
        views(r@) == Seq::new(
            rules@.len(),
            |i: int| rule_renamed(pair_seq(pairs@), views(rules@)[i]),
        ),
{
    let ghost pv = pair_seq(pairs@);
    let ghost rv = views(rules@);
    let mut out: Vec<Rule> = Vec::new();
    let mut i: usize = 0;
    while i < rules.len()
        invariant
            i <= rules.len(),
            pv == pair_seq(pairs@),
            rv == views(rules@),
            out.len() == i,
            forall|j: int| 0 <= j < i ==> (#[trigger] out@[j])@ == rule_renamed(pv, rv[j]),
        decreases rules.len() - i,
    {
        let mut r = rules[i].duplicate();
        r.source_file_ids = rename_ids(pairs, &rules[i].source_file_ids);
        proof {
            assert(rv[i as int] == rules@[i as int]@);
            assert(r@ =~= rule_renamed(pv, rv[i as int]));
        }
        out.push(r);
        i += 1;
    }
    proof {
        assert(views(out@) =~= Seq::new(rules@.len(), |i: int| rule_renamed(pv, rv[i])));
    }
    out
}

fn rename_system(system: &Vec<SystemRule>, pairs: &Vec<(String, String)>) -> (r: Vec<SystemRule>)
    ensures
        views(r@) == Seq::new(
            system@.len(),
            |i: int| system_renamed(pair_seq(pairs@), views(system@)[i]),
        ),
{
    let ghost pv = pair_seq(pairs@);
    let ghost rv = views(system@);
    let mut out: Vec<SystemRule> = Vec::new();
    let mut i: usize = 0;
    while i < system.len()
        invariant
            i <= system.len(),
            pv == pair_seq(pairs@),
            rv == views(system@),
            out.len() == i,
            forall|j: int| 0 <= j < i ==> (#[trigger] out@[j])@ == system_renamed(pv, rv[j]),
        decreases system.len() - i,
    {
        let mut r = system[i].duplicate();
        r.source_file_id = rename_id(pairs, system[i].source_file_id.as_str());
        proof {
            assert(rv[i as int] == system@[i as int]@);
            assert(r@ =~= system_renamed(pv, rv[i as int]));
        }
        out.push(r);
        i += 1;
    }
    proof {
        assert(views(out@) =~= Seq::new(system@.len(), |i: int| system_renamed(pv, rv[i])));
    }
    out
}

fn rename_events(events: &Vec<TimelineEventRule>, pairs: &Vec<(String, String)>) -> (r: Vec<
    TimelineEventRule,
>)
    ensures
        views(r@) == events_renamed(pair_seq(pairs@), views(events@)),
{
    let ghost pv = pair_seq(pairs@);
    let ghost ev = views(events@);
    let mut out: Vec<TimelineEventRule> = Vec::new();
    let mut i: usize = 0;
    while i < events.len()
        invariant
            i <= events.len(),
            pv == pair_seq(pairs@),
            ev == views(events@),
            out.len() == i,
            forall|j: int| 0 <= j < i ==> (#[trigger] out@[j])@ == event_renamed(pv, ev[j]),
        decreases events.len() - i,
    {
        let mut e = events[i].duplicate();
        e.source_file_ids = rename_ids(pairs, &events[i].source_file_ids);
        proof {
            assert(ev[i as int] == events@[i as int]@);
            assert(e@ =~= event_renamed(pv, ev[i as int]));
        }
        out.push(e);
        i += 1;
    }
    proof {
        assert(views(out@) =~= events_renamed(pv, ev));
    }
    out
}

impl RuleSetView {
    pub open spec fn catalog_ids(self, incoming: RuleSetView, replace: bool) -> Seq<
        (Seq<char>, Seq<char>),
    > {
        new_ids(
            self.log_files,
            incoming.log_files,
            replace,
            incoming.log_files.len() as int,
        )
    }

    pub open spec fn with_catalog(self, incoming: RuleSetView, replace: bool) -> RuleSetView {
        RuleSetView {
            log_files: merged_files(
                self.log_files,
                incoming.log_files,
                replace,
                incoming.log_files.len() as int,
            ),
            ..self
        }
    }
}

impl RuleSet {
    /// Takes the catalogue of another package in and gives that package the
    /// identities that its references then have.
    fn merge_catalog(&mut self, incoming: &mut RuleSet, replace: bool)
        ensures
            final(self)@ == old(self)@.with_catalog(old(incoming)@, replace),
            final(incoming)@ == old(incoming)@.with_ids(
                old(self)@.catalog_ids(old(incoming)@, replace),
            ),
    {
        let ghost sv = self@;
        let ghost iv = incoming@;
        let pairs = merge_files(&mut self.log_files, &incoming.log_files, replace);
        let ghost pv = pair_seq(pairs@);
        let rules = rename_rules(&incoming.rules, &pairs);
        let system = rename_system(&incoming.system, &pairs);
        let order = keep_known(&pairs, &incoming.layout.file_order);
        let events = rename_events(&incoming.timeline.events, &pairs);
        incoming.rules = rules;
        incoming.system = system;
        incoming.layout.file_order = order;
        incoming.timeline.events = events;
        proof {
            assert(self@ =~= sv.with_catalog(iv, replace));
            assert(incoming@.rules =~= iv.with_ids(pv).rules);
            assert(incoming@.system =~= iv.with_ids(pv).system);
            assert(incoming@ =~= iv.with_ids(pv));
        }
    }
}

/// The list after the first `n` rules of another were taken in: one with a known
/// identity replaces the old one or is left out, the others go to the end.
pub open spec fn merged_rules<T: Member>(
    s: Seq<T::V>,
    incoming: Seq<T::V>,
    replace: bool,
    n: int,
) -> Seq<T::V>
    decreases n,
{
    if n <= 0 {
        s
    } else {
        let m = merged_rules::<T>(s, incoming, replace, n - 1);
        let r = incoming[n - 1];
        match first_place(m, has_id::<T>(T::id_of(r)), 0) {
            Some(i) => if replace {
                m.update(i, r)
            } else {
                m
            },
            None => m.push(r),
        }
    }
}

fn merge_rules<T: Member>(items: &mut Vec<T>, incoming: &Vec<T>, replace: bool)
    ensures
        views(final(items)@) == merged_rules::<T>(
            views(old(items)@),
            views(incoming@),
            replace,
            incoming.len() as int,
        ),
{
    let ghost start = views(items@);
    let ghost inc = views(incoming@);
    let mut i: usize = 0;
    while i < incoming.len()
        invariant
            i <= incoming.len(),
            inc == views(incoming@),
            views(items@) == merged_rules::<T>(start, inc, replace, i as int),
        decreases incoming.len() - i,
    {
        let r = &incoming[i];
        let ghost had = items@;
        proof {
            assert(inc[i as int] == r@);
        }
        match find_id(items, r.id_text()) {
            Some(k) => {
                if replace {
                    items.set(k, r.duplicate());
                    proof {
                        assert(views(items@) =~= views(had).update(k as int, r@));
                    }
                }
            },
            None => {
                items.push(r.duplicate());
                proof {
                    assert(views(items@) =~= views(had).push(r@));
                }
            },
        }
        i += 1;
    }
}

/// The fact that stands for an old timeline rule: what it recognises, and no
/// guess of what it means.
pub open spec fn legacy_fact(r: RuleView) -> TimelineEventRuleView {
    TimelineEventRuleView {
        id: "legacy-"@ + r.id,
        event_type: "evidence"@,
        source_file_ids: r.source_file_ids,
        terms: r.terms,
        regex: r.regex,
        evidence_strength: "medium"@,
        time_regex: r.time_regex,
        time_format: r.time_format,
        note: r.note,
    }
}

/// The facts after the timeline rules among the first `n` rules became facts.
pub open spec fn migrated_events(
    events: Seq<TimelineEventRuleView>,
    rules: Seq<RuleView>,
    n: int,
) -> Seq<TimelineEventRuleView>
    decreases n,
{
    if n <= 0 {
        events
    } else {
        let m = migrated_events(events, rules, n - 1);
        let r = rules[n - 1];
        if r.target == "timeline"@ && !event_ids(m).contains("legacy-"@ + r.id) {
            m.push(legacy_fact(r))
        } else {
            m
        }
    }
}

impl RuleSetView {
    /// The package with a fact for each old timeline rule.
    pub open spec fn migrated(self) -> RuleSetView {
        RuleSetView {
            timeline: TimelineConfigView {
                events: migrated_events(
                    self.timeline.events,
                    self.rules,
                    self.rules.len() as int,
                ),
                ..self.timeline
            },
            ..self
        }
    }
}

fn fact_of_rule(r: &Rule) -> (e: TimelineEventRule)
    ensures
        e@ == legacy_fact(r@),
{
    TimelineEventRule {
        id: concat2("legacy-", r.id.as_str()),
        event_type: "evidence".to_owned(),
        source_file_ids: duplicate_all(&r.source_file_ids),
        terms: duplicate_all(&r.terms),
        regex: r.regex,
        evidence_strength: "medium".to_owned(),
        time_regex: r.time_regex.clone(),
        time_format: r.time_format.clone(),
        note: r.note.clone(),
    }
}

fn holds_event(events: &Vec<TimelineEventRule>, id: &str) -> (r: bool)
    ensures
        r == event_ids(views(events@)).contains(id@),
{
    let ghost ids = event_ids(views(events@));
    let mut i: usize = 0;
    while i < events.len()
        invariant
            i <= events.len(),
            ids == event_ids(views(events@)),
            forall|j: int| 0 <= j < i ==> ids[j] != id@,
        decreases events.len() - i,
    {
        if same(events[i].id.as_str(), id) {
            proof {
                assert(ids[i as int] == id@);
            }
            return true;
        }
        i += 1;
    }
    false
}

impl RuleSet {
    /// Gives each old timeline rule a fact of its own.
    pub fn migrate_legacy_timeline_rules(&mut self)
        ensures
            final(self)@ == old(self)@.migrated(),
    {
        let ghost sv = self@;
        let ghost start = sv.timeline.events;
        let mut i: usize = 0;
        while i < self.rules.len()
            invariant
                i <= self.rules.len(),
                sv.rules == views(self.rules@),
                start == sv.timeline.events,
                views(self.timeline.events@) == migrated_events(start, sv.rules, i as int),
                self@ == (RuleSetView {
                    timeline: TimelineConfigView {
                        events: migrated_events(start, sv.rules, i as int),
                        ..sv.timeline
                    },
                    ..sv
                }),
            decreases self.rules.len() - i,
        {
            let ghost had = self.timeline.events@;
            proof {
                assert(sv.rules[i as int] == self.rules@[i as int]@);
            }
            if same(self.rules[i].target.as_str(), "timeline") {
                let fact = fact_of_rule(&self.rules[i]);
                if !holds_event(&self.timeline.events, fact.id.as_str()) {
                    let ghost fv = fact@;
                    self.timeline.events.push(fact);
                    proof {
                        assert(views(self.timeline.events@) =~= views(had).push(fv));
                    }
                }
            }
            i += 1;
        }
    }
}

/// The rules among the first `n` of another package that come in: all of them
/// where they replace, else those whose identity neither a rule of one's own nor an
/// earlier one of the other package has.
pub open spec fn entering(
    own: Seq<RuleView>,
    incoming: Seq<RuleView>,
    replace: bool,
    n: int,
) -> Seq<RuleView>
    decreases n,
{
    if n <= 0 {
        Seq::empty()
    } else {
        let e = entering(own, incoming, replace, n - 1);
        if enters(own, incoming, replace, n - 1) {
            e.push(incoming[n - 1])
        } else {
            e
        }
    }
}

/// Whether a rule of another package comes in.
pub open spec fn enters(
    own: Seq<RuleView>,
    incoming: Seq<RuleView>,
    replace: bool,
    k: int,
) -> bool {
    let same_id = has_id::<Rule>(incoming[k].id);
    replace || (first_place(own, same_id, 0) is None && first_place(incoming, same_id, 0) == Some(
        k,
    ))
}

fn list_entering(own: &Vec<Rule>, incoming: &Vec<Rule>, replace: bool) -> (r: Vec<Rule>)
    ensures
        views(r@) == entering(views(own@), views(incoming@), replace, incoming.len() as int),
{
    let ghost ov = views(own@);
    let ghost inc = views(incoming@);
    let mut out: Vec<Rule> = Vec::new();
    let mut i: usize = 0;
    proof {
        assert(views(out@) =~= entering(ov, inc, replace, 0));
    }
    while i < incoming.len()
        invariant
            i <= incoming.len(),
            ov == views(own@),
            inc == views(incoming@),
            views(out@) == entering(ov, inc, replace, i as int),
        decreases incoming.len() - i,
    {
        let r = &incoming[i];
        let ghost had = views(out@);
        proof {
            assert(inc[i as int] == r@);
        }
        let id = r.id.as_str();
        let comes = replace || (match find_id(own, id) {
            Some(_) => false,
            None => match find_id(incoming, id) {
                Some(k) => k == i,
                None => false,
            },
        });
        if comes {
            out.push(r.duplicate());
            proof {
                assert(views(out@) =~= had.push(r@));
            }
        }
        i += 1;
    }
    out
}

/// Whether a fact stands for one of the old timeline rules.
pub open spec fn is_legacy(e: TimelineEventRuleView, rules: Seq<RuleView>) -> bool {
    exists|i: int|
        0 <= i < rules.len() && (#[trigger] rules[i]).target == "timeline"@ && e.id == "legacy-"@
            + rules[i].id
}

/// The facts after those among the first `n` of another package that stand for
/// its old timeline rules were taken in; one whose identity is known is left out.
pub open spec fn with_legacy(
    events: Seq<TimelineEventRuleView>,
    incoming: Seq<TimelineEventRuleView>,
    rules: Seq<RuleView>,
    n: int,
) -> Seq<TimelineEventRuleView>
    decreases n,
{
    if n <= 0 {
        events
    } else {
        let m = with_legacy(events, incoming, rules, n - 1);
        let e = incoming[n - 1];
        if is_legacy(e, rules) && !event_ids(m).contains(e.id) {
            m.push(e)
        } else {
            m
        }
    }
}

fn stands_for_rule(e: &TimelineEventRule, rules: &Vec<Rule>) -> (r: bool)
    ensures
        r == is_legacy(e@, views(rules@)),
{
    let ghost rv = views(rules@);
    let mut i: usize = 0;
    while i < rules.len()
        invariant
            i <= rules.len(),
            rv == views(rules@),
            forall|j: int|
                0 <= j < i ==> !((#[trigger] rv[j]).target == "timeline"@ && e@.id == "legacy-"@
                    + rv[j].id),
        decreases rules.len() - i,
    {
        proof {
            assert(rv[i as int] == rules@[i as int]@);
        }
        if same(rules[i].target.as_str(), "timeline") && same(
            e.id.as_str(),
            concat2("legacy-", rules[i].id.as_str()).as_str(),
        ) {
            return true;
        }
        i += 1;
    }
    false
}

fn take_legacy(
    events: &mut Vec<TimelineEventRule>,
    incoming: &Vec<TimelineEventRule>,
    rules: &Vec<Rule>,
)
    ensures
        views(final(events)@) == with_legacy(
            views(old(events)@),
            views(incoming@),
            views(rules@),
            incoming.len() as int,
        ),
{
    let ghost start = views(events@);
    let ghost inc = views(incoming@);
    let ghost rv = views(rules@);
    let mut i: usize = 0;
    while i < incoming.len()
        invariant
            i <= incoming.len(),
            inc == views(incoming@),
            rv == views(rules@),
            views(events@) == with_legacy(start, inc, rv, i as int),
        decreases incoming.len() - i,
    {
        let e = &incoming[i];
        let ghost had = events@;
        proof {
            assert(inc[i as int] == e@);
        }
        if stands_for_rule(e, rules) && !holds_event(events, e.id.as_str()) {
            events.push(e.duplicate());
            proof {
                assert(views(events@) =~= views(had).push(e@));
            }
        }
        i += 1;
    }
}

impl RuleSetView {
    /// The package after another was taken in, before its references are
    /// resolved. The old timeline rules that come in bring their facts.
    pub open spec fn combined(self, incoming: RuleSetView, replace: bool) -> RuleSetView {
        let ids = self.catalog_ids(incoming.migrated(), replace);
        let from = incoming.migrated().with_ids(ids);
        let base = self.with_catalog(incoming.migrated(), replace);
        RuleSetView {
            rules: merged_rules::<Rule>(base.rules, from.rules, replace, from.rules.len() as int),
            system: merged_rules::<SystemRule>(
                base.system,
                from.system,
                replace,
                from.system.len() as int,
            ),
            layout: if replace {
                from.layout
            } else {
                base.layout
            },
            timeline: TimelineConfigView {
                events: with_legacy(
                    base.timeline.events,
                    from.timeline.events,
                    entering(base.rules, from.rules, replace, from.rules.len() as int),
                    from.timeline.events.len() as int,
                ),
                ..base.timeline
            },
            ..base
        }
    }

    /// The package with the tables of a reference package in front and its own
    /// other tables behind, before its references are resolved.
    pub open spec fn with_tables_of(self, reference: RuleSetView) -> RuleSetView {
        let ids = self.catalog_ids(reference, false);
        let from = reference.with_ids(ids);
        RuleSetView {
            system: from.system + kept(self.system, id_not_in(system_ids(from.system)), 0),
            ..self.with_catalog(reference, false)
        }
    }
}

pub open spec fn id_not_in(ids: Seq<Seq<char>>) -> spec_fn(SystemRuleView) -> bool {
    |r: SystemRuleView| !ids.contains(r.id)
}

fn holds_system_id(system: &Vec<SystemRule>, id: &str) -> (r: bool)
    ensures
        r == system_ids(views(system@)).contains(id@),
{
    let ghost ids = system_ids(views(system@));
    let mut i: usize = 0;
    while i < system.len()
        invariant
            i <= system.len(),
            ids == system_ids(views(system@)),
            forall|j: int| 0 <= j < i ==> ids[j] != id@,
        decreases system.len() - i,
    {
        if same(system[i].id.as_str(), id) {
            proof {
                assert(ids[i as int] == id@);
            }
            return true;
        }
        i += 1;
    }
    false
}

impl RuleSet {
    /// The package with another taken in: rules with a known identity replace
    /// the old ones or are left out, and each old timeline rule that comes in brings
    /// its fact.
    pub fn merge(&self, incoming: &RuleSet, replace: bool) -> (r: Result<RuleSet, Fault>)
        ensures
            (match r {
                Ok(s) => self@.combined(incoming@, replace).fault() is None && s@
                    == self@.combined(incoming@, replace).resolved(),
                Err(f) => self@.combined(incoming@, replace).fault() == Some(f@),
            }),
    {
        let mut out = self.duplicate();
        let mut from = incoming.duplicate();
        from.migrate_legacy_timeline_rules();
        out.merge_catalog(&mut from, replace);
        let coming = list_entering(&out.rules, &from.rules, replace);
        take_legacy(&mut out.timeline.events, &from.timeline.events, &coming);
        merge_rules(&mut out.rules, &from.rules, replace);
        merge_rules(&mut out.system, &from.system, replace);
        if replace {
            out.layout = from.layout.duplicate();
        }
        proof {
            assert(out@ =~= self@.combined(incoming@, replace));
        }
        out.admitted()
    }

    /// The package with the tables of a reference package; tables of its own
    /// whose identity the reference does not have are kept.
    pub fn with_reference_system(&self, reference: &RuleSet) -> (r: Result<RuleSet, Fault>)
        ensures
            (match r {
                Ok(s) => self@.with_tables_of(reference@).fault() is None && s@
                    == self@.with_tables_of(reference@).resolved(),
                Err(f) => self@.with_tables_of(reference@).fault() == Some(f@),
            }),
    {
        let mut out = self.duplicate();
        let mut from = reference.duplicate();
        out.merge_catalog(&mut from, false);
        let mut system = duplicate_all(&from.system);
        let ghost first = views(from.system@);
        let ghost ids = system_ids(first);
        let ghost p = id_not_in(ids);
        let ghost own = self@.system;
        let mut i: usize = 0;
        while i < self.system.len()
            invariant
                i <= self.system.len(),
                own == views(self.system@),
                first == views(from.system@),
                ids == system_ids(first),
                p == id_not_in(ids),
                views(system@) + kept(own, p, i as int) == first + kept(own, p, 0),
            decreases self.system.len() - i,
        {
            let ghost was = views(system@);
            let hit = !holds_system_id(&from.system, self.system[i].id.as_str());
            proof {
                assert(own[i as int] == self.system@[i as int]@);
                assert(hit == p(own[i as int]));
            }
            if hit {
                system.push(self.system[i].duplicate());
                proof {
                    assert(views(system@) =~= was.push(own[i as int]));
                    assert(was + kept(own, p, i as int) =~= views(system@) + kept(own, p, i + 1));
                }
            }
            i += 1;
        }
        proof {
            assert(views(system@) + kept(own, p, i as int) =~= views(system@));
        }
        out.system = system;
        proof {
            assert(out@ =~= self@.with_tables_of(reference@));
        }
        out.admitted()
    }
}

} // verus!
