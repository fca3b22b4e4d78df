//! The findings and tables of a report.

use crate::engine::file::{FileAnalysis, FileAnalysisView};
use crate::engine::model::{
    Event, EventView, Finding, FindingView, Fragment, FragmentView, LogLine, LogLineView,
};
use crate::engine::scan::ScanView;
use crate::engine::time::{compile_plain, usable};
use crate::extract::model::{Table, TableView};
use crate::order::{reversed, sort_by, sorted};
use crate::outside::pattern::{
    group_at, group_by_index, pattern_groups, Pattern, PatternView, opt_groups,
};
use crate::rules::model::{Rule, RuleView, SystemRule, SystemRuleView};
use crate::text::{
    any, before, comes_before, concat2, duplicate_all, first_index, kept, opt_view, position, same,
    views, Duplicate,
};
use vstd::prelude::*;

verus! {

pub open spec fn is_enabled() -> spec_fn(RuleView) -> bool {
    |r: RuleView| r.enabled
}

pub open spec fn is_enabled_table() -> spec_fn(SystemRuleView) -> bool {
    |r: SystemRuleView| r.enabled
}

/// A finding before any file was read.
pub open spec fn fresh(r: RuleView) -> FindingView {
    FindingView { rule: r, count: 0, fragments: Seq::empty(), status: "来源文件缺失"@ }
}

/// The enabled rules.
pub fn enabled_rules(rules: &Vec<Rule>) -> (r: Vec<Rule>)
    ensures
        views(r@) == kept(views(rules@), is_enabled(), 0),
{
    let ghost rv = views(rules@);
    let ghost f = is_enabled();
    let mut out: Vec<Rule> = Vec::new();
    let mut i: usize = 0;
    proof {
        assert(views(out@) + kept(rv, f, 0) =~= kept(rv, f, 0));
    }
    while i < rules.len()
        invariant
            i <= rules.len(),
            rv == views(rules@),
            f == is_enabled(),
            views(out@) + kept(rv, f, i as int) == kept(rv, f, 0),
        decreases rules.len() - i,
    {
        let ghost was = views(out@);
        proof {
            assert(rv[i as int] == rules@[i as int]@);
            assert(f(rv[i as int]) == rules@[i as int].enabled);
        }
        if rules[i].enabled {
            out.push(rules[i].duplicate());
            proof {
                assert(views(out@) =~= was.push(rv[i as int]));
                assert(was + kept(rv, f, i as int) =~= views(out@) + kept(rv, f, i + 1));
            }
        }
        i += 1;
    }
    proof {
        assert(views(out@) + kept(rv, f, i as int) =~= views(out@));
    }
    out
}

/// The enabled rules for tables.
pub fn enabled_tables(rules: &Vec<SystemRule>) -> (r: Vec<SystemRule>)
    ensures
        views(r@) == kept(views(rules@), is_enabled_table(), 0),
{
    let ghost rv = views(rules@);
    let ghost f = is_enabled_table();
    let mut out: Vec<SystemRule> = Vec::new();
    let mut i: usize = 0;
    proof {
        assert(views(out@) + kept(rv, f, 0) =~= kept(rv, f, 0));
    }
    while i < rules.len()
        invariant
            i <= rules.len(),
            rv == views(rules@),
            f == is_enabled_table(),
            views(out@) + kept(rv, f, i as int) == kept(rv, f, 0),
        decreases rules.len() - i,
    {
        let ghost was = views(out@);
        proof {
            assert(rv[i as int] == rules@[i as int]@);
            assert(f(rv[i as int]) == rules@[i as int].enabled);
        }
        if rules[i].enabled {
            out.push(rules[i].duplicate());
            proof {
                assert(views(out@) =~= was.push(rv[i as int]));
                assert(was + kept(rv, f, i as int) =~= views(out@) + kept(rv, f, i + 1));
            }
        }
        i += 1;
    }
    proof {
        assert(views(out@) + kept(rv, f, i as int) =~= views(out@));
    }
    out
}

/// What the files of a package gave so far.
#[derive(Debug)]
pub struct Gathered {
    pub findings: Vec<Finding>,
    pub system: Vec<Table>,
    pub events: Vec<Event>,
    pub warnings: Vec<String>,
}

/// What a `Gathered` holds.
#[verifier::ext_equal]
pub ghost struct GatheredView {
    pub findings: Seq<FindingView>,
    pub system: Seq<TableView>,
    pub events: Seq<EventView>,
    pub warnings: Seq<Seq<char>>,
}

impl View for Gathered {
    type V = GatheredView;

    open spec fn view(&self) -> GatheredView {
        GatheredView {
            findings: views(self.findings@),
            system: views(self.system@),
            events: views(self.events@),
            warnings: views(self.warnings@),
        }
    }
}

/// What is gathered before any file was read.
pub open spec fn gathered_nothing(enabled: Seq<RuleView>) -> GatheredView {
    GatheredView {
        findings: Seq::new(enabled.len(), |i: int| fresh(enabled[i])),
        system: Seq::empty(),
        events: Seq::empty(),
        warnings: Seq::empty(),
    }
}

/// A finding with what the scan of a file adds to it.
pub open spec fn grown(f: FindingView, s: ScanView) -> FindingView {
    FindingView {
        count: (f.count + s.count) as usize,
        fragments: f.fragments + s.fragments,
        status: s.status,
        ..f
    }
}

/// The findings after the first `n` active rules of a file.
pub open spec fn grown_findings(
    findings: Seq<FindingView>,
    active: Seq<usize>,
    scans: Seq<ScanView>,
    n: int,
) -> Seq<FindingView>
    decreases n,
{
    if n <= 0 {
        findings
    } else {
        let f = grown_findings(findings, active, scans, n - 1);
        f.update(active[n - 1] as int, grown(f[active[n - 1] as int], scans[n - 1]))
    }
}

impl GatheredView {
    /// What is gathered after another file.
    pub open spec fn plus(self, active: Seq<usize>, a: FileAnalysisView) -> GatheredView {
        GatheredView {
            findings: grown_findings(self.findings, active, a.scans, active.len() as int),
            system: self.system + a.system,
            events: self.events + a.events,
            warnings: self.warnings + a.warnings,
        }
    }
}

/// Whether the numbers of active rules name findings, each once.
pub open spec fn names_each_once(active: Seq<usize>, n: int) -> bool {
    &&& forall|k: int| 0 <= k < active.len() ==> (#[trigger] active[k]) < n
    &&& forall|j: int, k: int| 0 <= j < k < active.len() ==> active[j] != active[k]
}

proof fn lemma_grown(
    findings: Seq<FindingView>,
    active: Seq<usize>,
    scans: Seq<ScanView>,
    n: int,
)
    requires
        0 <= n <= active.len(),
        names_each_once(active, findings.len() as int),
    ensures
        grown_findings(findings, active, scans, n).len() == findings.len(),
        forall|k: int|
            n <= k < active.len() ==> grown_findings(findings, active, scans, n)[(
            #[trigger] active[k]) as int] == findings[active[k] as int],
    decreases n,
{
    if n > 0 {
        lemma_grown(findings, active, scans, n - 1);
    }
}

impl Gathered {
    /// What is gathered before any file was read.
    pub fn new(enabled: &Vec<Rule>) -> (r: Self)
        ensures
            r@ == gathered_nothing(views(enabled@)),
    {
        let ghost ev = views(enabled@);
        let mut findings: Vec<Finding> = Vec::new();
        let mut i: usize = 0;
        while i < enabled.len()
            invariant
                i <= enabled.len(),
                ev == views(enabled@),
                findings.len() == i,
                forall|j: int| 0 <= j < i ==> (#[trigger] findings@[j])@ == fresh(ev[j]),
            decreases enabled.len() - i,
        {
            let f = Finding {
                rule: enabled[i].duplicate(),
                count: 0,
                fragments: Vec::new(),
                status: "来源文件缺失".to_owned(),
            };
            proof {
                assert(ev[i as int] == enabled@[i as int]@);
                assert(f@ =~= fresh(ev[i as int]));
            }
            findings.push(f);
            i += 1;
        }
        let r = Gathered {
            findings,
            system: Vec::new(),
            events: Vec::new(),
            warnings: Vec::new(),
        };
        proof {
            assert(r@.findings =~= gathered_nothing(ev).findings);
            assert(r@ =~= gathered_nothing(ev));
        }
        r
    }

    /// Takes the results of a file in. Files are taken in the order of the plan,
    /// whatever order they were finished in.
    pub fn add_file(&mut self, active: &Vec<usize>, analysis: FileAnalysis)
        requires
            names_each_once(active@, old(self).findings.len() as int),
            analysis.scans.len() == active.len(),
            forall|k: int|
                0 <= k < active.len() ==> old(self).findings@[(#[trigger] active@[k]) as int].count
                    + analysis.scans@[k].count <= usize::MAX,
        ensures
            final(self)@ == old(self)@.plus(active@, analysis@),
            final(self).findings.len() == old(self).findings.len(),
    {
        let ghost start = self@;
        let ghost av = analysis@;
        let ghost counts = self.findings@;
        let FileAnalysis { scans, mut system, mut events, mut warnings } = analysis;
        let ghost sv = views(scans@);
        let mut i: usize = 0;
        while i < active.len()
            invariant
                names_each_once(active@, start.findings.len() as int),
                start.findings == views(counts),
                sv == views(scans@),
                scans.len() == active.len(),
                i <= active.len(),
                self.findings.len() == start.findings.len(),
                views(self.findings@) == grown_findings(start.findings, active@, sv, i as int),
                self.system@ == old(self).system@,
                self.events@ == old(self).events@,
                self.warnings@ == old(self).warnings@,
                forall|k: int|
                    0 <= k < active.len() ==> counts[(#[trigger] active@[k]) as int].count
                        + scans@[k].count <= usize::MAX,
            decreases active.len() - i,
        {
            let at = active[i];
            let ghost had = self.findings@;
            let ghost fv = views(had);
            proof {
                lemma_grown(start.findings, active@, sv, i as int);
                assert(active@[i as int] < start.findings.len());
                assert(fv[at as int] == had[at as int]@);
                assert(start.findings[at as int] == counts[at as int]@);
                assert(sv[i as int] == scans@[i as int]@);
            }
            let mut f = self.findings[at].duplicate();
            let mut more = duplicate_all(&scans[i].fragments);
            proof {
                crate::text::lemma_views_add(f.fragments@, more@);
            }
            f.count = f.count + scans[i].count;
            f.status = scans[i].status.clone();
            f.fragments.append(&mut more);
            let ghost gv = f@;
            self.findings.set(at, f);
            proof {
                assert(gv =~= grown(fv[at as int], sv[i as int]));
                assert(views(self.findings@) =~= fv.update(at as int, gv));
            }
            i += 1;
        }
        proof {
            crate::text::lemma_views_add(self.system@, system@);
            crate::text::lemma_views_add(self.events@, events@);
            crate::text::lemma_views_add(self.warnings@, warnings@);
        }
        self.system.append(&mut system);
        self.events.append(&mut events);
        self.warnings.append(&mut warnings);
        proof {
            assert(self@ =~= start.plus(active@, av));
        }
    }
}

pub open spec fn has_table(id: Seq<char>) -> spec_fn(TableView) -> bool {
    |t: TableView| t.id == id
}

/// The table of a rule whose source gave none.
pub open spec fn absent_table(r: SystemRuleView) -> TableView {
    TableView {
        id: r.id,
        name: r.name,
        group: r.group,
        view: r.view,
        fields: r.fields,
        rows: Seq::empty(),
        storage: Seq::empty(),
        raw_text: Seq::empty(),
        source: r.source.pattern,
        warning: if r.missing.len() == 0 {
            Seq::empty()
        } else {
            r.missing + "：来源缺失或提取失败"@
        },
    }
}

/// The tables with one for each of the first `n` rules that gave none.
pub open spec fn with_absent(tables: Seq<TableView>, rules: Seq<SystemRuleView>, n: int) -> Seq<
    TableView,
>
    decreases n,
{
    if n <= 0 {
        tables
    } else {
        let t = with_absent(tables, rules, n - 1);
        if any(t, has_table(rules[n - 1].id)) {
            t
        } else {
            t.push(absent_table(rules[n - 1]))
        }
    }
}

fn holds_table(tables: &Vec<Table>, id: &str) -> (r: bool)
    ensures
        r == any(views(tables@), has_table(id@)),
{
    let ghost tv = views(tables@);
    let ghost f = has_table(id@);
    let mut i: usize = 0;
    while i < tables.len()
        invariant
            i <= tables.len(),
            tv == views(tables@),
            f == has_table(id@),
            forall|j: int| 0 <= j < i ==> !f(#[trigger] tv[j]),
        decreases tables.len() - i,
    {
        let hit = same(tables[i].id.as_str(), id);
        proof {
            assert(tv[i as int] == tables@[i as int]@);
            assert(hit == f(tv[i as int]));
        }
        if hit {
            return true;
        }
        i += 1;
    }
    false
}

fn make_absent(r: &SystemRule) -> (t: Table)
    ensures
        t@ == absent_table(r@),
{
    let none = String::new();
    proof {
        assert(none@ =~= Seq::<char>::empty());
    }
    let warning = if r.missing.as_str().is_empty() {
        none.clone()
    } else {
        concat2(r.missing.as_str(), "：来源缺失或提取失败")
    };
    let t = Table {
        id: r.id.clone(),
        name: r.name.clone(),
        group: r.group.clone(),
        view: r.view.clone(),
        fields: duplicate_all(&r.fields),
        rows: Vec::new(),
        storage: Vec::new(),
        raw_text: none,
        source: r.source.pattern.clone(),
        warning,
    };
    proof {
        assert(t@ =~= absent_table(r@));
    }
    t
}

/// Adds a table for each rule that gave none.
pub fn add_absent(tables: &mut Vec<Table>, rules: &Vec<SystemRule>)
    ensures
        views(final(tables)@) == with_absent(
            views(old(tables)@),
            views(rules@),
            rules.len() as int,
        ),
{
    let ghost start = views(tables@);
    let ghost rv = views(rules@);
    let mut i: usize = 0;
    while i < rules.len()
        invariant
            i <= rules.len(),
            rv == views(rules@),
            views(tables@) == with_absent(start, rv, i as int),
        decreases rules.len() - i,
    {
        let ghost was = views(tables@);
        proof {
            assert(rv[i as int] == rules@[i as int]@);
        }
        if !holds_table(tables, rules[i].id.as_str()) {
            let t = make_absent(&rules[i]);
            let ghost t_view = t@;
            tables.push(t);
            proof {
                assert(views(tables@) =~= was.push(t_view));
            }
        }
        i += 1;
    }
}

/// The place of a name in a list; behind its end where it is not there.
pub open spec fn rank(names: Seq<Seq<char>>, name: Seq<char>) -> int {
    match first_index(names, name) {
        Some(i) => i,
        None => names.len() as int,
    }
}

fn rank_of(names: &Vec<String>, name: &str) -> (r: usize)
    ensures
        r == rank(views(names@), name@),
{
    match position(names, name) {
        Some(i) => i,
        None => names.len(),
    }
}

/// The order of findings: by the first place of their group in the package.
pub open spec fn by_group(groups: Seq<Seq<char>>) -> spec_fn(FindingView, FindingView) -> bool {
    |a: FindingView, b: FindingView| rank(groups, a.rule.group) < rank(groups, b.rule.group)
}

/// The order of tables: by the place of their rule in the package.
pub open spec fn by_rule(ids: Seq<Seq<char>>) -> spec_fn(TableView, TableView) -> bool {
    |a: TableView, b: TableView| rank(ids, a.id) < rank(ids, b.id)
}

pub open spec fn rule_groups(rules: Seq<RuleView>) -> Seq<Seq<char>> {
    Seq::new(rules.len(), |i: int| rules[i].group)
}

fn groups_of_rules(rules: &Vec<Rule>) -> (r: Vec<String>)
    ensures
        views(r@) == rule_groups(views(rules@)),
{
    let mut out: Vec<String> = Vec::new();
    let mut i: usize = 0;
    while i < rules.len()
        invariant
            i <= rules.len(),
            out.len() == i,
            forall|j: int| 0 <= j < i ==> (#[trigger] out@[j])@ == rules@[j].group@,
        decreases rules.len() - i,
    {
        out.push(rules[i].group.clone());
        i += 1;
    }
    proof {
        assert(views(out@) =~= rule_groups(views(rules@)));
    }
    out
}

/// Puts findings in the order of their groups in the package.
pub fn sort_findings(findings: Vec<Finding>, rules: &Vec<Rule>) -> (r: Vec<Finding>)
    ensures
        views(r@) == sorted(views(findings@), by_group(rule_groups(views(rules@)))),
{
    let groups = groups_of_rules(rules);
    let ghost gv = views(groups@);
    let less = |a: &Finding, b: &Finding| -> (r: bool)
        ensures
            r == by_group(views(groups@))(a@, b@),
    {
        let x = rank_of(&groups, a.rule.group.as_str());
        let y = rank_of(&groups, b.rule.group.as_str());
        x < y
    };
    sort_by(findings, less, Ghost(by_group(gv)))
}

fn ids_of_tables(rules: &Vec<SystemRule>) -> (r: Vec<String>)
    ensures
        views(r@) == crate::rules::validate::system_ids(views(rules@)),
{
    let mut out: Vec<String> = Vec::new();
    let mut i: usize = 0;
    while i < rules.len()
        invariant
            i <= rules.len(),
            out.len() == i,
            forall|j: int| 0 <= j < i ==> (#[trigger] out@[j])@ == rules@[j].id@,
        decreases rules.len() - i,
    {
        out.push(rules[i].id.clone());
        i += 1;
    }
    proof {
        assert(views(out@) =~= crate::rules::validate::system_ids(views(rules@)));
    }
    out
}

/// Puts tables in the order of their rules in the package.
pub fn sort_tables(tables: Vec<Table>, rules: &Vec<SystemRule>) -> (r: Vec<Table>)
    ensures
        views(r@) == sorted(
            views(tables@),
            by_rule(crate::rules::validate::system_ids(views(rules@))),
        ),
{
    let ids = ids_of_tables(rules);
    let ghost iv = views(ids@);
    let less = |a: &Table, b: &Table| -> (r: bool)
        ensures
            r == by_rule(views(ids@))(a@, b@),
    {
        let x = rank_of(&ids, a.id.as_str());
        let y = rank_of(&ids, b.id.as_str());
        x < y
    };
    sort_by(tables, less, Ghost(by_rule(iv)))
}

/// Where the run of fragments of one file ends that starts at `i`.
pub open spec fn file_run(s: Seq<FragmentView>, i: int, j: int) -> int
    decreases s.len() - j,
{
    if j >= s.len() {
        s.len() as int
    } else if s[j].file != s[i].file {
        j
    } else {
        file_run(s, i, j + 1)
    }
}

/// The fragments from number `i` on with each run of one file from its back.
pub open spec fn runs_reversed(s: Seq<FragmentView>, i: int) -> Seq<FragmentView>
    decreases s.len() - i,
{
    let e = file_run(s, i, i + 1);
    if i < 0 || i >= s.len() || e <= i || e > s.len() {
        Seq::empty()
    } else {
        s.subrange(i, e).reverse() + runs_reversed(s, e)
    }
}

pub open spec fn by_time() -> spec_fn(FragmentView, FragmentView) -> bool {
    |a: FragmentView, b: FragmentView| before(a.time, b.time)
}

/// The fragments of a rule in the order that it asks for.
pub open spec fn ordered_fragments(r: RuleView, s: Seq<FragmentView>) -> Seq<FragmentView> {
    let a = if r.reverse {
        runs_reversed(s, 0)
    } else {
        s
    };
    if r.sort == "source"@ {
        a
    } else if r.sort == "desc"@ {
        sorted(a, by_time()).reverse()
    } else {
        sorted(a, by_time())
    }
}

/// A finding once all files are read.
pub open spec fn finished(f: FindingView) -> FindingView {
    FindingView {
        status: if f.count > 0 && f.status != "日志读取不完整"@ {
            "已提取"@
        } else {
            f.status
        },
        fragments: ordered_fragments(f.rule, f.fragments),
        ..f
    }
}

fn reverse_runs(s: &Vec<Fragment>) -> (r: Vec<Fragment>)
    ensures
        views(r@) == runs_reversed(views(s@), 0),
{
    let ghost sv = views(s@);
    let mut out: Vec<Fragment> = Vec::new();
    let mut i: usize = 0;
    proof {
        assert(views(out@) + runs_reversed(sv, 0) =~= runs_reversed(sv, 0));
    }
    while i < s.len()
        invariant
            i <= s.len(),
            sv == views(s@),
            views(out@) + runs_reversed(sv, i as int) == runs_reversed(sv, 0),
        decreases s.len() - i,
    {
        let mut e: usize = i + 1;
        while e < s.len() && same(s[e].file.as_str(), s[i].file.as_str())
            invariant
                i < e <= s.len(),
                sv == views(s@),
                file_run(sv, i as int, i + 1) == file_run(sv, i as int, e as int),
            ensures
                i < e <= s.len(),
                file_run(sv, i as int, i + 1) == e,
            decreases s.len() - e,
        {
            proof {
                assert(sv[e as int] == s@[e as int]@);
                assert(sv[i as int] == s@[i as int]@);
            }
            e += 1;
        }
        let part = crate::text::duplicate_range(s, i, e);
        let mut back = reversed(part);
        let ghost was = views(out@);
        proof {
            crate::text::lemma_views_add(out@, back@);
            assert(was + runs_reversed(sv, i as int) =~= was + sv.subrange(
                i as int,
                e as int,
            ).reverse() + runs_reversed(sv, e as int));
        }
        out.append(&mut back);
        i = e;
    }
    proof {
        assert(views(out@) + runs_reversed(sv, i as int) =~= views(out@));
    }
    out
}

fn fragment_before(a: &Fragment, b: &Fragment) -> (r: bool)
    ensures
        r == before(a.time@, b.time@),
{
    comes_before(a.time.as_str(), b.time.as_str())
}

fn order_fragments(rule: &Rule, fragments: Vec<Fragment>) -> (r: Vec<Fragment>)
    ensures
        views(r@) == ordered_fragments(rule@, views(fragments@)),
{
    let a = if rule.reverse {
        reverse_runs(&fragments)
    } else {
        fragments
    };
    if same(rule.sort.as_str(), "source") {
        return a;
    }
    let b = sort_by(a, fragment_before, Ghost(by_time()));
    if same(rule.sort.as_str(), "desc") {
        reversed(b)
    } else {
        b
    }
}

/// Completes a finding once all files are read.
pub fn finish_finding(f: Finding) -> (r: Finding)
    ensures
        r@ == finished(f@),
{
    let status = if f.count > 0 && !same(f.status.as_str(), "日志读取不完整") {
        "已提取".to_owned()
    } else {
        f.status.clone()
    };
    let rule = f.rule.duplicate();
    let count = f.count;
    let fragments = order_fragments(&rule, f.fragments);
    Finding { rule, count, fragments, status }
}

/// The text of three sizes of a volume; none where one of them is no number.
pub type Volumes = spec_fn(Seq<char>, Seq<char>, Seq<char>) -> Option<Seq<char>>;

/// Whether a function can be asked for the text of every volume and always
/// gives the same answer.
pub open spec fn gives_volumes<F: Fn(&str, &str, &str) -> Option<String>>(f: F) -> bool {
    &&& forall|a: &str, b: &str, c: &str| #[trigger] call_requires(f, (a, b, c))
    &&& forall|
        a: &str,
        b: &str,
        c: &str,
        x: &str,
        y: &str,
        z: &str,
        p: Option<String>,
        q: Option<String>,
    |
        a@ == x@ && b@ == y@ && c@ == z@ && #[trigger] call_ensures(f, (a, b, c), p)
            && #[trigger] call_ensures(f, (x, y, z), q) ==> opt_view(p) == opt_view(q)
}

pub open spec fn tells_volume<F: Fn(&str, &str, &str) -> Option<String>>(
    f: F,
    a: Seq<char>,
    b: Seq<char>,
    c: Seq<char>,
    p: Option<String>,
) -> bool {
    exists|x: &str, y: &str, z: &str|
        x@ == a && y@ == b && z@ == c && #[trigger] call_ensures(f, (x, y, z), p)
}

/// The volume texts that a function gives.
pub open spec fn volumes_of<F: Fn(&str, &str, &str) -> Option<String>>(f: F) -> Volumes {
    |a: Seq<char>, b: Seq<char>, c: Seq<char>|
        opt_view(choose|p: Option<String>| tells_volume(f, a, b, c, p))
}

fn volume_text<F: Fn(&str, &str, &str) -> Option<String>>(
    f: &F,
    a: &str,
    b: &str,
    c: &str,
) -> (r: Option<String>)
    requires
        gives_volumes(*f),
    ensures
        opt_view(r) == volumes_of(*f)(a@, b@, c@),
{
    let r = f(a, b, c);
    proof {
        assert(tells_volume(*f, a@, b@, c@, r));
        let p = choose|p: Option<String>| tells_volume(*f, a@, b@, c@, p);
        assert(tells_volume(*f, a@, b@, c@, p));
        let (x, y, z) = choose|x: &str, y: &str, z: &str|
            x@ == a@ && y@ == b@ && z@ == c@ && #[trigger] call_ensures(*f, (x, y, z), p);
        assert(opt_view(p) == opt_view(r));
    }
    r
}

/// The groups of the first hit from line `i` on that an expression matches.
pub open spec fn hit_groups(
    p: PatternView,
    lines: Seq<LogLineView>,
    i: int,
) -> Option<Seq<Option<Seq<char>>>>
    decreases lines.len() - i,
{
    if i >= lines.len() {
        None
    } else if lines[i].hit && pattern_groups(p.source, p.insensitive, lines[i].text) is Some {
        pattern_groups(p.source, p.insensitive, lines[i].text)
    } else {
        hit_groups(p, lines, i + 1)
    }
}

/// What is written beside a fragment that tells the sizes of a volume.
pub open spec fn volume_note(p: PatternView, f: FragmentView, volumes: Volumes) -> Seq<char> {
    match told_volume(hit_groups(p, f.lines, 0), volumes) {
        Some(s) => s,
        None => f.annotation,
    }
}

/// The text of the three sizes that a match tells, where it tells them.
pub open spec fn told_volume(groups: Option<Seq<Option<Seq<char>>>>, volumes: Volumes) -> Option<
    Seq<char>,
> {
    match groups {
        Some(g) => match (group_at(g, 1), group_at(g, 2), group_at(g, 3)) {
            (Some(a), Some(b), Some(c)) => volumes(a, b, c),
            _ => None,
        },
        None => None,
    }
}

/// The expression with which a rule reads the sizes of volumes.
pub open spec fn volume_pattern(r: RuleView) -> Option<PatternView> {
    if r.fmt == "volume_info"@ && r.regex && r.terms.len() > 0 {
        usable(r.terms[0])
    } else {
        None
    }
}

/// A finding with the sizes of volumes beside its fragments.
pub open spec fn annotated(f: FindingView, volumes: Volumes) -> FindingView {
    match volume_pattern(f.rule) {
        Some(p) => FindingView {
            fragments: Seq::new(
                f.fragments.len(),
                |i: int|
                    FragmentView {
                        annotation: volume_note(p, f.fragments[i], volumes),
                        ..f.fragments[i]
                    },
            ),
            ..f
        },
        None => f,
    }
}

fn first_groups(p: &Pattern, lines: &Vec<LogLine>) -> (r: Option<
    Vec<Option<String>>,
>)
    ensures
        opt_groups(r) == hit_groups(p@, views(lines@), 0),
{
    let ghost lv = views(lines@);
    let mut i: usize = 0;
    while i < lines.len()
        invariant
            i <= lines.len(),
            lv == views(lines@),
            hit_groups(p@, lv, 0) == hit_groups(p@, lv, i as int),
        decreases lines.len() - i,
    {
        proof {
            assert(lv[i as int] == lines@[i as int]@);
        }
        if lines[i].hit {
            let g = p.groups(lines[i].text.as_str());
            if g.is_some() {
                return g;
            }
        }
        i += 1;
    }
    None
}

fn note_of_volume<F: Fn(&str, &str, &str) -> Option<String>>(
    p: &Pattern,
    f: &Fragment,
    volumes: &F,
) -> (r: String)
    requires
        gives_volumes(*volumes),
    ensures
        r@ == volume_note(p@, f@, volumes_of(*volumes)),
{
    match volume_of_match(&first_groups(p, &f.lines), volumes) {
        Some(s) => s,
        None => f.annotation.clone(),
    }
}

/// The text of the three sizes that a match tells, where it tells them.
pub fn volume_of_match<F: Fn(&str, &str, &str) -> Option<String>>(
    groups: &Option<Vec<Option<String>>>,
    volumes: &F,
) -> (r: Option<String>)
    requires
        gives_volumes(*volumes),
    ensures
        opt_view(r) == told_volume(opt_groups(*groups), volumes_of(*volumes)),
{
    match groups {
        Some(g) => {
            let a = group_by_index(g, 1);
            let b = group_by_index(g, 2);
            let c = group_by_index(g, 3);
            match (a, b, c) {
                (Some(a), Some(b), Some(c)) => volume_text(
                    volumes,
                    a.as_str(),
                    b.as_str(),
                    c.as_str(),
                ),
                _ => None,
            }
        },
        None => None,
    }
}

/// Writes the sizes of volumes beside the fragments of a rule that reads them.
pub fn annotate_finding<F: Fn(&str, &str, &str) -> Option<String>>(f: &mut Finding, volumes: &F)
    requires
        gives_volumes(*volumes),
    ensures
        final(f)@ == annotated(old(f)@, volumes_of(*volumes)),
{
    let ghost start = f@;
    let ghost vs = volumes_of(*volumes);
    let pattern = if same(f.rule.fmt.as_str(), "volume_info") && f.rule.regex && f.rule.terms.len()
        > 0 {
        proof {
            assert(start.rule.terms[0] == f.rule.terms@[0]@);
        }
        compile_plain(f.rule.terms[0].as_str())
    } else {
        None
    };
    if let Some(p) = pattern {
        let ghost fv = start.fragments;
        let mut out: Vec<Fragment> = Vec::new();
        let mut i: usize = 0;
        while i < f.fragments.len()
            invariant
                gives_volumes(*volumes),
                vs == volumes_of(*volumes),
                f@ == start,
                fv == views(f.fragments@),
                i <= f.fragments.len(),
                out.len() == i,
                forall|j: int|
                    0 <= j < i ==> (#[trigger] out@[j])@ == (FragmentView {
                        annotation: volume_note(p@, fv[j], vs),
                        ..fv[j]
                    }),
            decreases f.fragments.len() - i,
        {
            let mut one = f.fragments[i].duplicate();
            proof {
                assert(fv[i as int] == f.fragments@[i as int]@);
            }
            one.annotation = note_of_volume(&p, &f.fragments[i], volumes);
            proof {
                assert(one@ =~= (FragmentView {
                    annotation: volume_note(p@, fv[i as int], vs),
                    ..fv[i as int]
                }));
            }
            out.push(one);
            i += 1;
        }
        proof {
            assert(views(out@) =~= annotated(start, vs).fragments);
        }
        f.fragments = out;
        proof {
            assert(f@ =~= annotated(start, vs));
        }
    }
}

} // verus!
