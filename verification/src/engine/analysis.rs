//! The analysis of a whole package: what is prepared once, the work on each file,
//! and the report of all of them.

use crate::engine::file::{
    analyze_file, extractor_rules, extractors_ok, file_analysis, FileAnalysis, FileAnalysisView,
};
use crate::engine::findings::{
    enabled_rules, enabled_tables, gathered_nothing, gives_volumes, grown_findings, is_enabled,
    is_enabled_table, names_each_once, volumes_of, Gathered, GatheredView,
};
use crate::engine::model::FindingView;
use crate::engine::plan::{
    busy_files, plan_of, timeline_files, within, work_on, AnalysisFilePlan, PlannedFileView,
};
use crate::engine::preview::lemma_terms_compile;
use crate::engine::report::{assemble_report, report_of, Report};
use crate::engine::scan::{
    content_lines, prepared, Content, Log, PreparedRule, PreparedRuleView, ScanView,
};
use crate::engine::time::TimePatterns;
use crate::extract::extractor::PreparedExtractor;
use crate::extract::format::{gives_sizes, sizes_of, Sizes};
use crate::fault::Fault;
use crate::outside::pattern::pattern_fault;
use crate::rules::model::{Rule, RuleSet, RuleSetView, RuleView, SystemRule, SystemRuleView};
use crate::rules::validate::system_fault;
use crate::select::lemma_places;
use crate::text::{duplicate_all, kept, views, Duplicate};
use vstd::prelude::*;

verus! {

/// What is prepared once for the analysis of a package.
pub struct Analysis {
    pub set: RuleSet,
    pub files: Vec<String>,
    pub enabled: Vec<Rule>,
    pub rules: Vec<PreparedRule>,
    pub extractors: Vec<PreparedExtractor>,
    pub times: TimePatterns,
    pub plan: AnalysisFilePlan,
}

/// The enabled rules of a package.
pub open spec fn enabled_of(set: RuleSetView) -> Seq<RuleView> {
    kept(set.rules, is_enabled(), 0)
}

/// The enabled tables of a package.
pub open spec fn tables_of(set: RuleSetView) -> Seq<SystemRuleView> {
    kept(set.system, is_enabled_table(), 0)
}

pub open spec fn all_prepared(rules: Seq<RuleView>) -> Seq<PreparedRuleView> {
    rules.map_values(|r: RuleView| prepared(r))
}

/// The plan of the analysis of a package.
pub open spec fn package_plan(set: RuleSetView, files: Seq<Seq<char>>) -> Seq<PlannedFileView> {
    plan_of(files, set.rules, enabled_of(set), tables_of(set))
}

pub open spec fn numbers(s: Seq<int>) -> Seq<usize> {
    s.map_values(|i: int| i as usize)
}

/// What the analysis of a planned file finds.
pub open spec fn planned_analysis(
    set: RuleSetView,
    files: Seq<Seq<char>>,
    p: PlannedFileView,
    c: Content,
    sizes: Sizes,
) -> FileAnalysisView {
    file_analysis(
        files[p.file_index],
        c,
        tables_of(set),
        numbers(p.system),
        all_prepared(enabled_of(set)),
        numbers(p.active),
        sizes,
    )
}

/// What the first `n` files of the plan give.
pub open spec fn gathered(
    set: RuleSetView,
    files: Seq<Seq<char>>,
    contents: Seq<Content>,
    sizes: Sizes,
    n: int,
) -> GatheredView
    decreases n,
{
    if n <= 0 {
        gathered_nothing(enabled_of(set))
    } else {
        let p = package_plan(set, files)[n - 1];
        gathered(set, files, contents, sizes, n - 1).plus(
            numbers(p.active),
            planned_analysis(set, files, p, contents[p.file_index], sizes),
        )
    }
}

/// How many lines the first `n` files have.
pub open spec fn line_total(contents: Seq<Content>, n: int) -> nat
    decreases n,
{
    if n <= 0 {
        0
    } else {
        line_total(contents, n - 1) + content_lines(contents[n - 1]).len()
    }
}

/// How many lines the first `n` files of a plan have.
pub open spec fn planned_lines(contents: Seq<Content>, plan: Seq<PlannedFileView>, n: int) -> nat
    decreases n,
{
    if n <= 0 {
        0
    } else {
        planned_lines(contents, plan, n - 1) + content_lines(
            contents[plan[n - 1].file_index],
        ).len()
    }
}

proof fn lemma_planned_add(
    contents: Seq<Content>,
    a: Seq<PlannedFileView>,
    b: Seq<PlannedFileView>,
    n: int,
)
    requires
        0 <= n <= b.len(),
    ensures
        planned_lines(contents, a + b, a.len() + n) == planned_lines(contents, a, a.len() as int)
            + planned_lines(contents, b, n),
    decreases n,
{
    if n > 0 {
        lemma_planned_add(contents, a, b, n - 1);
        assert((a + b)[a.len() + n - 1] == b[n - 1]);
    } else {
        lemma_planned_prefix(contents, a, b, a.len() as int);
    }
}

proof fn lemma_planned_prefix(
    contents: Seq<Content>,
    a: Seq<PlannedFileView>,
    b: Seq<PlannedFileView>,
    n: int,
)
    requires
        n <= a.len(),
    ensures
        planned_lines(contents, a + b, n) == planned_lines(contents, a, n),
    decreases n,
{
    if n > 0 {
        lemma_planned_prefix(contents, a, b, n - 1);
        assert((a + b)[n - 1] == a[n - 1]);
    }
}

proof fn lemma_planned_grows(contents: Seq<Content>, plan: Seq<PlannedFileView>, k: int, n: int)
    requires
        k <= n,
    ensures
        planned_lines(contents, plan, k) <= planned_lines(contents, plan, n),
    decreases n - k,
{
    if k < n {
        lemma_planned_grows(contents, plan, k, n - 1);
    }
}

proof fn lemma_planned_one(contents: Seq<Content>, w: PlannedFileView)
    ensures
        planned_lines(contents, seq![w], 1) == content_lines(contents[w.file_index]).len(),
        planned_lines(contents, Seq::empty(), 0) == 0,
{
    reveal_with_fuel(planned_lines, 2);
}

/// No file is planned twice.
proof fn lemma_planned_once(
    contents: Seq<Content>,
    files: Seq<Seq<char>>,
    rules: Seq<RuleView>,
    enabled: Seq<RuleView>,
    tables: Seq<SystemRuleView>,
    n: int,
)
    requires
        0 <= n,
    ensures
        ({
            let b = busy_files(files, rules, enabled, tables, n);
            let t = timeline_files(files, rules, enabled, tables, n);
            planned_lines(contents, b, b.len() as int) + planned_lines(contents, t, t.len() as int)
                <= line_total(contents, n)
        }),
    decreases n,
{
    if n > 0 {
        lemma_planned_once(contents, files, rules, enabled, tables, n - 1);
        let b = busy_files(files, rules, enabled, tables, n - 1);
        let t = timeline_files(files, rules, enabled, tables, n - 1);
        let w = work_on(files, rules, enabled, tables, n - 1);
        let one = seq![w];
        let none = Seq::<PlannedFileView>::empty();
        assert(b + none =~= b);
        assert(t + none =~= t);
        lemma_planned_one(contents, w);
        lemma_planned_add(contents, b, one, 1);
        lemma_planned_add(contents, t, one, 1);
    }
}

proof fn lemma_hits(log: Log, n: int)
    ensures
        log.hits(n) <= if n < 0 {
            0
        } else {
            n
        },
    decreases n,
{
    if n > 0 {
        lemma_hits(log, n - 1);
    }
}

/// A file adds no more to a finding than it has lines.
proof fn lemma_counts(
    findings: Seq<FindingView>,
    active: Seq<usize>,
    scans: Seq<ScanView>,
    most: int,
    n: int,
)
    requires
        0 <= n <= active.len(),
        active.len() == scans.len(),
        names_each_once(active, findings.len() as int),
        0 <= most,
        forall|k: int| 0 <= k < scans.len() ==> (#[trigger] scans[k]).count <= most,
        forall|j: int|
            0 <= j < findings.len() ==> (#[trigger] findings[j]).count + most <= usize::MAX,
    ensures
        ({
            let g = grown_findings(findings, active, scans, n);
            &&& g.len() == findings.len()
            &&& forall|j: int|
                0 <= j < findings.len() ==> (#[trigger] g[j]).count <= findings[j].count + most
            &&& forall|k: int|
                n <= k < active.len() ==> g[(#[trigger] active[k]) as int]
                    == findings[active[k] as int]
        }),
    decreases n,
{
    if n > 0 {
        lemma_counts(findings, active, scans, most, n - 1);
        let g = grown_findings(findings, active, scans, n - 1);
        assert(g[active[n - 1] as int] == findings[active[n - 1] as int]);
        assert(scans[n - 1].count <= most);
        assert(findings[active[n - 1] as int].count + most <= usize::MAX);
    }
}

/// Every file of the plan has its work.
proof fn lemma_work(
    files: Seq<Seq<char>>,
    rules: Seq<RuleView>,
    enabled: Seq<RuleView>,
    tables: Seq<SystemRuleView>,
    n: int,
)
    requires
        0 <= n,
    ensures
        forall|k: int|
            0 <= k < busy_files(files, rules, enabled, tables, n).len() ==> {
                let p = #[trigger] busy_files(files, rules, enabled, tables, n)[k];
                p == work_on(files, rules, enabled, tables, p.file_index) && 0 <= p.file_index < n
            },
        forall|k: int|
            0 <= k < timeline_files(files, rules, enabled, tables, n).len() ==> {
                let p = #[trigger] timeline_files(files, rules, enabled, tables, n)[k];
                p == work_on(files, rules, enabled, tables, p.file_index) && 0 <= p.file_index < n
            },
    decreases n,
{
    if n > 0 {
        lemma_work(files, rules, enabled, tables, n - 1);
        let w = work_on(files, rules, enabled, tables, n - 1);
        let b = busy_files(files, rules, enabled, tables, n - 1);
        let t = timeline_files(files, rules, enabled, tables, n - 1);
        let more = busy_files(files, rules, enabled, tables, n);
        let later = timeline_files(files, rules, enabled, tables, n);
        assert forall|k: int| 0 <= k < more.len() implies {
            let p = #[trigger] more[k];
            p == work_on(files, rules, enabled, tables, p.file_index) && 0 <= p.file_index < n
        } by {
            if k < b.len() {
                assert(more[k] == b[k]);
            } else {
                assert(more[k] == w);
            }
        }
        assert forall|k: int| 0 <= k < later.len() implies {
            let p = #[trigger] later[k];
            p == work_on(files, rules, enabled, tables, p.file_index) && 0 <= p.file_index < n
        } by {
            if k < t.len() {
                assert(later[k] == t[k]);
            } else {
                assert(later[k] == w);
            }
        }
    }
}

/// What is planned for a file names the enabled rules, each once.
proof fn lemma_plan(
    files: Seq<Seq<char>>,
    rules: Seq<RuleView>,
    enabled: Seq<RuleView>,
    tables: Seq<SystemRuleView>,
    k: int,
)
    requires
        0 <= k < plan_of(files, rules, enabled, tables).len(),
        enabled.len() <= usize::MAX,
    ensures
        ({
            let p = plan_of(files, rules, enabled, tables)[k];
            &&& 0 <= p.file_index < files.len()
            &&& names_each_once(numbers(p.active), enabled.len() as int)
        }),
{
    let n = files.len() as int;
    let b = busy_files(files, rules, enabled, tables, n);
    let t = timeline_files(files, rules, enabled, tables, n);
    let p = plan_of(files, rules, enabled, tables)[k];
    lemma_work(files, rules, enabled, tables, n);
    if k < b.len() {
        assert(p == b[k]);
    } else {
        assert(p == t[k - b.len()]);
    }
    let f = crate::engine::plan::is_active(
        crate::engine::plan::legacy_owner(rules, files[p.file_index]),
        files[p.file_index],
    );
    lemma_places(enabled, f, 0);
    let a = numbers(p.active);
    assert forall|i: int| 0 <= i < a.len() implies (#[trigger] a[i]) < enabled.len() by {
        assert(p.active[i] < enabled.len());
    }
    assert forall|i: int, j: int| 0 <= i < j < a.len() implies a[i] != a[j] by {
        assert(p.active[i] < p.active[j]);
    }
}

proof fn lemma_tables_compile(
    rules: Seq<RuleView>,
    system: Seq<SystemRuleView>,
    i: int,
    k: int,
)
    requires
        0 <= i <= k < system.len(),
        system_fault(rules, system, i) is None,
        system[k].kind == "regex"@,
    ensures
        pattern_fault(system[k].pattern, false) is None,
    decreases k - i,
{
    if i < k {
        lemma_tables_compile(rules, system, i + 1, k);
    }
}

/// What is kept was there.
proof fn lemma_kept_from<A>(s: Seq<A>, f: spec_fn(A) -> bool, k: int) -> (j: int)
    requires
        0 <= k < kept(s, f, 0).len(),
    ensures
        0 <= j < s.len(),
        s[j] == kept(s, f, 0)[k],
{
    crate::select::lemma_kept_holds(s, f, 0);
    choose|j: int| 0 <= j < s.len() && s[j] == kept(s, f, 0)[k]
}

fn prepare_rules(enabled: &Vec<Rule>, Ghost(set): Ghost<RuleSetView>) -> (r: Vec<PreparedRule>)
    requires
        views(enabled@) == enabled_of(set),
        set.resolved_fault() is None,
    ensures
        views(r@) == all_prepared(views(enabled@)),
{
    let ghost ev = views(enabled@);
    let mut out: Vec<PreparedRule> = Vec::new();
    let mut i: usize = 0;
    while i < enabled.len()
        invariant
            i <= enabled.len(),
            ev == views(enabled@),
            ev == enabled_of(set),
            set.resolved_fault() is None,
            out.len() == i,
            forall|j: int| 0 <= j < i ==> (#[trigger] out@[j])@ == prepared(ev[j]),
        decreases enabled.len() - i,
    {
        proof {
            assert(ev[i as int] == enabled@[i as int]@);
            let j = lemma_kept_from(set.rules, is_enabled(), i as int);
            lemma_terms_compile(set.rules, 0, j);
        }
        if let Ok(p) = PreparedRule::new(&enabled[i]) {
            out.push(p);
        }
        i += 1;
    }
    proof {
        assert(views(out@).len() == out.len());
        assert(ev.len() == enabled.len());
        assert(views(out@) =~= all_prepared(ev));
    }
    out
}

fn prepare_extractors(tables: &Vec<SystemRule>, Ghost(set): Ghost<RuleSetView>) -> (r: Vec<
    PreparedExtractor,
>)
    requires
        views(tables@) == tables_of(set),
        set.resolved_fault() is None,
    ensures
        extractors_ok(r@),
        extractor_rules(r@) == views(tables@),
{
    let ghost tv = views(tables@);
    let mut out: Vec<PreparedExtractor> = Vec::new();
    let mut i: usize = 0;
    while i < tables.len()
        invariant
            i <= tables.len(),
            tv == views(tables@),
            tv == tables_of(set),
            set.resolved_fault() is None,
            out.len() == i,
            forall|j: int| 0 <= j < i ==> (#[trigger] out@[j]).wf() && out@[j].rule@ == tv[j],
        decreases tables.len() - i,
    {
        proof {
            assert(tv[i as int] == tables@[i as int]@);
            let j = lemma_kept_from(set.system, is_enabled_table(), i as int);
            if set.system[j].kind == "regex"@ {
                lemma_tables_compile(set.rules, set.system, 0, j);
            }
        }
        if let Ok(p) = PreparedExtractor::new(&tables[i]) {
            out.push(p);
        }
        i += 1;
    }
    proof {
        assert(tv.len() == tables.len());
        assert(extractor_rules(out@) =~= tv);
    }
    out
}

impl Analysis {
    /// Whether this is what a package's analysis needs: the set is resolved and
    /// valid, everything is compiled, the files are planned.
    pub open spec fn wf(self) -> bool {
        &&& views(self.enabled@) == enabled_of(self.set@)
        &&& views(self.rules@) == all_prepared(enabled_of(self.set@))
        &&& extractors_ok(self.extractors@)
        &&& extractor_rules(self.extractors@) == tables_of(self.set@)
        &&& self.times.wf()
        &&& views(self.plan.files@) == package_plan(self.set@, views(self.files@))
        &&& forall|k: int|
            0 <= k < self.plan.files.len() ==> within(
                #[trigger] self.plan.files@[k],
                self.files.len() as int,
                self.extractors.len() as int,
                self.rules.len() as int,
            )
    }

    /// Prepares the analysis of a package with these files.
    pub fn new(set: &RuleSet, files: &Vec<String>) -> (r: Result<Self, Fault>)
        ensures
            (match r {
                Ok(a) => set@.fault() is None && a.wf() && a.set@ == set@.resolved() && views(
                    a.files@,
                ) == views(files@),
                Err(f) => set@.fault() == Some(f@),
            }),
    {
        let set = match set.duplicate().admitted() {
            Ok(s) => s,
            Err(f) => {
                return Err(f);
            },
        };
        let enabled = enabled_rules(&set.rules);
        let tables = enabled_tables(&set.system);
        let rules = prepare_rules(&enabled, Ghost(set@));
        let extractors = prepare_extractors(&tables, Ghost(set@));
        let plan = AnalysisFilePlan::new(files, &set.rules, &enabled, &tables);
        proof {
            assert(views(rules@).len() == rules.len());
            assert(views(enabled@).len() == enabled.len());
            assert(extractor_rules(extractors@).len() == extractors.len());
            assert(views(tables@).len() == tables.len());
        }
        let own = duplicate_all(files);
        proof {
            assert(views(own@).len() == own.len());
            assert(views(files@).len() == files.len());
        }
        Ok(Analysis { set, files: own, enabled, rules, extractors, times: TimePatterns::new(), plan })
    }

    /// The work on one file of the plan.
    pub fn analyze<F: Fn(&str, bool) -> Option<String>>(
        &self,
        k: usize,
        content: &Content,
        sizes: &F,
    ) -> (r: FileAnalysis)
        requires
            self.wf(),
            k < self.plan.files.len(),
            gives_sizes(*sizes),
        ensures
            r@ == planned_analysis(
                self.set@,
                views(self.files@),
                views(self.plan.files@)[k as int],
                *content,
                sizes_of(*sizes),
            ),
    {
        let p = &self.plan.files[k];
        proof {
            assert(within(
                self.plan.files@[k as int],
                self.files.len() as int,
                self.extractors.len() as int,
                self.rules.len() as int,
            ));
            assert(views(self.plan.files@)[k as int] == p@);
            assert(views(self.files@)[p.file_index as int] == self.files@[p.file_index as int]@);
            assert(numbers(p@.system) =~= p.system@);
            assert(numbers(p@.active) =~= p.active@);
        }
        analyze_file(
            self.files[p.file_index].as_str(),
            content,
            &self.extractors,
            &p.system,
            &self.rules,
            &p.active,
            &self.times,
            sizes,
        )
    }
}

/// Analyses a package whose files were read. The report is that of the files in
/// the order of the plan, whoever worked on them.
pub fn analyze<
    F: Fn(&str, bool) -> Option<String>,
    G: Fn(&str, &str, &str) -> Option<String>,
>(
    set: &RuleSet,
    files: &Vec<String>,
    contents: &Vec<Content>,
    package: &str,
    generated: &str,
    sizes: &F,
    volumes: &G,
) -> (r: Result<Report, Fault>)
    requires
        contents.len() == files.len(),
        line_total(contents@, contents.len() as int) <= usize::MAX,
        gives_sizes(*sizes),
        gives_volumes(*volumes),
    ensures
        (match r {
            Ok(report) => {
                let s = set@.resolved();
                let fv = views(files@);
                &&& set@.fault() is None
                &&& report@ == report_of(
                    s,
                    gathered(
                        s,
                        fv,
                        contents@,
                        sizes_of(*sizes),
                        package_plan(s, fv).len() as int,
                    ),
                    fv,
                    package@,
                    generated@,
                    volumes_of(*volumes),
                )
            },
            Err(f) => set@.fault() == Some(f@),
        }),
{
    let a = match Analysis::new(set, files) {
        Ok(a) => a,
        Err(f) => {
            return Err(f);
        },
    };
    let ghost s = a.set@;
    let ghost fv = views(files@);
    let ghost plan = package_plan(s, fv);
    let ghost sz = sizes_of(*sizes);
    let mut g = Gathered::new(&a.enabled);
    let mut k: usize = 0;
    proof {
        let n = files.len() as int;
        assert(fv.len() == n);
        let e = enabled_of(s);
        let t = tables_of(s);
        lemma_planned_once(contents@, fv, s.rules, e, t, n);
        let b = busy_files(fv, s.rules, e, t, n);
        let q = timeline_files(fv, s.rules, e, t, n);
        lemma_planned_add(contents@, b, q, q.len() as int);
        assert(plan == b + q);
        assert(planned_lines(contents@, plan, plan.len() as int) <= usize::MAX);
        assert(views(a.plan.files@).len() == a.plan.files.len());
        assert(views(a.enabled@).len() == a.enabled.len());
        assert(views(g.findings@).len() == g.findings.len());
        assert forall|j: int| 0 <= j < g.findings.len() implies (
        #[trigger] g.findings@[j]).count == 0 by {
            assert(views(g.findings@)[j] == g.findings@[j]@);
        }
    }
    while k < a.plan.files.len()
        invariant
            a.wf(),
            a.set@ == s,
            views(a.files@) == fv,
            fv == views(files@),
            contents.len() == files.len(),
            plan == package_plan(s, fv),
            plan == views(a.plan.files@),
            plan.len() == a.plan.files.len(),
            sz == sizes_of(*sizes),
            gives_sizes(*sizes),
            k <= a.plan.files.len(),
            g@ == gathered(s, fv, contents@, sz, k as int),
            g.findings.len() == enabled_of(s).len(),
            planned_lines(contents@, plan, plan.len() as int) <= usize::MAX,
            forall|j: int|
                0 <= j < g.findings.len() ==> (#[trigger] g.findings@[j]).count <= planned_lines(
                    contents@,
                    plan,
                    k as int,
                ),
        decreases a.plan.files.len() - k,
    {
        let p = &a.plan.files[k];
        let ghost was = g@;
        let ghost counts = g.findings@;
        proof {
            assert(views(a.plan.files@)[k as int] == p@);
            assert(fv.len() == files.len());
            assert(views(a.enabled@).len() == a.enabled.len());
            lemma_plan(fv, s.rules, enabled_of(s), tables_of(s), k as int);
            assert(numbers(p@.active) =~= p.active@);
            lemma_planned_grows(contents@, plan, k + 1, plan.len() as int);
        }
        let found = a.analyze(k, &contents[p.file_index], sizes);
        let ghost found_view = found@;
        let ghost most = content_lines(contents@[p.file_index as int]).len() as int;
        proof {
            let scans = found_view.scans;
            assert(scans.len() == p.active.len());
            assert(views(found.scans@).len() == found.scans.len());
            assert forall|i: int| 0 <= i < scans.len() implies (#[trigger] scans[i]).count
                <= most by {
                let log = crate::engine::scan::log_of(
                    fv[p.file_index as int],
                    content_lines(contents@[p.file_index as int]),
                    all_prepared(enabled_of(s))[p.active@[i] as int],
                );
                lemma_hits(log, most);
            }
            assert forall|i: int| 0 <= i < p.active.len() implies counts[(
            #[trigger] p.active@[i]) as int].count + found.scans@[i].count <= usize::MAX by {
                assert(scans[i] == found.scans@[i]@);
                assert(numbers(p@.active)[i] < enabled_of(s).len());
            }
            assert forall|j: int| 0 <= j < was.findings.len() implies (
            #[trigger] was.findings[j]).count + most <= usize::MAX by {
                assert(was.findings[j] == counts[j]@);
            }
            lemma_counts(was.findings, p.active@, scans, most, p.active.len() as int);
        }
        g.add_file(&p.active, found);
        proof {
            assert forall|j: int| 0 <= j < g.findings.len() implies (
            #[trigger] g.findings@[j]).count <= planned_lines(contents@, plan, k + 1) by {
                assert(views(g.findings@)[j] == g.findings@[j]@);
                assert(was.findings[j] == counts[j]@);
            }
        }
        k += 1;
    }
    Ok(assemble_report(&a.set, g, files, package, generated, volumes))
}

} // verus!
