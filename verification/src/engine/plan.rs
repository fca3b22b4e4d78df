//! Which files of a package are read, and which rules are applied to each.

use crate::engine::sessions::ints;
use crate::rules::model::{Rule, RuleView, Source, SourceView, SystemRule, SystemRuleView};
use crate::text::{
    any, begins, contains, contains_char, cut, ends_with, finishes, first_place, has, has_char,
    lower, lower_text, opt_view, places, replace_char, same, split_once, starts_with, swap_char,
    tail, tail_of, trim_start, trimmed_start, views, Class,
};
use vstd::prelude::*;

verus! {

/// Whether a source asks for a file of the package. An exact source names the
/// whole path, or the path below the first directory.
pub open spec fn asks_for(s: SourceView, name: Seq<char>) -> bool {
    if s.mode == "exact"@ {
        name == s.pattern || (match cut(name, Class::One('/')) {
            Some((_, rest)) => trim_start(rest, Class::One('/')) == s.pattern,
            None => false,
        })
    } else {
        s.covers(name)
    }
}

pub open spec fn source_asks(name: Seq<char>) -> spec_fn(SourceView) -> bool {
    |s: SourceView| asks_for(s, name)
}

pub open spec fn rule_asks(r: RuleView, name: Seq<char>) -> bool {
    any(r.sources, source_asks(name))
}

pub open spec fn legacy_asks(name: Seq<char>) -> spec_fn(RuleView) -> bool {
    |r: RuleView| r.legacy_group.len() > 0 && rule_asks(r, name)
}

/// The old group that has a file: that of the first rule with an old group that
/// asks for it, whether the rule is enabled or not.
pub open spec fn legacy_owner(rules: Seq<RuleView>, name: Seq<char>) -> Option<Seq<char>> {
    match first_place(rules, legacy_asks(name), 0) {
        Some(i) => Some(rules[i].legacy_group),
        None => None,
    }
}

/// Whether a rule is applied to a file.
pub open spec fn is_active(owner: Option<Seq<char>>, name: Seq<char>) -> spec_fn(RuleView) -> bool {
    |r: RuleView|
        rule_asks(r, name) && (r.legacy_group.len() == 0 || owner == Some(r.legacy_group))
}

pub open spec fn table_asks(name: Seq<char>) -> spec_fn(SystemRuleView) -> bool {
    |r: SystemRuleView| asks_for(r.source, name)
}

/// A file of the package and the numbers of the rules that are applied to it.
#[derive(Clone, Debug)]
pub struct PlannedFile {
    pub file_index: usize,
    pub system: Vec<usize>,
    pub active: Vec<usize>,
}

#[verifier::ext_equal]
pub ghost struct PlannedFileView {
    pub file_index: int,
    pub system: Seq<int>,
    pub active: Seq<int>,
}

impl View for PlannedFile {
    type V = PlannedFileView;

    open spec fn view(&self) -> PlannedFileView {
        PlannedFileView {
            file_index: self.file_index as int,
            system: ints(self.system@),
            active: ints(self.active@),
        }
    }
}

/// The work on a file: the tables that are read from it and the rules that are
/// applied to it, each by its number among the enabled ones.
pub open spec fn work_on(
    files: Seq<Seq<char>>,
    rules: Seq<RuleView>,
    enabled: Seq<RuleView>,
    tables: Seq<SystemRuleView>,
    i: int,
) -> PlannedFileView {
    PlannedFileView {
        file_index: i,
        system: places(tables, table_asks(files[i]), 0),
        active: places(enabled, is_active(legacy_owner(rules, files[i]), files[i]), 0),
    }
}

pub open spec fn is_idle(p: PlannedFileView) -> bool {
    p.system.len() == 0 && p.active.len() == 0
}

pub const RESET_FILE: &'static str = "/pstore/ug_reset_reason.log";

/// Whether the file is the vendor's reset record.
pub open spec fn is_reset_file(name: Seq<char>) -> bool {
    finishes(swap_char(name, '\\', '/'), RESET_FILE@)
}

/// Whether a file by its name may hold facts of the timeline.
pub open spec fn likely_timeline(name: Seq<char>) -> bool {
    let path = lower(swap_char(name, '\\', '/'));
    let base = tail(path, Class::One('/'));
    ||| begins(base, "dmesg"@)
    ||| (begins(base, "kern"@) && (finishes(base, ".log"@) || !has_char(base, '.')))
    ||| begins(base, "syslog"@)
    ||| begins(base, "journal"@)
    ||| begins(base, "messages"@)
    ||| has(path, "/pstore/"@)
}

/// The files among the first `n` on which there is work.
pub open spec fn busy_files(
    files: Seq<Seq<char>>,
    rules: Seq<RuleView>,
    enabled: Seq<RuleView>,
    tables: Seq<SystemRuleView>,
    n: int,
) -> Seq<PlannedFileView>
    decreases n,
{
    if n <= 0 {
        Seq::empty()
    } else {
        let w = work_on(files, rules, enabled, tables, n - 1);
        busy_files(files, rules, enabled, tables, n - 1) + (if is_idle(w) {
            Seq::empty()
        } else {
            seq![w]
        })
    }
}

/// The files among the first `n` that are read for the timeline alone.
pub open spec fn timeline_files(
    files: Seq<Seq<char>>,
    rules: Seq<RuleView>,
    enabled: Seq<RuleView>,
    tables: Seq<SystemRuleView>,
    n: int,
) -> Seq<PlannedFileView>
    decreases n,
{
    if n <= 0 {
        Seq::empty()
    } else {
        let w = work_on(files, rules, enabled, tables, n - 1);
        timeline_files(files, rules, enabled, tables, n - 1) + (if is_idle(w) && (is_reset_file(
            files[n - 1],
        ) || likely_timeline(files[n - 1])) {
            seq![w]
        } else {
            Seq::empty()
        })
    }
}

/// The plan of an analysis: the files with work in the order of the package,
/// then those that are read for the timeline alone.
pub open spec fn plan_of(
    files: Seq<Seq<char>>,
    rules: Seq<RuleView>,
    enabled: Seq<RuleView>,
    tables: Seq<SystemRuleView>,
) -> Seq<PlannedFileView> {
    busy_files(files, rules, enabled, tables, files.len() as int) + timeline_files(
        files,
        rules,
        enabled,
        tables,
        files.len() as int,
    )
}

fn asks(s: &Source, name: &str) -> (r: bool)
    ensures
        r == asks_for(s@, name@),
{
    if same(s.mode.as_str(), "exact") {
        if same(name, s.pattern.as_str()) {
            return true;
        }
        match split_once(name, Class::One('/')) {
            Some((_, rest)) => {
                let rest = trimmed_start(rest.as_str(), Class::One('/'));
                same(rest.as_str(), s.pattern.as_str())
            },
            None => false,
        }
    } else {
        s.matches(name)
    }
}

fn any_asks(r: &Rule, name: &str) -> (out: bool)
    ensures
        out == rule_asks(r@, name@),
{
    let ghost sv = r@.sources;
    let ghost f = source_asks(name@);
    let mut i: usize = 0;
    while i < r.sources.len()
        invariant
            i <= r.sources.len(),
            sv == views(r.sources@),
            f == source_asks(name@),
            forall|j: int| 0 <= j < i ==> !f(#[trigger] sv[j]),
        decreases r.sources.len() - i,
    {
        let hit = asks(&r.sources[i], name);
        proof {
            assert(sv[i as int] == r.sources@[i as int]@);
            assert(hit == f(sv[i as int]));
        }
        if hit {
            return true;
        }
        i += 1;
    }
    false
}

fn find_owner(rules: &Vec<Rule>, name: &str) -> (r: Option<String>)
    ensures
        opt_view(r) == legacy_owner(views(rules@), name@),
{
    let ghost rv = views(rules@);
    let ghost f = legacy_asks(name@);
    let mut i: usize = 0;
    while i < rules.len()
        invariant
            i <= rules.len(),
            rv == views(rules@),
            f == legacy_asks(name@),
            first_place(rv, f, 0) == first_place(rv, f, i as int),
        decreases rules.len() - i,
    {
        let hit = !rules[i].legacy_group.as_str().is_empty() && any_asks(&rules[i], name);
        proof {
            assert(rv[i as int] == rules@[i as int]@);
            assert(hit == f(rv[i as int]));
        }
        if hit {
            return Some(rules[i].legacy_group.clone());
        }
        i += 1;
    }
    None
}

pub open spec fn below(v: Seq<usize>, n: int) -> bool {
    forall|i: int| 0 <= i < v.len() ==> (#[trigger] v[i]) < n
}

fn active_rules(enabled: &Vec<Rule>, owner: &Option<String>, name: &str) -> (r: Vec<usize>)
    ensures
        ints(r@) == places(views(enabled@), is_active(opt_view(*owner), name@), 0),
        below(r@, enabled.len() as int),
{
    let ghost rv = views(enabled@);
    let ghost f = is_active(opt_view(*owner), name@);
    let mut out: Vec<usize> = Vec::new();
    let mut i: usize = 0;
    proof {
        assert(ints(out@) + places(rv, f, 0) =~= places(rv, f, 0));
    }
    while i < enabled.len()
        invariant
            i <= enabled.len(),
            rv == views(enabled@),
            f == is_active(opt_view(*owner), name@),
            ints(out@) + places(rv, f, i as int) == places(rv, f, 0),
            below(out@, i as int),
        decreases enabled.len() - i,
    {
        let r = &enabled[i];
        let owned = r.legacy_group.as_str().is_empty() || (match owner {
            Some(g) => same(g.as_str(), r.legacy_group.as_str()),
            None => false,
        });
        let hit = owned && any_asks(r, name);
        proof {
            assert(rv[i as int] == r@);
            assert(hit == f(rv[i as int]));
        }
        if hit {
            let ghost was = ints(out@);
            out.push(i);
            proof {
                assert(ints(out@) =~= was.push(i as int));
                assert(was + places(rv, f, i as int) =~= ints(out@) + places(rv, f, i + 1));
            }
        }
        i += 1;
    }
    proof {
        assert(ints(out@) + places(rv, f, i as int) =~= ints(out@));
    }
    out
}

fn asking_tables(tables: &Vec<SystemRule>, name: &str) -> (r: Vec<usize>)
    ensures
        ints(r@) == places(views(tables@), table_asks(name@), 0),
        below(r@, tables.len() as int),
{
    let ghost rv = views(tables@);
    let ghost f = table_asks(name@);
    let mut out: Vec<usize> = Vec::new();
    let mut i: usize = 0;
    proof {
        assert(ints(out@) + places(rv, f, 0) =~= places(rv, f, 0));
    }
    while i < tables.len()
        invariant
            i <= tables.len(),
            rv == views(tables@),
            f == table_asks(name@),
            ints(out@) + places(rv, f, i as int) == places(rv, f, 0),
            below(out@, i as int),
        decreases tables.len() - i,
    {
        let hit = asks(&tables[i].source, name);
        proof {
            assert(rv[i as int] == tables@[i as int]@);
            assert(hit == f(rv[i as int]));
        }
        if hit {
            let ghost was = ints(out@);
            out.push(i);
            proof {
                assert(ints(out@) =~= was.push(i as int));
                assert(was + places(rv, f, i as int) =~= ints(out@) + places(rv, f, i + 1));
            }
        }
        i += 1;
    }
    proof {
        assert(ints(out@) + places(rv, f, i as int) =~= ints(out@));
    }
    out
}

pub fn is_reset_record(name: &str) -> (r: bool)
    ensures
        r == is_reset_file(name@),
{
    let path = replace_char(name, '\\', '/');
    ends_with(path.as_str(), RESET_FILE)
}

pub fn is_likely_timeline_source(name: &str) -> (r: bool)
    ensures
        r == likely_timeline(name@),
{
    let path = replace_char(name, '\\', '/');
    let path = lower_text(path.as_str());
    let base = tail_of(path.as_str(), Class::One('/'));
    let b = base.as_str();
    starts_with(b, "dmesg") || (starts_with(b, "kern") && (ends_with(b, ".log") || !contains_char(
        b,
        '.',
    ))) || starts_with(b, "syslog") || starts_with(b, "journal") || starts_with(b, "messages")
        || contains(path.as_str(), "/pstore/")
}

/// The plan of an analysis.
#[derive(Clone, Debug)]
pub struct AnalysisFilePlan {
    pub files: Vec<PlannedFile>,
}

/// Whether the numbers in a plan name files, tables and rules.
pub open spec fn within(p: PlannedFile, files: int, tables: int, rules: int) -> bool {
    p.file_index < files && below(p.system@, tables) && below(p.active@, rules)
}

impl AnalysisFilePlan {
    /// Plans an analysis. `enabled` and `tables` hold the enabled rules.
    pub fn new(
        files: &Vec<String>,
        rules: &Vec<Rule>,
        enabled: &Vec<Rule>,
        tables: &Vec<SystemRule>,
    ) -> (r: Self)
        ensures
            views(r.files@) == plan_of(
                views(files@),
                views(rules@),
                views(enabled@),
                views(tables@),
            ),
            forall|k: int|
                0 <= k < r.files.len() ==> within(
                    #[trigger] r.files@[k],
                    files.len() as int,
                    tables.len() as int,
                    enabled.len() as int,
                ),
    {
        let ghost fv = views(files@);
        let ghost rv = views(rules@);
        let ghost ev = views(enabled@);
        let ghost tv = views(tables@);
        let mut busy: Vec<PlannedFile> = Vec::new();
        let mut idle: Vec<PlannedFile> = Vec::new();
        let mut i: usize = 0;
        proof {
            assert(views(busy@) =~= busy_files(fv, rv, ev, tv, 0));
            assert(views(idle@) =~= timeline_files(fv, rv, ev, tv, 0));
        }
        while i < files.len()
            invariant
                i <= files.len(),
                fv == views(files@),
                rv == views(rules@),
                ev == views(enabled@),
                tv == views(tables@),
                views(busy@) == busy_files(fv, rv, ev, tv, i as int),
                views(idle@) == timeline_files(fv, rv, ev, tv, i as int),
                forall|k: int|
                    0 <= k < busy.len() ==> within(
                        #[trigger] busy@[k],
                        files.len() as int,
                        tables.len() as int,
                        enabled.len() as int,
                    ),
                forall|k: int|
                    0 <= k < idle.len() ==> within(
                        #[trigger] idle@[k],
                        files.len() as int,
                        tables.len() as int,
                        enabled.len() as int,
                    ),
            decreases files.len() - i,
        {
            let name = files[i].as_str();
            let ghost was_busy = views(busy@);
            let ghost was_idle = views(idle@);
            proof {
                assert(fv[i as int] == name@);
            }
            let owner = find_owner(rules, name);
            let system = asking_tables(tables, name);
            let active = active_rules(enabled, &owner, name);
            let work = PlannedFile { file_index: i, system, active };
            let ghost wv = work@;
            proof {
                assert(wv =~= work_on(fv, rv, ev, tv, i as int));
                assert(wv.system.len() == work.system.len());
                assert(wv.active.len() == work.active.len());
            }
            if work.system.len() > 0 || work.active.len() > 0 {
                busy.push(work);
                proof {
                    assert(views(busy@) =~= was_busy + seq![wv]);
                    assert(was_idle + Seq::<PlannedFileView>::empty() =~= was_idle);
                }
            } else if is_reset_record(name) || is_likely_timeline_source(name) {
                idle.push(work);
                proof {
                    assert(views(idle@) =~= was_idle + seq![wv]);
                    assert(was_busy + Seq::<PlannedFileView>::empty() =~= was_busy);
                }
            } else {
                proof {
                    assert(was_idle + Seq::<PlannedFileView>::empty() =~= was_idle);
                    assert(was_busy + Seq::<PlannedFileView>::empty() =~= was_busy);
                }
            }
            i += 1;
        }
        proof {
            crate::text::lemma_views_add(busy@, idle@);
        }
        busy.append(&mut idle);
        AnalysisFilePlan { files: busy }
    }
}

} // verus!
