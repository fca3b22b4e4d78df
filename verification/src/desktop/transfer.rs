//! Exporting rules, and what is shown before rules are imported.

use crate::desktop::draft::{Draft, DraftView};
use crate::fault::{refusal, Fault, FaultKind};
use crate::rules::group::{find_id, has_id};
use crate::rules::model::{
    LayoutView, LogFile, LogFileView, Rule, RuleSet, RuleSetView, RuleView, SystemRule,
    SystemRuleView,
};
use crate::select::{keep_by, lemma_first_holds};
use crate::text::{
    concat3, concat5, decimal, decimal_text, first_place, join, joined, kept, lists, same, views,
    Duplicate,
};
use vstd::prelude::*;

verus! {

pub open spec fn unlisted(ids: Seq<Seq<char>>) -> spec_fn(SystemRuleView) -> bool {
    |r: SystemRuleView| !ids.contains(r.id)
}

pub open spec fn listed(ids: Seq<Seq<char>>) -> spec_fn(SystemRuleView) -> bool {
    |r: SystemRuleView| ids.contains(r.id)
}

/// Listing a rule leaves fewer that are not listed.
pub proof fn lemma_fewer(system: Seq<SystemRuleView>, ids: Seq<Seq<char>>, id: Seq<char>, i: int, at: int)
    requires
        0 <= i,
    ensures
        kept(system, unlisted(ids.push(id)), i).len() <= kept(system, unlisted(ids), i).len(),
        i <= at < system.len() && system[at].id == id && !ids.contains(id) ==> kept(
            system,
            unlisted(ids.push(id)),
            i,
        ).len() < kept(system, unlisted(ids), i).len(),
    decreases system.len() - i,
{
    if i < system.len() {
        lemma_fewer(system, ids, id, i + 1, at);
        let more = ids.push(id);
        assert(more.contains(id)) by {
            assert(more[ids.len() as int] == id);
        }
        if ids.contains(system[i].id) {
            let k = choose|k: int| 0 <= k < ids.len() && ids[k] == system[i].id;
            assert(more[k] == system[i].id);
            assert(more.contains(system[i].id));
        }
    }
}

/// The identities of a table and of those it is joined with, one after the
/// other, until there is none or one comes again.
pub open spec fn chain(
    system: Seq<SystemRuleView>,
    ids: Seq<Seq<char>>,
    next: Seq<char>,
) -> Seq<Seq<char>>
    decreases kept(system, unlisted(ids), 0).len(),
    via chain_ends
{
    if next.len() == 0 || ids.contains(next) {
        ids
    } else {
        match first_place(system, has_id::<SystemRule>(next), 0) {
            Some(i) => chain(system, ids.push(next), system[i].join_rule),
            None => ids.push(next),
        }
    }
}

#[via_fn]
proof fn chain_ends(system: Seq<SystemRuleView>, ids: Seq<Seq<char>>, next: Seq<char>) {
    if !(next.len() == 0 || ids.contains(next)) {
        lemma_first_holds(system, has_id::<SystemRule>(next), 0);
        if first_place(system, has_id::<SystemRule>(next), 0) is Some {
            let at = first_place(system, has_id::<SystemRule>(next), 0)->0;
            lemma_fewer(system, ids, next, 0, at);
        }
    }
}

/// Whether a rule of the package reads a file.
pub open spec fn file_used(set: RuleSetView, id: Seq<char>) -> bool {
    ||| exists|i: int|
        0 <= i < set.rules.len() && (#[trigger] set.rules[i]).source_file_ids.contains(id)
    ||| exists|i: int|
        0 <= i < set.system.len() && (#[trigger] set.system[i]).source_file_id == id
}

pub open spec fn used_file(set: RuleSetView) -> spec_fn(LogFileView) -> bool {
    |f: LogFileView| file_used(set, f.id)
}

pub open spec fn used_id(set: RuleSetView) -> spec_fn(Seq<char>) -> bool {
    |id: Seq<char>| file_used(set, id)
}

/// The package with the files that its rules read and no others.
pub open spec fn with_used_files(set: RuleSetView) -> RuleSetView {
    RuleSetView {
        log_files: kept(set.log_files, used_file(set), 0),
        layout: LayoutView {
            file_order: kept(set.layout.file_order, used_id(set), 0),
            ..set.layout
        },
        ..set
    }
}

impl DraftView {
    /// The selected rule alone: a table with those it is joined with.
    pub open spec fn selection(self, i: int) -> RuleSetView {
        if self.section == 1 {
            let r = self.rules.system[i];
            let ids = chain(self.rules.system, seq![r.id], r.join_rule);
            RuleSetView {
                rules: Seq::empty(),
                system: kept(self.rules.system, listed(ids), 0),
                ..self.rules
            }
        } else {
            RuleSetView {
                rules: seq![self.rules.rules[i]],
                system: Seq::empty(),
                ..self.rules
            }
        }
    }

    /// What is exported: all rules, or the selected one with the files it reads.
    pub open spec fn export_set(self, selected: bool) -> Option<RuleSetView> {
        if !selected {
            Some(self.rules)
        } else {
            match self.selected {
                Some(i) => Some(with_used_files(self.selection(i as int))),
                None => None,
            }
        }
    }
}

fn uses_file(set: &RuleSet, id: &str) -> (r: bool)
    ensures
        r == file_used(set@, id@),
{
    let ghost sv = set@;
    let mut i: usize = 0;
    while i < set.rules.len()
        invariant
            i <= set.rules.len(),
            sv == set@,
            forall|j: int|
                0 <= j < i ==> !(#[trigger] sv.rules[j]).source_file_ids.contains(id@),
        decreases set.rules.len() - i,
    {
        proof {
            assert(sv.rules[i as int] == set.rules@[i as int]@);
        }
        if lists(&set.rules[i].source_file_ids, id) {
            return true;
        }
        i += 1;
    }
    let mut k: usize = 0;
    while k < set.system.len()
        invariant
            k <= set.system.len(),
            sv == set@,
            forall|j: int|
                0 <= j < sv.rules.len() ==> !(#[trigger] sv.rules[j]).source_file_ids.contains(id@),
            forall|j: int| 0 <= j < k ==> (#[trigger] sv.system[j]).source_file_id != id@,
        decreases set.system.len() - k,
    {
        proof {
            assert(sv.system[k as int] == set.system@[k as int]@);
        }
        if same(set.system[k].source_file_id.as_str(), id) {
            return true;
        }
        k += 1;
    }
    false
}

/// The identities of a table and of those it is joined with.
fn join_chain(system: &Vec<SystemRule>, i: usize) -> (r: Vec<String>)
    requires
        i < system.len(),
    ensures
        views(r@) == chain(
            views(system@),
            seq![views(system@)[i as int].id],
            views(system@)[i as int].join_rule,
        ),
{
    let ghost sv = views(system@);
    let mut ids: Vec<String> = Vec::new();
    ids.push(system[i].id.clone());
    let mut next = system[i].join_rule.clone();
    proof {
        assert(sv[i as int] == system@[i as int]@);
        assert(views(ids@) =~= seq![sv[i as int].id]);
    }
    let ghost goal = chain(sv, seq![sv[i as int].id], sv[i as int].join_rule);
    loop
        invariant
            sv == views(system@),
            i < system.len(),
            goal == chain(sv, seq![sv[i as int].id], sv[i as int].join_rule),
            chain(sv, views(ids@), next@) == goal,
        decreases kept(sv, unlisted(views(ids@)), 0).len(),
    {
        if next.as_str().is_empty() || lists(&ids, next.as_str()) {
            return ids;
        }
        let ghost was = views(ids@);
        let ghost nv = next@;
        let at = find_id(system, next.as_str());
        proof {
            lemma_first_holds(sv, has_id::<SystemRule>(nv), 0);
            if at is Some {
                lemma_fewer(sv, was, nv, 0, at->0 as int);
            }
        }
        ids.push(next);
        proof {
            assert(views(ids@) =~= was.push(nv));
        }
        match at {
            Some(k) => {
                proof {
                    assert(sv[k as int] == system@[k as int]@);
                }
                next = system[k].join_rule.clone();
            },
            None => {
                return ids;
            },
        }
    }
}

impl Draft {
    fn select(&self, i: usize) -> (r: RuleSet)
        requires
            i < self@.count(),
        ensures
            r@ == self@.selection(i as int),
    {
        let ghost sv = self@;
        let mut out = self.rules.duplicate();
        if self.section == 1 {
            let ids = join_chain(&self.rules.system, i);
            let f = |r: &SystemRule| -> (out: bool)
                ensures
                    out == listed(views(ids@))(r@),
                { lists(&ids, r.id.as_str()) };
            out.system = keep_by(&self.rules.system, &f, Ghost(listed(views(ids@))));
            out.rules = Vec::new();
            proof {
                assert(views(out.rules@) =~= Seq::<RuleView>::empty());
                assert(out@ =~= sv.selection(i as int));
            }
        } else {
            let mut rules: Vec<Rule> = Vec::new();
            rules.push(self.rules.rules[i].duplicate());
            out.rules = rules;
            out.system = Vec::new();
            proof {
                assert(sv.rules.rules[i as int] == self.rules.rules@[i as int]@);
                assert(views(out.rules@) =~= seq![sv.rules.rules[i as int]]);
                assert(views(out.system@) =~= Seq::<SystemRuleView>::empty());
                assert(out@ =~= sv.selection(i as int));
            }
        }
        out
    }

    /// The rules to export, all or the selected one, where they are valid.
    pub fn export_rules(&self, selected: bool) -> (r: Result<RuleSet, Fault>)
        requires
            self@.wf(),
        ensures
            (match self@.export_set(selected) {
                Some(set) => match r {
                    Ok(out) => set.fault() is None && out@ == set,
                    Err(f) => set.fault() == Some(f@),
                },
                None => r matches Err(f) && f@ == refusal(FaultKind::NothingSelected, Seq::empty()),
            }),
    {
        let mut out = self.rules.duplicate();
        if selected {
            match self.selected {
                Some(i) => {
                    let set = self.select(i);
                    let f = |f: &LogFile| -> (r: bool)
                        ensures
                            r == used_file(set@)(f@),
                        { uses_file(&set, f.id.as_str()) };
                    let files = keep_by(&set.log_files, &f, Ghost(used_file(set@)));
                    let g = |id: &String| -> (r: bool)
                        ensures
                            r == used_id(set@)(id@),
                        { uses_file(&set, id.as_str()) };
                    let order = keep_by(&set.layout.file_order, &g, Ghost(used_id(set@)));
                    out = set.duplicate();
                    out.log_files = files;
                    out.layout.file_order = order;
                    proof {
                        assert(out@ =~= with_used_files(set@));
                    }
                },
                None => {
                    return Err(Fault::plain(FaultKind::NothingSelected));
                },
            }
        }
        if let Err(f) = out.validate() {
            return Err(f);
        }
        Ok(out)
    }
}

/// The lines that name the first `n` rules.
pub open spec fn rule_lines(rules: Seq<RuleView>, n: int) -> Seq<Seq<char>>
    decreases n,
{
    if n <= 0 {
        Seq::empty()
    } else {
        rule_lines(rules, n - 1).push(rules[n - 1].group + " / "@ + rules[n - 1].name)
    }
}

/// The lines that name the first `n` tables.
pub open spec fn system_lines(system: Seq<SystemRuleView>, n: int) -> Seq<Seq<char>>
    decreases n,
{
    if n <= 0 {
        Seq::empty()
    } else {
        system_lines(system, n - 1).push(system[n - 1].group + " / "@ + system[n - 1].name)
    }
}

/// The warnings of a package, none where it is refused.
pub open spec fn import_warnings(set: RuleSetView) -> Seq<Seq<char>> {
    if set.fault() is None {
        set.resolved().warnings()
    } else {
        Seq::empty()
    }
}

/// What is shown of a package before it is imported.
pub open spec fn summary(set: RuleSetView) -> Seq<char> {
    let names = rule_lines(set.rules, set.rules.len() as int) + system_lines(
        set.system,
        set.system.len() as int,
    );
    "关键词/时间线 "@ + decimal(set.rules.len()) + " 条，系统信息 "@ + decimal(set.system.len())
        + " 组。\n\n"@ + (joined(names, "\n"@) + "\n\n"@ + joined(import_warnings(set), "\n"@))
}

/// What is shown of a package before it is imported.
pub fn import_summary(incoming: &RuleSet) -> (r: String)
    ensures
        r@ == summary(incoming@),
{
    let ghost sv = incoming@;
    let mut names: Vec<String> = Vec::new();
    let mut i: usize = 0;
    proof {
        assert(views(names@) =~= rule_lines(sv.rules, 0));
    }
    while i < incoming.rules.len()
        invariant
            i <= incoming.rules.len(),
            sv == incoming@,
            views(names@) == rule_lines(sv.rules, i as int),
        decreases incoming.rules.len() - i,
    {
        proof {
            assert(sv.rules[i as int] == incoming.rules@[i as int]@);
        }
        names.push(
            concat3(incoming.rules[i].group.as_str(), " / ", incoming.rules[i].name.as_str()),
        );
        i += 1;
        proof {
            assert(views(names@) =~= rule_lines(sv.rules, i as int));
        }
    }
    let ghost first = views(names@);
    let mut k: usize = 0;
    proof {
        assert(views(names@) =~= first + system_lines(sv.system, 0));
    }
    while k < incoming.system.len()
        invariant
            k <= incoming.system.len(),
            sv == incoming@,
            views(names@) == first + system_lines(sv.system, k as int),
        decreases incoming.system.len() - k,
    {
        let ghost was = names@;
        proof {
            assert(sv.system[k as int] == incoming.system@[k as int]@);
        }
        names.push(
            concat3(incoming.system[k].group.as_str(), " / ", incoming.system[k].name.as_str()),
        );
        k += 1;
        proof {
            assert(views(names@) =~= views(was).push(names@[was.len() as int]@));
            assert(system_lines(sv.system, k as int) == system_lines(sv.system, k - 1).push(
                names@[was.len() as int]@,
            ));
            assert(views(names@) =~= first + system_lines(sv.system, k as int));
        }
    }
    let warnings = match incoming.validate() {
        Ok(w) => w,
        Err(_) => {
            let none: Vec<String> = Vec::new();
            proof {
                assert(views(none@) =~= Seq::<Seq<char>>::empty());
            }
            none
        },
    };
    let rules = decimal_text(incoming.rules.len() as u64);
    let system = decimal_text(incoming.system.len() as u64);
    proof {
        assert(sv.rules.len() == incoming.rules.len());
        assert(sv.system.len() == incoming.system.len());
    }
    let list = join(&names, "\n");
    let notes = join(&warnings, "\n");
    let body = concat3(list.as_str(), "\n\n", notes.as_str());
    let head = concat5(
        "关键词/时间线 ",
        rules.as_str(),
        " 条，系统信息 ",
        system.as_str(),
        " 组。\n\n",
    );
    let out = crate::text::concat2(head.as_str(), body.as_str());
    proof {
        assert(out@ =~= summary(sv));
    }
    out
}

/// The lines that say what the first `n` tables of a reference do to the draft's.
pub open spec fn reference_lines(
    system: Seq<SystemRuleView>,
    reference: Seq<SystemRuleView>,
    n: int,
) -> Seq<Seq<char>>
    decreases n,
{
    if n <= 0 {
        Seq::empty()
    } else {
        let r = reference[n - 1];
        reference_lines(system, reference, n - 1).push(
            (if first_place(system, has_id::<SystemRule>(r.id), 0) is Some {
                "更新"@
            } else {
                "新增"@
            }) + "："@ + r.group + " / "@ + r.name,
        )
    }
}

/// What is shown before the tables of a reference are taken over.
pub fn reference_summary(rules: &RuleSet, reference: &RuleSet) -> (r: String)
    ensures
        r@
            == "将按内置 ID 更新以下系统规则到草稿；自定义规则、关键词和时间线保持不变。保存全部后生效。\n\n"@
            + joined(
            reference_lines(rules@.system, reference@.system, reference@.system.len() as int),
            "\n"@,
        ),
{
    let ghost sv = rules@.system;
    let ghost rv = reference@.system;
    let mut out: Vec<String> = Vec::new();
    let mut i: usize = 0;
    proof {
        assert(views(out@) =~= reference_lines(sv, rv, 0));
    }
    while i < reference.system.len()
        invariant
            i <= reference.system.len(),
            sv == rules@.system,
            rv == reference@.system,
            views(out@) == reference_lines(sv, rv, i as int),
        decreases reference.system.len() - i,
    {
        proof {
            assert(rv[i as int] == reference.system@[i as int]@);
        }
        let word = if find_id(&rules.system, reference.system[i].id.as_str()).is_some() {
            "更新"
        } else {
            "新增"
        };
        out.push(
            concat5(
                word,
                "：",
                reference.system[i].group.as_str(),
                " / ",
                reference.system[i].name.as_str(),
            ),
        );
        i += 1;
        proof {
            assert(views(out@) =~= reference_lines(sv, rv, i as int));
        }
    }
    let list = join(&out, "\n");
    crate::text::concat2(
        "将按内置 ID 更新以下系统规则到草稿；自定义规则、关键词和时间线保持不变。保存全部后生效。\n\n",
        list.as_str(),
    )
}

} // verus!
