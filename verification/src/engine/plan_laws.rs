//! What is planned for the files of a package.

use crate::engine::plan::{
    asks_for, busy_files, is_active, is_idle, legacy_owner, plan_of, rule_asks, source_asks,
    table_asks, timeline_files, work_on, PlannedFileView,
};
use crate::rules::model::{RuleView, SourceView, SystemRuleView};
use crate::rules::source::{inner, slash};
use crate::select::lemma_places;
use crate::text::{any, has_char, lemma_seek_bounds, seek, swap_char, trim_start};
use vstd::prelude::*;

verus! {

/// Whether the files of a plan stand in the order of the package.
pub open spec fn rising(plan: Seq<PlannedFileView>, n: int) -> bool {
    &&& forall|j: int| 0 <= j < plan.len() ==> 0 <= (#[trigger] plan[j]).file_index < n
    &&& forall|j: int, k: int|
        0 <= j < k < plan.len() ==> plan[j].file_index < plan[k].file_index
}

proof fn lemma_rising(
    files: Seq<Seq<char>>,
    rules: Seq<RuleView>,
    enabled: Seq<RuleView>,
    tables: Seq<SystemRuleView>,
    n: int,
)
    requires
        0 <= n,
    ensures
        rising(busy_files(files, rules, enabled, tables, n), n),
        rising(timeline_files(files, rules, enabled, tables, n), n),
        forall|j: int|
            0 <= j < busy_files(files, rules, enabled, tables, n).len() ==> !is_idle(
                #[trigger] busy_files(files, rules, enabled, tables, n)[j],
            ) && busy_files(files, rules, enabled, tables, n)[j] == work_on(
                files,
                rules,
                enabled,
                tables,
                busy_files(files, rules, enabled, tables, n)[j].file_index,
            ),
        forall|j: int|
            0 <= j < timeline_files(files, rules, enabled, tables, n).len() ==> is_idle(
                #[trigger] timeline_files(files, rules, enabled, tables, n)[j],
            ) && timeline_files(files, rules, enabled, tables, n)[j] == work_on(
                files,
                rules,
                enabled,
                tables,
                timeline_files(files, rules, enabled, tables, n)[j].file_index,
            ),
    decreases n,
{
    if n > 0 {
        lemma_rising(files, rules, enabled, tables, n - 1);
        let w = work_on(files, rules, enabled, tables, n - 1);
        let b = busy_files(files, rules, enabled, tables, n - 1);
        let t = timeline_files(files, rules, enabled, tables, n - 1);
        let more = busy_files(files, rules, enabled, tables, n);
        let later = timeline_files(files, rules, enabled, tables, n);
        assert forall|j: int| 0 <= j < more.len() implies #[trigger] more[j] == (if j < b.len() {
            b[j]
        } else {
            w
        }) by {}
        assert forall|j: int| 0 <= j < later.len() implies #[trigger] later[j] == (if j
            < t.len() {
            t[j]
        } else {
            w
        }) by {}
    }
}

/// No file is read twice in an analysis.
pub proof fn law_files_are_planned_once(
    files: Seq<Seq<char>>,
    rules: Seq<RuleView>,
    enabled: Seq<RuleView>,
    tables: Seq<SystemRuleView>,
    j: int,
    k: int,
)
    requires
        0 <= j < k < plan_of(files, rules, enabled, tables).len(),
    ensures
        plan_of(files, rules, enabled, tables)[j].file_index != plan_of(
            files,
            rules,
            enabled,
            tables,
        )[k].file_index,
{
    let n = files.len() as int;
    lemma_rising(files, rules, enabled, tables, n);
    let b = busy_files(files, rules, enabled, tables, n);
    let t = timeline_files(files, rules, enabled, tables, n);
    let plan = plan_of(files, rules, enabled, tables);
    if k < b.len() {
        assert(plan[j] == b[j] && plan[k] == b[k]);
    } else if j >= b.len() {
        assert(plan[j] == t[j - b.len()] && plan[k] == t[k - b.len()]);
    } else {
        assert(plan[j] == b[j] && plan[k] == t[k - b.len()]);
    }
}

proof fn lemma_busy_there(
    files: Seq<Seq<char>>,
    rules: Seq<RuleView>,
    enabled: Seq<RuleView>,
    tables: Seq<SystemRuleView>,
    n: int,
    i: int,
) -> (k: int)
    requires
        0 <= i < n,
        !is_idle(work_on(files, rules, enabled, tables, i)),
    ensures
        0 <= k < busy_files(files, rules, enabled, tables, n).len(),
        busy_files(files, rules, enabled, tables, n)[k] == work_on(
            files,
            rules,
            enabled,
            tables,
            i,
        ),
    decreases n,
{
    let b = busy_files(files, rules, enabled, tables, n - 1);
    if i == n - 1 {
        b.len() as int
    } else {
        lemma_busy_there(files, rules, enabled, tables, n - 1, i)
    }
}

/// Every file that a rule asks for is read.
pub proof fn law_files_with_work_are_planned(
    files: Seq<Seq<char>>,
    rules: Seq<RuleView>,
    enabled: Seq<RuleView>,
    tables: Seq<SystemRuleView>,
    i: int,
)
    requires
        0 <= i < files.len(),
        !is_idle(work_on(files, rules, enabled, tables, i)),
    ensures
        plan_of(files, rules, enabled, tables).contains(work_on(files, rules, enabled, tables, i)),
{
    let k = lemma_busy_there(files, rules, enabled, tables, files.len() as int, i);
    assert(plan_of(files, rules, enabled, tables)[k] == work_on(
        files,
        rules,
        enabled,
        tables,
        i,
    ));
}

/// Whether numbers stand in a rising order without repetition.
pub open spec fn ascending(v: Seq<int>) -> bool {
    forall|j: int, k: int| 0 <= j < k < v.len() ==> v[j] < v[k]
}

/// What stands in a plan for a file: the numbers of exactly the enabled tables
/// and rules that are applied to it, each once and in order. A rule is applied
/// where one of its sources asks for the file and it has no old group, or has
/// the old group to which the file belongs.
pub proof fn law_plans_hold_what_applies(
    files: Seq<Seq<char>>,
    rules: Seq<RuleView>,
    enabled: Seq<RuleView>,
    tables: Seq<SystemRuleView>,
    k: int,
)
    requires
        0 <= k < plan_of(files, rules, enabled, tables).len(),
    ensures
        ({
            let p = plan_of(files, rules, enabled, tables)[k];
            let name = files[p.file_index];
            let owner = legacy_owner(rules, name);
            &&& 0 <= p.file_index < files.len()
            &&& ascending(p.active)
            &&& ascending(p.system)
            &&& forall|i: int| #[trigger]
                p.active.contains(i) <==> 0 <= i < enabled.len() && rule_asks(enabled[i], name) && (
                enabled[i].legacy_group.len() == 0 || owner == Some(enabled[i].legacy_group))
            &&& forall|i: int| #[trigger]
                p.system.contains(i) <==> 0 <= i < tables.len() && asks_for(tables[i].source, name)
        }),
{
    let n = files.len() as int;
    lemma_rising(files, rules, enabled, tables, n);
    let b = busy_files(files, rules, enabled, tables, n);
    let t = timeline_files(files, rules, enabled, tables, n);
    let p = plan_of(files, rules, enabled, tables)[k];
    if k < b.len() {
        assert(p == b[k]);
    } else {
        assert(p == t[k - b.len()]);
    }
    assert(p == work_on(files, rules, enabled, tables, p.file_index));
    let name = files[p.file_index];
    lemma_places(enabled, is_active(legacy_owner(rules, name), name), 0);
    lemma_places(tables, table_asks(name), 0);
}

/// Behind a character of the class, what is left without such characters at its
/// start does not depend on that character.
proof fn lemma_trim_behind(s: Seq<char>, i: int)
    requires
        0 <= i < s.len(),
        s[i] == '/',
    ensures
        trim_start(s.subrange(i, s.len() as int), slash()) == trim_start(
            s.subrange(i + 1, s.len() as int),
            slash(),
        ),
{
    let a = s.subrange(i, s.len() as int);
    let b = s.subrange(i + 1, s.len() as int);
    lemma_seek_bounds(a, slash(), false, 0);
    lemma_seek_bounds(b, slash(), false, 0);
    let x = seek(a, slash(), false, 0);
    let y = seek(b, slash(), false, 0);
    assert(x > 0) by {
        assert(a[0] == '/');
    }
    assert forall|j: int| 0 <= j < b.len() implies #[trigger] b[j] == a[j + 1] by {}
    if x - 1 < y {
        assert(slash().holds(b[x - 1]));
        assert(a[x] == b[x - 1]);
    }
    if y < x - 1 {
        assert(a[y + 1] == b[y]);
    }
    assert(trim_start(a, slash()) =~= trim_start(b, slash()));
}

/// A plan and a source agree on the files that the source stands for, where the
/// name of the file holds no backslash. An exact source without a pattern, which
/// stands for every path of one component, is planned for none of these.
pub proof fn law_plans_agree_with_sources(s: SourceView, name: Seq<char>)
    requires
        !has_char(name, '\\'),
        s.mode == "exact"@ && s.pattern.len() == 0 ==> has_char(name, '/') || name.len() == 0,
    ensures
        asks_for(s, name) == s.covers(name),
{
    assert(swap_char(name, '\\', '/') =~= name);
    let j = seek(name, slash(), true, 0);
    lemma_seek_bounds(name, slash(), true, 0);
    if j < name.len() {
        lemma_trim_behind(name, j);
    } else {
        if has_char(name, '/') {
            let k = choose|k: int| 0 <= k < name.len() && name[k] == '/';
            assert(slash().holds(name[k]));
        }
        lemma_seek_bounds(name.subrange(j, name.len() as int), slash(), false, 0);
        assert(inner(name).len() == 0);
        if name.len() == 0 && s.pattern.len() == 0 {
            assert(name =~= s.pattern);
        }
    }
}

pub open spec fn source_covers(name: Seq<char>) -> spec_fn(SourceView) -> bool {
    |s: SourceView| s.covers(name)
}

/// A rule asks for a file exactly where one of its sources stands for it, where
/// the name of the file holds no backslash and every source has a pattern.
pub proof fn law_rules_ask_for_what_their_sources_cover(r: RuleView, name: Seq<char>)
    requires
        !has_char(name, '\\'),
        forall|i: int| 0 <= i < r.sources.len() ==> (#[trigger] r.sources[i]).pattern.len() > 0,
    ensures
        rule_asks(r, name) == any(r.sources, source_covers(name)),
{
    assert forall|i: int| 0 <= i < r.sources.len() implies source_asks(name)(
        #[trigger] r.sources[i],
    ) == source_covers(name)(r.sources[i]) by {
        law_plans_agree_with_sources(r.sources[i], name);
    }
}

/// Whether one of the sources stands for a file.
pub open spec fn reads(sources: Seq<SourceView>, name: Seq<char>) -> bool {
    exists|i: int| 0 <= i < sources.len() && (#[trigger] sources[i]).covers(name)
}

/// Whether a rule is the first with an old group that reads a file.
pub open spec fn is_first_owner(rules: Seq<RuleView>, name: Seq<char>, k: int) -> bool {
    &&& 0 <= k < rules.len()
    &&& rules[k].legacy_group.len() > 0
    &&& reads(rules[k].sources, name)
    &&& forall|j: int|
        0 <= j < k ==> (#[trigger] rules[j]).legacy_group.len() == 0 || !reads(
            rules[j].sources,
            name,
        )
}

/// Whether every source of every rule has a pattern.
pub open spec fn have_patterns(rules: Seq<RuleView>) -> bool {
    forall|k: int, i: int|
        0 <= k < rules.len() && 0 <= i < rules[k].sources.len() ==> (#[trigger] rules[k].sources[i]).pattern.len()
            > 0
}

proof fn lemma_reads(r: RuleView, name: Seq<char>)
    requires
        !has_char(name, '\\'),
        forall|i: int| 0 <= i < r.sources.len() ==> (#[trigger] r.sources[i]).pattern.len() > 0,
    ensures
        rule_asks(r, name) == reads(r.sources, name),
{
    law_rules_ask_for_what_their_sources_cover(r, name);
    let f = source_covers(name);
    if any(r.sources, f) {
        let i = choose|i: int| 0 <= i < r.sources.len() && f(#[trigger] r.sources[i]);
        assert(r.sources[i].covers(name));
    }
    if reads(r.sources, name) {
        let i = choose|i: int| 0 <= i < r.sources.len() && (#[trigger] r.sources[i]).covers(name);
        assert(f(r.sources[i]));
    }
}

/// A rule is applied to a file exactly where one of its sources stands for the file
/// and the rule has no old group, or the old group of the first rule, enabled or
/// not, that has one and reads the file.
pub proof fn law_rules_are_applied_to_what_they_read(
    files: Seq<Seq<char>>,
    rules: Seq<RuleView>,
    enabled: Seq<RuleView>,
    tables: Seq<SystemRuleView>,
    k: int,
    i: int,
    owner: int,
)
    requires
        0 <= k < plan_of(files, rules, enabled, tables).len(),
        0 <= i < enabled.len(),
        have_patterns(rules),
        have_patterns(enabled),
        !has_char(files[plan_of(files, rules, enabled, tables)[k].file_index], '\\'),
    ensures
        ({
            let p = plan_of(files, rules, enabled, tables)[k];
            let name = files[p.file_index];
            let r = enabled[i];
            &&& r.legacy_group.len() == 0 ==> (p.active.contains(i) <==> reads(r.sources, name))
            &&& r.legacy_group.len() > 0 && is_first_owner(rules, name, owner) ==> (
            p.active.contains(i) <==> reads(r.sources, name) && r.legacy_group
                == rules[owner].legacy_group)
            &&& r.legacy_group.len() > 0 && (forall|j: int|
                0 <= j < rules.len() ==> (#[trigger] rules[j]).legacy_group.len() == 0 || !reads(
                    rules[j].sources,
                    name,
                )) ==> !p.active.contains(i)
        }),
{
    law_plans_hold_what_applies(files, rules, enabled, tables, k);
    let p = plan_of(files, rules, enabled, tables)[k];
    let name = files[p.file_index];
    let r = enabled[i];
    assert forall|x: int| 0 <= x < r.sources.len() implies (#[trigger] r.sources[x]).pattern.len()
        > 0 by {
        assert(enabled[i].sources[x].pattern.len() > 0);
    }
    lemma_reads(r, name);
    assert forall|j: int| 0 <= j < rules.len() implies rule_asks(#[trigger] rules[j], name)
        == reads(rules[j].sources, name) by {
        let q = rules[j];
        assert forall|x: int| 0 <= x < q.sources.len() implies (#[trigger] q.sources[x]).pattern.len()
            > 0 by {
            assert(rules[j].sources[x].pattern.len() > 0);
        }
        lemma_reads(q, name);
    }
    let f = crate::engine::plan::legacy_asks(name);
    crate::select::lemma_first_holds(rules, f, 0);
    if is_first_owner(rules, name, owner) {
        assert(f(rules[owner]));
        crate::select::lemma_first_of_any(rules, f, 0, owner);
        let x = crate::text::first_place(rules, f, 0)->0;
        assert(f(rules[x]));
        assert(x == owner);
    }
    if forall|j: int|
        0 <= j < rules.len() ==> (#[trigger] rules[j]).legacy_group.len() == 0 || !reads(
            rules[j].sources,
            name,
        ) {
        if crate::text::first_place(rules, f, 0) is Some {
            let x = crate::text::first_place(rules, f, 0)->0;
            assert(f(rules[x]));
        }
    }
}

/// A file without work is read only for the timeline: where it is the vendor's reset
/// record, or where its name is that of a log of the kernel or the system.
pub proof fn law_idle_files_are_read_for_the_timeline(
    files: Seq<Seq<char>>,
    rules: Seq<RuleView>,
    enabled: Seq<RuleView>,
    tables: Seq<SystemRuleView>,
    i: int,
)
    requires
        0 <= i < files.len(),
        is_idle(work_on(files, rules, enabled, tables, i)),
    ensures
        (exists|k: int|
            0 <= k < plan_of(files, rules, enabled, tables).len() && (#[trigger] plan_of(
                files,
                rules,
                enabled,
                tables,
            )[k]).file_index == i) <==> ({
            let path = swap_char(files[i], '\\', '/');
            let small = crate::text::lower(path);
            let base = crate::text::tail(small, crate::text::Class::One('/'));
            ||| crate::text::finishes(path, "/pstore/ug_reset_reason.log"@)
            ||| crate::text::has(small, "/pstore/"@)
            ||| crate::text::begins(base, "dmesg"@)
            ||| crate::text::begins(base, "syslog"@)
            ||| crate::text::begins(base, "journal"@)
            ||| crate::text::begins(base, "messages"@)
            ||| crate::text::begins(base, "kern"@) && (crate::text::finishes(base, ".log"@)
                || !has_char(base, '.'))
        }),
{
    let n = files.len() as int;
    lemma_rising(files, rules, enabled, tables, n);
    let b = busy_files(files, rules, enabled, tables, n);
    let t = timeline_files(files, rules, enabled, tables, n);
    let plan = plan_of(files, rules, enabled, tables);
    lemma_timeline_there(files, rules, enabled, tables, n, i);
    if exists|k: int| 0 <= k < plan.len() && (#[trigger] plan[k]).file_index == i {
        let k = choose|k: int| 0 <= k < plan.len() && (#[trigger] plan[k]).file_index == i;
        if k < b.len() {
            assert(plan[k] == b[k]);
            assert(b[k] == work_on(files, rules, enabled, tables, i));
        } else {
            assert(plan[k] == t[k - b.len()]);
            assert(t[k - b.len()].file_index == i);
        }
    }
    if exists|x: int| 0 <= x < t.len() && (#[trigger] t[x]).file_index == i {
        let x = choose|x: int| 0 <= x < t.len() && (#[trigger] t[x]).file_index == i;
        assert(plan[b.len() + x] == t[x]);
    }
}

proof fn lemma_timeline_there(
    files: Seq<Seq<char>>,
    rules: Seq<RuleView>,
    enabled: Seq<RuleView>,
    tables: Seq<SystemRuleView>,
    n: int,
    i: int,
)
    requires
        0 <= i,
        0 <= n,
        is_idle(work_on(files, rules, enabled, tables, i)),
    ensures
        (exists|x: int|
            0 <= x < timeline_files(files, rules, enabled, tables, n).len() && (
            #[trigger] timeline_files(files, rules, enabled, tables, n)[x]).file_index == i) <==> i
            < n && (crate::engine::plan::is_reset_file(files[i])
            || crate::engine::plan::likely_timeline(files[i])),
    decreases n,
{
    let t = timeline_files(files, rules, enabled, tables, n);
    if n > 0 {
        lemma_timeline_there(files, rules, enabled, tables, n - 1, i);
        let was = timeline_files(files, rules, enabled, tables, n - 1);
        let w = work_on(files, rules, enabled, tables, n - 1);
        assert forall|x: int| 0 <= x < t.len() implies #[trigger] t[x] == (if x < was.len() {
            was[x]
        } else {
            w
        }) by {}
        if exists|x: int| 0 <= x < was.len() && (#[trigger] was[x]).file_index == i {
            let x = choose|x: int| 0 <= x < was.len() && (#[trigger] was[x]).file_index == i;
            assert(t[x].file_index == i);
        }
        if exists|x: int| 0 <= x < t.len() && (#[trigger] t[x]).file_index == i {
            let x = choose|x: int| 0 <= x < t.len() && (#[trigger] t[x]).file_index == i;
            if x < was.len() {
                assert(was[x].file_index == i);
            }
        }
        if i == n - 1 && t.len() > was.len() {
            assert(t[was.len() as int].file_index == i);
        }
    }
}

} // verus!
