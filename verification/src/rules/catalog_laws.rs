//! What edits of the log file catalogue keep.

use crate::rules::catalog::{file_place, file_with};
use crate::rules::edit::{other_file, rules_naming, saved, system_naming};
use crate::rules::model::{LogFileView, RuleSetView, RuleView, SystemRuleView};
use crate::select::{lemma_first_holds, lemma_first_of_any, lemma_kept_holds};
use crate::text::kept;
use vstd::prelude::*;

verus! {

/// A saved entry is found by its identity, and the other entries stay.
pub proof fn law_saved_entry_is_found(files: Seq<LogFileView>, f: LogFileView)
    ensures
        file_place(saved(files, f), f.id) is Some,
        saved(files, f)[file_place(saved(files, f), f.id)->0] == f,
        forall|i: int|
            0 <= i < files.len() && (#[trigger] files[i]).id != f.id ==> saved(files, f)[i]
                == files[i],
{
    let p = file_with(f.id);
    let s = saved(files, f);
    lemma_first_holds(files, p, 0);
    let at = match file_place(files, f.id) {
        Some(i) => i,
        None => files.len() as int,
    };
    assert(p(s[at]));
    lemma_first_of_any(s, p, 0, at);
    lemma_first_holds(s, p, 0);
    let k = file_place(s, f.id)->0;
    if k < at {
        assert(s[k] == files[k]);
        assert(!p(files[k]));
    }
}

proof fn lemma_no_rule_named(rules: Seq<RuleView>, id: Seq<char>, n: int)
    requires
        0 <= n <= rules.len(),
        rules_naming(rules, id, n).len() == 0,
    ensures
        forall|i: int| 0 <= i < n ==> !(#[trigger] rules[i]).source_file_ids.contains(id),
    decreases n,
{
    if n > 0 {
        lemma_no_rule_named(rules, id, n - 1);
    }
}

proof fn lemma_no_table_named(system: Seq<SystemRuleView>, id: Seq<char>, n: int)
    requires
        0 <= n <= system.len(),
        system_naming(system, id, n).len() == 0,
    ensures
        forall|i: int| 0 <= i < n ==> (#[trigger] system[i]).source_file_id != id,
    decreases n,
{
    if n > 0 {
        lemma_no_table_named(system, id, n - 1);
    }
}

/// An entry that may be deleted is read by no rule; afterwards it is not found,
/// and the other entries and all rules are there as before.
pub proof fn law_deleted_entry_is_unread(set: RuleSetView, id: Seq<char>)
    requires
        set.delete_fault(id) is None,
    ensures
        forall|i: int|
            0 <= i < set.rules.len() ==> !(#[trigger] set.rules[i]).source_file_ids.contains(id),
        forall|i: int|
            0 <= i < set.system.len() ==> (#[trigger] set.system[i]).source_file_id != id,
        file_place(set.without_file(id).log_files, id) is None,
        forall|f: LogFileView|
            f.id != id && #[trigger] set.log_files.contains(f) ==> set.without_file(
                id,
            ).log_files.contains(f),
        set.without_file(id).rules == set.rules,
        set.without_file(id).system == set.system,
{
    lemma_no_rule_named(set.rules, id, set.rules.len() as int);
    lemma_no_table_named(set.system, id, set.system.len() as int);
    let p = other_file(id);
    let left = kept(set.log_files, p, 0);
    lemma_kept_holds(set.log_files, p, 0);
    lemma_first_holds(left, file_with(id), 0);
    if file_place(left, id) is Some {
        assert(p(left[file_place(left, id)->0]));
    }
    assert forall|f: LogFileView| f.id != id && #[trigger] set.log_files.contains(f) implies
        left.contains(f) by {
        let j = choose|j: int| 0 <= j < set.log_files.len() && set.log_files[j] == f;
        assert(p(set.log_files[j]));
        let k = choose|k: int| 0 <= k < left.len() && left[k] == set.log_files[j];
        assert(left[k] == f);
    }
}

/// Resolving the references a second time changes nothing.
pub proof fn law_resolving_again_changes_nothing(set: RuleSetView)
    ensures
        set.resolved().resolved() == set.resolved(),
{
    let once = set.resolved();
    let twice = once.resolved();
    assert forall|i: int| 0 <= i < set.rules.len() implies #[trigger] twice.rules[i]
        == once.rules[i] by {
        assert(twice.rules[i].sources =~= once.rules[i].sources);
    }
    assert(twice.rules =~= once.rules);
    assert(twice.system =~= once.system);
}

} // verus!
