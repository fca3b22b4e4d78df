//! Which log files a rule package may name, and who refers to them.

use crate::fault::{refusal, FaultKind};
use crate::rules::acceptance_laws::{
    is_good_source, is_new, lemma_blank, lemma_new, lemma_source, lemma_sum, says_something,
};
use crate::rules::catalog::{
    file_place, file_with, files_fault, ids_fault, reference_fault, referenced,
    rule_reference_fault, rules_reference_fault, system_reference_fault, with_source, with_sources,
};
use crate::rules::edit::{
    default_layout, labels, new_rule, new_system_rule, rules_naming, stamped, system_naming,
};
use crate::rules::model::{LogFileView, RuleSetView, RuleView, SourceView, SystemRuleView};
use crate::select::{lemma_first_holds, lemma_first_of_any};
use crate::text::{any, begins, decimal_int, has_char, joined, split, Class};
use crate::text_laws::{law_texts_are_cut_at_the_character, none_in};
use vstd::prelude::*;

verus! {

/// Whether an entry stands for a file of a diagnostic archive: it says where the file
/// lies, relative to the archive and not above it.
pub open spec fn is_good_file(f: LogFileView) -> bool {
    &&& f.container == "diagnostic_archive"@
    &&& is_good_source(SourceView { pattern: f.path, mode: f.mode })
    &&& !has_char(f.path, '\\')
    &&& !has_char(f.path, ':')
    &&& f.path[0] != '/'
    &&& forall|k: int|
        0 <= k < split(f.path, Class::One('/')).len() ==> #[trigger] split(
            f.path,
            Class::One('/'),
        )[k] != seq!['.', '.']
}

/// An entry gives a source exactly where it stands for a file of a diagnostic
/// archive.
pub proof fn law_files_lie_in_the_archive(f: LogFileView)
    ensures
        f.fault() is None <==> is_good_file(f),
        f.container == "zip"@ ==> f.fault() == Some(refusal(FaultKind::ZipContainer, f.name)),
{
    reveal_strlit("zip");
    reveal_strlit("diagnostic_archive");
    reveal_strlit("..");
    reveal_strlit("/");
    assert("zip"@.len() == 3 && "diagnostic_archive"@.len() == 18);
    assert(".."@ =~= seq!['.', '.']);
    assert("/"@ =~= seq!['/']);
    lemma_source(f.as_source());
    let parts = split(f.path, Class::One('/'));
    if parts.contains(".."@) {
        let k = choose|k: int| 0 <= k < parts.len() && parts[k] == ".."@;
        assert(split(f.path, Class::One('/'))[k] == seq!['.', '.']);
    }
    if exists|k: int| 0 <= k < parts.len() && #[trigger] parts[k] == seq!['.', '.'] {
        let k = choose|k: int| 0 <= k < parts.len() && #[trigger] parts[k] == seq!['.', '.'];
        assert(parts.contains(".."@));
    }
    if begins(f.path, "/"@) {
        assert(f.path.subrange(0, 1)[0] == f.path[0]);
    }
    if f.path.len() > 0 && f.path[0] == '/' {
        assert(f.path.subrange(0, 1) =~= "/"@);
    }
}

/// Whether an entry differs from those before it in its identity, its name and its
/// place.
pub open spec fn differs(files: Seq<LogFileView>, i: int) -> bool {
    forall|j: int|
        0 <= j < i ==> (#[trigger] files[j]).id != files[i].id && files[j].name != files[i].name
            && !(files[j].container == files[i].container && files[j].path == files[i].path)
}

proof fn lemma_files(files: Seq<LogFileView>, i: int)
    requires
        0 <= i,
    ensures
        files_fault(files, i) is None <==> forall|k: int|
            i <= k < files.len() ==> is_good_file(#[trigger] files[k]) && says_something(
                files[k].id,
            ) && says_something(files[k].name) && differs(files, k),
    decreases files.len() - i,
{
    if i < files.len() {
        lemma_files(files, i + 1);
        let f = files[i];
        law_files_lie_in_the_archive(f);
        lemma_blank(f.id);
        lemma_blank(f.name);
        let t = files.take(i);
        let a = |x: LogFileView| x.id == f.id;
        let b = |x: LogFileView| x.name == f.name;
        let c = |x: LogFileView| x.container == f.container && x.path == f.path;
        if any(t, a) {
            let j = choose|j: int| 0 <= j < t.len() && a(#[trigger] t[j]);
            assert(files[j].id == f.id);
        }
        if any(t, b) {
            let j = choose|j: int| 0 <= j < t.len() && b(#[trigger] t[j]);
            assert(files[j].name == f.name);
        }
        if any(t, c) {
            let j = choose|j: int| 0 <= j < t.len() && c(#[trigger] t[j]);
            assert(files[j].path == f.path);
        }
        if !any(t, a) && !any(t, b) && !any(t, c) {
            assert forall|j: int| 0 <= j < i implies (#[trigger] files[j]).id != f.id
                && files[j].name != f.name && !(files[j].container == f.container && files[j].path
                == f.path) by {
                assert(t[j] == files[j]);
                assert(!a(t[j]) && !b(t[j]) && !c(t[j]));
            }
        }
    }
}

/// A catalogue is accepted exactly where every entry stands for a file, has an
/// identity and a name, and no two agree in the identity, the name or the place; and
/// where its panel is between 180 and 360 wide.
pub proof fn law_catalogues_tell_files_apart(set: RuleSetView)
    ensures
        set.catalog_fault() is None <==> {
            &&& forall|k: int|
                0 <= k < set.log_files.len() ==> is_good_file(#[trigger] set.log_files[k])
                    && says_something(set.log_files[k].id) && says_something(set.log_files[k].name)
                    && differs(set.log_files, k)
            &&& 180 <= set.layout.file_panel_width <= 360
        },
{
    lemma_files(set.log_files, 0);
}

/// Whether an identity is that of an entry, the first of it, that stands for a file.
pub open spec fn leads_to(files: Seq<LogFileView>, id: Seq<char>, k: int) -> bool {
    &&& 0 <= k < files.len()
    &&& files[k].id == id
    &&& is_good_file(files[k])
    &&& forall|j: int| 0 <= j < k ==> (#[trigger] files[j]).id != id
}

proof fn lemma_leads(files: Seq<LogFileView>, id: Seq<char>)
    ensures
        reference_fault(files, id) is None <==> exists|k: int| #[trigger] leads_to(files, id, k),
        forall|k: int| #[trigger]
            leads_to(files, id, k) ==> referenced(files, id) == (SourceView {
                pattern: files[k].path,
                mode: files[k].mode,
            }),
{
    let f = file_with(id);
    lemma_first_holds(files, f, 0);
    if let Some(i) = file_place(files, id) {
        law_files_lie_in_the_archive(files[i]);
        assert(f(files[i]));
        if reference_fault(files, id) is None {
            assert forall|j: int| 0 <= j < i implies (#[trigger] files[j]).id != id by {
                if files[j].id == id {
                    assert(f(files[j]));
                    lemma_first_of_any(files, f, 0, j);
                }
            }
            assert(leads_to(files, id, i));
        }
    }
    assert forall|k: int| #[trigger] leads_to(files, id, k) implies referenced(files, id) == (
    SourceView { pattern: files[k].path, mode: files[k].mode }) && reference_fault(
        files,
        id,
    ) is None by {
        assert(f(files[k]));
        lemma_first_of_any(files, f, 0, k);
        let i = file_place(files, id)->0;
        assert(f(files[i]));
        assert(i == k);
        law_files_lie_in_the_archive(files[k]);
    }
}

proof fn lemma_ids(files: Seq<LogFileView>, r: RuleView, i: int)
    requires
        0 <= i,
    ensures
        ids_fault(files, r, i) is None <==> forall|n: int|
            i <= n < r.source_file_ids.len() ==> is_new(r.source_file_ids, n) && is_led(
                files,
                #[trigger] r.source_file_ids[n],
            ),
    decreases r.source_file_ids.len() - i,
{
    if i < r.source_file_ids.len() {
        lemma_ids(files, r, i + 1);
        lemma_new(r.source_file_ids, i);
        lemma_leads(files, r.source_file_ids[i]);
    }
}

/// Whether an identity leads to an entry.
pub open spec fn is_led(files: Seq<LogFileView>, id: Seq<char>) -> bool {
    exists|k: int| #[trigger] leads_to(files, id, k)
}

/// The references of a rule are resolved exactly where it has some, none twice, and
/// each leads to a file; then its sources are the paths of those files, in the order
/// of the references.
pub proof fn law_references_lead_to_files(files: Seq<LogFileView>, r: RuleView, n: int, k: int)
    ensures
        rule_reference_fault(files, r) is None <==> {
            &&& r.source_file_ids.len() > 0
            &&& forall|n: int|
                0 <= n < r.source_file_ids.len() ==> is_new(r.source_file_ids, n) && is_led(
                    files,
                    #[trigger] r.source_file_ids[n],
                )
        },
        with_sources(files, r).sources.len() == r.source_file_ids.len(),
        0 <= n < r.source_file_ids.len() && leads_to(files, r.source_file_ids[n], k)
            ==> with_sources(files, r).sources[n] == (SourceView {
            pattern: files[k].path,
            mode: files[k].mode,
        }),
{
    lemma_ids(files, r, 0);
    if 0 <= n < r.source_file_ids.len() {
        lemma_leads(files, r.source_file_ids[n]);
    }
}

/// The reference of a table leads to its file in the same way.
pub proof fn law_tables_read_their_file(
    files: Seq<LogFileView>,
    system: Seq<SystemRuleView>,
    i: int,
    n: int,
    k: int,
)
    requires
        0 <= i,
    ensures
        system_reference_fault(files, system, i) is None <==> forall|n: int|
            i <= n < system.len() ==> is_led(files, (#[trigger] system[n]).source_file_id),
        0 <= n < system.len() && leads_to(files, system[n].source_file_id, k) ==> with_source(
            files,
            system[n],
        ).source == (SourceView { pattern: files[k].path, mode: files[k].mode }),
    decreases system.len() - i,
{
    if 0 <= n < system.len() {
        lemma_leads(files, system[n].source_file_id);
    }
    if i < system.len() {
        law_tables_read_their_file(files, system, i + 1, n, k);
        lemma_leads(files, system[i].source_file_id);
    }
}

/// All references of a package are resolved exactly where those of every rule are.
pub proof fn law_all_rules_are_resolved(set: RuleSetView)
    ensures
        set.reference_fault() is None <==> {
            &&& forall|n: int|
                0 <= n < set.rules.len() ==> rule_reference_fault(
                    set.log_files,
                    #[trigger] set.rules[n],
                ) is None
            &&& forall|n: int|
                0 <= n < set.system.len() ==> is_led(
                    set.log_files,
                    (#[trigger] set.system[n]).source_file_id,
                )
        },
{
    lemma_rules(set.log_files, set.rules, 0);
    law_tables_read_their_file(set.log_files, set.system, 0, -1, -1);
}

proof fn lemma_rules(files: Seq<LogFileView>, rules: Seq<RuleView>, i: int)
    requires
        0 <= i,
    ensures
        rules_reference_fault(files, rules, i) is None <==> forall|n: int|
            i <= n < rules.len() ==> rule_reference_fault(files, #[trigger] rules[n]) is None,
    decreases rules.len() - i,
{
    if i < rules.len() {
        lemma_rules(files, rules, i + 1);
    }
}

proof fn lemma_rules_naming(rules: Seq<RuleView>, id: Seq<char>, n: int, w: Seq<char>)
    requires
        0 <= n <= rules.len(),
    ensures
        rules_naming(rules, id, n).contains(w) <==> exists|i: int|
            0 <= i < n && (#[trigger] rules[i]).source_file_ids.contains(id) && rules[i].name == w,
    decreases n,
{
    if n > 0 {
        lemma_rules_naming(rules, id, n - 1, w);
        let r = rules[n - 1];
        let b = if r.source_file_ids.contains(id) {
            seq![r.name]
        } else {
            Seq::empty()
        };
        lemma_sum(rules_naming(rules, id, n - 1), b, w);
        assert(seq![r.name][0] == r.name);
        assert(b.contains(w) == (r.source_file_ids.contains(id) && r.name == w));
    }
}

proof fn lemma_system_naming(system: Seq<SystemRuleView>, id: Seq<char>, n: int, w: Seq<char>)
    requires
        0 <= n <= system.len(),
    ensures
        system_naming(system, id, n).contains(w) <==> exists|i: int|
            0 <= i < n && (#[trigger] system[i]).source_file_id == id && system[i].name == w,
    decreases n,
{
    if n > 0 {
        lemma_system_naming(system, id, n - 1, w);
        let r = system[n - 1];
        let b = if r.source_file_id == id {
            seq![r.name]
        } else {
            Seq::empty()
        };
        lemma_sum(system_naming(system, id, n - 1), b, w);
        assert(seq![r.name][0] == r.name);
        assert(b.contains(w) == (r.source_file_id == id && r.name == w));
    }
}

/// Who refers to an entry: the names of the rules that read it, and no others.
pub proof fn law_readers_are_named(set: RuleSetView, id: Seq<char>, w: Seq<char>)
    ensures
        set.naming(id).contains(w) <==> {
            ||| exists|i: int|
                0 <= i < set.rules.len() && (#[trigger] set.rules[i]).source_file_ids.contains(id)
                    && set.rules[i].name == w
            ||| exists|i: int|
                0 <= i < set.system.len() && (#[trigger] set.system[i]).source_file_id == id
                    && set.system[i].name == w
        },
{
    lemma_rules_naming(set.rules, id, set.rules.len() as int, w);
    lemma_system_naming(set.system, id, set.system.len() as int, w);
    lemma_sum(
        rules_naming(set.rules, id, set.rules.len() as int),
        system_naming(set.system, id, set.system.len() as int),
        w,
    );
}

/// An entry that a rule reads is not deleted, and its readers are told.
pub proof fn law_read_entries_are_not_deleted(set: RuleSetView, id: Seq<char>, i: int, k: int)
    requires
        0 <= k < set.log_files.len(),
        set.log_files[k].id == id,
    ensures
        0 <= i < set.rules.len() && set.rules[i].source_file_ids.contains(id) ==> set.delete_fault(
            id,
        ) == Some(refusal(FaultKind::StillReferenced, joined(set.naming(id), seq!['、']))),
        0 <= i < set.system.len() && set.system[i].source_file_id == id ==> set.delete_fault(id)
            == Some(refusal(FaultKind::StillReferenced, joined(set.naming(id), seq!['、']))),
{
    reveal_strlit("、");
    assert("、"@ =~= seq!['、']);
    let f = file_with(id);
    assert(f(set.log_files[k]));
    lemma_first_of_any(set.log_files, f, 0, k);
    if 0 <= i < set.rules.len() {
        law_readers_are_named(set, id, set.rules[i].name);
    }
    if 0 <= i < set.system.len() {
        law_readers_are_named(set, id, set.system[i].name);
    }
}

/// An entry that is not there cannot be deleted, and one that no rule reads can.
pub proof fn law_unread_entries_are_deleted(set: RuleSetView, id: Seq<char>, k: int)
    ensures
        (forall|j: int| 0 <= j < set.log_files.len() ==> (#[trigger] set.log_files[j]).id != id)
            ==> set.delete_fault(id) == Some(refusal(FaultKind::NoSuchFile, id)),
        0 <= k < set.log_files.len() && set.log_files[k].id == id && (forall|i: int|
            0 <= i < set.rules.len() ==> !(#[trigger] set.rules[i]).source_file_ids.contains(id))
            && (forall|i: int|
            0 <= i < set.system.len() ==> (#[trigger] set.system[i]).source_file_id != id)
            ==> set.delete_fault(id) is None,
{
    let f = file_with(id);
    lemma_first_holds(set.log_files, f, 0);
    if 0 <= k < set.log_files.len() && set.log_files[k].id == id {
        assert(f(set.log_files[k]));
        lemma_first_of_any(set.log_files, f, 0, k);
        if set.naming(id).len() > 0 {
            let w = set.naming(id)[0];
            assert(set.naming(id).contains(w));
            law_readers_are_named(set, id, w);
        }
    }
    if file_place(set.log_files, id) is Some {
        let j = file_place(set.log_files, id)->0;
        assert(f(set.log_files[j]));
    }
}

/// An entry is shown by its name and the last part of its path.
pub proof fn law_entries_are_shown_by_their_file(f: LogFileView, dir: Seq<char>, base: Seq<char>)
    requires
        !has_char(base, '/'),
        f.path == dir + seq!['/'] + base,
    ensures
        f.file_name() == base,
        f.label() == f.name + " · "@ + base,
{
    assert(none_in(base, Class::One('/')));
    law_texts_are_cut_at_the_character(dir, '/', base, Class::One('/'));
}

/// The labels of identities are those of the entries that they name.
pub proof fn law_labels_are_those_of_the_entries(
    files: Seq<LogFileView>,
    ids: Seq<Seq<char>>,
    n: int,
    w: Seq<char>,
)
    requires
        0 <= n <= ids.len(),
        forall|i: int, j: int|
            0 <= i < j < files.len() ==> (#[trigger] files[i]).id != (#[trigger] files[j]).id,
    ensures
        labels(files, ids, n).contains(w) <==> exists|i: int, k: int|
            0 <= i < n && 0 <= k < files.len() && (#[trigger] files[k]).id == #[trigger] ids[i]
                && files[k].label() == w,
    decreases n,
{
    if n > 0 {
        law_labels_are_those_of_the_entries(files, ids, n - 1, w);
        let id = ids[n - 1];
        let f = file_with(id);
        lemma_first_holds(files, f, 0);
        let b = match file_place(files, id) {
            Some(i) => seq![files[i].label()],
            None => Seq::empty(),
        };
        lemma_sum(labels(files, ids, n - 1), b, w);
        if let Some(i) = file_place(files, id) {
            assert(f(files[i]));
            assert(files[i].id == ids[n - 1]);
            assert(b[0] == files[i].label());
        }
        assert forall|k: int| 0 <= k < files.len() && (#[trigger] files[k]).id == id implies
            file_place(files, id) == Some(k) by {
            assert(f(files[k]));
            lemma_first_of_any(files, f, 0, k);
            let i = file_place(files, id)->0;
            assert(f(files[i]));
            if i < k {
                assert(files[i].id != files[k].id);
            }
        }
    }
}

/// What a new rule, a new table and a new layout start from.
pub proof fn law_new_rules_start_plain(id: Seq<char>, prefix: Seq<char>, nanos: i64)
    ensures
        ({
            let r = new_rule(id);
            &&& r.id == id && r.enabled && r.mode == "any"@ && r.target == "keywords"@ && r.sort
                == "source"@
            &&& !r.regex && r.case_sensitive && !r.reverse && !r.open
            &&& r.before == 10 && r.after == 10
            &&& r.terms.len() == 0 && r.exclude.len() == 0 && r.source_file_ids.len() == 0
            &&& r.name == "新规则"@ && r.group == "自定义"@
        }),
        ({
            let s = new_system_rule(id);
            &&& s.id == id && s.enabled && s.kind == "json"@ && s.view == "cards"@
            &&& s.fields.len() == 0 && s.join_rule.len() == 0 && s.missing == "未获取"@
            &&& s.name == "新信息组"@ && s.group == "基本信息"@
        }),
        ({
            let l = default_layout();
            &&& l.sections == seq!["keywords"@, "timeline"@]
            &&& l.font_size == 14 && l.log_lines_per_batch == 200 && l.file_panel_width == 240
            &&& l.timeline_sort == "desc"@ && l.density == "comfortable"@ && l.first_open
            &&& l.accent == "#2468d8"@ && l.file_order.len() == 0
        }),
        stamped(prefix, nanos) == prefix + decimal_int(nanos as int),
{
}

} // verus!
