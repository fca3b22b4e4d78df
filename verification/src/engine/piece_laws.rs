//! What the smaller pieces of a report say.

use crate::engine::analysis::{enabled_of, line_total, tables_of};
use crate::engine::findings::{is_enabled, is_enabled_table};
use crate::engine::report::{
    entry_for, file_catalog, file_labels, for_path, ids_for, is_block_table, names_for, pools_of,
    raid_in, raid_pools, raid_seen, row_text, table_files, window_of, with_raid, CatalogEntryView,
};
use crate::engine::scan::{content_lines, Content};
use crate::extract::model::TableView;
use crate::outside::pattern::{pattern_fault, pattern_groups, pattern_matches};
use crate::row::{get, law_put_keeps_others, law_put_then_get, RowView};
use crate::rules::file_laws::{is_good_file, law_files_lie_in_the_archive};
use crate::rules::model::{LogFileView, RuleSetView, RuleView, SourceView, SystemRuleView};
use crate::select::{
    lemma_first_holds, lemma_first_of_any, lemma_kept_holds, lemma_kept_source, lemma_kept_there,
};
use crate::text::{first_place, has_char, joined, kept, Class};
use crate::text_laws::{law_texts_are_cut_at_the_character, none_in};
use vstd::prelude::*;

verus! {

/// A row that tells of a linear array names JBOD, one that tells a level names that
/// level.
pub proof fn law_arrays_are_named(text: Seq<char>, groups: Seq<Option<Seq<char>>>, level: Seq<char>)
    requires
        pattern_fault("(?i)\\braid(\\d+)\\b"@, false) is None,
        pattern_fault("(?i)\\blinear\\b"@, false) is None,
    ensures
        pattern_matches("(?i)\\blinear\\b"@, false, text) ==> raid_in(text) == Some("JBOD"@),
        !pattern_matches("(?i)\\blinear\\b"@, false, text) && pattern_groups(
            "(?i)\\braid(\\d+)\\b"@,
            false,
            text,
        ) == Some(groups) && groups.len() > 1 && groups[1] == Some(level) ==> raid_in(text) == Some(
            "RAID"@ + level,
        ),
        !pattern_matches("(?i)\\blinear\\b"@, false, text) && pattern_groups(
            "(?i)\\braid(\\d+)\\b"@,
            false,
            text,
        ) is None ==> raid_in(text) is None,
{
}

/// The texts of a row stand behind each other with blanks between them.
pub proof fn law_row_texts_have_blanks_between(r: RowView, cell: (Seq<char>, Seq<char>))
    ensures
        row_text(Seq::empty()).len() == 0,
        row_text(seq![cell]) == cell.1,
        r.len() > 0 ==> row_text(r.push(cell)) == row_text(r) + seq![' '] + cell.1,
{
    reveal_strlit(" ");
    assert(" "@ =~= seq![' ']);
    let s = r.push(cell);
    let a = Seq::new(r.len(), |i: int| r[i].1);
    let b = Seq::new(s.len(), |i: int| s[i].1);
    assert(b.drop_last() =~= a);
    assert(b.last() == cell.1);
    let one = seq![cell];
    let o = Seq::new(one.len(), |i: int| one[i].1);
    assert(o =~= seq![cell.1]);
}

/// The sort of array is that of the last row that names one.
pub proof fn law_the_last_named_array_counts(rows: Seq<RowView>, n: int, k: int)
    requires
        0 <= n <= rows.len(),
    ensures
        0 <= k < n && raid_in(row_text(rows[k])) is Some && (forall|j: int|
            k < j < n ==> raid_in(row_text(#[trigger] rows[j])) is None) ==> raid_seen(rows, n)
            == raid_in(row_text(rows[k])),
        (forall|j: int| 0 <= j < n ==> raid_in(row_text(#[trigger] rows[j])) is None) ==> raid_seen(
            rows,
            n,
        ) is None,
    decreases n,
{
    if n > 0 {
        if k < n - 1 {
            law_the_last_named_array_counts(rows, n - 1, k);
        } else {
            law_the_last_named_array_counts(rows, n - 1, -1);
        }
        if 0 <= k < n - 1 && (forall|j: int|
            k < j < n ==> raid_in(row_text(#[trigger] rows[j])) is None) {
            assert(raid_in(row_text(rows[n - 1])) is None);
        }
        if forall|j: int| 0 <= j < n ==> raid_in(row_text(#[trigger] rows[j])) is None {
            assert(raid_in(row_text(rows[n - 1])) is None);
        }
    }
}

/// A row that names a pool gives that pool the array that was named last, up to that
/// row; every other pool keeps what it has, and a row without a pool gives nothing.
pub proof fn law_pools_have_the_array_named_before(
    rows: Seq<RowView>,
    n: int,
    groups: Seq<Option<Seq<char>>>,
    number: Seq<char>,
    raid: Seq<char>,
    other: Seq<char>,
)
    requires
        0 < n <= rows.len(),
        pattern_fault("pool(\\d+)-"@, false) is None,
    ensures
        pattern_groups("pool(\\d+)-"@, false, row_text(rows[n - 1])) == Some(groups) && groups.len()
            > 1 && groups[1] == Some(number) && raid_seen(rows, n) == Some(raid) ==> {
            &&& get(raid_pools(rows, n), "Storage Pool "@ + number) == Some(raid)
            &&& other != "Storage Pool "@ + number ==> get(raid_pools(rows, n), other) == get(
                raid_pools(rows, n - 1),
                other,
            )
        },
        pattern_groups("pool(\\d+)-"@, false, row_text(rows[n - 1])) is None || raid_seen(rows, n)
            is None ==> raid_pools(rows, n) == raid_pools(rows, n - 1),
{
    let m = raid_pools(rows, n - 1);
    let name = "Storage Pool "@ + number;
    law_put_then_get(m, name, raid, 0);
    if other != name {
        law_put_keeps_others(m, name, raid, other, 0);
    }
}

/// A disk of a table of disks has the array of its pool, and none where its pool has
/// none; every other table stays as it is.
pub proof fn law_disks_have_the_array_of_their_pool(t: TableView, pools: RowView, i: int)
    ensures
        t.view != "storage"@ ==> with_raid(t, pools) == t,
        t.view == "storage"@ && 0 <= i < t.storage.len() ==> {
            let d = with_raid(t, pools).storage[i];
            &&& get(pools, t.storage[i].pool) matches Some(raid) ==> d.raid == raid
            &&& get(pools, t.storage[i].pool) is None ==> d.raid.len() == 0
            &&& d.pool == t.storage[i].pool
            &&& d.label == t.storage[i].label
            &&& d.device == t.storage[i].device
        },
        with_raid(t, pools).rows == t.rows,
        with_raid(t, pools).id == t.id,
{
}

/// The arrays are told by the first table of block devices.
pub proof fn law_block_devices_tell_the_arrays(tables: Seq<TableView>, k: int)
    ensures
        0 <= k < tables.len() && tables[k].id == "block"@ && (forall|j: int|
            0 <= j < k ==> (#[trigger] tables[j]).id != "block"@) ==> pools_of(tables) == raid_pools(
            tables[k].rows,
            tables[k].rows.len() as int,
        ),
        (forall|j: int| 0 <= j < tables.len() ==> (#[trigger] tables[j]).id != "block"@)
            ==> pools_of(tables).len() == 0,
{
    let f = is_block_table();
    lemma_first_holds(tables, f, 0);
    if first_place(tables, f, 0) is Some {
        let i = first_place(tables, f, 0)->0;
        assert(f(tables[i]));
    }
    if 0 <= k < tables.len() && tables[k].id == "block"@ {
        assert(f(tables[k]));
        lemma_first_of_any(tables, f, 0, k);
    }
}

/// Whether an entry of the catalogue stands for a file of the package.
pub open spec fn is_entry_of(f: LogFileView, path: Seq<char>) -> bool {
    is_good_file(f) && (SourceView { pattern: f.path, mode: f.mode }).covers(path)
}

/// The entries of a file are those that stand for it, by their identities and by
/// their names.
pub proof fn law_files_have_their_entries(files: Seq<LogFileView>, path: Seq<char>, w: Seq<char>)
    ensures
        ids_for(files, path).contains(w) <==> exists|i: int|
            0 <= i < files.len() && is_entry_of(#[trigger] files[i], path) && files[i].id == w,
        names_for(files, path).contains(w) <==> exists|i: int|
            0 <= i < files.len() && is_entry_of(#[trigger] files[i], path) && files[i].name == w,
        ids_for(files, path).len() == names_for(files, path).len(),
{
    let f = for_path(path);
    let s = kept(files, f, 0);
    let ids = ids_for(files, path);
    let names = names_for(files, path);
    lemma_kept_holds(files, f, 0);
    if ids.contains(w) {
        let k = choose|k: int| 0 <= k < ids.len() && ids[k] == w;
        let i = lemma_kept_source(files, f, k);
        assert(f(s[k]));
        law_files_lie_in_the_archive(files[i]);
        assert(is_entry_of(files[i], path));
        assert(files[i].id == w);
    }
    if names.contains(w) {
        let k = choose|k: int| 0 <= k < names.len() && names[k] == w;
        let i = lemma_kept_source(files, f, k);
        assert(f(s[k]));
        law_files_lie_in_the_archive(files[i]);
        assert(is_entry_of(files[i], path));
        assert(files[i].name == w);
    }
    assert forall|i: int| 0 <= i < files.len() && is_entry_of(#[trigger] files[i], path) implies
        ids.contains(files[i].id) && names.contains(files[i].name) by {
        law_files_lie_in_the_archive(files[i]);
        assert(f(files[i]));
        let k = lemma_kept_there(files, f, i);
        assert(ids[k] == files[i].id);
        assert(names[k] == files[i].name);
    }
}

/// Every file that an entry stands for is labelled with the names of its entries and
/// the last part of its path; a file without an entry has no label.
pub proof fn law_files_are_labelled(
    files: Seq<LogFileView>,
    paths: Seq<Seq<char>>,
    n: int,
    i: int,
    dir: Seq<char>,
    base: Seq<char>,
)
    requires
        0 <= i < n <= paths.len(),
        paths[i] == dir + seq!['/'] + base,
        !has_char(base, '/'),
    ensures
        names_for(files, paths[i]).len() > 0 ==> get(file_labels(files, paths, n), paths[i]) == Some(
            joined(names_for(files, paths[i]), seq!['、']) + " · "@ + base,
        ),
        names_for(files, paths[i]).len() == 0 ==> get(file_labels(files, paths, n), paths[i])
            is None,
    decreases n,
{
    reveal_strlit("、");
    assert("、"@ =~= seq!['、']);
    assert(none_in(base, Class::One('/')));
    law_texts_are_cut_at_the_character(dir, '/', base, Class::One('/'));
    let m = file_labels(files, paths, n - 1);
    let p = paths[n - 1];
    let names = names_for(files, p);
    let text = joined(names, "、"@) + " · "@ + crate::text::tail(p, Class::One('/'));
    if p == paths[i] {
        law_put_then_get(m, p, text, 0);
        if names.len() == 0 {
            lemma_no_label(files, paths, n, p);
        }
    } else {
        law_files_are_labelled(files, paths, n - 1, i, dir, base);
        if names.len() > 0 {
            law_put_keeps_others(m, p, text, paths[i], 0);
        }
    }
}

proof fn lemma_no_label(files: Seq<LogFileView>, paths: Seq<Seq<char>>, n: int, p: Seq<char>)
    requires
        0 <= n <= paths.len(),
        names_for(files, p).len() == 0,
    ensures
        get(file_labels(files, paths, n), p) is None,
    decreases n,
{
    if n > 0 {
        lemma_no_label(files, paths, n - 1, p);
        let q = paths[n - 1];
        if names_for(files, q).len() > 0 {
            law_put_keeps_others(
                file_labels(files, paths, n - 1),
                q,
                joined(names_for(files, q), "、"@) + " · "@ + crate::text::tail(q, Class::One('/')),
                p,
                0,
            );
        }
    }
}

/// The catalogue of a report has each file of the package once, with the entries that
/// stand for it, and no other.
pub proof fn law_catalogues_have_each_file_once(
    files: Seq<LogFileView>,
    paths: Seq<Seq<char>>,
    n: int,
)
    requires
        0 <= n <= paths.len(),
    ensures
        ({
            let c = file_catalog(files, paths, n);
            &&& forall|k: int|
                0 <= k < c.len() ==> (#[trigger] c[k]).ids == ids_for(files, c[k].path)
                    && paths.contains(c[k].path)
            &&& forall|j: int, k: int|
                0 <= j < k < c.len() ==> (#[trigger] c[j]).path != (#[trigger] c[k]).path
            &&& forall|i: int|
                0 <= i < n ==> exists|k: int|
                    0 <= k < c.len() && (#[trigger] c[k]).path == #[trigger] paths[i]
        }),
    decreases n,
{
    if n > 0 {
        law_catalogues_have_each_file_once(files, paths, n - 1);
        let m = file_catalog(files, paths, n - 1);
        let c = file_catalog(files, paths, n);
        let p = paths[n - 1];
        let f = entry_for(p);
        let e = CatalogEntryView { path: p, ids: ids_for(files, p) };
        lemma_first_holds(m, f, 0);
        assert(paths.contains(p));
        match first_place(m, f, 0) {
            Some(x) => {
                assert(f(m[x]));
                assert(c == m.update(x, e));
                assert forall|k: int| 0 <= k < c.len() implies (#[trigger] c[k]).path
                    == m[k].path by {}
                assert(c[x].path == p);
                assert forall|i: int| 0 <= i < n implies exists|k: int|
                    0 <= k < c.len() && (#[trigger] c[k]).path == #[trigger] paths[i] by {
                    if i < n - 1 {
                        let k = choose|k: int|
                            0 <= k < m.len() && (#[trigger] m[k]).path == paths[i];
                        assert(c[k].path == paths[i]);
                    }
                }
            },
            None => {
                assert(c == m.push(e));
                assert forall|k: int| 0 <= k < m.len() implies (#[trigger] m[k]).path != p by {
                    if m[k].path == p {
                        assert(f(m[k]));
                        lemma_first_of_any(m, f, 0, k);
                    }
                }
                assert(c[m.len() as int].path == p);
                assert forall|j: int, k: int| 0 <= j < k < c.len() implies (#[trigger] c[j]).path
                    != (#[trigger] c[k]).path by {
                    assert(c[j] == m[j]);
                    if k < m.len() {
                        assert(c[k] == m[k]);
                    }
                }
                assert forall|i: int| 0 <= i < n implies exists|k: int|
                    0 <= k < c.len() && (#[trigger] c[k]).path == #[trigger] paths[i] by {
                    if i < n - 1 {
                        let k = choose|k: int|
                            0 <= k < m.len() && (#[trigger] m[k]).path == paths[i];
                        assert(c[k].path == paths[i]);
                    }
                }
            },
        }
    }
}

/// Every table has the entry that its rule reads.
pub proof fn law_tables_have_their_entry(system: Seq<SystemRuleView>, n: int, i: int)
    requires
        0 <= i < n <= system.len(),
        forall|j: int|
            0 <= j < system.len() && j != i ==> (#[trigger] system[j]).id != system[i].id,
    ensures
        get(table_files(system, n), system[i].id) == Some(system[i].source_file_id),
    decreases n,
{
    let m = table_files(system, n - 1);
    let r = system[n - 1];
    if i == n - 1 {
        law_put_then_get(m, r.id, r.source_file_id, 0);
    } else {
        law_tables_have_their_entry(system, n - 1, i);
        law_put_keeps_others(m, r.id, r.source_file_id, system[i].id, 0);
    }
}

/// A span of seconds counts as it is.
pub proof fn law_spans_count_as_they_are(seconds: u64)
    requires
        seconds <= i64::MAX,
    ensures
        window_of(seconds) == seconds,
{
}

/// A rule is applied, and a table extracted, exactly where it is enabled.
pub proof fn law_enabled_rules_are_applied(set: RuleSetView, r: RuleView, s: SystemRuleView)
    ensures
        enabled_of(set).contains(r) <==> set.rules.contains(r) && r.enabled,
        tables_of(set).contains(s) <==> set.system.contains(s) && s.enabled,
{
    lemma_kept_contains(set.rules, is_enabled(), r);
    lemma_kept_contains(set.system, is_enabled_table(), s);
}

proof fn lemma_kept_contains<A>(s: Seq<A>, f: spec_fn(A) -> bool, x: A)
    ensures
        kept(s, f, 0).contains(x) <==> s.contains(x) && f(x),
{
    let t = kept(s, f, 0);
    lemma_kept_holds(s, f, 0);
    if t.contains(x) {
        let k = choose|k: int| 0 <= k < t.len() && t[k] == x;
        let j = lemma_kept_source(s, f, k);
        assert(f(t[k]));
        assert(s[j] == x);
    }
    if s.contains(x) && f(x) {
        let j = choose|j: int| 0 <= j < s.len() && s[j] == x;
        let k = lemma_kept_there(s, f, j);
        assert(t[k] == x);
    }
}

/// The lines of files add up.
pub proof fn law_lines_add_up(contents: Seq<Content>, c: Content)
    ensures
        line_total(contents, 0) == 0,
        line_total(contents.push(c), contents.len() as int + 1) == line_total(
            contents,
            contents.len() as int,
        ) + content_lines(c).len(),
{
    lemma_total_front(contents, c, contents.len() as int);
}

proof fn lemma_total_front(contents: Seq<Content>, c: Content, n: int)
    requires
        0 <= n <= contents.len(),
    ensures
        line_total(contents.push(c), n) == line_total(contents, n),
    decreases n,
{
    if n > 0 {
        lemma_total_front(contents, c, n - 1);
    }
}

} // verus!
