//! What joining tables keeps.

use crate::extract::join::{
    all_rows, completed, fields_with, has_key, is_donor, joined_row, joined_table, joined_tables,
    more_fields, named, partners, table_after, unresolved,
};
use crate::extract::model::TableView;
use crate::row::{get, get_from, law_put_keeps_others, law_put_then_get, RowView};
use crate::rules::model::{FieldView, SystemRuleView};
use crate::select::{lemma_kept_holds, lemma_kept_source};
use crate::text::{any, kept};
use vstd::prelude::*;

verus! {

proof fn lemma_completed_keeps(row: RowView, cells: RowView, n: int, name: Seq<char>)
    requires
        get(row, name) is Some,
        n <= cells.len(),
    ensures
        get(completed(row, cells, n), name) == get(row, name),
    decreases n,
{
    if n > 0 {
        lemma_completed_keeps(row, cells, n - 1, name);
        let r = completed(row, cells, n - 1);
        let c = cells[n - 1];
        if get(r, c.0) is None {
            law_put_keeps_others(r, c.0, c.1, name, 0);
        }
    }
}

/// A join never changes what a row already says.
pub proof fn law_joining_keeps_own_cells(
    row: RowView,
    donors: Seq<RowView>,
    rule: SystemRuleView,
    name: Seq<char>,
)
    requires
        get(row, name) is Some,
    ensures
        get(joined_row(row, donors, rule), name) == get(row, name),
{
    let p = partners(row, donors, rule);
    if p.len() == 1 {
        lemma_completed_keeps(row, p[0], p[0].len() as int, name);
    }
}

/// A row without a partner, or with more than one, stays as it is.
pub proof fn law_ambiguous_rows_stay(row: RowView, donors: Seq<RowView>, rule: SystemRuleView)
    requires
        partners(row, donors, rule).len() != 1,
    ensures
        joined_row(row, donors, rule) == row,
{
}

/// Joins keep every table in its place with as many rows, and leave a table alone
/// that declares none.
pub proof fn law_joins_keep_tables(
    tables: Seq<TableView>,
    rules: Seq<SystemRuleView>,
    n: int,
    i: int,
)
    requires
        0 <= n <= rules.len(),
        0 <= i < tables.len(),
    ensures
        joined_tables(tables, rules, n).len() == tables.len(),
        joined_tables(tables, rules, n)[i].id == tables[i].id,
        joined_tables(tables, rules, n)[i].rows.len() == tables[i].rows.len(),
        (forall|k: int|
            0 <= k < n && (#[trigger] rules[k]).id == tables[i].id ==> rules[k].join_rule.len()
                == 0) ==> joined_tables(tables, rules, n)[i] == tables[i],
    decreases n,
{
    if n > 0 {
        law_joins_keep_tables(tables, rules, n - 1, i);
    }
}

/// Whether a row is the one of the rows that has a text under a name.
pub open spec fn is_only(donors: Seq<RowView>, name: Seq<char>, key: Seq<char>, j: int) -> bool {
    &&& 0 <= j < donors.len()
    &&& get(donors[j], name) == Some(key)
    &&& forall|k: int|
        0 <= k < donors.len() && k != j ==> get(#[trigger] donors[k], name) != Some(key)
}

proof fn lemma_one_partner(donors: Seq<RowView>, name: Seq<char>, key: Seq<char>, j: int)
    requires
        is_only(donors, name, key, j),
    ensures
        kept(donors, has_key(name, key), 0) == seq![donors[j]],
{
    let f = has_key(name, key);
    lemma_only_kept(donors, f, 0, j);
}

proof fn lemma_only_kept<A>(s: Seq<A>, f: spec_fn(A) -> bool, i: int, j: int)
    requires
        0 <= i,
        0 <= j < s.len(),
        f(s[j]),
        forall|k: int| 0 <= k < s.len() && k != j ==> !f(#[trigger] s[k]),
    ensures
        i <= j ==> kept(s, f, i) == seq![s[j]],
        i > j ==> kept(s, f, i) == Seq::<A>::empty(),
    decreases s.len() - i,
{
    if i < s.len() {
        lemma_only_kept(s, f, i + 1, j);
        if i == j {
            assert(kept(s, f, i) =~= seq![s[j]]);
        } else {
            assert(!f(s[i]));
        }
    }
}

proof fn lemma_get_last(cells: RowView, name: Seq<char>, n: int, i: int)
    requires
        0 <= i <= n < cells.len(),
    ensures
        get_from(cells.subrange(0, n + 1), name, i) == (match get_from(
            cells.subrange(0, n),
            name,
            i,
        ) {
            Some(t) => Some(t),
            None => if cells[n].0 == name {
                Some(cells[n].1)
            } else {
                None
            },
        }),
    decreases n - i,
{
    let a = cells.subrange(0, n);
    let b = cells.subrange(0, n + 1);
    if i < n {
        assert(a[i] == cells[i] && b[i] == cells[i]);
        lemma_get_last(cells, name, n, i + 1);
    } else {
        assert(b[n] == cells[n]);
        assert(get_from(b, name, n + 1) is None);
    }
}

proof fn lemma_completed(row: RowView, cells: RowView, n: int, name: Seq<char>)
    requires
        0 <= n <= cells.len(),
    ensures
        get(completed(row, cells, n), name) == (match get(row, name) {
            Some(t) => Some(t),
            None => get(cells.subrange(0, n), name),
        }),
    decreases n,
{
    if n > 0 {
        lemma_completed(row, cells, n - 1, name);
        let r = completed(row, cells, n - 1);
        let c = cells[n - 1];
        lemma_get_last(cells, name, n - 1, 0);
        lemma_completed(row, cells, n - 1, c.0);
        if get(r, c.0) is None {
            if c.0 == name {
                law_put_then_get(r, c.0, c.1, 0);
            } else {
                law_put_keeps_others(r, c.0, c.1, name, 0);
            }
        }
    }
}

/// A row whose key exactly one other row has gets from it the cells that it lacks;
/// what it says itself stays.
pub proof fn law_rows_are_joined_by_their_key(
    row: RowView,
    donors: Seq<RowView>,
    rule: SystemRuleView,
    key: Seq<char>,
    j: int,
    name: Seq<char>,
)
    requires
        get(row, rule.join_key) == Some(key),
        key.len() > 0,
        is_only(donors, rule.join_foreign_key, key, j),
    ensures
        get(row, name) is Some ==> get(joined_row(row, donors, rule), name) == get(row, name),
        get(row, name) is None ==> get(joined_row(row, donors, rule), name) == get(donors[j], name),
{
    lemma_one_partner(donors, rule.join_foreign_key, key, j);
    let d = donors[j];
    lemma_completed(row, d, d.len() as int, name);
    assert(d.subrange(0, d.len() as int) =~= d);
}

/// A row stays as it is where it has no key, where no row has its key and where two
/// rows have it.
pub proof fn law_rows_without_one_partner_stay(
    row: RowView,
    donors: Seq<RowView>,
    rule: SystemRuleView,
    a: int,
    b: int,
)
    ensures
        get(row, rule.join_key) is None ==> joined_row(row, donors, rule) == row,
        get(row, rule.join_key) == Some(Seq::<char>::empty()) ==> joined_row(row, donors, rule)
            == row,
        (forall|k: int|
            0 <= k < donors.len() ==> get(#[trigger] donors[k], rule.join_foreign_key) != get(
                row,
                rule.join_key,
            )) ==> joined_row(row, donors, rule) == row,
        0 <= a < b < donors.len() && get(donors[a], rule.join_foreign_key) == get(
            row,
            rule.join_key,
        ) && get(donors[b], rule.join_foreign_key) == get(row, rule.join_key) ==> joined_row(
            row,
            donors,
            rule,
        ) == row,
{
    let p = partners(row, donors, rule);
    if let Some(key) = get(row, rule.join_key) {
        let f = has_key(rule.join_foreign_key, key);
        assert(p == kept(donors, f, 0));
        if p.len() == 1 {
            let j = lemma_kept_source(donors, f, 0);
            assert(f(donors[j])) by {
                lemma_kept_holds(donors, f, 0);
            }
        }
        if 0 <= a < b < donors.len() && f(donors[a]) && f(donors[b]) {
            lemma_two_kept(donors, f, 0, a, b);
        }
    }
}

proof fn lemma_two_kept<A>(s: Seq<A>, f: spec_fn(A) -> bool, i: int, a: int, b: int)
    requires
        0 <= i,
        0 <= a < b < s.len(),
        f(s[a]),
        f(s[b]),
    ensures
        i <= b ==> kept(s, f, i).len() >= 1,
        i <= a ==> kept(s, f, i).len() >= 2,
    decreases s.len() - i,
{
    if i < s.len() {
        lemma_two_kept(s, f, i + 1, a, b);
    }
}

/// Whether a row has a key that not exactly one of the rows has.
pub open spec fn is_unresolved(row: RowView, donors: Seq<RowView>, rule: SystemRuleView) -> bool {
    get(row, rule.join_key) matches Some(key) && key.len() > 0 && forall|j: int|
        !(#[trigger] is_only(donors, rule.join_foreign_key, key, j))
}

proof fn lemma_unresolved(row: RowView, donors: Seq<RowView>, rule: SystemRuleView)
    ensures
        unresolved(donors, rule)(row) == is_unresolved(row, donors, rule),
{
    let p = partners(row, donors, rule);
    if let Some(key) = get(row, rule.join_key) {
        let name = rule.join_foreign_key;
        let f = has_key(name, key);
        assert(p == kept(donors, f, 0));
        if p.len() == 1 {
            let j = lemma_kept_source(donors, f, 0);
            assert(f(donors[j])) by {
                lemma_kept_holds(donors, f, 0);
            }
            assert forall|k: int| 0 <= k < donors.len() && k != j implies get(
                #[trigger] donors[k],
                name,
            ) != Some(key) by {
                if get(donors[k], name) == Some(key) {
                    assert(f(donors[k]));
                    if k < j {
                        lemma_two_kept(donors, f, 0, k, j);
                    } else {
                        lemma_two_kept(donors, f, 0, j, k);
                    }
                }
            }
            assert(is_only(donors, name, key, j));
        }
        assert forall|j: int| #[trigger] is_only(donors, name, key, j) implies p.len() == 1 by {
            lemma_one_partner(donors, name, key, j);
        }
    }
}

/// A joined table says that rows were left alone exactly where a key of its rows is
/// missing or not unique in the other tables; else it says what it said before.
pub proof fn law_joined_tables_say_what_stayed(
    t: TableView,
    donors: Seq<TableView>,
    rule: SystemRuleView,
)
    ensures
        ({
            let rows = all_rows(donors, donors.len() as int);
            let left = exists|i: int|
                0 <= i < t.rows.len() && is_unresolved(#[trigger] t.rows[i], rows, rule);
            joined_table(t, donors, rule).warning == (if left {
                "部分关联键缺失或不唯一，未合并的来源保留独立展示"@
            } else {
                t.warning
            })
        }),
{
    let rows = all_rows(donors, donors.len() as int);
    let f = unresolved(rows, rule);
    assert forall|i: int| 0 <= i < t.rows.len() implies f(#[trigger] t.rows[i]) == is_unresolved(
        t.rows[i],
        rows,
        rule,
    ) by {
        lemma_unresolved(t.rows[i], rows, rule);
    }
    if any(t.rows, f) {
        let i = choose|i: int| 0 <= i < t.rows.len() && f(#[trigger] t.rows[i]);
        assert(is_unresolved(t.rows[i], rows, rule));
    }
    if exists|i: int| 0 <= i < t.rows.len() && is_unresolved(#[trigger] t.rows[i], rows, rule) {
        let i = choose|i: int| 0 <= i < t.rows.len() && is_unresolved(#[trigger] t.rows[i], rows, rule);
        assert(f(t.rows[i]));
    }
}

/// The rows that a table may be joined with are those of every other table.
pub proof fn law_all_tables_give_their_rows(tables: Seq<TableView>, n: int, row: RowView)
    requires
        0 <= n <= tables.len(),
    ensures
        all_rows(tables, n).contains(row) <==> exists|i: int|
            0 <= i < n && (#[trigger] tables[i]).rows.contains(row),
    decreases n,
{
    if n > 0 {
        law_all_tables_give_their_rows(tables, n - 1, row);
        let a = all_rows(tables, n - 1);
        let b = tables[n - 1].rows;
        let all = a + b;
        if all.contains(row) {
            let i = choose|i: int| 0 <= i < all.len() && all[i] == row;
            if i < a.len() {
                assert(a[i] == row);
            } else {
                assert(b[i - a.len()] == row);
            }
        }
        if a.contains(row) {
            let i = choose|i: int| 0 <= i < a.len() && a[i] == row;
            assert(all[i] == row);
        }
        if b.contains(row) {
            let i = choose|i: int| 0 <= i < b.len() && b[i] == row;
            assert(all[a.len() + i] == row);
        }
    }
}

/// Whether one of the fields has a name.
pub open spec fn has_field(fields: Seq<FieldView>, name: Seq<char>) -> bool {
    exists|i: int| 0 <= i < fields.len() && (#[trigger] fields[i]).name == name
}

proof fn lemma_more_fields(fields: Seq<FieldView>, others: Seq<FieldView>, n: int, name: Seq<char>)
    requires
        0 <= n <= others.len(),
    ensures
        more_fields(fields, others, n).len() >= fields.len(),
        more_fields(fields, others, n).subrange(0, fields.len() as int) == fields,
        has_field(more_fields(fields, others, n), name) <==> has_field(fields, name) || has_field(
            others.subrange(0, n),
            name,
        ),
    decreases n,
{
    if n > 0 {
        lemma_more_fields(fields, others, n - 1, name);
        let f = more_fields(fields, others, n - 1);
        let g = more_fields(fields, others, n);
        let o = others[n - 1];
        let a = others.subrange(0, n - 1);
        let b = others.subrange(0, n);
        assert(b =~= a.push(o));
        let known = any(f, named(o.name));
        assert(known == has_field(f, o.name)) by {
            let p = named(o.name);
            if known {
                let i = choose|i: int| 0 <= i < f.len() && p(#[trigger] f[i]);
                assert(f[i].name == o.name);
            }
            if has_field(f, o.name) {
                let i = choose|i: int| 0 <= i < f.len() && (#[trigger] f[i]).name == o.name;
                assert(p(f[i]));
            }
        }
        assert(has_field(b, name) == (has_field(a, name) || o.name == name)) by {
            if has_field(b, name) {
                let i = choose|i: int| 0 <= i < b.len() && (#[trigger] b[i]).name == name;
                if i < a.len() {
                    assert(a[i].name == name);
                }
            }
            if has_field(a, name) {
                let i = choose|i: int| 0 <= i < a.len() && (#[trigger] a[i]).name == name;
                assert(b[i].name == name);
            }
            assert(b[n - 1] == o);
        }
        if !known {
            assert(g == f.push(o));
            assert(g.subrange(0, fields.len() as int) =~= f.subrange(0, fields.len() as int));
            if has_field(g, name) {
                let i = choose|i: int| 0 <= i < g.len() && (#[trigger] g[i]).name == name;
                if i < f.len() {
                    assert(f[i].name == name);
                }
            }
            if has_field(f, name) {
                let i = choose|i: int| 0 <= i < f.len() && (#[trigger] f[i]).name == name;
                assert(g[i].name == name);
            }
            assert(g[f.len() as int] == o);
        } else {
            assert(has_field(f, o.name));
        }
    } else {
        assert(fields.subrange(0, fields.len() as int) =~= fields);
    }
}

/// A joined table keeps its fields in front and has, behind them, every field that
/// only another table has.
pub proof fn law_joined_tables_have_all_fields(
    fields: Seq<FieldView>,
    tables: Seq<TableView>,
    n: int,
    name: Seq<char>,
)
    requires
        0 <= n <= tables.len(),
    ensures
        fields_with(fields, tables, n).len() >= fields.len(),
        fields_with(fields, tables, n).subrange(0, fields.len() as int) == fields,
        has_field(fields_with(fields, tables, n), name) <==> has_field(fields, name) || exists|
            i: int,
        |
            0 <= i < n && has_field((#[trigger] tables[i]).fields, name),
    decreases n,
{
    if n > 0 {
        law_joined_tables_have_all_fields(fields, tables, n - 1, name);
        let f = fields_with(fields, tables, n - 1);
        let o = tables[n - 1].fields;
        lemma_more_fields(f, o, o.len() as int, name);
        assert(o.subrange(0, o.len() as int) =~= o);
        let g = fields_with(fields, tables, n);
        assert(g.subrange(0, fields.len() as int) =~= g.subrange(0, f.len() as int).subrange(
            0,
            fields.len() as int,
        ));
    } else {
        assert(fields.subrange(0, fields.len() as int) =~= fields);
    }
}

/// A rule joins its own table, with the tables of the rule that it names, and no
/// other.
pub proof fn law_rules_join_their_own_table(
    t: TableView,
    originals: Seq<TableView>,
    rule: SystemRuleView,
    i: int,
)
    requires
        0 <= i < t.rows.len(),
    ensures
        rule.join_rule.len() == 0 || t.id != rule.id ==> table_after(t, originals, rule) == t,
        rule.join_rule.len() > 0 && t.id == rule.id && (forall|k: int|
            0 <= k < originals.len() ==> (#[trigger] originals[k]).id == rule.join_rule)
            ==> table_after(t, originals, rule).rows[i] == joined_row(
            t.rows[i],
            all_rows(originals, originals.len() as int),
            rule,
        ),
{
    let f = is_donor(rule.join_rule);
    if forall|k: int| 0 <= k < originals.len() ==> (#[trigger] originals[k]).id == rule.join_rule {
        lemma_all_kept(originals, f, 0);
        assert(originals.subrange(0, originals.len() as int) =~= originals);
    }
}

proof fn lemma_all_kept<A>(s: Seq<A>, f: spec_fn(A) -> bool, i: int)
    requires
        0 <= i <= s.len(),
        forall|k: int| 0 <= k < s.len() ==> f(#[trigger] s[k]),
    ensures
        kept(s, f, i) == s.subrange(i, s.len() as int),
    decreases s.len() - i,
{
    if i < s.len() {
        lemma_all_kept(s, f, i + 1);
        assert(kept(s, f, i) =~= s.subrange(i, s.len() as int));
    } else {
        assert(s.subrange(i, s.len() as int) =~= Seq::<A>::empty());
    }
}

} // verus!
