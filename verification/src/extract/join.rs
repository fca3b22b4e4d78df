//! Joining tables by declared keys. A key that fits no row or several is never
//! guessed at.

use crate::extract::extractor::or_empty;
use crate::extract::model::{Table, TableView};
use crate::row::{get, put, Row, RowView};
use crate::rules::model::{Field, FieldView, SystemRule, SystemRuleView};
use crate::text::{any, duplicate_all, kept, same, views, Duplicate};
use vstd::prelude::*;

verus! {

pub open spec fn is_donor(id: Seq<char>) -> spec_fn(TableView) -> bool {
    |t: TableView| t.id == id
}

/// The rows of the first `n` tables, one table after the other.
pub open spec fn all_rows(tables: Seq<TableView>, n: int) -> Seq<RowView>
    decreases n,
{
    if n <= 0 {
        Seq::empty()
    } else {
        all_rows(tables, n - 1) + tables[n - 1].rows
    }
}

pub open spec fn has_key(name: Seq<char>, key: Seq<char>) -> spec_fn(RowView) -> bool {
    |r: RowView| get(r, name) == Some(key)
}

/// The row with those of the first `n` cells whose names it lacks.
pub open spec fn completed(row: RowView, cells: RowView, n: int) -> RowView
    decreases n,
{
    if n <= 0 {
        row
    } else {
        let r = completed(row, cells, n - 1);
        if get(r, cells[n - 1].0) is None {
            put(r, cells[n - 1].0, cells[n - 1].1)
        } else {
            r
        }
    }
}

/// The rows that a row may be joined with.
pub open spec fn partners(row: RowView, donors: Seq<RowView>, rule: SystemRuleView) -> Seq<
    RowView,
> {
    kept(donors, has_key(rule.join_foreign_key, or_empty(get(row, rule.join_key))), 0)
}

/// The row joined with the one row that has its key; unchanged where it has no
/// key or not exactly one row has it.
pub open spec fn joined_row(row: RowView, donors: Seq<RowView>, rule: SystemRuleView) -> RowView {
    let p = partners(row, donors, rule);
    if or_empty(get(row, rule.join_key)).len() > 0 && p.len() == 1 {
        completed(row, p[0], p[0].len() as int)
    } else {
        row
    }
}

/// Whether a row has a key that not exactly one row has.
pub open spec fn unresolved(donors: Seq<RowView>, rule: SystemRuleView) -> spec_fn(RowView) -> bool {
    |row: RowView|
        or_empty(get(row, rule.join_key)).len() > 0 && partners(row, donors, rule).len() != 1
}

pub open spec fn named(name: Seq<char>) -> spec_fn(FieldView) -> bool {
    |f: FieldView| f.name == name
}

/// The fields with those of the first `n` others whose names they lack.
pub open spec fn more_fields(fields: Seq<FieldView>, others: Seq<FieldView>, n: int) -> Seq<
    FieldView,
>
    decreases n,
{
    if n <= 0 {
        fields
    } else {
        let f = more_fields(fields, others, n - 1);
        if any(f, named(others[n - 1].name)) {
            f
        } else {
            f.push(others[n - 1])
        }
    }
}

/// The fields with those of the first `n` tables.
pub open spec fn fields_with(fields: Seq<FieldView>, tables: Seq<TableView>, n: int) -> Seq<
    FieldView,
>
    decreases n,
{
    if n <= 0 {
        fields
    } else {
        more_fields(
            fields_with(fields, tables, n - 1),
            tables[n - 1].fields,
            tables[n - 1].fields.len() as int,
        )
    }
}

pub open spec fn join_warning() -> Seq<char> {
    "部分关联键缺失或不唯一，未合并的来源保留独立展示"@
}

/// A table joined with others.
pub open spec fn joined_table(t: TableView, donors: Seq<TableView>, rule: SystemRuleView)
    -> TableView {
    let rows = all_rows(donors, donors.len() as int);
    TableView {
        rows: Seq::new(t.rows.len(), |i: int| joined_row(t.rows[i], rows, rule)),
        fields: fields_with(t.fields, donors, donors.len() as int),
        warning: if any(t.rows, unresolved(rows, rule)) {
            join_warning()
        } else {
            t.warning
        },
        ..t
    }
}

/// A table after one rule.
pub open spec fn table_after(t: TableView, originals: Seq<TableView>, rule: SystemRuleView)
    -> TableView {
    if rule.join_rule.len() > 0 && t.id == rule.id {
        joined_table(t, kept(originals, is_donor(rule.join_rule), 0), rule)
    } else {
        t
    }
}

/// The tables after the first `n` rules.
pub open spec fn joined_tables(tables: Seq<TableView>, rules: Seq<SystemRuleView>, n: int) -> Seq<
    TableView,
>
    decreases n,
{
    if n <= 0 {
        tables
    } else {
        let t = joined_tables(tables, rules, n - 1);
        Seq::new(t.len(), |i: int| table_after(t[i], tables, rules[n - 1]))
    }
}

fn find_donors(originals: &Vec<Table>, id: &str) -> (r: Vec<Table>)
    ensures
        views(r@) == kept(views(originals@), is_donor(id@), 0),
{
    let ghost tv = views(originals@);
    let ghost f = is_donor(id@);
    let mut out: Vec<Table> = Vec::new();
    let mut i: usize = 0;
    proof {
        assert(views(out@) + kept(tv, f, 0) =~= kept(tv, f, 0));
    }
    while i < originals.len()
        invariant
            i <= originals.len(),
            tv == views(originals@),
            f == is_donor(id@),
            views(out@) + kept(tv, f, i as int) == kept(tv, f, 0),
        decreases originals.len() - i,
    {
        let ghost was = views(out@);
        let hit = same(originals[i].id.as_str(), id);
        proof {
            assert(tv[i as int] == originals@[i as int]@);
            assert(hit == f(tv[i as int]));
        }
        if hit {
            out.push(originals[i].duplicate());
            proof {
                assert(views(out@) =~= was.push(tv[i as int]));
                assert(was + kept(tv, f, i as int) =~= views(out@) + kept(tv, f, i + 1));
            }
        }
        i += 1;
    }
    proof {
        assert(views(out@) + kept(tv, f, i as int) =~= views(out@));
    }
    out
}

fn collect_rows(tables: &Vec<Table>) -> (r: Vec<Row>)
    ensures
        views(r@) == all_rows(views(tables@), tables.len() as int),
{
    let ghost tv = views(tables@);
    let mut out: Vec<Row> = Vec::new();
    let mut i: usize = 0;
    proof {
        assert(views(out@) =~= all_rows(tv, 0));
    }
    while i < tables.len()
        invariant
            i <= tables.len(),
            tv == views(tables@),
            views(out@) == all_rows(tv, i as int),
        decreases tables.len() - i,
    {
        let mut more = duplicate_all(&tables[i].rows);
        proof {
            crate::text::lemma_views_add(out@, more@);
            assert(tv[i as int] == tables@[i as int]@);
        }
        out.append(&mut more);
        i += 1;
    }
    out
}

fn find_partners(donors: &Vec<Row>, name: &str, key: &str) -> (r: Vec<usize>)
    ensures
        r.len() == kept(views(donors@), has_key(name@, key@), 0).len(),
        forall|i: int|
            0 <= i < r.len() ==> (#[trigger] r@[i]) < donors.len() && donors@[r@[i] as int]@
                == kept(views(donors@), has_key(name@, key@), 0)[i],
{
    let ghost dv = views(donors@);
    let ghost f = has_key(name@, key@);
    let mut out: Vec<usize> = Vec::new();
    let ghost mut seen: Seq<RowView> = Seq::empty();
    let mut i: usize = 0;
    proof {
        assert(seen + kept(dv, f, 0) =~= kept(dv, f, 0));
    }
    while i < donors.len()
        invariant
            i <= donors.len(),
            dv == views(donors@),
            f == has_key(name@, key@),
            seen + kept(dv, f, i as int) == kept(dv, f, 0),
            out.len() == seen.len(),
            forall|k: int|
                0 <= k < out.len() ==> (#[trigger] out@[k]) < donors.len() && donors@[out@[k] as int]@
                    == seen[k],
        decreases donors.len() - i,
    {
        let hit = match donors[i].get(name) {
            Some(t) => same(t.as_str(), key),
            None => false,
        };
        proof {
            assert(dv[i as int] == donors@[i as int]@);
            assert(hit == f(dv[i as int]));
        }
        if hit {
            let ghost was = seen;
            out.push(i);
            proof {
                seen = seen.push(dv[i as int]);
                assert(was + kept(dv, f, i as int) =~= seen + kept(dv, f, i + 1));
            }
        }
        i += 1;
    }
    proof {
        assert(seen + kept(dv, f, i as int) =~= seen);
    }
    out
}

fn complete_row(row: &mut Row, from: &Row)
    ensures
        final(row)@ == completed(old(row)@, from@, from@.len() as int),
{
    let ghost start = row@;
    let ghost cv = from@;
    let mut i: usize = 0;
    while i < from.cells.len()
        invariant
            i <= from.cells.len(),
            cv == from@,
            row@ == completed(start, cv, i as int),
        decreases from.cells.len() - i,
    {
        proof {
            assert(cv[i as int] == (from.cells@[i as int].0@, from.cells@[i as int].1@));
        }
        if row.get(from.cells[i].0.as_str()).is_none() {
            row.insert(from.cells[i].0.clone(), from.cells[i].1.clone());
        }
        i += 1;
    }
}

/// Joins a row; the flag tells whether its key was not resolved.
fn join_row(row: &Row, donors: &Vec<Row>, rule: &SystemRule) -> (r: (Row, bool))
    ensures
        r.0@ == joined_row(row@, views(donors@), rule@),
        r.1 == unresolved(views(donors@), rule@)(row@),
{
    let mut out = row.duplicate();
    let key = match row.get(rule.join_key.as_str()) {
        Some(t) => t.clone(),
        None => {
            let s = String::new();
            proof {
                assert(s@ =~= Seq::<char>::empty());
            }
            s
        },
    };
    if key.as_str().is_empty() {
        return (out, false);
    }
    let found = find_partners(donors, rule.join_foreign_key.as_str(), key.as_str());
    if found.len() == 1 {
        let k = found[0];
        proof {
            assert(found@[0] < donors.len());
        }
        complete_row(&mut out, &donors[k]);
        (out, false)
    } else {
        (out, true)
    }
}

fn holds_field(fields: &Vec<Field>, name: &str) -> (r: bool)
    ensures
        r == any(views(fields@), named(name@)),
{
    let ghost fv = views(fields@);
    let ghost f = named(name@);
    let mut i: usize = 0;
    while i < fields.len()
        invariant
            i <= fields.len(),
            fv == views(fields@),
            f == named(name@),
            forall|j: int| 0 <= j < i ==> !f(#[trigger] fv[j]),
        decreases fields.len() - i,
    {
        let hit = same(fields[i].name.as_str(), name);
        proof {
            assert(fv[i as int] == fields@[i as int]@);
            assert(hit == f(fv[i as int]));
        }
        if hit {
            return true;
        }
        i += 1;
    }
    false
}

fn add_fields(fields: &mut Vec<Field>, others: &Vec<Field>)
    ensures
        views(final(fields)@) == more_fields(
            views(old(fields)@),
            views(others@),
            others.len() as int,
        ),
{
    let ghost start = views(fields@);
    let ghost ov = views(others@);
    let mut i: usize = 0;
    while i < others.len()
        invariant
            i <= others.len(),
            ov == views(others@),
            views(fields@) == more_fields(start, ov, i as int),
        decreases others.len() - i,
    {
        let ghost was = views(fields@);
        proof {
            assert(ov[i as int] == others@[i as int]@);
        }
        if !holds_field(fields, others[i].name.as_str()) {
            fields.push(others[i].duplicate());
            proof {
                assert(views(fields@) =~= was.push(ov[i as int]));
            }
        }
        i += 1;
    }
}

fn join_table(t: &mut Table, donors: &Vec<Table>, rule: &SystemRule)
    ensures
        final(t)@ == joined_table(old(t)@, views(donors@), rule@),
{
    let ghost start = t@;
    let ghost dv = views(donors@);
    let pool = collect_rows(donors);
    let ghost pv = views(pool@);
    let ghost bad = unresolved(pv, rule@);
    let mut rows: Vec<Row> = Vec::new();
    let mut ambiguous = false;
    let mut i: usize = 0;
    while i < t.rows.len()
        invariant
            i <= t.rows.len(),
            t@ == start,
            start.rows == views(t.rows@),
            pv == views(pool@),
            bad == unresolved(pv, rule@),
            rows.len() == i,
            forall|j: int|
                0 <= j < i ==> (#[trigger] rows@[j])@ == joined_row(start.rows[j], pv, rule@),
            ambiguous == exists|j: int| 0 <= j < i && bad(#[trigger] start.rows[j]),
        decreases t.rows.len() - i,
    {
        proof {
            assert(start.rows[i as int] == t.rows@[i as int]@);
        }
        let (row, open) = join_row(&t.rows[i], &pool, rule);
        proof {
            assert(open == bad(start.rows[i as int]));
        }
        rows.push(row);
        ambiguous = ambiguous || open;
        i += 1;
    }
    let mut fields = duplicate_all(&t.fields);
    let mut k: usize = 0;
    while k < donors.len()
        invariant
            k <= donors.len(),
            dv == views(donors@),
            views(fields@) == fields_with(start.fields, dv, k as int),
        decreases donors.len() - k,
    {
        proof {
            assert(dv[k as int] == donors@[k as int]@);
        }
        add_fields(&mut fields, &donors[k].fields);
        k += 1;
    }
    proof {
        assert(views(rows@) =~= joined_table(start, dv, rule@).rows);
    }
    t.rows = rows;
    t.fields = fields;
    if ambiguous {
        t.warning = "部分关联键缺失或不唯一，未合并的来源保留独立展示".to_owned();
    }
    proof {
        assert(t@ =~= joined_table(start, dv, rule@));
    }
}

/// Joins the tables as the rules declare it. Each join reads the tables as they
/// were before any of them.
pub fn join_tables(tables: &mut Vec<Table>, rules: &Vec<SystemRule>)
    ensures
        views(final(tables)@) == joined_tables(
            views(old(tables)@),
            views(rules@),
            rules.len() as int,
        ),
{
    let originals = duplicate_all(tables);
    let ghost ov = views(originals@);
    let ghost rv = views(rules@);
    let mut i: usize = 0;
    while i < rules.len()
        invariant
            i <= rules.len(),
            ov == views(originals@),
            rv == views(rules@),
            views(tables@) == joined_tables(ov, rv, i as int),
        decreases rules.len() - i,
    {
        let rule = &rules[i];
        let ghost before = views(tables@);
        proof {
            assert(rv[i as int] == rule@);
        }
        if !rule.join_rule.as_str().is_empty() {
            let donors = find_donors(&originals, rule.join_rule.as_str());
            let ghost dv = views(donors@);
            let mut k: usize = 0;
            while k < tables.len()
                invariant
                    k <= tables.len(),
                    tables.len() == before.len(),
                    rule.join_rule@.len() > 0,
                    dv == views(donors@),
                    dv == kept(ov, is_donor(rule.join_rule@), 0),
                    forall|j: int|
                        0 <= j < k ==> (#[trigger] tables@[j])@ == table_after(
                            before[j],
                            ov,
                            rule@,
                        ),
                    forall|j: int| k <= j < tables.len() ==> (#[trigger] tables@[j])@ == before[j],
                decreases tables.len() - k,
            {
                if same(tables[k].id.as_str(), rule.id.as_str()) {
                    let mut t = tables[k].duplicate();
                    join_table(&mut t, &donors, rule);
                    tables.set(k, t);
                }
                k += 1;
            }
        }
        proof {
            assert(views(tables@) =~= joined_tables(ov, rv, i + 1));
        }
        i += 1;
    }
}

} // verus!
