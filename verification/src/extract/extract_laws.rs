//! What is true of every table that is extracted.

use crate::extract::extractor::{
    chunk_row, chunk_rows, chunks_of, column_pairs, column_rows, continued, extracted, filled,
    heading, heads_from, item_disks, item_rows, json_raws, keeps_row, looked_up, match_rows,
    or_empty, parent_disks, parent_rows, root_of, row_of, selector_parts, shows_disks,
};
use crate::extract::format::{cell_text, Sizes};
use crate::outside::json::Json;
use crate::outside::pattern::{pattern_names, pattern_rows};
use crate::row::{get, has_text, in_order, law_put_keeps_order, put_from, RowView};
use crate::rules::merge::lookup;
use crate::rules::model::{FieldView, SystemRuleView};
use crate::select::lemma_kept_source;
use crate::text::{before, blank, kept, lines};
use vstd::prelude::*;

verus! {

/// Whether a row has a cell under a name.
pub open spec fn has_name(s: RowView, name: Seq<char>) -> bool {
    exists|k: int| 0 <= k < s.len() && (#[trigger] s[k]).0 == name
}

/// Whether one of the first `n` fields has a name.
pub open spec fn field_named(fields: Seq<FieldView>, n: int, name: Seq<char>) -> bool {
    exists|i: int| 0 <= i < n && (#[trigger] fields[i]).name == name
}

/// Whether a row has a cell for each of the first `n` fields and no other, in the
/// order of their names.
pub open spec fn has_fields(s: RowView, fields: Seq<FieldView>, n: int) -> bool {
    &&& in_order(s)
    &&& forall|name: Seq<char>| #[trigger] has_name(s, name) <==> field_named(fields, n, name)
}

proof fn lemma_put_names(s: RowView, name: Seq<char>, text: Seq<char>, i: int, x: Seq<char>)
    requires
        0 <= i <= s.len(),
    ensures
        has_name(put_from(s, name, text, i), x) <==> x == name || has_name(s, x),
    decreases s.len() - i,
{
    let r = put_from(s, name, text, i);
    if i >= s.len() {
        assert(r[s.len() as int].0 == name);
        if has_name(s, x) {
            let k = choose|k: int| 0 <= k < s.len() && (#[trigger] s[k]).0 == x;
            assert(r[k].0 == x);
        }
        if has_name(r, x) && x != name {
            let k = choose|k: int| 0 <= k < r.len() && (#[trigger] r[k]).0 == x;
            assert(s[k].0 == x);
        }
    } else if s[i].0 == name {
        assert(r[i].0 == name);
        if has_name(s, x) {
            let k = choose|k: int| 0 <= k < s.len() && (#[trigger] s[k]).0 == x;
            assert(r[k].0 == x);
        }
        if has_name(r, x) && x != name {
            let k = choose|k: int| 0 <= k < r.len() && (#[trigger] r[k]).0 == x;
            assert(s[k].0 == x);
        }
    } else if before(name, s[i].0) {
        assert(r[i].0 == name);
        if has_name(s, x) {
            let k = choose|k: int| 0 <= k < s.len() && (#[trigger] s[k]).0 == x;
            if k < i {
                assert(r[k].0 == x);
            } else {
                assert(r[k + 1].0 == x);
            }
        }
        if has_name(r, x) && x != name {
            let k = choose|k: int| 0 <= k < r.len() && (#[trigger] r[k]).0 == x;
            if k < i {
                assert(s[k].0 == x);
            } else {
                assert(s[k - 1].0 == x);
            }
        }
    } else {
        lemma_put_names(s, name, text, i + 1, x);
    }
}

proof fn lemma_filled(fields: Seq<FieldView>, raws: Seq<Seq<char>>, sizes: Sizes, n: int)
    requires
        0 <= n <= fields.len(),
    ensures
        has_fields(filled(fields, raws, sizes, n), fields, n),
    decreases n,
{
    let out = filled(fields, raws, sizes, n);
    if n > 0 {
        lemma_filled(fields, raws, sizes, n - 1);
        let was = filled(fields, raws, sizes, n - 1);
        let f = fields[n - 1];
        let text = cell_text(raws[n - 1], f, sizes);
        law_put_keeps_order(was, f.name, text);
        assert forall|name: Seq<char>| #[trigger] has_name(out, name) <==> field_named(
            fields,
            n,
            name,
        ) by {
            lemma_put_names(was, f.name, text, 0, name);
            if field_named(fields, n - 1, name) {
                let i = choose|i: int| 0 <= i < n - 1 && (#[trigger] fields[i]).name == name;
                assert(fields[i].name == name);
            }
            if field_named(fields, n, name) && name != f.name {
                let i = choose|i: int| 0 <= i < n && (#[trigger] fields[i]).name == name;
                assert(i < n - 1);
                assert(field_named(fields, n - 1, name));
            }
        }
    }
}

proof fn lemma_row(fields: Seq<FieldView>, raws: Seq<Seq<char>>, sizes: Sizes)
    ensures
        has_fields(row_of(fields, raws, sizes), fields, fields.len() as int),
{
    lemma_filled(fields, raws, sizes, fields.len() as int);
}

/// Whether each row has a cell for each field and no other.
pub open spec fn all_have_fields(rows: Seq<RowView>, fields: Seq<FieldView>) -> bool {
    forall|k: int|
        0 <= k < rows.len() ==> has_fields(#[trigger] rows[k], fields, fields.len() as int)
}

proof fn lemma_item_rows(
    root: Json,
    parent: Json,
    items: Seq<Json>,
    fields: Seq<FieldView>,
    sizes: Sizes,
    n: int,
)
    requires
        0 <= n,
    ensures
        all_have_fields(item_rows(root, parent, items, fields, sizes, n), fields),
        item_rows(root, parent, items, fields, sizes, n).len() == n,
    decreases n,
{
    if n > 0 {
        lemma_item_rows(root, parent, items, fields, sizes, n - 1);
        lemma_row(fields, json_raws(root, parent, items[n - 1], fields), sizes);
    }
}

proof fn lemma_item_disks(parent: Json, p: int, items: Seq<Json>, whole: bool, n: int)
    requires
        0 <= n,
    ensures
        item_disks(parent, p, items, whole, n).len() == n,
    decreases n,
{
    if n > 0 {
        lemma_item_disks(parent, p, items, whole, n - 1);
    }
}

proof fn lemma_parent_rows(
    root: Json,
    parents: Seq<Json>,
    child: Seq<char>,
    fields: Seq<FieldView>,
    sizes: Sizes,
    whole: bool,
    n: int,
)
    ensures
        all_have_fields(parent_rows(root, parents, child, fields, sizes, n), fields),
        parent_rows(root, parents, child, fields, sizes, n).len() == parent_disks(
            parents,
            child,
            whole,
            n,
        ).len(),
    decreases n,
{
    if n > 0 {
        lemma_parent_rows(root, parents, child, fields, sizes, whole, n - 1);
        let items = crate::extract::path::selected(parents[n - 1], child);
        let m = items.len() as int;
        lemma_item_rows(root, parents[n - 1], items, fields, sizes, m);
        lemma_item_disks(parents[n - 1], n - 1, items, whole, m);
        let was = parent_rows(root, parents, child, fields, sizes, n - 1);
        let more = item_rows(root, parents[n - 1], items, fields, sizes, m);
        assert forall|k: int| 0 <= k < (was + more).len() implies has_fields(
            #[trigger] (was + more)[k],
            fields,
            fields.len() as int,
        ) by {
            if k < was.len() {
                assert((was + more)[k] == was[k]);
            } else {
                assert((was + more)[k] == more[k - was.len()]);
            }
        }
    }
}

proof fn lemma_chunk_rows(
    chunks: Seq<Seq<char>>,
    selector: Seq<char>,
    fields: Seq<FieldView>,
    sizes: Sizes,
    n: int,
)
    ensures
        all_have_fields(chunk_rows(chunks, selector, fields, sizes, n), fields),
    decreases n,
{
    if n > 0 {
        lemma_chunk_rows(chunks, selector, fields, sizes, n - 1);
        let was = chunk_rows(chunks, selector, fields, sizes, n - 1);
        let more = chunk_row(chunks[n - 1], selector, fields, sizes);
        let ls = lines(chunks[n - 1]);
        lemma_row(
            fields,
            looked_up(crate::extract::extractor::line_pairs(ls, ls.len() as int), fields),
            sizes,
        );
        assert forall|k: int| 0 <= k < (was + more).len() implies has_fields(
            #[trigger] (was + more)[k],
            fields,
            fields.len() as int,
        ) by {
            if k < was.len() {
                assert((was + more)[k] == was[k]);
            } else {
                assert((was + more)[k] == more[k - was.len()]);
            }
        }
    }
}

proof fn lemma_continued(
    row: RowView,
    pairs: Seq<(Seq<char>, Seq<char>)>,
    fields: Seq<FieldView>,
    n: int,
)
    requires
        has_fields(row, fields, fields.len() as int),
        n <= fields.len(),
    ensures
        has_fields(continued(row, pairs, fields, n), fields, fields.len() as int),
    decreases n,
{
    if n > 0 {
        lemma_continued(row, pairs, fields, n - 1);
        let was = continued(row, pairs, fields, n - 1);
        let out = continued(row, pairs, fields, n);
        let f = fields[n - 1];
        match lookup(pairs, f.path) {
            Some(v) => {
                if v.len() > 0 {
                    let text = or_empty(get(was, f.name)) + "\n"@ + v;
                    law_put_keeps_order(was, f.name, text);
                    assert(field_named(fields, fields.len() as int, f.name));
                    assert forall|name: Seq<char>| #[trigger] has_name(out, name) <==> field_named(
                        fields,
                        fields.len() as int,
                        name,
                    ) by {
                        lemma_put_names(was, f.name, text, 0, name);
                        assert(has_name(was, name) <==> field_named(
                            fields,
                            fields.len() as int,
                            name,
                        ));
                    }
                }
            },
            None => {},
        }
    }
}

proof fn lemma_column_rows(
    heads: Seq<(int, Seq<char>)>,
    ls: Seq<Seq<char>>,
    fields: Seq<FieldView>,
    sizes: Sizes,
    n: int,
)
    ensures
        all_have_fields(column_rows(heads, ls, fields, sizes, n), fields),
    decreases n,
{
    if n > 1 {
        lemma_column_rows(heads, ls, fields, sizes, n - 1);
        let rows = column_rows(heads, ls, fields, sizes, n - 1);
        let out = column_rows(heads, ls, fields, sizes, n);
        let pairs = column_pairs(ls[n - 1], heads);
        lemma_row(fields, looked_up(pairs, fields), sizes);
        if !blank(ls[n - 1]) && rows.len() > 0 {
            assert(has_fields(rows[rows.len() - 1], fields, fields.len() as int));
            lemma_continued(rows.last(), pairs, fields, fields.len() as int);
        }
        assert forall|k: int| 0 <= k < out.len() implies has_fields(
            #[trigger] out[k],
            fields,
            fields.len() as int,
        ) by {
            if k < rows.len() {
                assert(has_fields(rows[k], fields, fields.len() as int));
            }
        }
    }
}

/// Every row of an extracted table has a cell for each field of the rule and no
/// other. A table of disks tells the disk of each row; any other has only rows with
/// a text. A table without rows says what is missing, one with rows says nothing.
pub proof fn law_rows_have_the_fields(
    r: SystemRuleView,
    text: Seq<char>,
    source: Seq<char>,
    json: Option<Json>,
    sizes: Sizes,
)
    ensures
        ({
            let t = extracted(r, text, source, json, sizes);
            &&& all_have_fields(t.rows, r.fields)
            &&& t.storage.len() == t.rows.len() || (t.storage.len() == 0 && forall|k: int|
                0 <= k < t.rows.len() ==> has_text(#[trigger] t.rows[k]))
            &&& t.warning == (if t.rows.len() == 0 {
                r.missing
            } else {
                Seq::empty()
            })
        }),
{
    let t = extracted(r, text, source, json, sizes);
    let ls = lines(text);
    let chunks = chunks_of(r, text);
    let root = root_of(json, text)->0;
    let (parent, child) = selector_parts(r.selector);
    let parents = crate::extract::path::selected(root, parent);
    let n = parents.len() as int;
    let rows = if r.kind == "json"@ {
        parent_rows(root, parents, child, r.fields, sizes, n)
    } else if r.kind == "regex"@ {
        match_rows(
            pattern_names(r.pattern, false),
            pattern_rows(r.pattern, false, text),
            r.fields,
            sizes,
        )
    } else if r.kind == "columns"@ {
        column_rows(heads_from(heading(ls), 0), ls, r.fields, sizes, ls.len() as int)
    } else {
        chunk_rows(chunks, r.selector, r.fields, sizes, chunks.len() as int)
    };
    lemma_parent_rows(root, parents, child, r.fields, sizes, r.view == "storage"@, n);
    lemma_column_rows(heads_from(heading(ls), 0), ls, r.fields, sizes, ls.len() as int);
    lemma_chunk_rows(chunks, r.selector, r.fields, sizes, chunks.len() as int);
    if r.kind == "regex"@ {
        let names = pattern_names(r.pattern, false);
        let found = pattern_rows(r.pattern, false, text);
        assert forall|k: int| 0 <= k < rows.len() implies has_fields(
            #[trigger] rows[k],
            r.fields,
            r.fields.len() as int,
        ) by {
            lemma_row(
                r.fields,
                crate::extract::extractor::group_raws(names, found[k], r.fields),
                sizes,
            );
        }
    }
    assert(all_have_fields(rows, r.fields));
    if t.storage.len() == 0 {
        assert(t.rows == kept(rows, keeps_row(), 0));
        assert forall|k: int| 0 <= k < t.rows.len() implies has_fields(
            #[trigger] t.rows[k],
            r.fields,
            r.fields.len() as int,
        ) && has_text(t.rows[k]) by {
            let j = lemma_kept_source(rows, keeps_row(), k);
            assert(has_fields(rows[j], r.fields, r.fields.len() as int));
        }
    } else {
        assert(t.rows == rows);
        assert(r.kind == "json"@ && shows_disks(r.view));
    }
}

/// A row has a text exactly where one of its cells has one.
pub proof fn law_rows_have_a_text_where_a_cell_has(row: RowView, i: int)
    ensures
        0 <= i < row.len() && row[i].1.len() > 0 ==> has_text(row),
        (forall|k: int| 0 <= k < row.len() ==> (#[trigger] row[k]).1.len() == 0) ==> !has_text(row),
{
}

} // verus!
