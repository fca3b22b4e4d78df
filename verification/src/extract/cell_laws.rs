//! Which cells are read from which place of a text.

use crate::extract::extractor::{
    chunk_row, chunk_rows, chunks_of, column_cell, column_pairs, column_rows, extracted, filled,
    group_raw, heads_from, keeps_row, line_pairs, looked_up, match_rows, row_of,
};
use crate::extract::format::{cell_text, Sizes};
use crate::outside::clock::unix_time;
use crate::outside::pattern::{pattern_fault, pattern_groups, pattern_names, pattern_rows};
use crate::row::{get, law_put_keeps_others, law_put_then_get, RowView};
use crate::rules::merge::{given, lookup};
use crate::rules::model::{FieldView, SystemRuleView};
use crate::text::{lemma_seek_bounds, lines, seek, signed, trim, unsigned, Class};
use crate::text_laws::{
    all_in, is_bare, law_texts_are_cut_at_the_character, law_trimming_takes_the_ends, none_in,
};
use vstd::prelude::*;

verus! {

proof fn lemma_filled(fields: Seq<FieldView>, raws: Seq<Seq<char>>, sizes: Sizes, n: int, i: int)
    requires
        0 <= i < n <= fields.len(),
        forall|j: int| i < j < n ==> (#[trigger] fields[j]).name != fields[i].name,
    ensures
        get(filled(fields, raws, sizes, n), fields[i].name) == Some(
            cell_text(raws[i], fields[i], sizes),
        ),
    decreases n,
{
    let before = filled(fields, raws, sizes, n - 1);
    let f = fields[n - 1];
    let text = cell_text(raws[n - 1], f, sizes);
    if i == n - 1 {
        law_put_then_get(before, f.name, text, 0);
    } else {
        lemma_filled(fields, raws, sizes, n - 1, i);
        law_put_keeps_others(before, f.name, text, fields[i].name, 0);
    }
}

/// A row has under the name of each field the text that the field makes of its
/// value; of fields with one name the last counts.
pub proof fn law_fields_have_their_cells(
    fields: Seq<FieldView>,
    raws: Seq<Seq<char>>,
    sizes: Sizes,
    i: int,
)
    requires
        0 <= i < fields.len(),
        forall|j: int| i < j < fields.len() ==> (#[trigger] fields[j]).name != fields[i].name,
    ensures
        get(row_of(fields, raws, sizes), fields[i].name) == Some(
            cell_text(raws[i], fields[i], sizes),
        ),
{
    lemma_filled(fields, raws, sizes, fields.len() as int, i);
}

/// The value of a field: the text itself, or what the first group of the field's
/// expression matches in it; nothing where it does not match.
pub open spec fn is_value(f: FieldView, raw: Seq<char>, value: Seq<char>) -> bool {
    if f.capture.len() == 0 {
        value == raw
    } else if pattern_fault(f.capture, false) is Some {
        value.len() == 0
    } else {
        match pattern_groups(f.capture, false, raw) {
            Some(g) => if g.len() > 1 && g[1] is Some {
                value == g[1]->0
            } else {
                value.len() == 0
            },
            None => value.len() == 0,
        }
    }
}

/// A cell shows the value of its field: what the field says is missing where there
/// is none, a size or a time where the field asks for one and the value is one, and
/// the unit of the field behind a blank.
pub proof fn law_cells_show_their_value(
    f: FieldView,
    raw: Seq<char>,
    value: Seq<char>,
    sizes: Sizes,
)
    requires
        is_value(f, raw, value),
    ensures
        value.len() == 0 ==> cell_text(raw, f, sizes) == f.missing,
        value.len() > 0 ==> {
            let shown = if f.format == "bytes"@ && sizes(value, false) is Some {
                sizes(value, false)->0
            } else if f.format == "kib"@ && sizes(value, true) is Some {
                sizes(value, true)->0
            } else if f.format == "unix"@ && signed(value) is Some && unix_time(
                signed(value)->0 as i64,
            ) is Some {
                unix_time(signed(value)->0 as i64)->0
            } else {
                value
            };
            cell_text(raw, f, sizes) == if f.unit.len() == 0 {
                shown
            } else {
                shown + " "@ + f.unit
            }
        },
{
    reveal_strlit("bytes");
    reveal_strlit("kib");
    reveal_strlit("unix");
    assert("bytes"@.len() == 5 && "kib"@.len() == 3 && "unix"@.len() == 4);
    let c = crate::extract::format::captured(raw, f);
    assert(c =~= value);
}

/// The value of a field in a match: the group whose number the field gives, or the
/// group whose name it gives; nothing where there is none.
pub proof fn law_groups_are_named_or_numbered(
    names: Seq<Option<Seq<char>>>,
    groups: Seq<Option<Seq<char>>>,
    path: Seq<char>,
    i: int,
)
    requires
        0 <= i < groups.len(),
        unsigned(path, usize::MAX as nat) == Some(i as nat) || (unsigned(path, usize::MAX as nat)
            is None && i < names.len() && names[i] == Some(path) && forall|j: int|
            0 <= j < i ==> #[trigger] names[j] != Some(path)),
    ensures
        group_raw(names, groups, path) == (match groups[i] {
            Some(s) => s,
            None => Seq::empty(),
        }),
{
    crate::text::lemma_index_from(names, Some(path), 0);
}

/// Whether a text stands at a place of a line, with white space behind it up to
/// another place.
pub open spec fn stands(line: Seq<char>, from: int, text: Seq<char>, next: int) -> bool {
    &&& 0 <= from
    &&& from + text.len() <= next <= line.len()
    &&& line.subrange(from, from + text.len()) == text
    &&& all_in(line.subrange(from + text.len(), next), Class::White)
}

/// Where the part of a line with a number ends: where the next one begins.
pub open spec fn part_end(line: Seq<char>, at: Seq<int>, i: int) -> int {
    if i + 1 < at.len() {
        at[i + 1]
    } else {
        line.len() as int
    }
}

/// Whether texts stand at places of a line, with white space between them.
pub open spec fn stand_at(line: Seq<char>, at: Seq<int>, texts: Seq<Seq<char>>) -> bool {
    &&& at.len() == texts.len()
    &&& forall|i: int|
        0 <= i < at.len() ==> #[trigger] stands(line, at[i], texts[i], part_end(line, at, i))
}

proof fn lemma_heads(line: Seq<char>, at: Seq<int>, names: Seq<Seq<char>>, i: int, from: int)
    requires
        stand_at(line, at, names),
        0 <= i <= at.len(),
        0 <= from <= line.len(),
        i < at.len() ==> from <= at[i],
        forall|x: int|
            from <= x < (if i < at.len() {
                at[i]
            } else {
                line.len() as int
            }) ==> Class::White.holds(#[trigger] line[x]),
        forall|k: int|
            0 <= k < names.len() ==> (#[trigger] names[k]).len() > 0 && none_in(
                names[k],
                Class::White,
            ),
        forall|k: int|
            0 <= k < names.len() - 1 ==> (#[trigger] at[k]) + names[k].len() < at[k + 1],
    ensures
        heads_from(line, from) == Seq::new(
            (at.len() - i) as nat,
            |k: int| (at[i + k], names[i + k]),
        ),
    decreases at.len() - i,
{
    let w = Class::White;
    let want = Seq::new((at.len() - i) as nat, |k: int| (at[i + k], names[i + k]));
    lemma_seek_bounds(line, w, false, from);
    let a = seek(line, w, false, from);
    if i < at.len() {
        let p = at[i];
        let n = names[i];
        assert(n.len() > 0);
        let end = part_end(line, at, i);
        assert(stands(line, p, n, end));
        let gap = line.subrange(p + n.len(), end);
        assert(line.subrange(p, p + n.len())[0] == line[p]);
        assert(!w.holds(n[0]));
        if a < p {
            assert(w.holds(line[a]));
        }
        assert(a == p);
        lemma_seek_bounds(line, w, true, a);
        let b = seek(line, w, true, a);
        if b < p + n.len() {
            assert(line.subrange(p, p + n.len())[b - p] == line[b]);
            assert(!w.holds(n[b - p]));
        }
        if b > p + n.len() {
            assert(!w.holds(line[p + n.len()]));
            if i + 1 < at.len() {
                assert(at[i] + names[i].len() < at[i + 1]);
            }
            assert(gap[0] == line[p + n.len()]);
            assert(w.holds(gap[0]));
        }
        assert(b == p + n.len());
        assert(line.subrange(a, b) =~= n);
        assert forall|x: int| b <= x < end implies w.holds(#[trigger] line[x]) by {
            assert(gap[x - b] == line[x]);
        }
        lemma_heads(line, at, names, i + 1, b);
        assert(heads_from(line, from) =~= want);
    } else {
        if a < line.len() {
            assert(w.holds(line[a]));
        }
        assert(heads_from(line, from) =~= want);
    }
}

/// The headings of a table are the words of its first line, each with the place
/// where it stands.
pub proof fn law_headings_are_the_words(line: Seq<char>, at: Seq<int>, names: Seq<Seq<char>>)
    requires
        stand_at(line, at, names),
        forall|x: int|
            0 <= x < (if at.len() > 0 {
                at[0]
            } else {
                line.len() as int
            }) ==> Class::White.holds(#[trigger] line[x]),
        forall|k: int|
            0 <= k < names.len() ==> (#[trigger] names[k]).len() > 0 && none_in(
                names[k],
                Class::White,
            ),
        forall|k: int|
            0 <= k < names.len() - 1 ==> (#[trigger] at[k]) + names[k].len() < at[k + 1],
    ensures
        heads_from(line, 0) == Seq::new(at.len(), |k: int| (at[k], names[k])),
{
    if at.len() > 0 {
        assert(stands(line, at[0], names[0], part_end(line, at, 0)));
    }
    lemma_heads(line, at, names, 0, 0);
    assert(Seq::new((at.len() - 0) as nat, |k: int| (at[0 + k], names[0 + k])) =~= Seq::new(
        at.len(),
        |k: int| (at[k], names[k]),
    ));
}

/// A line that is laid out below its headings, each cell beginning where its
/// heading does and ending before the next one, is read as these cells.
pub proof fn law_laid_out_cells_are_read_back(
    line: Seq<char>,
    heads: Seq<(int, Seq<char>)>,
    cells: Seq<Seq<char>>,
    i: int,
)
    requires
        stand_at(line, Seq::new(heads.len(), |k: int| heads[k].0), cells),
        0 <= i < heads.len(),
        is_bare(cells[i], Class::White),
    ensures
        column_cell(line, heads, i) == cells[i],
{
    let at = Seq::new(heads.len(), |k: int| heads[k].0);
    let from = at[i];
    let next = part_end(line, at, i);
    let c = cells[i];
    assert(stands(line, from, c, next));
    let part = line.subrange(from, next);
    let rest = line.subrange(from + c.len(), next);
    assert(part =~= Seq::<char>::empty() + line.subrange(from, from + c.len()) + rest);
    law_trimming_takes_the_ends(Seq::empty(), c, rest, Class::White);
    if from == next {
        assert(c =~= Seq::<char>::empty());
    }
}

/// No character before the start of a heading, and none at or behind the start of
/// the next one, has any part in the cell below it.
pub proof fn law_cells_end_where_the_next_begins(
    a: Seq<char>,
    b: Seq<char>,
    heads: Seq<(int, Seq<char>)>,
    i: int,
)
    requires
        0 <= i < heads.len(),
        0 <= heads[i].0,
        i + 1 < heads.len() ==> heads[i].0 <= heads[i + 1].0 <= a.len() && heads[i + 1].0
            <= b.len(),
        i + 1 == heads.len() ==> a.len() == b.len(),
        forall|x: int|
            heads[i].0 <= x < a.len() && x < b.len() && (i + 1 < heads.len() ==> x < heads[i + 1].0)
                ==> #[trigger] a[x] == b[x],
    ensures
        column_cell(a, heads, i) == column_cell(b, heads, i),
        column_cell(a, heads, i).len() <= (if i + 1 < heads.len() {
            heads[i + 1].0 - heads[i].0
        } else if heads[i].0 <= a.len() {
            a.len() - heads[i].0
        } else {
            0
        }),
{
    let from = heads[i].0;
    let to = if i + 1 < heads.len() {
        heads[i + 1].0
    } else {
        a.len() as int
    };
    if from < to {
        assert(a.subrange(from, to) =~= b.subrange(from, to));
        crate::text::lemma_seek_bounds(a.subrange(from, to), Class::White, false, 0);
        crate::text::lemma_seek_back_bounds(
            a.subrange(from, to),
            Class::White,
            false,
            a.subrange(from, to).len() as int,
        );
    }
}

pub proof fn lemma_given(pairs: Seq<(Seq<char>, Seq<char>)>, key: Seq<char>, n: int, i: int)
    requires
        0 <= i < n <= pairs.len(),
        pairs[i].0 == key,
        forall|j: int| i < j < n ==> (#[trigger] pairs[j]).0 != key,
    ensures
        given(pairs, key, n) == Some(pairs[i].1),
    decreases n,
{
    if i < n - 1 {
        lemma_given(pairs, key, n - 1, i);
    }
}

pub proof fn lemma_not_given(pairs: Seq<(Seq<char>, Seq<char>)>, key: Seq<char>, n: int)
    requires
        0 <= n <= pairs.len(),
        forall|j: int| 0 <= j < n ==> (#[trigger] pairs[j]).0 != key,
    ensures
        given(pairs, key, n) is None,
    decreases n,
{
    if n > 0 {
        lemma_not_given(pairs, key, n - 1);
    }
}

/// The value of a field is the one that stands under its path; where a key comes
/// more than once, the last one; nothing where it does not come.
pub proof fn law_values_stand_under_their_keys(
    pairs: Seq<(Seq<char>, Seq<char>)>,
    fields: Seq<FieldView>,
    f: int,
    i: int,
)
    requires
        0 <= f < fields.len(),
    ensures
        0 <= i < pairs.len() && pairs[i].0 == fields[f].path && (forall|j: int|
            i < j < pairs.len() ==> (#[trigger] pairs[j]).0 != fields[f].path) ==> looked_up(
            pairs,
            fields,
        )[f] == pairs[i].1,
        (forall|j: int| 0 <= j < pairs.len() ==> (#[trigger] pairs[j]).0 != fields[f].path)
            ==> looked_up(pairs, fields)[f].len() == 0,
{
    let key = fields[f].path;
    if 0 <= i < pairs.len() && pairs[i].0 == key && (forall|j: int|
        i < j < pairs.len() ==> (#[trigger] pairs[j]).0 != key) {
        lemma_given(pairs, key, pairs.len() as int, i);
    }
    if forall|j: int| 0 <= j < pairs.len() ==> (#[trigger] pairs[j]).0 != key {
        lemma_not_given(pairs, key, pairs.len() as int);
    }
}

/// The line of a table as it is read: a row of its own where its first column has a
/// text, else more text for the row above it; a blank line is nothing.
pub proof fn law_lines_are_rows_or_go_on(
    heads: Seq<(int, Seq<char>)>,
    ls: Seq<Seq<char>>,
    fields: Seq<FieldView>,
    sizes: Sizes,
    n: int,
)
    requires
        1 <= n < ls.len(),
        heads.len() > 0,
        forall|k: int| 0 < k < heads.len() ==> (#[trigger] heads[k]).1 != heads[0].1,
    ensures
        ({
            let line = ls[n];
            let was = column_rows(heads, ls, fields, sizes, n);
            let now = column_rows(heads, ls, fields, sizes, n + 1);
            let cells = Seq::new(heads.len(), |k: int| (heads[k].1, column_cell(line, heads, k)));
            let nothing = trim(line, Class::White).len() == 0;
            let first = column_cell(line, heads, 0);
            &&& nothing ==> now == was
            &&& !nothing && first.len() > 0 ==> now == was.push(
                row_of(fields, looked_up(cells, fields), sizes),
            )
            &&& !nothing && first.len() == 0 ==> now.len() == was.len() && forall|k: int|
                0 <= k < was.len() - 1 ==> now[k] == #[trigger] was[k]
        }),
{
    let line = ls[n];
    let pairs = column_pairs(line, heads);
    let cells = Seq::new(heads.len(), |k: int| (heads[k].1, column_cell(line, heads, k)));
    assert(pairs =~= cells);
    lemma_given(pairs, heads[0].1, pairs.len() as int, 0);
    assert(lookup(pairs, heads[0].1) == Some(pairs[0].1));
}

proof fn lemma_continued(
    row: RowView,
    pairs: Seq<(Seq<char>, Seq<char>)>,
    fields: Seq<FieldView>,
    n: int,
    i: int,
)
    requires
        0 <= i < n <= fields.len(),
        forall|j: int|
            0 <= j < n && j != i ==> (#[trigger] fields[j]).name != fields[i].name,
    ensures
        get(crate::extract::extractor::continued(row, pairs, fields, n), fields[i].name) == (
        match lookup(pairs, fields[i].path) {
            Some(v) => if v.len() > 0 {
                Some(crate::extract::extractor::or_empty(get(row, fields[i].name)) + "\n"@ + v)
            } else {
                get(row, fields[i].name)
            },
            None => get(row, fields[i].name),
        }),
    decreases n,
{
    let r = crate::extract::extractor::continued(row, pairs, fields, n - 1);
    let f = fields[n - 1];
    if i == n - 1 {
        lemma_continued_other(row, pairs, fields, n - 1, f.name);
        if let Some(v) = lookup(pairs, f.path) {
            if v.len() > 0 {
                law_put_then_get(
                    r,
                    f.name,
                    crate::extract::extractor::or_empty(get(r, f.name)) + "\n"@ + v,
                    0,
                );
            }
        }
    } else {
        lemma_continued(row, pairs, fields, n - 1, i);
        if let Some(v) = lookup(pairs, f.path) {
            if v.len() > 0 {
                law_put_keeps_others(
                    r,
                    f.name,
                    crate::extract::extractor::or_empty(get(r, f.name)) + "\n"@ + v,
                    fields[i].name,
                    0,
                );
            }
        }
    }
}

proof fn lemma_continued_other(
    row: RowView,
    pairs: Seq<(Seq<char>, Seq<char>)>,
    fields: Seq<FieldView>,
    n: int,
    name: Seq<char>,
)
    requires
        0 <= n <= fields.len(),
        forall|j: int| 0 <= j < n ==> (#[trigger] fields[j]).name != name,
    ensures
        get(crate::extract::extractor::continued(row, pairs, fields, n), name) == get(row, name),
    decreases n,
{
    if n > 0 {
        lemma_continued_other(row, pairs, fields, n - 1, name);
        let r = crate::extract::extractor::continued(row, pairs, fields, n - 1);
        let f = fields[n - 1];
        if let Some(v) = lookup(pairs, f.path) {
            if v.len() > 0 {
                law_put_keeps_others(
                    r,
                    f.name,
                    crate::extract::extractor::or_empty(get(r, f.name)) + "\n"@ + v,
                    name,
                    0,
                );
            }
        }
    }
}

/// A line that goes on adds its texts to the cells of the row, each on a line of its
/// own, and leaves the cells for which it has none.
pub proof fn law_lines_that_go_on_add_to_cells(
    row: RowView,
    pairs: Seq<(Seq<char>, Seq<char>)>,
    fields: Seq<FieldView>,
    i: int,
)
    requires
        0 <= i < fields.len(),
        forall|j: int|
            0 <= j < fields.len() && j != i ==> (#[trigger] fields[j]).name != fields[i].name,
        get(row, fields[i].name) is Some,
    ensures
        ({
            let more = looked_up(pairs, fields)[i];
            let now = crate::extract::extractor::continued(
                row,
                pairs,
                fields,
                fields.len() as int,
            );
            get(now, fields[i].name) == Some(
                if more.len() > 0 {
                    get(row, fields[i].name)->0 + "\n"@ + more
                } else {
                    get(row, fields[i].name)->0
                },
            )
        }),
{
    lemma_continued(row, pairs, fields, fields.len() as int, i);
}

/// A line with a colon gives the key before its first colon and the value behind
/// it, both without white space around them; any other line gives none.
pub proof fn law_keys_stand_before_the_colon(
    ls: Seq<Seq<char>>,
    n: int,
    a: Seq<char>,
    k: Seq<char>,
    v: Seq<char>,
    b: Seq<char>,
)
    requires
        0 <= n < ls.len(),
        all_in(a, Class::White),
        all_in(b, Class::White),
        none_in(k, Class::One(':')),
        is_bare(k + seq![':'] + v, Class::White),
    ensures
        ls[n] == a + (k + seq![':'] + v) + b ==> line_pairs(ls, n + 1) == line_pairs(ls, n).push(
            (trim(k, Class::White), trim(v, Class::White)),
        ),
        none_in(trim(ls[n], Class::White), Class::One(':')) ==> line_pairs(ls, n + 1)
            == line_pairs(ls, n),
{
    let p = line_pairs(ls, n);
    if ls[n] == a + (k + seq![':'] + v) + b {
        law_trimming_takes_the_ends(a, k + seq![':'] + v, b, Class::White);
        law_texts_are_cut_at_the_character(k, ':', v, Class::One(':'));
        assert(line_pairs(ls, n + 1) =~= p.push((trim(k, Class::White), trim(v, Class::White))));
    }
    if none_in(trim(ls[n], Class::White), Class::One(':')) {
        crate::text_laws::law_texts_without_the_character_stay(
            trim(ls[n], Class::White),
            Class::One(':'),
        );
        assert(line_pairs(ls, n + 1) =~= p);
    }
}

/// A block of keys and values is a row exactly where one of the fields has a text
/// in it and, if a block is asked for by a line, it has that line.
pub proof fn law_blocks_are_rows(
    chunk: Seq<char>,
    selector: Seq<char>,
    fields: Seq<FieldView>,
    sizes: Sizes,
)
    ensures
        ({
            let ls = lines(chunk);
            let raws = looked_up(line_pairs(ls, ls.len() as int), fields);
            let asked = selector.len() == 0 || exists|i: int|
                0 <= i < ls.len() && trim(#[trigger] ls[i], Class::White) == selector;
            let told = exists|i: int| 0 <= i < raws.len() && (#[trigger] raws[i]).len() > 0;
            chunk_row(chunk, selector, fields, sizes) == (if asked && told {
                seq![row_of(fields, raws, sizes)]
            } else {
                Seq::empty()
            })
        }),
{
    let ls = lines(chunk);
    let f = crate::extract::extractor::trims_to(selector);
    if crate::text::any(ls, f) {
        let i = choose|i: int| 0 <= i < ls.len() && f(#[trigger] ls[i]);
        assert(trim(ls[i], Class::White) == selector);
    }
    if exists|i: int| 0 <= i < ls.len() && trim(#[trigger] ls[i], Class::White) == selector {
        let i = choose|i: int| 0 <= i < ls.len() && trim(#[trigger] ls[i], Class::White) == selector;
        assert(f(ls[i]));
    }
}

proof fn lemma_chunk_rows(
    chunks: Seq<Seq<char>>,
    selector: Seq<char>,
    fields: Seq<FieldView>,
    sizes: Sizes,
    n: int,
    row: RowView,
)
    requires
        0 <= n <= chunks.len(),
    ensures
        chunk_rows(chunks, selector, fields, sizes, n).contains(row) <==> exists|k: int|
            0 <= k < n && #[trigger] chunk_row(chunks[k], selector, fields, sizes) == seq![row],
    decreases n,
{
    let all = chunk_rows(chunks, selector, fields, sizes, n);
    if n > 0 {
        lemma_chunk_rows(chunks, selector, fields, sizes, n - 1, row);
        let was = chunk_rows(chunks, selector, fields, sizes, n - 1);
        let more = chunk_row(chunks[n - 1], selector, fields, sizes);
        assert(all == was + more);
        if all.contains(row) {
            let i = choose|i: int| 0 <= i < all.len() && all[i] == row;
            if i < was.len() {
                assert(was[i] == row);
                assert(was.contains(row));
            } else {
                assert(more[i - was.len()] == row);
                assert(more =~= seq![row]);
            }
        }
        if was.contains(row) {
            let i = choose|i: int| 0 <= i < was.len() && was[i] == row;
            assert(all[i] == row);
        }
        if more == seq![row] {
            assert(more[0] == row);
            assert(all[was.len() as int] == row);
        }
    }
}

/// What is extracted from a text by its kind: with `columns` below the words of the
/// first line, with `kv` from the text as one block, with `sections` from each part
/// between blank lines, and with `regex` from each match. Rows without any text are
/// left out.
pub proof fn law_kinds_of_extraction(
    r: SystemRuleView,
    text: Seq<char>,
    source: Seq<char>,
    sizes: Sizes,
)
    ensures
        ({
            let t = extracted(r, text, source, None, sizes);
            let ls = lines(text);
            let heading = if ls.len() > 0 {
                ls[0]
            } else {
                Seq::empty()
            };
            &&& r.kind == "columns"@ ==> t.rows == crate::text::kept(
                column_rows(heads_from(heading, 0), ls, r.fields, sizes, ls.len() as int),
                |x: RowView| crate::row::has_text(x),
                0,
            )
            &&& r.kind == "kv"@ ==> t.rows == crate::text::kept(
                chunk_row(text, r.selector, r.fields, sizes),
                |x: RowView| crate::row::has_text(x),
                0,
            )
            &&& r.kind == "sections"@ ==> forall|row: RowView|
                t.rows.contains(row) <==> crate::row::has_text(row) && exists|k: int|
                    0 <= k < crate::text::split_at_from(text, "\n\n"@, 0).len()
                        && #[trigger] chunk_row(
                        crate::text::split_at_from(text, "\n\n"@, 0)[k],
                        r.selector,
                        r.fields,
                        sizes,
                    ) == seq![row]
            &&& r.kind == "regex"@ ==> t.rows == crate::text::kept(
                Seq::new(
                    pattern_rows(r.pattern, false, text).len(),
                    |i: int|
                        row_of(
                            r.fields,
                            Seq::new(
                                r.fields.len(),
                                |j: int|
                                    group_raw(
                                        pattern_names(r.pattern, false),
                                        pattern_rows(r.pattern, false, text)[i],
                                        r.fields[j].path,
                                    ),
                            ),
                            sizes,
                        ),
                ),
                |x: RowView| crate::row::has_text(x),
                0,
            )
            &&& t.id == r.id && t.name == r.name && t.group == r.group && t.view == r.view
            &&& t.fields == r.fields && t.source == source
        }),
{
    reveal_strlit("columns");
    reveal_strlit("kv");
    reveal_strlit("sections");
    reveal_strlit("regex");
    reveal_strlit("json");
    assert("columns"@.len() == 7 && "kv"@.len() == 2 && "sections"@.len() == 8 && "regex"@.len()
        == 5 && "json"@.len() == 4);
    let t = extracted(r, text, source, None, sizes);
    let keep = |x: RowView| crate::row::has_text(x);
    assert(keeps_row() =~= keep);
    if r.kind == "kv"@ {
        let chunks = chunks_of(r, text);
        assert(chunks == seq![text]);
        let rows = chunk_rows(chunks, r.selector, r.fields, sizes, 1);
        assert(chunk_rows(chunks, r.selector, r.fields, sizes, 0) =~= Seq::empty());
        assert(rows =~= chunk_row(text, r.selector, r.fields, sizes));
    }
    if r.kind == "sections"@ {
        let chunks = crate::text::split_at_from(text, "\n\n"@, 0);
        assert(chunks_of(r, text) == chunks);
        let rows = chunk_rows(chunks, r.selector, r.fields, sizes, chunks.len() as int);
        crate::select::lemma_kept_holds(rows, keep, 0);
        assert(t.rows == crate::text::kept(rows, keep, 0));
        assert forall|row: RowView| t.rows.contains(row) <==> crate::row::has_text(row) && exists|
            k: int,
        |
            0 <= k < chunks.len() && #[trigger] chunk_row(chunks[k], r.selector, r.fields, sizes)
                == seq![row] by {
            lemma_chunk_rows(chunks, r.selector, r.fields, sizes, chunks.len() as int, row);
            if t.rows.contains(row) {
                let i = choose|i: int| 0 <= i < t.rows.len() && t.rows[i] == row;
                assert(keep(t.rows[i]));
                let j = choose|j: int| 0 <= j < rows.len() && rows[j] == t.rows[i];
                assert(rows.contains(row));
            }
            if rows.contains(row) && keep(row) {
                let j = choose|j: int| 0 <= j < rows.len() && rows[j] == row;
                assert(keep(rows[j]));
                let i = choose|i: int| 0 <= i < t.rows.len() && t.rows[i] == rows[j];
                assert(t.rows.contains(row));
            }
        }
    }
    if r.kind == "regex"@ {
        let found = pattern_rows(r.pattern, false, text);
        let names = pattern_names(r.pattern, false);
        assert(match_rows(names, found, r.fields, sizes) =~= Seq::new(
            found.len(),
            |i: int|
                row_of(
                    r.fields,
                    Seq::new(
                        r.fields.len(),
                        |j: int| group_raw(names, found[i], r.fields[j].path),
                    ),
                    sizes,
                ),
        )) by {
            assert forall|i: int| 0 <= i < found.len() implies #[trigger] match_rows(
                names,
                found,
                r.fields,
                sizes,
            )[i] == row_of(
                r.fields,
                Seq::new(r.fields.len(), |j: int| group_raw(names, found[i], r.fields[j].path)),
                sizes,
            ) by {
                assert(crate::extract::extractor::group_raws(names, found[i], r.fields)
                    =~= Seq::new(
                    r.fields.len(),
                    |j: int| group_raw(names, found[i], r.fields[j].path),
                ));
            }
        }
    }
}

} // verus!
