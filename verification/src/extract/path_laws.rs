//! Where the paths of JSON values lead.

use crate::extract::extractor::{disk_context, json_raw, parent_rows, selector_parts};
use crate::extract::extractor::{item_disks, item_rows, json_raws, parent_disks, row_of};
use crate::extract::format::Sizes;
use crate::extract::path::{
    below, json_text, json_texts, leaf_paths, member, member_from, member_paths, selected, step,
    step_one, step_part, steps, without_prefixes, without_suffixes,
};
use crate::outside::json::Json;
use crate::row::RowView;
use crate::rules::model::FieldView;
use crate::text::{begins, find_back, finishes, has_char, lemma_seek_bounds};
use crate::text::{occurs_at, seek, split, split_from, Class};
use crate::text_laws::{law_texts_without_the_character_stay, none_in};
use vstd::prelude::*;

verus! {

/// Whether a text is one plain key of a path.
pub open spec fn is_key(s: Seq<char>) -> bool {
    s.len() > 0 && !has_char(s, '.') && !has_char(s, '$') && !has_char(s, '[')
}

/// Whether a value is an object in which a key stands with a member, the first of
/// that key.
pub open spec fn holds_member(v: Json, key: Seq<char>, x: Json) -> bool {
    v matches Json::Object(o, _) && exists|i: int|
        0 <= i < o@.len() && (#[trigger] o@[i]).0@ == key && o@[i].1 == x && forall|j: int|
            0 <= j < i ==> (#[trigger] o@[j]).0@ != key
}

/// Whether a value is an object with a key.
pub open spec fn knows_key(v: Json, key: Seq<char>) -> bool {
    v matches Json::Object(o, _) && exists|i: int| 0 <= i < o@.len() && (#[trigger] o@[i]).0@ == key
}

proof fn lemma_member(o: Seq<(String, Json)>, key: Seq<char>, i: int)
    requires
        0 <= i <= o.len(),
    ensures
        (match member_from(o, key, i) {
            Some(x) => exists|k: int|
                i <= k < o.len() && (#[trigger] o[k]).0@ == key && o[k].1 == x && forall|j: int|
                    i <= j < k ==> (#[trigger] o[j]).0@ != key,
            None => forall|k: int| i <= k < o.len() ==> (#[trigger] o[k]).0@ != key,
        }),
    decreases o.len() - i,
{
    if i < o.len() {
        if o[i].0@ == key {
            assert(o[i].1 == member_from(o, key, i)->0);
        } else {
            lemma_member(o, key, i + 1);
            if member_from(o, key, i + 1) is Some {
                let k = choose|k: int|
                    i + 1 <= k < o.len() && (#[trigger] o[k]).0@ == key && o[k].1 == member_from(
                        o,
                        key,
                        i + 1,
                    )->0 && forall|j: int| i + 1 <= j < k ==> (#[trigger] o[j]).0@ != key;
                assert(o[k].0@ == key);
            }
        }
    }
}

proof fn lemma_member_held(v: Json, key: Seq<char>)
    ensures
        (match member(v, key) {
            Some(x) => holds_member(v, key, x) && knows_key(v, key),
            None => !knows_key(v, key),
        }),
        forall|x: Json| #[trigger] holds_member(v, key, x) ==> member(v, key) == Some(x),
{
    if let Json::Object(o, _) = v {
        lemma_member(o@, key, 0);
        assert forall|x: Json| #[trigger] holds_member(v, key, x) implies member(v, key) == Some(
            x,
        ) by {
            let i = choose|i: int|
                0 <= i < o@.len() && (#[trigger] o@[i]).0@ == key && o@[i].1 == x && forall|j: int|
                    0 <= j < i ==> (#[trigger] o@[j]).0@ != key;
            assert(o@[i].0@ == key);
            let k = choose|k: int|
                0 <= k < o@.len() && (#[trigger] o@[k]).0@ == key && o@[k].1 == member_from(
                    o@,
                    key,
                    0,
                )->0 && forall|j: int| 0 <= j < k ==> (#[trigger] o@[j]).0@ != key;
            assert(i == k);
        }
    }
}

/// The empty path and the root sign lead to the value itself, and the root sign in
/// front of a path changes nothing.
pub proof fn law_paths_start_at_the_value(v: Json, path: Seq<char>)
    requires
        path.len() > 0,
        !has_char(path, '$'),
    ensures
        selected(v, Seq::<char>::empty()) == seq![v],
        selected(v, seq!['$']) == seq![v],
        selected(v, seq!['$', '.'] + path) == selected(v, path),
{
    reveal_strlit("");
    reveal_strlit("$");
    reveal_strlit("$.");
    assert(""@ =~= Seq::<char>::empty());
    assert("$"@ =~= seq!['$']);
    assert("$."@ =~= seq!['$', '.']);
    let full = seq!['$', '.'] + path;
    assert(full[0] == '$' && full[1] == '.');
    assert(full.subrange(2, full.len() as int) =~= path);
    assert(full.subrange(0, 2) =~= "$."@);
    assert(begins(full, "$."@));
    lemma_no_root(path);
    assert(without_prefixes(full, "$."@) == without_prefixes(path, "$."@));
    assert(full != ""@ && full != "$"@);
    if path == "$"@ {
        assert(path[0] == '$');
    }
}

proof fn lemma_no_root(path: Seq<char>)
    requires
        !has_char(path, '$'),
    ensures
        without_prefixes(path, "$."@) == path,
        path != "$"@,
{
    reveal_strlit("$.");
    reveal_strlit("$");
    if begins(path, "$."@) {
        assert(path.subrange(0, 2)[0] == path[0]);
        assert("$."@[0] == '$');
    }
    if path == "$"@ {
        assert(path[0] == '$');
    }
}

proof fn lemma_no_brackets(key: Seq<char>)
    requires
        !has_char(key, '['),
    ensures
        without_suffixes(key, "[]"@) == key,
        !finishes(key, "[]"@),
        finishes(key + "[]"@, "[]"@),
        without_suffixes(key + "[]"@, "[]"@) == key,
{
    reveal_strlit("[]");
    if finishes(key, "[]"@) {
        let t = key.subrange(key.len() - 2, key.len() as int);
        assert(t[0] == key[key.len() - 2]);
        assert("[]"@[0] == '[');
    }
    let full = key + "[]"@;
    assert(full.subrange(full.len() - 2, full.len() as int) =~= "[]"@);
    assert(full.subrange(0, full.len() - 2) =~= key);
}

proof fn lemma_one_part(v: Json, part: Seq<char>)
    requires
        part.len() > 0,
        !has_char(part, '.'),
        !has_char(part, '$'),
    ensures
        selected(v, part) == step_one(v, without_suffixes(part, "[]"@), finishes(part, "[]"@)),
{
    reveal_strlit("");
    lemma_no_root(part);
    law_texts_without_the_character_stay(part, Class::One('.'));
    let parts = split(part, Class::One('.'));
    assert(parts =~= seq![part]);
    let key = without_suffixes(part, "[]"@);
    let array = finishes(part, "[]"@);
    reveal_with_fuel(steps, 2);
    reveal_with_fuel(step, 2);
    assert(steps(v, parts, 0) == seq![v]);
    assert(step(seq![v], key, array, 1) =~= step_one(v, key, array));
}

/// A key leads to the member of that key, where the value is an object that has it,
/// and to nothing else.
pub proof fn law_keys_lead_to_members(v: Json, key: Seq<char>, x: Json)
    requires
        is_key(key),
    ensures
        holds_member(v, key, x) ==> selected(v, key) == seq![x],
        !knows_key(v, key) ==> selected(v, key).len() == 0,
{
    lemma_one_part(v, key);
    lemma_no_brackets(key);
    lemma_member_held(v, key);
}

/// Brackets behind a key lead to the elements of its array, each in its place, and
/// to nothing where the member is no array; alone they lead to the elements of the
/// value.
pub proof fn law_brackets_spread_an_array(v: Json, key: Seq<char>, x: Json)
    requires
        is_key(key),
    ensures
        holds_member(v, key, x) ==> selected(v, key + seq!['[', ']']) == (match x {
            Json::Array(a) => a@,
            _ => Seq::empty(),
        }),
        !knows_key(v, key) ==> selected(v, key + seq!['[', ']']).len() == 0,
        selected(v, seq!['[', ']']) == (match v {
            Json::Array(a) => a@,
            _ => Seq::empty(),
        }),
{
    reveal_strlit("[]");
    assert("[]"@ =~= seq!['[', ']']);
    let full = key + "[]"@;
    assert forall|i: int| 0 <= i < full.len() implies full[i] != '.' && full[i] != '$' by {
        if i < key.len() {
            assert(full[i] == key[i]);
        }
    }
    lemma_one_part(v, full);
    lemma_no_brackets(key);
    lemma_member_held(v, key);
    let none = Seq::<char>::empty();
    lemma_no_brackets(none);
    assert(none + "[]"@ =~= "[]"@);
    lemma_one_part(v, "[]"@);
}

proof fn lemma_split_more(p: Seq<char>, q: Seq<char>, i: int)
    requires
        0 <= i <= p.len(),
        none_in(q, Class::One('.')),
    ensures
        split_from(p + seq!['.'] + q, Class::One('.'), i) == split_from(
            p,
            Class::One('.'),
            i,
        ).push(q),
    decreases p.len() - i,
{
    let k = Class::One('.');
    let s = p + seq!['.'] + q;
    let n = p.len() as int;
    lemma_seek_bounds(p, k, true, i);
    lemma_seek_bounds(s, k, true, i);
    lemma_seek_bounds(s, k, true, n + 1);
    let j = seek(p, k, true, i);
    let h = seek(s, k, true, i);
    assert(s[n] == '.');
    assert forall|x: int| 0 <= x < n implies s[x] == p[x] by {}
    assert forall|x: int| n < x < s.len() implies s[x] == q[x - n - 1] by {}
    if j < n {
        assert(s[j] == p[j]);
        if h < j {
            assert(s[h] == p[h]);
        }
        assert(h == j);
        lemma_split_more(p, q, j + 1);
        assert(s.subrange(i, j) =~= p.subrange(i, j));
        assert(split_from(s, k, i) =~= split_from(p, k, i).push(q));
    } else {
        if h < n {
            assert(s[h] == p[h]);
        }
        assert(h == n);
        let e = seek(s, k, true, n + 1);
        if e < s.len() {
            assert(k.holds(q[e - n - 1]));
        }
        assert(s.subrange(n + 1, s.len() as int) =~= q);
        assert(s.subrange(i, n) =~= p.subrange(i, n));
        assert(split_from(s, k, n + 1) == seq![q]);
        assert(split_from(s, k, i) =~= split_from(p, k, i).push(q));
    }
}

/// Whether a value is reached by a part of a path from one of the values.
pub open spec fn is_reached(from: Seq<Json>, part: Seq<char>, x: Json) -> bool {
    exists|i: int| 0 <= i < from.len() && (#[trigger] selected(from[i], part)).contains(x)
}

proof fn lemma_step(from: Seq<Json>, part: Seq<char>, n: int, x: Json)
    requires
        0 <= n <= from.len(),
        part.len() > 0,
        !has_char(part, '.'),
        !has_char(part, '$'),
    ensures
        step(from, without_suffixes(part, "[]"@), finishes(part, "[]"@), n).contains(x)
            <==> exists|i: int| 0 <= i < n && (#[trigger] selected(from[i], part)).contains(x),
    decreases n,
{
    if n > 0 {
        let key = without_suffixes(part, "[]"@);
        let array = finishes(part, "[]"@);
        lemma_step(from, part, n - 1, x);
        lemma_one_part(from[n - 1], part);
        let a = step(from, key, array, n - 1);
        let b = step_one(from[n - 1], key, array);
        let all = a + b;
        assert(b == selected(from[n - 1], part));
        if all.contains(x) {
            let i = choose|i: int| 0 <= i < all.len() && all[i] == x;
            if i < a.len() {
                assert(a[i] == x);
            } else {
                assert(b[i - a.len()] == x);
                assert(selected(from[n - 1], part).contains(x));
            }
        }
        if a.contains(x) {
            let i = choose|i: int| 0 <= i < a.len() && a[i] == x;
            assert(all[i] == x);
        }
        if b.contains(x) {
            let i = choose|i: int| 0 <= i < b.len() && b[i] == x;
            assert(all[a.len() + i] == x);
        }
    }
}

/// A point goes on from every value that the path before it leads to.
pub proof fn law_points_go_on(v: Json, path: Seq<char>, part: Seq<char>, x: Json)
    requires
        path.len() > 0,
        !has_char(path, '$'),
        part.len() > 0,
        !has_char(part, '.'),
        !has_char(part, '$'),
    ensures
        selected(v, path + seq!['.'] + part).contains(x) <==> is_reached(
            selected(v, path),
            part,
            x,
        ),
{
    reveal_strlit("");
    let full = path + seq!['.'] + part;
    assert forall|i: int| 0 <= i < full.len() implies full[i] != '$' by {
        if i < path.len() {
            assert(full[i] == path[i]);
        } else if i > path.len() {
            assert(full[i] == part[i - path.len() - 1]);
        }
    }
    lemma_no_root(path);
    lemma_no_root(full);
    assert(none_in(part, Class::One('.')));
    lemma_split_more(path, part, 0);
    let p = split(path, Class::One('.'));
    let q = split(full, Class::One('.'));
    assert(q == p.push(part));
    lemma_steps_same(v, p, q, p.len() as int);
    let from = selected(v, path);
    assert(selected(v, full) == step_part(from, part));
    lemma_step(from, part, from.len() as int, x);
}

proof fn lemma_steps_same(v: Json, p: Seq<Seq<char>>, q: Seq<Seq<char>>, n: int)
    requires
        n <= p.len() <= q.len(),
        forall|i: int| 0 <= i < p.len() ==> p[i] == q[i],
    ensures
        steps(v, p, n) == steps(v, q, n),
    decreases n,
{
    if n > 0 {
        lemma_steps_same(v, p, q, n - 1);
    }
}

/// Where a field reads its value: at the root or at the object around the item where
/// its path says so, else at the item. It is the text of the first value there, and
/// empty where there is none.
pub proof fn law_fields_read_where_their_path_says(
    root: Json,
    parent: Json,
    item: Json,
    path: Seq<char>,
)
    requires
        !has_char(path, '$'),
    ensures
        selected(root, path).len() > 0 ==> json_raw(root, parent, item, "$root."@ + path)
            == json_text(selected(root, path)[0]),
        selected(parent, path).len() > 0 ==> json_raw(root, parent, item, "$parent."@ + path)
            == json_text(selected(parent, path)[0]),
        selected(item, path).len() > 0 ==> json_raw(root, parent, item, path) == json_text(
            selected(item, path)[0],
        ),
        selected(root, path).len() == 0 ==> json_raw(root, parent, item, "$root."@ + path).len()
            == 0,
        selected(parent, path).len() == 0 ==> json_raw(
            root,
            parent,
            item,
            "$parent."@ + path,
        ).len() == 0,
        selected(item, path).len() == 0 ==> json_raw(root, parent, item, path).len() == 0,
{
    reveal_strlit("$root.");
    reveal_strlit("$parent.");
    let a = "$root."@ + path;
    let b = "$parent."@ + path;
    assert(a.subrange(0, 6) =~= "$root."@);
    assert(a.subrange(6, a.len() as int) =~= path);
    assert(b.subrange(0, 8) =~= "$parent."@);
    assert(b.subrange(8, b.len() as int) =~= path);
    if begins(b, "$root."@) {
        assert(b.subrange(0, 6)[1] == b[1]);
        assert(b[1] == "$parent."@[1]);
        assert("$root."@[1] == 'r');
        assert("$parent."@[1] == 'p');
    }
    if begins(path, "$root."@) {
        assert(path.subrange(0, 6)[0] == path[0]);
        assert("$root."@[0] == '$');
    }
    if begins(path, "$parent."@) {
        assert(path.subrange(0, 8)[0] == path[0]);
        assert("$parent."@[0] == '$');
    }
}

/// A text is its own text, nothing has none, and the elements of an array stand on
/// lines of their own.
pub proof fn law_values_have_their_texts(v: Json, front: Vec<Json>, whole: Vec<Json>, last: Json)
    requires
        whole@ == front@.push(last),
    ensures
        v matches Json::Text(s) ==> json_text(v) == s@,
        v matches Json::Scalar(s) ==> json_text(v) == s@,
        v matches Json::Object(_, s) ==> json_text(v) == s@,
        v is Null ==> json_text(v).len() == 0,
        front@.len() == 0 ==> json_text(Json::Array(whole)) == json_text(last),
        front@.len() > 0 ==> json_text(Json::Array(whole)) == json_text(Json::Array(front))
            + seq!['\n'] + json_text(last),
{
    reveal_strlit("\n");
    assert("\n"@ =~= seq!['\n']);
    let n = front@.len() as int;
    lemma_texts_same(front@, whole@, n);
    let t = json_texts(whole@, n + 1);
    assert(t == json_texts(whole@, n).push(json_text(last)));
    assert(t.drop_last() =~= json_texts(front@, n));
    lemma_texts_len(front@, n);
}

proof fn lemma_texts_same(a: Seq<Json>, b: Seq<Json>, n: int)
    requires
        0 <= n <= a.len() <= b.len(),
        forall|i: int| 0 <= i < a.len() ==> a[i] == b[i],
    ensures
        json_texts(a, n) == json_texts(b, n),
    decreases n,
{
    if n > 0 {
        lemma_texts_same(a, b, n - 1);
    }
}

proof fn lemma_texts_len(a: Seq<Json>, n: int)
    requires
        0 <= n <= a.len(),
    ensures
        json_texts(a, n).len() == n,
    decreases n,
{
    if n > 0 {
        lemma_texts_len(a, n - 1);
    }
}

/// Whether a path is one of those below some member.
pub open spec fn is_below_member(o: Seq<(String, Json)>, prefix: Seq<char>, n: int, p: Seq<char>)
    -> bool {
    exists|i: int|
        0 <= i < n && leaf_paths(
            (#[trigger] o[i]).1,
            if prefix.len() == 0 {
                o[i].0@
            } else {
                prefix + seq!['.'] + o[i].0@
            },
        ).contains(p)
}

proof fn lemma_member_paths(o: Seq<(String, Json)>, prefix: Seq<char>, n: int, p: Seq<char>)
    requires
        0 <= n <= o.len(),
    ensures
        member_paths(o, prefix, n).contains(p) <==> is_below_member(o, prefix, n, p),
    decreases n,
{
    reveal_strlit(".");
    assert("."@ =~= seq!['.']);
    if n > 0 {
        lemma_member_paths(o, prefix, n - 1, p);
        let key = if prefix.len() == 0 {
            o[n - 1].0@
        } else {
            prefix + seq!['.'] + o[n - 1].0@
        };
        assert(below(prefix, o[n - 1].0@) == key);
        let a = member_paths(o, prefix, n - 1);
        let b = leaf_paths(o[n - 1].1, key);
        let all = a + b;
        if all.contains(p) {
            let i = choose|i: int| 0 <= i < all.len() && all[i] == p;
            if i < a.len() {
                assert(a[i] == p);
            } else {
                assert(b[i - a.len()] == p);
                assert(b.contains(p));
            }
        }
        if a.contains(p) {
            let i = choose|i: int| 0 <= i < a.len() && a[i] == p;
            assert(all[i] == p);
        }
        if b.contains(p) {
            let i = choose|i: int| 0 <= i < b.len() && b[i] == p;
            assert(all[a.len() + i] == p);
        }
    }
}

/// The offered paths: one for each value that is neither object nor array, through
/// every member of an object and the first element of an array.
pub proof fn law_paths_are_offered_for_leaves(v: Json, prefix: Seq<char>, p: Seq<char>)
    ensures
        leaf_paths(v, prefix).contains(p) <==> (match v {
            Json::Object(o, _) => is_below_member(o@, prefix, o@.len() as int, p),
            Json::Array(a) => a@.len() > 0 && leaf_paths(a@[0], prefix + seq!['[', ']']).contains(
                p,
            ),
            _ => p == prefix,
        }),
{
    reveal_strlit("[]");
    assert("[]"@ =~= seq!['[', ']']);
    match v {
        Json::Object(o, _) => {
            lemma_member_paths(o@, prefix, o@.len() as int, p);
        },
        Json::Array(a) => {},
        _ => {
            assert(seq![prefix][0] == prefix);
        },
    }
}

/// A selector is taken apart behind its last spread array.
pub proof fn law_selectors_are_taken_apart(outer: Seq<char>, child: Seq<char>, plain: Seq<char>)
    requires
        !has_char(child, '['),
        !has_char(plain, '['),
    ensures
        selector_parts(outer + seq!['[', ']', '.'] + child) == (outer + seq!['[', ']'], child),
        selector_parts(plain) == (Seq::<char>::empty(), plain),
{
    reveal_strlit("[].");
    reveal_strlit("[]");
    let p = "[]."@;
    assert(p =~= seq!['[', ']', '.']);
    assert("[]"@ =~= seq!['[', ']']);
    let s = outer + p + child;
    assert(s.subrange(outer.len() as int, outer.len() as int + 3) =~= p);
    assert forall|i: int| outer.len() < i < s.len() implies s[i] != '[' by {
        if i >= outer.len() + 3 {
            assert(s[i] == child[i - outer.len() - 3]);
        }
    }
    lemma_find_back(s, p, s.len() - 3, outer.len() as int);
    assert(s.subrange(0, outer.len() as int) =~= outer);
    assert(s.subrange(outer.len() as int + 3, s.len() as int) =~= child);
    lemma_find_none(plain, p, plain.len() - 3);
}

proof fn lemma_find_back(s: Seq<char>, p: Seq<char>, i: int, j: int)
    requires
        0 <= j <= i,
        i + p.len() <= s.len(),
        p.len() > 0,
        occurs_at(s, p, j),
        forall|k: int| j < k < s.len() ==> s[k] != p[0],
    ensures
        find_back(s, p, i) == Some(j),
    decreases i,
{
    if i > j {
        if occurs_at(s, p, i) {
            assert(s.subrange(i, i + p.len())[0] == s[i]);
        }
        lemma_find_back(s, p, i - 1, j);
    }
}

proof fn lemma_find_none(s: Seq<char>, p: Seq<char>, i: int)
    requires
        i + p.len() <= s.len(),
        p.len() > 0,
        forall|k: int| 0 <= k < s.len() ==> s[k] != p[0],
    ensures
        find_back(s, p, i) is None,
    decreases i + 1,
{
    if i >= 0 {
        if occurs_at(s, p, i) {
            assert(s.subrange(i, i + p.len())[0] == s[i]);
        }
        lemma_find_none(s, p, i - 1);
    }
}

/// Whether a row is that of an item below one of the objects.
pub open spec fn is_item_row(
    root: Json,
    parents: Seq<Json>,
    child: Seq<char>,
    fields: Seq<FieldView>,
    sizes: Sizes,
    i: int,
    row: RowView,
) -> bool {
    exists|j: int|
        0 <= j < selected(parents[i], child).len() && row == row_of(
            fields,
            json_raws(root, parents[i], #[trigger] selected(parents[i], child)[j], fields),
            sizes,
        )
}

proof fn lemma_item_rows(
    root: Json,
    parent: Json,
    items: Seq<Json>,
    fields: Seq<FieldView>,
    sizes: Sizes,
    n: int,
)
    requires
        0 <= n <= items.len(),
    ensures
        item_rows(root, parent, items, fields, sizes, n).len() == n,
        forall|j: int|
            0 <= j < n ==> #[trigger] item_rows(root, parent, items, fields, sizes, n)[j] == row_of(
                fields,
                json_raws(root, parent, items[j], fields),
                sizes,
            ),
    decreases n,
{
    if n > 0 {
        lemma_item_rows(root, parent, items, fields, sizes, n - 1);
    }
}

/// There is a row for every item below every object, and no other.
pub proof fn law_every_item_is_a_row(
    root: Json,
    parents: Seq<Json>,
    child: Seq<char>,
    fields: Seq<FieldView>,
    sizes: Sizes,
    n: int,
    row: RowView,
)
    requires
        0 <= n <= parents.len(),
    ensures
        parent_rows(root, parents, child, fields, sizes, n).contains(row) <==> exists|i: int|
            0 <= i < n && #[trigger] is_item_row(root, parents, child, fields, sizes, i, row),
    decreases n,
{
    if n > 0 {
        law_every_item_is_a_row(root, parents, child, fields, sizes, n - 1, row);
        let items = selected(parents[n - 1], child);
        lemma_item_rows(root, parents[n - 1], items, fields, sizes, items.len() as int);
        let a = parent_rows(root, parents, child, fields, sizes, n - 1);
        let b = item_rows(root, parents[n - 1], items, fields, sizes, items.len() as int);
        let all = a + b;
        assert(parent_rows(root, parents, child, fields, sizes, n) == all);
        assert(b.contains(row) == is_item_row(root, parents, child, fields, sizes, n - 1, row)) by {
            if b.contains(row) {
                let j = choose|j: int| 0 <= j < b.len() && b[j] == row;
                assert(items[j] == items[j]);
            }
            if is_item_row(root, parents, child, fields, sizes, n - 1, row) {
                let j = choose|j: int|
                    0 <= j < items.len() && row == row_of(
                        fields,
                        json_raws(root, parents[n - 1], #[trigger] items[j], fields),
                        sizes,
                    );
                assert(b[j] == row);
            }
        }
        if all.contains(row) {
            let i = choose|i: int| 0 <= i < all.len() && all[i] == row;
            if i < a.len() {
                assert(a[i] == row);
            } else {
                assert(b[i - a.len()] == row);
            }
        }
        if a.contains(row) {
            let i = choose|i: int| 0 <= i < a.len() && a[i] == row;
            assert(all[i] == row);
        }
        if b.contains(row) {
            let i = choose|i: int| 0 <= i < b.len() && b[i] == row;
            assert(all[a.len() + i] == row);
        }
    }
}

/// A disk has its pool, and its label, or its name where it has no label, from what
/// is said of it under `disk_info`.
pub proof fn law_disks_are_named(
    disk: Json,
    device: usize,
    info: Json,
    label: String,
    name: String,
    pool: String,
)
    requires
        holds_member(disk, "disk_info"@, info),
    ensures
        disk_context(disk, device).device == device,
        holds_member(info, "label"@, Json::Text(label)) ==> disk_context(disk, device).label == label@,
        !knows_key(info, "label"@) && holds_member(info, "name"@, Json::Text(name)) ==> disk_context(
            disk,
            device,
        ).label == name@,
        !knows_key(info, "label"@) && !knows_key(info, "name"@) ==> disk_context(disk, device).label
            == "未命名硬盘"@,
        holds_member(info, "used_for"@, Json::Text(pool)) ==> disk_context(disk, device).pool == pool@,
        !knows_key(info, "used_for"@) ==> disk_context(disk, device).pool.len() == 0,
{
    lemma_member_held(disk, "disk_info"@);
    lemma_member_held(info, "label"@);
    lemma_member_held(info, "name"@);
    lemma_member_held(info, "used_for"@);
}

proof fn lemma_item_disks(parent: Json, p: int, items: Seq<Json>, whole: bool, n: int)
    requires
        0 <= n <= items.len(),
    ensures
        item_disks(parent, p, items, whole, n).len() == n,
        forall|j: int|
            0 <= j < n ==> #[trigger] item_disks(parent, p, items, whole, n)[j] == (if whole {
                disk_context(items[j], j as usize)
            } else {
                disk_context(parent, p as usize)
            }),
    decreases n,
{
    if n > 0 {
        lemma_item_disks(parent, p, items, whole, n - 1);
    }
}

/// Below one object each row tells its own disk, counted from the first, where the
/// items are disks; else each tells the object as the disk.
pub proof fn law_rows_tell_their_disk(parent: Json, child: Seq<char>, whole: bool, j: int)
    requires
        0 <= j < selected(parent, child).len(),
    ensures
        parent_disks(seq![parent], child, whole, 1).len() == selected(parent, child).len(),
        whole ==> parent_disks(seq![parent], child, whole, 1)[j] == disk_context(
            selected(parent, child)[j],
            j as usize,
        ),
        !whole ==> parent_disks(seq![parent], child, whole, 1)[j] == disk_context(parent, 0),
{
    reveal_with_fuel(parent_disks, 2);
    let items = selected(parent, child);
    lemma_item_disks(parent, 0, items, whole, items.len() as int);
    assert(parent_disks(seq![parent], child, whole, 1) =~= item_disks(
        parent,
        0,
        items,
        whole,
        items.len() as int,
    ));
}

/// The disks of a further object follow those of the objects before it, and are
/// counted as those of its place.
pub proof fn law_disks_follow_their_objects(
    parents: Seq<Json>,
    child: Seq<char>,
    whole: bool,
    n: int,
    j: int,
)
    requires
        0 <= n < parents.len(),
        0 <= j < selected(parents[n], child).len(),
    ensures
        ({
            let was = parent_disks(parents, child, whole, n);
            let now = parent_disks(parents, child, whole, n + 1);
            &&& now.len() == was.len() + selected(parents[n], child).len()
            &&& now.subrange(0, was.len() as int) == was
            &&& whole ==> now[was.len() + j] == disk_context(
                selected(parents[n], child)[j],
                j as usize,
            )
            &&& !whole ==> now[was.len() + j] == disk_context(parents[n], n as usize)
        }),
{
    let items = selected(parents[n], child);
    lemma_item_disks(parents[n], n, items, whole, items.len() as int);
    let was = parent_disks(parents, child, whole, n);
    let now = parent_disks(parents, child, whole, n + 1);
    assert(now.subrange(0, was.len() as int) =~= was);
}

} // verus!
