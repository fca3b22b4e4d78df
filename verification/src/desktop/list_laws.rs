//! What the lists of the rule editor show, and where their rules go.

use crate::desktop::arrange::{file_moved, reordered};
use crate::desktop::dialog::{mode_place, term_edited, term_removed};
use crate::desktop::draft::{inline_terms, staged, term_put, typed_at, DraftView, PendingTermView};
use crate::desktop::edit::{fresh_rule, fresh_system_rule, EditForm};
use crate::desktop::fields::{edited, exchanged, nearest, shown_column, with_column};
use crate::desktop::form::{
    choices, chosen_after, file_among, file_choice, file_found, listed_ids, mode_name,
    shown_directory, term_added, with_entry, LogFileChoiceView,
};
use crate::desktop::listing::{
    entries, entry_height, in_list, not_in_list, ordered_files, row_shown, rows_height, rows_of,
    rule_entries, rule_entry, shown_file, EntryView,
};
use crate::desktop::transfer::{
    reference_lines, rule_lines, system_lines, used_file, with_used_files,
};
use crate::fault::{refusal, FaultKind};
use crate::outside::std_text::lowercase;
use crate::rules::edit::other_text;
use crate::rules::group::{has_id, Member};
use crate::rules::model::{
    FieldView, LogFileView, Rule, RuleSetView, RuleView, SystemRule, SystemRuleView,
};
use crate::select::{
    lemma_first_holds, lemma_first_of_any, lemma_kept_holds, lemma_kept_source, lemma_kept_there,
};
use crate::text::{any, blank, first_place, has, kept, trim, Class};
use vstd::prelude::*;

verus! {

pub proof fn lemma_kept_member<A>(s: Seq<A>, f: spec_fn(A) -> bool, x: A)
    ensures
        kept(s, f, 0).contains(x) <==> s.contains(x) && f(x),
{
    let t = kept(s, f, 0);
    lemma_kept_holds(s, f, 0);
    if t.contains(x) {
        let k = choose|k: int| 0 <= k < t.len() && t[k] == x;
        let j = lemma_kept_source(s, f, k);
        assert(f(t[k]));
        assert(s[j] == x);
    }
    if s.contains(x) && f(x) {
        let j = choose|j: int| 0 <= j < s.len() && s[j] == x;
        let k = lemma_kept_there(s, f, j);
        assert(t[k] == x);
    }
}

/// The section of keywords shows the rules for keywords and for both, the section of
/// the timeline those for the timeline and for both, each with its place, its
/// identity and its terms.
pub proof fn law_sections_show_their_rules(
    rules: Seq<RuleView>,
    section: i32,
    n: int,
    e: EntryView,
)
    requires
        0 <= n <= rules.len() <= usize::MAX,
    ensures
        rule_entries(rules, section, n).contains(e) <==> exists|i: int|
            0 <= i < n && e == rule_entry(#[trigger] rules[i], i) && ((section == 0
                && rules[i].target != "timeline"@) || (section == 2 && rules[i].target
                != "keywords"@)),
        forall|i: int|
            0 <= i < rules.len() ==> {
                let x = rule_entry(#[trigger] rules[i], i);
                &&& x.index == i
                &&& x.id == rules[i].id && x.name == rules[i].name && x.group == rules[i].group
                &&& x.files == rules[i].source_file_ids && x.terms == rules[i].terms
                &&& x.enabled == rules[i].enabled
            },
    decreases n,
{
    if n > 0 {
        law_sections_show_their_rules(rules, section, n - 1, e);
        let was = rule_entries(rules, section, n - 1);
        let x = rule_entry(rules[n - 1], n - 1);
        lemma_pushed(was, x, e);
    }
}

proof fn lemma_pushed<A>(s: Seq<A>, x: A, p: A)
    ensures
        s.push(x).contains(p) == (s.contains(p) || x == p),
{
    let t = s.push(x);
    assert(t[s.len() as int] == x);
    if s.contains(p) {
        let i = choose|i: int| 0 <= i < s.len() && s[i] == p;
        assert(t[i] == p);
    }
    if t.contains(p) {
        let i = choose|i: int| 0 <= i < t.len() && t[i] == p;
        if i < s.len() {
            assert(s[i] == p);
        }
    }
}

/// The list shows those rules of the section that read the file and that the search
/// finds, by the small letters of the name, the group, the files or the terms.
pub proof fn law_searches_find_rules(d: DraftView, e: EntryView)
    ensures
        d.shown().contains(e) <==> {
            &&& entries(d).contains(e)
            &&& e.files.contains(shown_file(d.files(), d.active))
            &&& {
                ||| has(lowercase(e.name), lowercase(d.search))
                ||| has(lowercase(e.group), lowercase(d.search))
                ||| has(
                    lowercase(crate::desktop::listing::files_label(d.rules, e.files)),
                    lowercase(d.search),
                )
                ||| has(
                    lowercase(crate::text::joined(e.terms, seq![' '])),
                    lowercase(d.search),
                )
            }
        },
{
    reveal_strlit(" ");
    assert(" "@ =~= seq![' ']);
    let f = row_shown(d.rules, shown_file(d.files(), d.active), lowercase(d.search));
    lemma_kept_member(entries(d), f, e);
}

/// The files stand in the order that was chosen as far as they are known; behind them
/// stand the others, and none is left out or made up.
pub proof fn law_files_stand_in_the_chosen_order(
    order: Seq<Seq<char>>,
    ids: Seq<Seq<char>>,
    id: Seq<char>,
)
    ensures
        ordered_files(order, ids).contains(id) <==> ids.contains(id),
        ordered_files(Seq::empty(), ids) == ids,
        (forall|i: int| 0 <= i < order.len() ==> ids.contains(#[trigger] order[i])) && (forall|
            i: int,
        |
            0 <= i < ids.len() ==> order.contains(#[trigger] ids[i])) ==> ordered_files(order, ids)
            == order,
{
    let f = in_list(ids);
    let first = kept(order, f, 0);
    let g = not_in_list(first);
    let rest = kept(ids, g, 0);
    lemma_kept_member(order, f, id);
    lemma_kept_member(ids, g, id);
    let all = first + rest;
    if all.contains(id) {
        let i = choose|i: int| 0 <= i < all.len() && all[i] == id;
        if i < first.len() {
            assert(first[i] == id);
        } else {
            assert(rest[i - first.len()] == id);
        }
    }
    if first.contains(id) {
        let i = choose|i: int| 0 <= i < first.len() && first[i] == id;
        assert(all[i] == id);
    }
    if rest.contains(id) {
        let i = choose|i: int| 0 <= i < rest.len() && rest[i] == id;
        assert(all[first.len() + i] == id);
    }
    let none = kept(Seq::<Seq<char>>::empty(), f, 0);
    assert(none.len() == 0);
    let h = not_in_list(none);
    assert forall|i: int| 0 <= i < ids.len() implies h(#[trigger] ids[i]) by {}
    lemma_all_kept(ids, h, 0);
    assert(ids.subrange(0, ids.len() as int) =~= ids);
    assert(none + ids =~= ids);
    if (forall|i: int| 0 <= i < order.len() ==> ids.contains(#[trigger] order[i])) && (forall|
        i: int,
    |
        0 <= i < ids.len() ==> order.contains(#[trigger] ids[i])) {
        assert forall|i: int| 0 <= i < order.len() implies f(#[trigger] order[i]) by {}
        lemma_all_kept(order, f, 0);
        assert(order.subrange(0, order.len() as int) =~= order);
        assert(first == order);
        assert forall|i: int| 0 <= i < ids.len() implies !g(#[trigger] ids[i]) by {}
        lemma_none_kept(ids, g, 0);
        assert(first + rest =~= order);
    }
}

proof fn lemma_all_kept<A>(s: Seq<A>, f: spec_fn(A) -> bool, i: int)
    requires
        0 <= i <= s.len(),
        forall|k: int| 0 <= k < s.len() ==> f(#[trigger] s[k]),
    ensures
        kept(s, f, i) == s.subrange(i, s.len() as int),
    decreases s.len() - i,
{
    if i < s.len() {
        lemma_all_kept(s, f, i + 1);
        assert(kept(s, f, i) =~= s.subrange(i, s.len() as int));
    } else {
        assert(s.subrange(i, s.len() as int) =~= Seq::<A>::empty());
    }
}

proof fn lemma_none_kept<A>(s: Seq<A>, f: spec_fn(A) -> bool, i: int)
    requires
        0 <= i <= s.len(),
        forall|k: int| 0 <= k < s.len() ==> !f(#[trigger] s[k]),
    ensures
        kept(s, f, i) == Seq::<A>::empty(),
    decreases s.len() - i,
{
    if i < s.len() {
        lemma_none_kept(s, f, i + 1);
    }
}

/// The file that is shown stays while it is there; else the first one is.
pub proof fn law_the_shown_file_stays(files: Seq<Seq<char>>, active: Seq<char>)
    ensures
        files.contains(active) ==> shown_file(files, active) == active,
        !files.contains(active) && files.len() > 0 ==> shown_file(files, active) == files[0],
        files.len() == 0 ==> shown_file(files, active).len() == 0,
        files.len() > 0 ==> files.contains(shown_file(files, active)),
{
    if files.len() > 0 {
        assert(files.contains(files[0]));
    }
}

/// The rows lie below each other without gaps: each begins where the one before it
/// ends, the first at the top. A folded one is 62 high, a table 86, a rule 94 and 36
/// for each term.
pub proof fn law_rows_lie_below_each_other(d: DraftView, shown: Seq<EntryView>, k: int)
    requires
        0 <= k < shown.len(),
        rows_height(d, shown, k + 1) <= u128::MAX,
    ensures
        ({
            let rows = rows_of(d, shown);
            &&& rows.len() == shown.len()
            &&& rows[0].offset == 0
            &&& k + 1 < shown.len() ==> rows[k + 1].offset == rows[k].offset + rows[k].height
            &&& !d.expanded.contains(shown[k].id) ==> rows[k].height == 62
            &&& d.expanded.contains(shown[k].id) && d.section == 1 ==> rows[k].height == 86
            &&& d.expanded.contains(shown[k].id) && d.section != 1 ==> rows[k].height == 94 + 36
                * shown[k].terms.len()
            &&& rows[k].identity == shown[k].id && rows[k].name == shown[k].name
            &&& rows[k].expanded == d.expanded.contains(shown[k].id)
            &&& rows[k].terms == shown[k].terms && rows[k].enabled == shown[k].enabled
        }),
{
    assert(rows_height(d, shown, k + 1) == rows_height(d, shown, k) + entry_height(d, shown[k]));
    assert(rows_height(d, shown, 0) == 0);
}

/// A search for files finds each whose identity, name or path holds the text in small
/// letters, and an empty one finds all; a found file is ticked where it is chosen.
pub proof fn law_searches_find_files(
    files: Seq<LogFileView>,
    ids: Seq<Seq<char>>,
    query: Seq<char>,
    c: LogFileChoiceView,
)
    ensures
        choices(files, ids, query).contains(c) <==> exists|i: int|
            0 <= i < files.len() && c == file_choice(#[trigger] files[i], ids) && is_found(
                files[i],
                lowercase(trim(query, Class::White)),
            ),
        c == file_choice(files[0], ids) ==> c.id == files[0].id && (c.chosen <==> ids.contains(
            files[0].id,
        )),
{
    let f = file_found(lowercase(trim(query, Class::White)));
    let s = kept(files, f, 0);
    let all = choices(files, ids, query);
    lemma_kept_holds(files, f, 0);
    if all.contains(c) {
        let k = choose|k: int| 0 <= k < all.len() && all[k] == c;
        let j = lemma_kept_source(files, f, k);
        assert(f(s[k]));
        assert(c == file_choice(files[j], ids));
    }
    if exists|i: int|
        0 <= i < files.len() && c == file_choice(#[trigger] files[i], ids) && is_found(
            files[i],
            lowercase(trim(query, Class::White)),
        ) {
        let i = choose|i: int|
            0 <= i < files.len() && c == file_choice(#[trigger] files[i], ids) && is_found(
                files[i],
                lowercase(trim(query, Class::White)),
            );
        assert(f(files[i]));
        let k = lemma_kept_there(files, f, i);
        assert(all[k] == c);
    }
}

/// Whether a text stands in the small letters of an entry.
pub open spec fn is_found(f: LogFileView, q: Seq<char>) -> bool {
    q.len() == 0 || has(lowercase(f.id), q) || has(lowercase(f.name), q) || has(
        lowercase(f.path),
        q,
    ) || has(lowercase(f.file_name()), q)
}

/// What is chosen is what the catalogue has of it.
pub proof fn law_chosen_files_are_in_the_catalogue(
    files: Seq<LogFileView>,
    ids: Seq<Seq<char>>,
    id: Seq<char>,
)
    ensures
        listed_ids(files, ids).contains(id) <==> ids.contains(id) && exists|i: int|
            0 <= i < files.len() && (#[trigger] files[i]).id == id,
{
    let f = file_among(ids);
    let s = kept(files, f, 0);
    let all = listed_ids(files, ids);
    lemma_kept_holds(files, f, 0);
    if all.contains(id) {
        let k = choose|k: int| 0 <= k < all.len() && all[k] == id;
        let j = lemma_kept_source(files, f, k);
        assert(f(s[k]));
        assert(files[j].id == id);
    }
    if ids.contains(id) && exists|i: int| 0 <= i < files.len() && (#[trigger] files[i]).id == id {
        let i = choose|i: int| 0 <= i < files.len() && (#[trigger] files[i]).id == id;
        assert(f(files[i]));
        let k = lemma_kept_there(files, f, i);
        assert(all[k] == id);
    }
}

/// A file that is ticked is chosen, one that is unticked is not; the other chosen ones
/// stay where several may be, and go where only one may.
pub proof fn law_ticking_changes_one_file(
    files: Seq<LogFileView>,
    ids: Seq<Seq<char>>,
    i: int,
    other: Seq<char>,
)
    requires
        0 <= i < files.len(),
        other != files[i].id,
    ensures
        chosen_after(files, ids, files[i].id, true, false).contains(files[i].id),
        chosen_after(files, ids, files[i].id, true, true).contains(files[i].id),
        !chosen_after(files, ids, files[i].id, false, false).contains(files[i].id),
        chosen_after(files, ids, files[i].id, false, true).len() == 0,
        !chosen_after(files, ids, files[i].id, true, true).contains(other),
        chosen_after(files, ids, files[i].id, true, false).contains(other) <==> listed_ids(
            files,
            ids,
        ).contains(other),
        chosen_after(files, ids, files[i].id, false, false).contains(other) <==> listed_ids(
            files,
            ids,
        ).contains(other),
{
    let id = files[i].id;
    let f = other_text(id);
    let others = kept(ids, f, 0);
    let none = Seq::<Seq<char>>::empty();
    lemma_kept_member(ids, f, id);
    lemma_kept_member(ids, f, other);
    lemma_pushed(others, id, id);
    lemma_pushed(others, id, other);
    lemma_pushed(none, id, id);
    lemma_pushed(none, id, other);
    law_chosen_files_are_in_the_catalogue(files, others.push(id), id);
    law_chosen_files_are_in_the_catalogue(files, others.push(id), other);
    law_chosen_files_are_in_the_catalogue(files, none.push(id), id);
    law_chosen_files_are_in_the_catalogue(files, none.push(id), other);
    law_chosen_files_are_in_the_catalogue(files, others, id);
    law_chosen_files_are_in_the_catalogue(files, others, other);
    law_chosen_files_are_in_the_catalogue(files, ids, other);
    let e = listed_ids(files, none);
    if e.len() > 0 {
        law_chosen_files_are_in_the_catalogue(files, none, e[0]);
        assert(e.contains(e[0]));
    }
}

/// A term that is typed goes to the end without the white space around it, where it
/// is new; a known one and a blank one change nothing.
pub proof fn law_typed_terms_are_added_once(entries: Seq<Seq<char>>, term: Seq<char>, text: Seq<char>)
    ensures
        entries.contains(term) ==> with_entry(entries, term) == entries,
        !entries.contains(term) ==> with_entry(entries, term) == entries.push(term),
        blank(term) ==> term_added(text, term) == text,
{
}

/// The way in which a path is compared is chosen by its place in the list, and shown
/// there again.
pub proof fn law_modes_are_shown_where_they_are_chosen(i: i32, mode: Seq<char>)
    ensures
        0 <= i <= 2 ==> mode_place(mode_name(i)) == i,
        mode == "prefix"@ || mode == "path"@ || mode == "exact"@ ==> mode_name(mode_place(mode))
            == mode,
        mode_name(0) == "prefix"@,
        mode_name(1) == "path"@,
        mode_name(2) == "exact"@,
{
    reveal_strlit("prefix");
    reveal_strlit("path");
    reveal_strlit("exact");
    assert("prefix"@.len() == 6 && "path"@.len() == 4 && "exact"@.len() == 5);
}

/// Extended Windows paths are shown as the plain ones that they stand for.
pub proof fn law_extended_paths_are_shown_plain(rest: Seq<char>, plain: Seq<char>)
    requires
        !crate::text::begins(rest, "UNC\\"@),
        !crate::text::begins(plain, "\\\\?\\"@),
    ensures
        shown_directory("\\\\?\\UNC\\"@ + rest) == "\\\\"@ + rest,
        shown_directory("\\\\?\\"@ + rest) == rest,
        shown_directory(plain) == plain,
{
    reveal_strlit("\\\\?\\UNC\\");
    reveal_strlit("\\\\?\\");
    reveal_strlit("UNC\\");
    let a = "\\\\?\\UNC\\"@;
    let b = "\\\\?\\"@;
    let c = "UNC\\"@;
    assert(a =~= b + c);
    let u = a + rest;
    assert(u.subrange(0, 8) =~= a);
    assert(u.subrange(8, u.len() as int) =~= rest);
    let v = b + rest;
    assert(v.subrange(0, 4) =~= b);
    assert(v.subrange(4, v.len() as int) =~= rest);
    if crate::text::begins(v, a) {
        let t = v.subrange(0, 8);
        assert(t == a);
        assert forall|i: int| 0 <= i < 4 implies rest[i] == c[i] by {
            assert(t[4 + i] == a[4 + i]);
            assert(v[4 + i] == rest[i]);
        }
        assert(rest.subrange(0, 4) =~= c);
    }
    if crate::text::begins(plain, a) {
        let t = plain.subrange(0, 8);
        assert(plain.subrange(0, 4) =~= t.subrange(0, 4));
        assert(t.subrange(0, 4) =~= b);
    }
}

/// The nearest place in a list is that place where the list has it, the first before
/// it and the last behind it; an empty list has none.
pub proof fn law_the_nearest_place_is_in_the_list(len: int, i: int)
    requires
        0 <= len,
    ensures
        0 <= i < len ==> nearest(len, i) == i,
        len > 0 && i < 0 ==> nearest(len, i) == 0,
        len > 0 && i >= len ==> nearest(len, i) == len - 1,
        len == 0 ==> nearest(len, i) == -1,
{
}

/// A cell changes its own column alone: the first the name, the second the path, taken
/// below the selector, the third the format by its place.
pub proof fn law_cells_change_their_column(
    f: FieldView,
    value: Seq<char>,
    selector: Seq<char>,
    rest: Seq<char>,
    column: i32,
)
    ensures
        edited(f, 0, value, selector) == Some(FieldView { name: value, ..f }),
        edited(f, 1, selector + seq!['.'] + rest, selector) == Some(FieldView { path: rest, ..f }),
        !crate::text::begins(value, selector + seq!['.']) ==> edited(f, 1, value, selector) == Some(
            FieldView { path: value, ..f },
        ),
        edited(f, 2, seq!['1'], selector) == Some(FieldView { format: "bytes"@, ..f }),
        column < 0 || column > 2 ==> edited(f, column, value, selector) is None,
{
    reveal_strlit(".");
    assert("."@ =~= seq!['.']);
    let full = selector + seq!['.'] + rest;
    let p = selector + "."@;
    assert(full.subrange(0, p.len() as int) =~= p);
    assert(full.subrange(p.len() as int, full.len() as int) =~= rest);
    let one = seq!['1'];
    reveal_with_fuel(crate::text::digits, 3);
    assert(crate::text::unsigned(one, usize::MAX as nat) == Some(1nat));
}

/// Exchanging two columns twice changes nothing, and a column that is not there is
/// not changed.
pub proof fn law_exchanging_twice_changes_nothing(s: Seq<FieldView>, i: int, j: int, f: FieldView)
    requires
        0 <= i < s.len(),
        0 <= j < s.len(),
        s.len() <= i32::MAX,
    ensures
        exchanged(exchanged(s, i, j), i, j) == s,
        exchanged(s, i, j)[i] == s[j],
        exchanged(s, i, j)[j] == s[i],
        with_column(s, i as i32, f)[i] == f,
        with_column(s, (-1int) as i32, f) == s,
        with_column(s, s.len() as i32, f) == s,
        shown_column(s, i as i32) == s[i],
{
    assert(exchanged(exchanged(s, i, j), i, j) =~= s);
}

/// A rule that is moved stands directly before or behind the rule that it was moved
/// to, and the others keep their order.
pub proof fn law_moved_rules_stand_beside_their_anchor<T: Member>(
    s: Seq<T::V>,
    from: int,
    at: int,
    after: bool,
)
    requires
        0 <= from < s.len(),
        0 <= at < s.len(),
        from != at,
        forall|i: int, j: int|
            0 <= i < j < s.len() ==> T::id_of(#[trigger] s[i]) != T::id_of(#[trigger] s[j]),
    ensures
        ({
            let out = reordered::<T>(s, T::id_of(s[from]), T::id_of(s[at]), after);
            let anchor = if from < at {
                at - 1
            } else {
                at
            };
            let place = if after {
                anchor + 1
            } else {
                anchor
            };
            &&& out.len() == s.len()
            &&& out[place] == s[from]
            &&& after ==> out[place - 1] == s[at]
            &&& !after ==> out[place + 1] == s[at]
            &&& out.remove(place) == s.remove(from)
        }),
{
    let id = T::id_of(s[from]);
    let to = T::id_of(s[at]);
    lemma_place::<T>(s, from);
    lemma_place::<T>(s, at);
    let f = has_id::<T>(to);
    assert(f(s[at]));
    let others = s.remove(from);
    let anchor = if from < at {
        at - 1
    } else {
        at
    };
    assert(others[anchor] == s[at]);
    assert forall|i: int, j: int| 0 <= i < j < others.len() implies T::id_of(
        #[trigger] others[i],
    ) != T::id_of(#[trigger] others[j]) by {
        let x = if i < from {
            i
        } else {
            i + 1
        };
        let y = if j < from {
            j
        } else {
            j + 1
        };
        assert(others[i] == s[x] && others[j] == s[y]);
    }
    lemma_place::<T>(others, anchor);
    let place = if after {
        anchor + 1
    } else {
        anchor
    };
    let out = reordered::<T>(s, id, to, after);
    if from < at {
        assert(T::id_of(s[from]) != T::id_of(s[at]));
    } else {
        assert(T::id_of(s[at]) != T::id_of(s[from]));
    }
    assert(any(s, f));
    assert(out == others.insert(place, s[from]));
    assert(out.remove(place) =~= others);
}

proof fn lemma_place<T: Member>(s: Seq<T::V>, i: int)
    requires
        0 <= i < s.len(),
        forall|i: int, j: int|
            0 <= i < j < s.len() ==> T::id_of(#[trigger] s[i]) != T::id_of(#[trigger] s[j]),
    ensures
        first_place(s, has_id::<T>(T::id_of(s[i])), 0) == Some(i),
{
    let f = has_id::<T>(T::id_of(s[i]));
    assert(f(s[i]));
    lemma_first_of_any(s, f, 0, i);
    lemma_first_holds(s, f, 0);
    let k = first_place(s, f, 0)->0;
    assert(f(s[k]));
    if k < i {
        assert(T::id_of(s[k]) != T::id_of(s[i]));
    }
    if i < k {
        assert(T::id_of(s[i]) != T::id_of(s[k]));
    }
}

/// A file that is moved stands where it was moved to, and the others keep their order.
pub proof fn law_moved_files_stand_where_asked(visible: Seq<Seq<char>>, from: int, to: int)
    requires
        0 <= from < visible.len(),
        0 <= to < visible.len(),
    ensures
        file_moved(visible, from, to)[to] == visible[from],
        file_moved(visible, from, to).remove(to) == visible.remove(from),
{
    assert(file_moved(visible, from, to).remove(to) =~= visible.remove(from));
}

/// The term that is edited in the list is changed, without the white space around it;
/// behind the last one a term that says something is added; one that is removed goes
/// and the others close up.
pub proof fn law_terms_are_edited_in_their_place(
    terms: Seq<Seq<char>>,
    i: int,
    value: Seq<char>,
    k: int,
)
    requires
        0 <= i < terms.len() <= i32::MAX,
    ensures
        inline_terms(terms, i as i32, value, false).len() == terms.len(),
        inline_terms(terms, i as i32, value, false)[i] == trim(value, Class::White),
        0 <= k < terms.len() && k != i ==> inline_terms(terms, i as i32, value, false)[k]
            == terms[k],
        !blank(value) ==> inline_terms(terms, (-1int) as i32, value, false) == terms.push(
            trim(value, Class::White),
        ),
        blank(value) ==> inline_terms(terms, (-1int) as i32, value, false) == terms,
        inline_terms(terms, i as i32, value, true).len() == terms.len() - 1,
        0 <= k < i ==> inline_terms(terms, i as i32, value, true)[k] == terms[k],
        i <= k < terms.len() - 1 ==> inline_terms(terms, i as i32, value, true)[k] == terms[k + 1],
        inline_terms(terms, (-1int) as i32, value, true) == terms,
        term_edited(terms, i as i32, value)[i] == value,
        term_removed(terms, i as i32) == inline_terms(terms, i as i32, value, true),
{
}

/// What is typed at a place is there afterwards, once, and what is typed elsewhere
/// stays.
pub proof fn law_typed_terms_are_kept_once(pending: Seq<PendingTermView>, t: PendingTermView)
    ensures
        staged(pending, t).contains(t),
        forall|x: PendingTermView|
            (x.id != t.id || x.index != t.index) && pending.contains(x) ==> #[trigger] staged(
                pending,
                t,
            ).contains(x),
{
    let f = typed_at(t.id, t.index);
    lemma_first_holds(pending, f, 0);
    let s = staged(pending, t);
    match first_place(pending, f, 0) {
        Some(i) => {
            assert(f(pending[i]));
            assert(s[i] == t);
            assert forall|x: PendingTermView|
                (x.id != t.id || x.index != t.index) && pending.contains(x) implies
                #[trigger] s.contains(x) by {
                let j = choose|j: int| 0 <= j < pending.len() && pending[j] == x;
                assert(s[j] == x);
            }
        },
        None => {
            assert(s[pending.len() as int] == t);
            assert forall|x: PendingTermView|
                (x.id != t.id || x.index != t.index) && pending.contains(x) implies
                #[trigger] s.contains(x) by {
                let j = choose|j: int| 0 <= j < pending.len() && pending[j] == x;
                assert(s[j] == x);
            }
        },
    }
}

/// A term that was typed stands in its rule at its place, and the other rules stay.
pub proof fn law_typed_terms_stand_in_their_rule(
    rules: Seq<RuleView>,
    i: int,
    index: i32,
    value: Seq<char>,
    k: int,
)
    requires
        0 <= i < rules.len(),
        0 <= index < rules[i].terms.len(),
        forall|a: int, b: int|
            0 <= a < b < rules.len() ==> (#[trigger] rules[a]).id != (#[trigger] rules[b]).id,
    ensures
        ({
            let out = term_put(rules, PendingTermView { id: rules[i].id, index, value });
            &&& out.len() == rules.len()
            &&& out[i].terms == rules[i].terms.update(index as int, value)
            &&& out[i].id == rules[i].id && out[i].exclude == rules[i].exclude
            &&& 0 <= k < rules.len() && k != i ==> out[k] == rules[k]
        }),
{
    lemma_place::<Rule>(rules, i);
}

/// A rule that is folded is unfolded and the other way round; the others stay as they
/// are.
pub proof fn law_folding_turns_one_rule(d: DraftView, id: Seq<char>, other: Seq<char>)
    requires
        id != other,
    ensures
        d.with_toggled(id).expanded.contains(id) <==> !d.expanded.contains(id),
        d.with_toggled(id).expanded.contains(other) <==> d.expanded.contains(other),
{
    let f = other_text(id);
    lemma_kept_member(d.expanded, f, id);
    lemma_kept_member(d.expanded, f, other);
    lemma_pushed(d.expanded, id, id);
    lemma_pushed(d.expanded, id, other);
}

/// The selected rule alone is deleted, and then nothing is selected.
pub proof fn law_the_selected_rule_is_deleted(d: DraftView, i: usize)
    requires
        d.selected == Some(i),
        i < d.flushed().count(),
    ensures
        ({
            let out = d.without_selected();
            let was = d.flushed();
            &&& out.selected is None && out.dirty
            &&& d.section == 1 ==> out.rules.system == was.rules.system.remove(i as int)
                && out.rules.rules == was.rules.rules
            &&& d.section != 1 ==> out.rules.rules == was.rules.rules.remove(i as int)
                && out.rules.system == was.rules.system
        }),
{
}

/// A new rule stands at the end, is selected, reads the shown file and has no name; in
/// the section of the timeline it is for the timeline.
pub proof fn law_new_rules_read_the_shown_file(id: Seq<char>, file: Seq<char>)
    ensures
        ({
            let r = fresh_rule(id, file, true);
            &&& r.id == id && r.target == "timeline"@ && r.source_file_ids == seq![file]
            &&& r.name.len() == 0
        }),
        ({
            let r = fresh_rule(id, file, false);
            &&& r.id == id && r.target == "keywords"@ && r.source_file_ids == seq![file]
            &&& r.name.len() == 0
        }),
        ({
            let r = fresh_system_rule(id, file);
            &&& r.id == id && r.source_file_id == file && r.name.len() == 0
        }),
{
}

/// A copy stands at the end under its own identity, is selected and is called a copy;
/// what it was copied from stays.
pub proof fn law_copies_stand_at_the_end(d: DraftView, id: Seq<char>, i: usize)
    requires
        d.selected == Some(i),
        d.rules.rules.len() < usize::MAX,
        d.rules.system.len() < usize::MAX,
        i < d.count(),
    ensures
        ({
            let out = d.copying(id)->0;
            &&& d.copying(id) is Some
            &&& out.dirty == d.dirty
            &&& d.section == 1 ==> {
                &&& out.rules.system.len() == d.rules.system.len() + 1
                &&& out.rules.system.drop_last() == d.rules.system
                &&& out.rules.system.last().id == id
                &&& out.rules.system.last().name == d.rules.system[i as int].name + " 副本"@
                &&& out.rules.system.last().fields == d.rules.system[i as int].fields
                &&& out.selected == Some(d.rules.system.len() as usize)
            }
            &&& d.section != 1 ==> {
                &&& out.rules.rules.len() == d.rules.rules.len() + 1
                &&& out.rules.rules.drop_last() == d.rules.rules
                &&& out.rules.rules.last().id == id
                &&& out.rules.rules.last().name == d.rules.rules[i as int].name + " 副本"@
                &&& out.rules.rules.last().terms == d.rules.rules[i as int].terms
                &&& out.selected == Some(d.rules.rules.len() as usize)
            }
        }),
        (DraftView { selected: None, ..d }).copying(id) is None,
{
    let out = d.copying(id)->0;
    if d.section == 1 {
        assert(out.rules.system.drop_last() =~= d.rules.system);
    } else {
        assert(out.rules.rules.drop_last() =~= d.rules.rules);
    }
}

/// A form without a name is refused.
pub proof fn law_rules_need_a_name(d: DraftView, form: EditForm, typed: Seq<char>)
    requires
        blank(form.name()),
    ensures
        d.candidate(form, typed) is Refused,
        d.step_fault(0, form, typed, Seq::empty()) == Some(
            refusal(FaultKind::BasicsMissing, Seq::empty()),
        ),
{
}

/// A package that is exported has the files that its rules read, and no others.
pub proof fn law_exports_have_the_files_they_read(set: RuleSetView, f: LogFileView)
    ensures
        with_used_files(set).log_files.contains(f) <==> set.log_files.contains(f) && ((exists|
            i: int,
        |
            0 <= i < set.rules.len() && (#[trigger] set.rules[i]).source_file_ids.contains(f.id))
            || (exists|i: int|
            0 <= i < set.system.len() && (#[trigger] set.system[i]).source_file_id == f.id)),
        with_used_files(set).rules == set.rules,
        with_used_files(set).system == set.system,
{
    lemma_kept_member(set.log_files, used_file(set), f);
}

/// The selected keyword rule is exported alone; without a selection there is nothing
/// to export, and all rules are exported as they are.
pub proof fn law_the_selected_rule_is_exported_alone(d: DraftView, i: usize)
    requires
        i < d.rules.rules.len(),
        d.section != 1,
    ensures
        d.selection(i as int).rules == seq![d.rules.rules[i as int]],
        d.selection(i as int).system.len() == 0,
        d.export_set(false) == Some(d.rules),
        d.selected is None ==> d.export_set(true) is None,
        d.selected == Some(i) ==> (d.export_set(true) matches Some(out) && out.rules == seq![
            d.rules.rules[i as int],
        ]),
{
}

/// The lines of a summary name each rule under its group.
pub proof fn law_summaries_name_each_rule(
    rules: Seq<RuleView>,
    system: Seq<SystemRuleView>,
    n: int,
    m: int,
)
    requires
        0 <= n <= rules.len(),
        0 <= m <= system.len(),
    ensures
        rule_lines(rules, n).len() == n,
        forall|i: int|
            0 <= i < n ==> #[trigger] rule_lines(rules, n)[i] == rules[i].group + " / "@
                + rules[i].name,
        system_lines(system, m).len() == m,
        forall|i: int|
            0 <= i < m ==> #[trigger] system_lines(system, m)[i] == system[i].group + " / "@
                + system[i].name,
    decreases n + m,
{
    if n > 0 {
        law_summaries_name_each_rule(rules, system, n - 1, m);
    } else if m > 0 {
        law_summaries_name_each_rule(rules, system, n, m - 1);
    }
}

/// What a reference does is told for each of its tables: a known one is updated, a new
/// one is added.
pub proof fn law_references_say_what_they_do(
    system: Seq<SystemRuleView>,
    reference: Seq<SystemRuleView>,
    n: int,
    i: int,
)
    requires
        0 <= i < n <= reference.len(),
    ensures
        reference_lines(system, reference, n).len() == n,
        (exists|k: int| 0 <= k < system.len() && (#[trigger] system[k]).id == reference[i].id)
            ==> reference_lines(system, reference, n)[i] == "更新"@ + "："@ + reference[i].group
            + " / "@ + reference[i].name,
        (forall|k: int| 0 <= k < system.len() ==> (#[trigger] system[k]).id != reference[i].id)
            ==> reference_lines(system, reference, n)[i] == "新增"@ + "："@ + reference[i].group
            + " / "@ + reference[i].name,
    decreases n,
{
    lemma_reference_len(system, reference, n - 1);
    if i < n - 1 {
        law_references_say_what_they_do(system, reference, n - 1, i);
    } else {
        let f = has_id::<SystemRule>(reference[i].id);
        lemma_first_holds(system, f, 0);
        if first_place(system, f, 0) is Some {
            let k = first_place(system, f, 0)->0;
            assert(f(system[k]));
        }
        if exists|k: int| 0 <= k < system.len() && (#[trigger] system[k]).id == reference[i].id {
            let k = choose|k: int|
                0 <= k < system.len() && (#[trigger] system[k]).id == reference[i].id;
            assert(f(system[k]));
            lemma_first_of_any(system, f, 0, k);
        }
    }
}

proof fn lemma_reference_len(system: Seq<SystemRuleView>, reference: Seq<SystemRuleView>, n: int)
    requires
        0 <= n <= reference.len(),
    ensures
        reference_lines(system, reference, n).len() == n,
    decreases n,
{
    if n > 0 {
        lemma_reference_len(system, reference, n - 1);
    }
}

/// The list of files is between 180 and 360 wide, as wide as was asked for where it
/// may be.
pub proof fn law_the_panel_has_its_limits(width: u32)
    ensures
        180 <= width <= 360 ==> crate::desktop::rule_form::panel_width(width) == width,
        width < 180 ==> crate::desktop::rule_form::panel_width(width) == 180,
        width > 360 ==> crate::desktop::rule_form::panel_width(width) == 360,
{
}

/// When a file moves down, the rules that read it alone stand behind those that read the
/// other file alone; when it moves up, before them.
pub proof fn law_rules_move_with_their_file<T: crate::desktop::arrange::Reader>(
    s: Seq<T::V>,
    file: Seq<char>,
    target: Seq<char>,
    down: bool,
    i: int,
    j: int,
)
    requires
        0 <= i < crate::desktop::arrange::carried::<T>(s, file, target, down).len(),
        0 <= j < crate::desktop::arrange::carried::<T>(s, file, target, down).len(),
        T::reads(crate::desktop::arrange::carried::<T>(s, file, target, down)[i], file),
        !T::reads(crate::desktop::arrange::carried::<T>(s, file, target, down)[i], target),
        T::reads(crate::desktop::arrange::carried::<T>(s, file, target, down)[j], target),
        !T::reads(crate::desktop::arrange::carried::<T>(s, file, target, down)[j], file),
    ensures
        down ==> j < i,
        !down ==> i < j,
{
    let f = crate::desktop::arrange::reads_only::<T>(file, target);
    let g = crate::desktop::arrange::reads_only::<T>(target, file);
    let h = crate::desktop::arrange::reads_otherwise::<T>(file, target);
    let out = crate::desktop::arrange::carried::<T>(s, file, target, down);
    let moving = kept(s, f, 0);
    let others = kept(s, h, 0);
    lemma_kept_holds(s, f, 0);
    lemma_kept_holds(s, h, 0);
    if moving.len() == 0 || !any(s, g) {
        assert(f(s[i]));
        assert(g(s[j]));
        let k = lemma_kept_there(s, f, i);
    } else {
        let x = choose|x: int| 0 <= x < s.len() && g(#[trigger] s[x]);
        assert(h(s[x]));
        let y = lemma_kept_there(s, h, x);
        assert(g(others[y]));
        lemma_first_of_any(others, g, 0, y);
        lemma_first_holds(others, g, 0);
        crate::select::lemma_last_holds(others, g, others.len() as int);
        let at = if down {
            crate::rules::group::last_place(others, g, others.len() as int)->0 + 1
        } else {
            first_place(others, g, 0)->0
        };
        let m = moving.len() as int;
        assert(out == others.take(at) + moving + others.skip(at));
        assert(f(out[i]) && g(out[j]));
        assert(at <= i < at + m) by {
            if i < at {
                assert(out[i] == others[i]);
                assert(h(others[i]));
            } else if i >= at + m {
                assert(out[i] == others[i - m]);
                assert(h(others[i - m]));
            }
        }
        if at <= j < at + m {
            assert(out[j] == moving[j - at]);
            assert(f(moving[j - at]));
        }
        if down && j >= at + m {
            assert(out[j] == others[j - m]);
            assert(g(others[j - m]));
        }
        if !down && j < at {
            assert(out[j] == others[j]);
            assert(g(others[j]));
        }
    }
}

/// The sections of a report are chosen by their place in the list, and shown there
/// again.
pub proof fn law_sections_are_shown_where_they_are_chosen(i: i32)
    ensures
        crate::desktop::rule_form::sections_at(0) == seq!["keywords"@, "timeline"@],
        crate::desktop::rule_form::sections_at(1) == seq!["timeline"@, "keywords"@],
        crate::desktop::rule_form::sections_at(2) == seq!["keywords"@],
        crate::desktop::rule_form::sections_at(3) == seq!["timeline"@],
        0 <= i <= 3 ==> crate::desktop::rule_form::section_choice(
            crate::desktop::rule_form::sections_at(i),
        ) == i,
{
    reveal_strlit("keywords");
    reveal_strlit("timeline");
    assert("keywords"@[0] == 'k' && "timeline"@[0] == 't');
    let a = crate::desktop::rule_form::sections_at(i);
    if i == 0 || i == 1 {
        assert(a.len() == 2);
    } else if i == 2 {
        assert(a[0] == "keywords"@);
    }
}

} // verus!
