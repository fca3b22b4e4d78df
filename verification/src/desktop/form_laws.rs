//! What the forms of the rule editor keep.

use crate::desktop::dialog::file_shown;
use crate::desktop::draft::DraftView;
use crate::desktop::edit::file_of_form;
use crate::desktop::form::{choice, entries_of, file_among, listed_ids, not_empty, trimmed_lines};
use crate::desktop::rule_form::{kinds, modes, sorts, table_views, targets, RuleForm, SystemForm};
use crate::desktop::transfer::chain;
use crate::rules::group::{has_id, lemma_kept_all};
use crate::rules::model::{LogFileView, RuleView, SystemRule, SystemRuleView};
use crate::select::{lemma_first_holds, lemma_kept_holds};
use crate::text::{
    first_place, joined, kept, lemma_index_from, lemma_seek_back_bounds, lemma_seek_bounds, lines,
    lines_from, seek, swap_char, trim, views, white, Class,
};
use vstd::prelude::*;

verus! {

/// Whether a text can stand on a line of a list: it is not blank, has no white
/// space around it and no line feed in it.
pub open spec fn one_entry(t: Seq<char>) -> bool {
    &&& t.len() > 0
    &&& trim(t, Class::White) == t
    &&& forall|i: int| 0 <= i < t.len() ==> #[trigger] t[i] != '\n'
}

pub open spec fn all_entries(ts: Seq<Seq<char>>) -> bool {
    forall|i: int| 0 <= i < ts.len() ==> one_entry(#[trigger] ts[i])
}

proof fn lemma_entry_end(t: Seq<char>)
    requires
        one_entry(t),
    ensures
        !white(t.last()),
{
    let n = t.len() as int;
    lemma_seek_bounds(t, Class::White, false, 0);
    lemma_seek_back_bounds(t, Class::White, false, n);
    if white(t.last()) {
        assert(Class::White.holds(t[n - 1]));
        assert(trim(t, Class::White).len() < t.len());
    }
}

proof fn lemma_seek_in_front(s: Seq<char>, t: Seq<char>, i: int)
    requires
        0 <= i <= s.len(),
        s.len() < t.len(),
        forall|k: int| 0 <= k < s.len() ==> t[k] == #[trigger] s[k],
        t[s.len() as int] == '\n',
    ensures
        seek(t, Class::One('\n'), true, i) == seek(s, Class::One('\n'), true, i),
    decreases s.len() - i,
{
    if i < s.len() && s[i] != '\n' {
        lemma_seek_in_front(s, t, i + 1);
    }
}

proof fn lemma_last_line(t: Seq<char>, i: int)
    requires
        0 <= i < t.len(),
        forall|k: int| i <= k < t.len() ==> #[trigger] t[k] != '\n',
    ensures
        lines_from(t, i) == seq![t.subrange(i, t.len() as int)],
{
    lemma_seek_bounds(t, Class::One('\n'), true, i);
}

proof fn lemma_lines_append(s: Seq<char>, b: Seq<char>, i: int)
    requires
        0 <= i < s.len(),
        s.last() != '\n',
        s.last() != '\r',
        b.len() > 0,
        forall|k: int| 0 <= k < b.len() ==> #[trigger] b[k] != '\n',
    ensures
        lines_from(s + seq!['\n'] + b, i) == lines_from(s, i).push(b),
    decreases s.len() - i,
{
    let t = s + seq!['\n'] + b;
    assert forall|k: int| 0 <= k < s.len() implies t[k] == #[trigger] s[k] by {}
    assert(t[s.len() as int] == '\n');
    lemma_seek_in_front(s, t, i);
    lemma_seek_bounds(s, Class::One('\n'), true, i);
    let j = seek(s, Class::One('\n'), true, i);
    if j < s.len() {
        assert(j + 1 < s.len());
        lemma_lines_append(s, b, j + 1);
        assert(t.subrange(i, crate::text::line_stop(t, i, j)) =~= s.subrange(
            i,
            crate::text::line_stop(s, i, j),
        ));
        assert(lines_from(t, i) =~= lines_from(s, i).push(b));
    } else {
        assert forall|k: int| s.len() + 1 <= k < t.len() implies #[trigger] t[k] != '\n' by {
            assert(t[k] == b[k - s.len() - 1]);
        }
        let n = s.len() as int + 1;
        lemma_last_line(t, n);
        assert(t.subrange(n, t.len() as int) =~= b);
        assert(t.subrange(i, s.len() as int) =~= s.subrange(i, s.len() as int));
        assert(lines_from(t, i) =~= lines_from(s, i).push(b));
    }
}

proof fn lemma_lines_joined(ts: Seq<Seq<char>>)
    requires
        all_entries(ts),
    ensures
        lines(joined(ts, "\n"@)) == ts,
        ts.len() > 0 ==> joined(ts, "\n"@).len() > 0 && joined(ts, "\n"@).last()
            == ts.last().last(),
    decreases ts.len(),
{
    reveal_strlit("\n");
    assert("\n"@ =~= seq!['\n']);
    if ts.len() == 0 {
        assert(lines(joined(ts, "\n"@)) =~= ts);
    } else {
        assert(one_entry(ts.last()));
        if ts.len() == 1 {
            lemma_last_line(ts[0], 0);
            assert(ts[0].subrange(0, ts[0].len() as int) =~= ts[0]);
            assert(lines(joined(ts, "\n"@)) =~= ts);
        } else {
            let front = ts.drop_last();
            assert forall|i: int| 0 <= i < front.len() implies one_entry(#[trigger] front[i]) by {
                assert(one_entry(ts[i]));
            }
            lemma_lines_joined(front);
            assert(one_entry(front.last()));
            lemma_entry_end(front.last());
            lemma_lines_append(joined(front, "\n"@), ts.last(), 0);
            assert(lines(joined(ts, "\n"@)) =~= ts);
        }
    }
}

/// A list of terms comes back from its text as it was.
pub proof fn law_listed_terms_come_back(ts: Seq<Seq<char>>)
    requires
        all_entries(ts),
    ensures
        entries_of(joined(ts, "\n"@)) == ts,
{
    lemma_lines_joined(ts);
    let l = trimmed_lines(joined(ts, "\n"@));
    assert forall|i: int| 0 <= i < ts.len() implies #[trigger] l[i] == ts[i] by {
        assert(one_entry(ts[i]));
    }
    assert(l =~= ts);
    assert forall|i: int| 0 <= i < ts.len() implies not_empty()(#[trigger] ts[i]) by {
        assert(one_entry(ts[i]));
    }
    lemma_kept_all(ts, not_empty(), 0);
    assert(ts.skip(0) =~= ts);
}

proof fn lemma_choice(s: Seq<char>, a: Seq<Seq<char>>)
    requires
        a.contains(s),
    ensures
        0 <= choice(s, a) < a.len(),
        a[choice(s, a)] == s,
{
    lemma_index_from(a, s, 0);
}

/// The form of a rule that is not touched changes nothing of it but its list of
/// files, which then stand in the order of the catalogue.
pub proof fn law_untouched_rule_stays(form: RuleForm, r: RuleView, files: Seq<LogFileView>)
    requires
        form.shows(r, files),
        all_entries(r.terms),
        all_entries(r.exclude),
        modes().contains(r.mode),
        targets().contains(r.target),
        sorts().contains(r.sort),
        r.before <= i32::MAX,
        r.after <= i32::MAX,
    ensures
        form.filled(r) == (RuleView {
            source_file_ids: listed_ids(files, r.source_file_ids),
            ..r
        }),
{
    law_listed_terms_come_back(r.terms);
    law_listed_terms_come_back(r.exclude);
    lemma_choice(r.mode, modes());
    lemma_choice(r.target, targets());
    lemma_choice(r.sort, sorts());
    reveal_strlit("any");
    reveal_strlit("all");
    assert("any"@[1] == 'n');
    assert("all"@[1] == 'l');
    assert(modes()[0] == "any"@ && modes()[1] == "all"@);
    assert(form.filled(r) =~= (RuleView {
        source_file_ids: listed_ids(files, r.source_file_ids),
        ..r
    }));
}

/// The form of a table that is not touched changes nothing of it, where the
/// catalogue has its file.
pub proof fn law_untouched_table_stays(
    form: SystemForm,
    r: SystemRuleView,
    files: Seq<LogFileView>,
)
    requires
        form.shows(r, files),
        listed_ids(files, seq![r.source_file_id]).len() > 0,
        kinds().contains(r.kind),
        table_views().contains(r.view),
    ensures
        form.filled(r) == Some(r),
{
    lemma_choice(r.kind, kinds());
    lemma_choice(r.view, table_views());
    let ids = seq![r.source_file_id];
    let f = file_among(ids);
    lemma_kept_holds(files, f, 0);
    let first = kept(files, f, 0)[0];
    assert(f(first));
    assert(ids.contains(first.id));
    assert(first.id == r.source_file_id);
    assert(views(form.files@).len() == form.files.len());
    assert(form.files@[0]@ == views(form.files@)[0]);
    assert(form.filled(r) =~= Some(r));
}

/// What a form holds of the chosen files is what it holds of those again.
pub proof fn law_listing_again_changes_nothing(files: Seq<LogFileView>, ids: Seq<Seq<char>>)
    ensures
        listed_ids(files, listed_ids(files, ids)) == listed_ids(files, ids),
{
    let once = listed_ids(files, ids);
    let f = file_among(ids);
    let g = file_among(once);
    lemma_kept_holds(files, f, 0);
    let k = kept(files, f, 0);
    assert forall|i: int| 0 <= i < files.len() implies f(#[trigger] files[i]) == g(files[i]) by {
        if f(files[i]) {
            let j = choose|j: int| 0 <= j < k.len() && k[j] == files[i];
            assert(once[j] == files[i].id);
        }
        if g(files[i]) {
            let j = choose|j: int| 0 <= j < once.len() && once[j] == files[i].id;
            assert(f(k[j]));
        }
    }
    lemma_kept_same(files, f, g, 0);
}

proof fn lemma_kept_same(
    files: Seq<LogFileView>,
    f: spec_fn(LogFileView) -> bool,
    g: spec_fn(LogFileView) -> bool,
    i: int,
)
    requires
        0 <= i <= files.len(),
        forall|j: int| 0 <= j < files.len() ==> f(#[trigger] files[j]) == g(files[j]),
    ensures
        kept(files, f, i) == kept(files, g, i),
    decreases files.len() - i,
{
    if i < files.len() {
        lemma_kept_same(files, f, g, i + 1);
    }
}

/// Taking over what is being typed a second time changes nothing.
pub proof fn law_flushing_again_changes_nothing(d: DraftView)
    ensures
        d.flushed().flushed() == d.flushed(),
{
    assert(d.flushed().flushed() =~= d.flushed());
}

/// Every table that is exported because another is joined with it brings the one
/// that it is joined with itself.
pub proof fn law_exported_tables_bring_their_partners(
    system: Seq<SystemRuleView>,
    ids: Seq<Seq<char>>,
    next: Seq<char>,
    id: Seq<char>,
)
    requires
        chain(system, ids, next).contains(id),
        !ids.contains(id),
        first_place(system, has_id::<SystemRule>(id), 0) is Some,
    ensures
        ({
            let partner = system[first_place(system, has_id::<SystemRule>(id), 0)->0].join_rule;
            partner.len() == 0 || chain(system, ids, next).contains(partner)
        }),
    decreases kept(system, crate::desktop::transfer::unlisted(ids), 0).len(),
{
    if !(next.len() == 0 || ids.contains(next)) {
        let more = ids.push(next);
        let f = has_id::<SystemRule>(next);
        lemma_first_holds(system, f, 0);
        match first_place(system, f, 0) {
            Some(at) => {
                crate::desktop::transfer::lemma_fewer(system, ids, next, 0, at);
                let partner = system[at].join_rule;
                if id == next {
                    lemma_chain_has_next(system, more, partner);
                } else {
                    if more.contains(id) {
                        let k = choose|k: int| 0 <= k < more.len() && more[k] == id;
                        assert(ids[k] == id);
                    }
                    law_exported_tables_bring_their_partners(system, more, partner, id);
                }
            },
            None => {
                let k = choose|k: int| 0 <= k < more.len() && more[k] == id;
                if k < ids.len() {
                    assert(ids[k] == id);
                }
            },
        }
    }
}

proof fn lemma_chain_keeps(
    system: Seq<SystemRuleView>,
    ids: Seq<Seq<char>>,
    next: Seq<char>,
    id: Seq<char>,
)
    requires
        ids.contains(id),
    ensures
        chain(system, ids, next).contains(id),
    decreases kept(system, crate::desktop::transfer::unlisted(ids), 0).len(),
{
    if !(next.len() == 0 || ids.contains(next)) {
        let more = ids.push(next);
        let k = choose|k: int| 0 <= k < ids.len() && ids[k] == id;
        assert(more[k] == id);
        let f = has_id::<SystemRule>(next);
        lemma_first_holds(system, f, 0);
        if first_place(system, f, 0) is Some {
            let at = first_place(system, f, 0)->0;
            crate::desktop::transfer::lemma_fewer(system, ids, next, 0, at);
            lemma_chain_keeps(system, more, system[at].join_rule, id);
        }
    }
}

proof fn lemma_chain_has_next(system: Seq<SystemRuleView>, ids: Seq<Seq<char>>, next: Seq<char>)
    ensures
        next.len() == 0 || chain(system, ids, next).contains(next),
{
    if next.len() > 0 && !ids.contains(next) {
        let more = ids.push(next);
        assert(more[ids.len() as int] == next);
        let f = has_id::<SystemRule>(next);
        if first_place(system, f, 0) is Some {
            let at = first_place(system, f, 0)->0;
            lemma_chain_keeps(system, more, system[at].join_rule, next);
        }
    }
}

/// A form that shows a log file and is not touched saves the same file, where its
/// name and path are written as the form writes them and its kind is a known one.
pub proof fn law_untouched_file_stays(f: LogFileView)
    requires
        trim(f.name, Class::White) == f.name,
        swap_char(trim(f.path, Class::White), '\\', '/') == f.path,
        f.mode == "prefix"@ || f.mode == "path"@ || f.mode == "exact"@,
        f.container == "diagnostic_archive"@ || f.container == "zip"@,
    ensures
        ({
            let shown = file_shown(f);
            file_of_form(shown.id, shown.name, shown.path, shown.mode, shown.container) == f
        }),
{
    reveal_strlit("prefix");
    reveal_strlit("path");
    reveal_strlit("exact");
    assert("prefix"@.len() == 6 && "path"@.len() == 4 && "exact"@.len() == 5);
}

} // verus!
