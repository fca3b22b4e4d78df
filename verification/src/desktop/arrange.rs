//! Moving rules and log files in the rule editor. Only the order changes, never
//! a rule's group or its files.

use crate::rules::group::{find_id, has_id, last_place, Member};
use crate::rules::model::{Rule, RuleSet, RuleSetView, RuleView, SystemRule, SystemRuleView};
use crate::select::{
    find_by, find_last_by, keep_by, lemma_first_holds, lemma_first_of_any, lemma_front_multiset,
    lemma_kept_holds, lemma_kept_parts, lemma_last_holds,
};
use crate::text::{
    any, duplicate_all, duplicate_range, first_place, kept, lists, same, views, Duplicate,
};
use vstd::prelude::*;

verus! {

/// The rules with one of them beside another; as they are where there is no such
/// rule or no such anchor.
pub open spec fn reordered<T: Member>(
    s: Seq<T::V>,
    id: Seq<char>,
    anchor: Seq<char>,
    after: bool,
) -> Seq<T::V> {
    match first_place(s, has_id::<T>(id), 0) {
        Some(from) => if id == anchor || !any(s, has_id::<T>(anchor)) {
            s
        } else {
            let others = s.remove(from);
            let at = first_place(others, has_id::<T>(anchor), 0)->0;
            others.insert(
                if after {
                    at + 1
                } else {
                    at
                },
                s[from],
            )
        },
        None => s,
    }
}

/// An element that stays shows that there is still one of its kind.
proof fn lemma_left<A>(s: Seq<A>, p: spec_fn(A) -> bool, from: int)
    requires
        0 <= from < s.len(),
        !p(s[from]),
        any(s, p),
    ensures
        any(s.remove(from), p),
{
    let j = choose|j: int| 0 <= j < s.len() && p(#[trigger] s[j]);
    let others = s.remove(from);
    if j < from {
        assert(others[j] == s[j]);
    } else {
        assert(others[j - 1] == s[j]);
    }
}

/// Moving a rule keeps their number.
pub proof fn lemma_reordered_len<T: Member>(
    s: Seq<T::V>,
    id: Seq<char>,
    anchor: Seq<char>,
    after: bool,
)
    ensures
        reordered::<T>(s, id, anchor, after).len() == s.len(),
{
    let p = has_id::<T>(anchor);
    lemma_first_holds(s, has_id::<T>(id), 0);
    if first_place(s, has_id::<T>(id), 0) is Some && id != anchor && any(s, p) {
        let from = first_place(s, has_id::<T>(id), 0)->0;
        lemma_left(s, p, from);
        lemma_first_holds(s.remove(from), p, 0);
    }
}

fn reorder<T: Member>(items: &mut Vec<T>, id: &str, anchor: &str, after: bool)
    ensures
        views(final(items)@) == reordered::<T>(views(old(items)@), id@, anchor@, after),
{
    let ghost s = views(items@);
    let from = match find_id(items, id) {
        Some(from) => from,
        None => {
            return;
        },
    };
    if same(id, anchor) || find_id(items, anchor).is_none() {
        proof {
            if any(s, has_id::<T>(anchor@)) {
                let p = has_id::<T>(anchor@);
                let j = choose|j: int| 0 <= j < s.len() && p(#[trigger] s[j]);
                lemma_first_of_any(s, p, 0, j);
            }
        }
        return;
    }
    proof {
        let p = has_id::<T>(anchor@);
        lemma_first_holds(s, has_id::<T>(id@), 0);
        lemma_first_holds(s, p, 0);
        assert(any(s, p));
        lemma_left(s, p, from as int);
        let others = s.remove(from as int);
        let j = choose|j: int| 0 <= j < others.len() && p(#[trigger] others[j]);
        lemma_first_of_any(others, p, 0, j);
    }
    let ghost moved = items@[from as int];
    let ghost had = items@;
    let row = items.remove(from);
    proof {
        assert(views(items@) =~= s.remove(from as int));
    }
    let ghost others = views(items@);
    if let Some(at) = find_id(items, anchor) {
        let to: usize = if after {
            at + 1
        } else {
            at
        };
        items.insert(to, row);
        proof {
            assert(views(items@) =~= others.insert(to as int, moved@));
        }
    }
}

/// Moves a rule beside another, wherever their groups and files are.
pub fn reorder_file_rule(rules: &mut RuleSet, system: bool, id: &str, anchor: &str, after: bool)
    ensures
        final(rules)@ == old(rules)@.with_reordered(system, id@, anchor@, after),
{
    let ghost sv = rules@;
    if system {
        reorder(&mut rules.system, id, anchor, after);
    } else {
        reorder(&mut rules.rules, id, anchor, after);
    }
    proof {
        assert(rules@ =~= sv.with_reordered(system, id@, anchor@, after));
    }
}

impl RuleSetView {
    pub open spec fn with_reordered(
        self,
        system: bool,
        id: Seq<char>,
        anchor: Seq<char>,
        after: bool,
    ) -> RuleSetView {
        if system {
            RuleSetView {
                system: reordered::<SystemRule>(self.system, id, anchor, after),
                ..self
            }
        } else {
            RuleSetView { rules: reordered::<Rule>(self.rules, id, anchor, after), ..self }
        }
    }
}

/// A rule of either sort: it reads log files.
pub trait Reader: Member {
    spec fn reads(v: Self::V, file: Seq<char>) -> bool;

    fn reads_file(&self, file: &str) -> (r: bool)
        ensures
            r == Self::reads(self@, file@),
    ;
}

impl Reader for Rule {
    open spec fn reads(v: RuleView, file: Seq<char>) -> bool {
        v.source_file_ids.contains(file)
    }

    fn reads_file(&self, file: &str) -> (r: bool) {
        lists(&self.source_file_ids, file)
    }
}

impl Reader for SystemRule {
    open spec fn reads(v: SystemRuleView, file: Seq<char>) -> bool {
        v.source_file_id == file
    }

    fn reads_file(&self, file: &str) -> (r: bool) {
        same(self.source_file_id.as_str(), file)
    }
}

/// Reading one file and not another.
pub open spec fn reads_only<T: Reader>(file: Seq<char>, other: Seq<char>) -> spec_fn(T::V) -> bool {
    |v: T::V| T::reads(v, file) && !T::reads(v, other)
}

pub open spec fn reads_otherwise<T: Reader>(
    file: Seq<char>,
    other: Seq<char>,
) -> spec_fn(T::V) -> bool {
    |v: T::V| !(T::reads(v, file) && !T::reads(v, other))
}

/// The rules with those that read a file moved past those that read another:
/// behind them when the file moves down, else before them. Rules that read both
/// stay where they are.
pub open spec fn carried<T: Reader>(
    s: Seq<T::V>,
    file: Seq<char>,
    target: Seq<char>,
    down: bool,
) -> Seq<T::V> {
    let moving = kept(s, reads_only::<T>(file, target), 0);
    let anchor = reads_only::<T>(target, file);
    if moving.len() == 0 || !any(s, anchor) {
        s
    } else {
        let others = kept(s, reads_otherwise::<T>(file, target), 0);
        let at = if down {
            last_place(others, anchor, others.len() as int)->0 + 1
        } else {
            first_place(others, anchor, 0)->0
        };
        others.take(at) + moving + others.skip(at)
    }
}

/// A rule that reads only the other file stays, so there is one to move past.
proof fn lemma_anchor_stays<T: Reader>(s: Seq<T::V>, file: Seq<char>, target: Seq<char>)
    requires
        any(s, reads_only::<T>(target, file)),
    ensures
        ({
            let others = kept(s, reads_otherwise::<T>(file, target), 0);
            let anchor = reads_only::<T>(target, file);
            &&& first_place(others, anchor, 0) matches Some(i) && 0 <= i < others.len()
            &&& last_place(others, anchor, others.len() as int) matches Some(i) && 0 <= i
                < others.len()
        }),
{
    let p = reads_otherwise::<T>(file, target);
    let anchor = reads_only::<T>(target, file);
    let others = kept(s, p, 0);
    lemma_kept_holds(s, p, 0);
    let j = choose|j: int| 0 <= j < s.len() && anchor(#[trigger] s[j]);
    assert(p(s[j]));
    let k = choose|k: int| 0 <= k < others.len() && others[k] == s[j];
    assert(anchor(others[k]));
    lemma_first_of_any(others, anchor, 0, k);
    lemma_last_holds(others, anchor, others.len() as int);
}

/// A list between the two parts of another.
fn splice<T: Duplicate>(others: &Vec<T>, at: usize, moving: Vec<T>) -> (r: Vec<T>)
    requires
        at <= others.len(),
    ensures
        views(r@) == views(others@).take(at as int) + views(moving@) + views(others@).skip(
            at as int,
        ),
{
    let mut out = duplicate_range(others, 0, at);
    let ghost head = views(out@);
    let ghost mv = views(moving@);
    let mut moving = moving;
    let mut rest = duplicate_range(others, at, others.len());
    let ghost tail = views(rest@);
    out.append(&mut moving);
    out.append(&mut rest);
    proof {
        assert(views(out@) =~= head + mv + tail);
        assert(head =~= views(others@).take(at as int));
        assert(tail =~= views(others@).skip(at as int));
    }
    out
}

fn readers_only<T: Reader>(items: &Vec<T>, file: &str, target: &str) -> (r: Vec<T>)
    ensures
        views(r@) == kept(views(items@), reads_only::<T>(file@, target@), 0),
{
    let f = |t: &T| -> (r: bool)
        ensures
            r == reads_only::<T>(file@, target@)(t@),
        { t.reads_file(file) && !t.reads_file(target) };
    keep_by(items, &f, Ghost(reads_only::<T>(file@, target@)))
}

fn other_readers<T: Reader>(items: &Vec<T>, file: &str, target: &str) -> (r: Vec<T>)
    ensures
        views(r@) == kept(views(items@), reads_otherwise::<T>(file@, target@), 0),
{
    let f = |t: &T| -> (r: bool)
        ensures
            r == reads_otherwise::<T>(file@, target@)(t@),
        { !(t.reads_file(file) && !t.reads_file(target)) };
    keep_by(items, &f, Ghost(reads_otherwise::<T>(file@, target@)))
}

/// The first or the last rule that reads only a file.
fn find_reader<T: Reader>(items: &Vec<T>, file: &str, other: &str, last: bool) -> (r: Option<usize>)
    ensures
        opt_place(r) == if last {
            last_place(views(items@), reads_only::<T>(file@, other@), items.len() as int)
        } else {
            first_place(views(items@), reads_only::<T>(file@, other@), 0)
        },
        r matches Some(i) ==> i < items.len(),
{
    let f = |t: &T| -> (r: bool)
        ensures
            r == reads_only::<T>(file@, other@)(t@),
        { t.reads_file(file) && !t.reads_file(other) };
    if last {
        find_last_by(items, &f, Ghost(reads_only::<T>(file@, other@)))
    } else {
        find_by(items, &f, Ghost(reads_only::<T>(file@, other@)))
    }
}

pub open spec fn opt_place(o: Option<usize>) -> Option<int> {
    match o {
        Some(i) => Some(i as int),
        None => None,
    }
}

fn carry<T: Reader>(items: &mut Vec<T>, file: &str, target: &str, down: bool)
    ensures
        views(final(items)@) == carried::<T>(views(old(items)@), file@, target@, down),
{
    let ghost s = views(items@);
    let ghost anchor = reads_only::<T>(target@, file@);
    let moving = readers_only(items, file, target);
    proof {
        assert(moving.len() == views(moving@).len());
        lemma_first_holds(s, anchor, 0);
    }
    if moving.len() == 0 || find_reader(items, target, file, false).is_none() {
        return;
    }
    proof {
        assert(any(s, anchor));
        lemma_anchor_stays::<T>(s, file@, target@);
    }
    let others = other_readers(items, file, target);
    proof {
        assert(views(others@).len() == others.len());
    }
    if let Some(i) = find_reader(&others, target, file, down) {
        let at: usize = if down {
            i + 1
        } else {
            i
        };
        *items = splice(&others, at, moving);
    }
}

/// The order of the files with one of them in the place of another.
pub open spec fn file_moved(visible: Seq<Seq<char>>, from: int, to: int) -> Seq<Seq<char>> {
    visible.remove(from).insert(to, visible[from])
}

impl RuleSetView {
    /// The rule package after a file moved in the list of files; the rules that
    /// read it move with it where the other file has rules of its own.
    pub open spec fn with_file_moved(
        self,
        visible: Seq<Seq<char>>,
        from: int,
        to: int,
        system: bool,
    ) -> RuleSetView {
        let layout = crate::rules::model::LayoutView {
            file_order: file_moved(visible, from, to),
            ..self.layout
        };
        if system {
            RuleSetView {
                layout,
                system: carried::<SystemRule>(self.system, visible[from], visible[to], from < to),
                ..self
            }
        } else {
            RuleSetView {
                layout,
                rules: carried::<Rule>(self.rules, visible[from], visible[to], from < to),
                ..self
            }
        }
    }
}

/// Moves a file in the list of files, and tells whether anything moved.
pub fn reorder_log_files(
    rules: &mut RuleSet,
    visible: &Vec<String>,
    from: usize,
    to: usize,
    system: bool,
) -> (r: bool)
    ensures
        r == (from < visible.len() && to < visible.len() && from != to),
        final(rules)@ == if r {
            old(rules)@.with_file_moved(views(visible@), from as int, to as int, system)
        } else {
            old(rules)@
        },
{
    let ghost sv = rules@;
    let ghost vv = views(visible@);
    if from >= visible.len() || to >= visible.len() || from == to {
        return false;
    }
    let source = visible[from].clone();
    let target = visible[to].clone();
    let mut files = duplicate_all(visible);
    proof {
        assert(views(files@).len() == files.len());
    }
    let moving = files.remove(from);
    files.insert(to, moving);
    proof {
        assert(views(files@) =~= file_moved(vv, from as int, to as int));
    }
    rules.layout.file_order = files;
    if system {
        carry(&mut rules.system, source.as_str(), target.as_str(), from < to);
    } else {
        carry(&mut rules.rules, source.as_str(), target.as_str(), from < to);
    }
    proof {
        assert(vv[from as int] == visible@[from as int]@);
        assert(vv[to as int] == visible@[to as int]@);
        assert(rules@ =~= sv.with_file_moved(vv, from as int, to as int, system));
    }
    true
}

/// Moving a rule keeps every rule as it is.
pub proof fn law_reordering_keeps_rules<T: Member>(
    s: Seq<T::V>,
    id: Seq<char>,
    anchor: Seq<char>,
    after: bool,
)
    ensures
        reordered::<T>(s, id, anchor, after).to_multiset() == s.to_multiset(),
{
    broadcast use vstd::seq_lib::group_to_multiset_ensures;

    let p = has_id::<T>(anchor);
    lemma_first_holds(s, has_id::<T>(id), 0);
    if first_place(s, has_id::<T>(id), 0) is Some && id != anchor && any(s, p) {
        let from = first_place(s, has_id::<T>(id), 0)->0;
        lemma_left(s, p, from);
        let others = s.remove(from);
        lemma_first_holds(others, p, 0);
        let at = first_place(others, p, 0)->0 + if after {
            1int
        } else {
            0
        };
        lemma_insert_multiset(others, at, s[from]);
        assert(others.insert(at, s[from]).to_multiset() =~= s.to_multiset());
    }
}

proof fn lemma_insert_multiset<A>(s: Seq<A>, at: int, x: A)
    requires
        0 <= at <= s.len(),
    ensures
        s.insert(at, x).to_multiset() == s.to_multiset().insert(x),
{
    broadcast use vstd::seq_lib::group_to_multiset_ensures;

    assert(s.insert(at, x) =~= s.take(at) + (seq![x] + s.skip(at)));
    lemma_front_multiset(x, s.skip(at));
    vstd::seq_lib::lemma_multiset_commutative(s.take(at), seq![x] + s.skip(at));
    vstd::seq_lib::lemma_multiset_commutative(s.take(at), s.skip(at));
    assert(s.take(at) + s.skip(at) =~= s);
    assert(s.insert(at, x).to_multiset() =~= s.to_multiset().insert(x));
}

/// Moving a file keeps every rule as it is, whether it moves with the file or
/// not.
pub proof fn law_file_move_keeps_rules<T: Reader>(
    s: Seq<T::V>,
    file: Seq<char>,
    target: Seq<char>,
    down: bool,
)
    ensures
        carried::<T>(s, file, target, down).to_multiset() == s.to_multiset(),
{
    broadcast use vstd::seq_lib::group_to_multiset_ensures;

    let moving = kept(s, reads_only::<T>(file, target), 0);
    let others = kept(s, reads_otherwise::<T>(file, target), 0);
    let anchor = reads_only::<T>(target, file);
    if moving.len() > 0 && any(s, anchor) {
        lemma_anchor_stays::<T>(s, file, target);
        let at = if down {
            last_place(others, anchor, others.len() as int)->0 + 1
        } else {
            first_place(others, anchor, 0)->0
        };
        let all = |v: T::V| true;
        lemma_kept_parts(
            s,
            all,
            reads_only::<T>(file, target),
            reads_otherwise::<T>(file, target),
            0,
        );
        crate::rules::group::lemma_kept_all(s, all, 0);
        assert(s.skip(0) =~= s);
        vstd::seq_lib::lemma_multiset_commutative(others.take(at) + moving, others.skip(at));
        vstd::seq_lib::lemma_multiset_commutative(others.take(at), moving);
        vstd::seq_lib::lemma_multiset_commutative(others.take(at), others.skip(at));
        assert(others.take(at) + others.skip(at) =~= others);
        assert(carried::<T>(s, file, target, down).to_multiset() =~= s.to_multiset());
    }
}

/// Moving a file keeps the files of the list.
pub proof fn law_file_move_keeps_files(visible: Seq<Seq<char>>, from: int, to: int)
    requires
        0 <= from < visible.len(),
        0 <= to < visible.len(),
    ensures
        file_moved(visible, from, to).to_multiset() == visible.to_multiset(),
        file_moved(visible, from, to)[to] == visible[from],
{
    broadcast use vstd::seq_lib::group_to_multiset_ensures;

    lemma_insert_multiset(visible.remove(from), to, visible[from]);
    assert(file_moved(visible, from, to).to_multiset() =~= visible.to_multiset());
}

} // verus!
