//! Groups of rules. A group has no record of its own: its place is that of its
//! first member, and moving it moves its members.

use crate::rules::model::{Rule, RuleSet, RuleSetView, RuleView, SystemRule, SystemRuleView};
use crate::text::{any, first_place, index_from, kept, lists, position, same, views, Duplicate};
use std::collections::VecDeque;
use vstd::prelude::*;

verus! {

/// The groups of the first `n` elements in the order in which they appear.
pub open spec fn group_order<A>(s: Seq<A>, name: spec_fn(A) -> Seq<char>, n: int) -> Seq<Seq<char>>
    decreases n,
{
    if n <= 0 {
        Seq::empty()
    } else {
        let order = group_order(s, name, n - 1);
        if order.contains(name(s[n - 1])) {
            order
        } else {
            order.push(name(s[n - 1]))
        }
    }
}

pub open spec fn groups<A>(s: Seq<A>, name: spec_fn(A) -> Seq<char>) -> Seq<Seq<char>> {
    group_order(s, name, s.len() as int)
}

/// Being a member of a group.
pub open spec fn in_group<A>(name: spec_fn(A) -> Seq<char>, g: Seq<char>) -> spec_fn(A) -> bool {
    |a: A| name(a) == g
}

/// Being a member of no group of a list.
pub open spec fn in_none<A>(
    name: spec_fn(A) -> Seq<char>,
    order: Seq<Seq<char>>,
) -> spec_fn(A) -> bool {
    |a: A| !order.contains(name(a))
}

/// The members of a group in their order.
pub open spec fn members<A>(s: Seq<A>, name: spec_fn(A) -> Seq<char>, g: Seq<char>) -> Seq<A> {
    kept(s, in_group(name, g), 0)
}

/// The members of the first `n` groups of an order, group after group.
pub open spec fn regroup_first<A>(
    s: Seq<A>,
    name: spec_fn(A) -> Seq<char>,
    order: Seq<Seq<char>>,
    n: int,
) -> Seq<A>
    decreases n,
{
    if n <= 0 {
        Seq::empty()
    } else {
        regroup_first(s, name, order, n - 1) + members(s, name, order[n - 1])
    }
}

/// The elements, group after group in the given order, each group's members in
/// their old order.
pub open spec fn regroup<A>(
    s: Seq<A>,
    name: spec_fn(A) -> Seq<char>,
    order: Seq<Seq<char>>,
) -> Seq<A> {
    regroup_first(s, name, order, order.len() as int)
}

/// The elements of none of the first `n` groups of an order.
pub open spec fn outside_first<A>(
    s: Seq<A>,
    name: spec_fn(A) -> Seq<char>,
    order: Seq<Seq<char>>,
    n: int,
) -> Seq<A> {
    kept(s, in_none(name, order.take(n)), 0)
}

pub proof fn lemma_kept_shift<A>(s: Seq<A>, f: spec_fn(A) -> bool, i: int)
    requires
        0 <= i <= s.len(),
    ensures
        kept(s, f, i) == kept(s.skip(i), f, 0),
    decreases s.len() - i,
{
    if i < s.len() {
        lemma_kept_shift(s, f, i + 1);
        lemma_kept_shift(s.skip(i), f, 1);
        assert(s.skip(i).skip(1) =~= s.skip(i + 1));
    }
}

/// A condition on top of a wider one keeps what it keeps alone.
pub proof fn lemma_kept_twice<A>(
    s: Seq<A>,
    wide: spec_fn(A) -> bool,
    narrow: spec_fn(A) -> bool,
    i: int,
)
    requires
        0 <= i,
        forall|a: A| #[trigger] narrow(a) ==> wide(a),
    ensures
        kept(kept(s, wide, i), narrow, 0) == kept(s, narrow, i),
    decreases s.len() - i,
{
    if i < s.len() {
        lemma_kept_twice(s, wide, narrow, i + 1);
        let rest = kept(s, wide, i + 1);
        if wide(s[i]) {
            let all = seq![s[i]] + rest;
            assert(all.skip(1) =~= rest);
            lemma_kept_shift(all, narrow, 1);
            assert(kept(all, narrow, 1) == kept(rest, narrow, 0));
        }
    }
}

/// What both conditions keep.
pub proof fn lemma_kept_both<A>(
    s: Seq<A>,
    a: spec_fn(A) -> bool,
    b: spec_fn(A) -> bool,
    both: spec_fn(A) -> bool,
    i: int,
)
    requires
        0 <= i,
        forall|x: A| #[trigger] both(x) == (a(x) && b(x)),
    ensures
        kept(kept(s, a, i), b, 0) == kept(s, both, i),
    decreases s.len() - i,
{
    if i < s.len() {
        lemma_kept_both(s, a, b, both, i + 1);
        let rest = kept(s, a, i + 1);
        assert(both(s[i]) == (a(s[i]) && b(s[i])));
        if a(s[i]) {
            let all = seq![s[i]] + rest;
            assert(all.skip(1) =~= rest);
            lemma_kept_shift(all, b, 1);
            assert(kept(all, b, 1) == kept(rest, b, 0));
        }
    }
}

pub proof fn lemma_kept_none<A>(s: Seq<A>, f: spec_fn(A) -> bool, i: int)
    requires
        0 <= i,
        forall|k: int| i <= k < s.len() ==> !f(#[trigger] s[k]),
    ensures
        kept(s, f, i).len() == 0,
    decreases s.len() - i,
{
    if i < s.len() {
        lemma_kept_none(s, f, i + 1);
    }
}

pub proof fn lemma_kept_all<A>(s: Seq<A>, f: spec_fn(A) -> bool, i: int)
    requires
        0 <= i <= s.len(),
        forall|k: int| i <= k < s.len() ==> f(#[trigger] s[k]),
    ensures
        kept(s, f, i) == s.skip(i),
    decreases s.len() - i,
{
    if i < s.len() {
        lemma_kept_all(s, f, i + 1);
        assert(seq![s[i]] + s.skip(i + 1) =~= s.skip(i));
    } else {
        assert(s.skip(i) =~= Seq::empty());
    }
}

pub open spec fn negated<A>(f: spec_fn(A) -> bool) -> spec_fn(A) -> bool {
    |a: A| !f(a)
}

/// Parts a queue into the members of a group and the rest.
fn take_group<T, F: Fn(&T) -> bool>(
    rest: &mut VecDeque<T>,
    out: &mut Vec<T>,
    test: F,
    Ghost(f): Ghost<spec_fn(T) -> bool>,
)
    requires
        forall|t: &T| call_requires(test, (t,)),
        forall|t: &T, r: bool| call_ensures(test, (t,), r) ==> r == f(*t),
    ensures
        final(out)@ == old(out)@ + kept(old(rest)@, f, 0),
        final(rest)@ == kept(old(rest)@, negated(f), 0),
{
    let ghost start = rest@;
    let ghost first = out@;
    let ghost g = negated(f);
    let n = rest.len();
    let mut i: usize = 0;
    let ghost mut away: Seq<T> = Seq::empty();
    proof {
        assert(start.skip(0) =~= start);
        assert(rest@ =~= start.skip(0) + away);
        assert(first + kept(start, f, 0) =~= out@ + kept(start, f, 0));
        assert(away + kept(start, g, 0) =~= kept(start, g, 0));
    }
    while i < n
        invariant
            forall|t: &T| call_requires(test, (t,)),
            forall|t: &T, r: bool| call_ensures(test, (t,), r) ==> r == f(*t),
            g == negated(f),
            n == start.len(),
            i <= n,
            rest@ == start.skip(i as int) + away,
            out@ + kept(start, f, i as int) == first + kept(start, f, 0),
            away + kept(start, g, i as int) == kept(start, g, 0),
        decreases n - i,
    {
        let ghost was_out = out@;
        let ghost was_away = away;
        proof {
            assert(rest@[0] == start[i as int]);
        }
        if let Some(x) = rest.pop_front() {
            proof {
                assert(rest@ =~= start.skip(i + 1) + away);
            }
            let hit = test(&x);
            if hit {
                out.push(x);
                proof {
                    assert(was_out + kept(start, f, i as int) =~= out@ + kept(start, f, i + 1));
                }
            } else {
                proof {
                    away = away.push(x);
                    assert(start.skip(i + 1) + away =~= (start.skip(i + 1) + was_away).push(x));
                    assert(was_away + kept(start, g, i as int) =~= away + kept(start, g, i + 1));
                }
                rest.push_back(x);
            }
        }
        i += 1;
    }
    proof {
        assert(out@ + kept(start, f, n as int) =~= out@);
        assert(away + kept(start, g, n as int) =~= away);
        assert(start.skip(n as int) + away =~= away);
    }
}

pub open spec fn distinct_names(order: Seq<Seq<char>>) -> bool {
    forall|i: int, j: int| 0 <= i < j < order.len() ==> order[i] != order[j]
}

/// Puts the elements group after group.
fn regroup_items<T, F: for<'a> Fn(&'a T) -> &'a str>(
    items: &mut Vec<T>,
    order: &Vec<String>,
    group: &F,
    Ghost(name): Ghost<spec_fn(T) -> Seq<char>>,
)
    requires
        forall|t: &T| call_requires(*group, (t,)),
        forall|t: &T, r: &str| call_ensures(*group, (t,), r) ==> r@ == name(*t),
        distinct_names(views(order@)),
    ensures
        final(items)@ == regroup(old(items)@, name, views(order@)),
{
    let ghost start = items@;
    let ghost ov = views(order@);
    let mut rest: VecDeque<T> = VecDeque::new();
    move_all(items, &mut rest);
    let mut out: Vec<T> = Vec::new();
    let mut i: usize = 0;
    proof {
        let f = in_none(name, ov.take(0));
        lemma_kept_all(start, f, 0);
        assert(start.skip(0) =~= start);
    }
    while i < order.len()
        invariant
            forall|t: &T| call_requires(*group, (t,)),
            forall|t: &T, r: &str| call_ensures(*group, (t,), r) ==> r@ == name(*t),
            ov == views(order@),
            distinct_names(ov),
            i <= order.len(),
            out@ == regroup_first(start, name, ov, i as int),
            rest@ == outside_first(start, name, ov, i as int),
        decreases order.len() - i,
    {
        let wanted = order[i].as_str();
        let ghost g = ov[i as int];
        let ghost f = in_group(name, g);
        let test = |t: &T| -> (r: bool)
            ensures
                r == f(*t),
        {
            same(group(t), wanted)
        };
        let ghost before = rest@;
        take_group(&mut rest, &mut out, test, Ghost(f));
        proof {
            let was = in_none(name, ov.take(i as int));
            let now = in_none(name, ov.take(i + 1));
            let not = negated(f);
            assert forall|a: T| #[trigger] f(a) implies was(a) by {
                if ov.take(i as int).contains(name(a)) {
                    let k = choose|k: int|
                        0 <= k < ov.take(i as int).len() && ov.take(i as int)[k] == name(a);
                    assert(ov[k] == ov[i as int]);
                }
            }
            lemma_kept_twice(start, was, f, 0);
            assert(before == kept(start, was, 0));
            assert(members(start, name, g) == kept(start, f, 0));
            assert(out@ =~= regroup_first(start, name, ov, i + 1));
            assert forall|a: T| #[trigger] now(a) == (was(a) && not(a)) by {
                let small = ov.take(i as int);
                let big = ov.take(i + 1);
                assert(big =~= small.push(g));
                if small.contains(name(a)) {
                    let k = choose|k: int| 0 <= k < small.len() && small[k] == name(a);
                    assert(big[k] == name(a));
                }
                if name(a) == g {
                    assert(big[i as int] == name(a));
                }
                if big.contains(name(a)) {
                    let k = choose|k: int| 0 <= k < big.len() && big[k] == name(a);
                    if k < i {
                        assert(small[k] == name(a));
                    }
                }
            }
            lemma_kept_both(start, was, not, now, 0);
        }
        i += 1;
    }
    *items = out;
}

/// Moves the elements of a list into a queue.
fn move_all<T>(items: &mut Vec<T>, queue: &mut VecDeque<T>)
    requires
        old(queue)@.len() == 0,
    ensures
        final(items)@.len() == 0,
        final(queue)@ == old(items)@,
{
    let ghost start = items@;
    proof {
        assert(items@ + queue@ =~= start);
    }
    while items.len() > 0
        invariant
            items@ + queue@ == start,
        decreases items.len(),
    {
        let ghost was = items@;
        let ghost had = queue@;
        if let Some(x) = items.pop() {
            queue.push_front(x);
            proof {
                assert(items@ + queue@ =~= was + had);
            }
        }
    }
    proof {
        assert(items@ + queue@ =~= queue@);
    }
}

/// The groups that appear among the elements.
fn list_groups<T, F: for<'a> Fn(&'a T) -> &'a str>(
    items: &Vec<T>,
    group: &F,
    Ghost(name): Ghost<spec_fn(T) -> Seq<char>>,
) -> (r: Vec<String>)
    requires
        forall|t: &T| call_requires(*group, (t,)),
        forall|t: &T, r: &str| call_ensures(*group, (t,), r) ==> r@ == name(*t),
    ensures
        views(r@) == groups(items@, name),
        distinct_names(views(r@)),
{
    let mut order: Vec<String> = Vec::new();
    let mut i: usize = 0;
    proof {
        assert(views(order@) =~= group_order(items@, name, 0));
    }
    while i < items.len()
        invariant
            forall|t: &T| call_requires(*group, (t,)),
            forall|t: &T, r: &str| call_ensures(*group, (t,), r) ==> r@ == name(*t),
            i <= items.len(),
            views(order@) == group_order(items@, name, i as int),
            distinct_names(views(order@)),
        decreases items.len() - i,
    {
        let g = group(&items[i]).to_owned();
        if !lists(&order, g.as_str()) {
            let ghost was = views(order@);
            let ghost gv = g@;
            order.push(g);
            proof {
                assert(views(order@) =~= was.push(gv));
                assert forall|a: int, b: int| 0 <= a < b < views(order@).len() implies views(
                    order@,
                )[a] != views(order@)[b] by {
                    if b == was.len() {
                        assert(was.contains(was[a]));
                    }
                }
            }
        }
        i += 1;
    }
    order
}

/// The group that a function names for an element.
pub open spec fn named_group<T, F: for<'a> Fn(&'a T) -> &'a str>(f: F, t: T) -> Seq<char> {
    (choose|r: &str| call_ensures(f, (&t,), r))@
}

/// Whether a function can be asked for the group of every element and always
/// gives the same answer.
pub open spec fn names_groups<T, F: for<'a> Fn(&'a T) -> &'a str>(f: F) -> bool {
    &&& forall|t: &T| #[trigger] call_requires(f, (t,))
    &&& forall|t: &T, r: &str, s: &str|
        #[trigger] call_ensures(f, (t,), r) && #[trigger] call_ensures(f, (t,), s) ==> r@ == s@
}

/// An order with two groups in each other's place.
pub open spec fn exchanged(order: Seq<Seq<char>>, a: Seq<char>, b: Seq<char>) -> Seq<Seq<char>> {
    match (index_from(order, a, 0), index_from(order, b, 0)) {
        (Some(i), Some(j)) => order.update(i, b).update(j, a),
        _ => order,
    }
}

/// The elements with two groups in each other's place; unchanged where one of
/// them is missing.
pub open spec fn swapped<A>(
    s: Seq<A>,
    name: spec_fn(A) -> Seq<char>,
    a: Seq<char>,
    b: Seq<char>,
) -> Seq<A> {
    let order = groups(s, name);
    if order.contains(a) && order.contains(b) {
        regroup(s, name, exchanged(order, a, b))
    } else {
        s
    }
}

/// Exchanges two groups; the order within each group stays.
pub fn swap_groups<T, F: for<'a> Fn(&'a T) -> &'a str>(items: &mut Vec<T>, a: &str, b: &str, group: F)
    requires
        names_groups::<T, F>(group),
    ensures
        final(items)@ == swapped(old(items)@, |t: T| named_group(group, t), a@, b@),
{
    let ghost name = |t: T| named_group(group, t);
    proof {
        assert forall|t: &T, r: &str| #[trigger] call_ensures(group, (t,), r) implies r@ == name(
            *t,
        ) by {
            let s = choose|s: &str| call_ensures(group, (t,), s);
            assert(call_ensures(group, (t,), s));
        }
    }
    let order = list_groups(items, &group, Ghost(name));
    let ghost ov = views(order@);
    proof {
        crate::text::lemma_index_from(ov, a@, 0);
        crate::text::lemma_index_from(ov, b@, 0);
    }
    let i = position(&order, a);
    let j = position(&order, b);
    if let (Some(i), Some(j)) = (i, j) {
        let mut order = order;
        order.set(i, b.to_owned());
        order.set(j, a.to_owned());
        proof {
            assert(views(order@) =~= exchanged(ov, a@, b@));
            assert(ov.contains(a@) && ov.contains(b@));
        }
        regroup_items(items, &order, &group, Ghost(name));
    }
}

/// A rule of either sort: it has an identity and stands in a group.
pub trait Member: Duplicate {
    spec fn id_of(v: Self::V) -> Seq<char>;

    spec fn group_of(v: Self::V) -> Seq<char>;

    /// The rule in another group.
    spec fn regrouped(v: Self::V, g: Seq<char>) -> Self::V;

    fn id_text(&self) -> (r: &str)
        ensures
            r@ == Self::id_of(self@),
    ;

    fn group_text(&self) -> (r: &str)
        ensures
            r@ == Self::group_of(self@),
    ;

    fn set_group(&mut self, g: String)
        ensures
            final(self)@ == Self::regrouped(old(self)@, g@),
    ;

    /// A rule in another group is in that group, and still the same rule.
    proof fn lemma_regrouped(v: Self::V, g: Seq<char>)
        ensures
            Self::group_of(Self::regrouped(v, g)) == g,
            Self::id_of(Self::regrouped(v, g)) == Self::id_of(v),
    ;
}

impl Member for Rule {
    open spec fn id_of(v: RuleView) -> Seq<char> {
        v.id
    }

    open spec fn group_of(v: RuleView) -> Seq<char> {
        v.group
    }

    open spec fn regrouped(v: RuleView, g: Seq<char>) -> RuleView {
        RuleView { group: g, ..v }
    }

    fn id_text(&self) -> (r: &str) {
        self.id.as_str()
    }

    fn group_text(&self) -> (r: &str) {
        self.group.as_str()
    }

    fn set_group(&mut self, g: String) {
        self.group = g;
    }

    proof fn lemma_regrouped(v: Self::V, g: Seq<char>) {
    }
}

impl Member for SystemRule {
    open spec fn id_of(v: SystemRuleView) -> Seq<char> {
        v.id
    }

    open spec fn group_of(v: SystemRuleView) -> Seq<char> {
        v.group
    }

    open spec fn regrouped(v: SystemRuleView, g: Seq<char>) -> SystemRuleView {
        SystemRuleView { group: g, ..v }
    }

    fn id_text(&self) -> (r: &str) {
        self.id.as_str()
    }

    fn group_text(&self) -> (r: &str) {
        self.group.as_str()
    }

    fn set_group(&mut self, g: String) {
        self.group = g;
    }

    proof fn lemma_regrouped(v: Self::V, g: Seq<char>) {
    }
}

pub open spec fn group_name<T: Member>() -> spec_fn(T::V) -> Seq<char> {
    |v: T::V| T::group_of(v)
}

pub open spec fn item_group<T: Member>() -> spec_fn(T) -> Seq<char> {
    |t: T| T::group_of(t@)
}

pub open spec fn has_id<T: Member>(id: Seq<char>) -> spec_fn(T::V) -> bool {
    |v: T::V| T::id_of(v) == id
}

pub open spec fn is_anchor<T: Member>(id: Seq<char>, g: Seq<char>) -> spec_fn(T::V) -> bool {
    |v: T::V| T::id_of(v) == id && T::group_of(v) == g
}

/// The last position below `n` whose element satisfies the condition.
pub open spec fn last_place<A>(s: Seq<A>, f: spec_fn(A) -> bool, n: int) -> Option<int>
    decreases n,
{
    if n <= 0 {
        None
    } else if f(s[n - 1]) {
        Some(n - 1)
    } else {
        last_place(s, f, n - 1)
    }
}

/// Where a rule goes among the others: beside the anchor, else behind the last
/// member of the group, else to the end.
pub open spec fn target_place<T: Member>(
    s: Seq<T::V>,
    g: Seq<char>,
    anchor: Option<Seq<char>>,
    after: bool,
) -> int {
    let beside = match anchor {
        Some(a) => first_place(s, has_id::<T>(a), 0),
        None => None,
    };
    match beside {
        Some(i) => if after {
            i + 1
        } else {
            i
        },
        None => match last_place(s, in_group(group_name::<T>(), g), s.len() as int) {
            Some(i) => i + 1,
            None => s.len() as int,
        },
    }
}

/// The order of the groups with one that may be new at its end.
pub open spec fn order_with<T: Member>(s: Seq<T::V>, g: Seq<char>) -> Seq<Seq<char>> {
    let order = groups(s, group_name::<T>());
    if order.contains(g) {
        order
    } else {
        order.push(g)
    }
}

/// The rules with one of them moved to a group, beside an anchor of that group
/// where one is given; none where there is no such rule or no such anchor. The
/// groups keep their order.
pub open spec fn moved<T: Member>(
    s: Seq<T::V>,
    id: Seq<char>,
    g: Seq<char>,
    anchor: Option<Seq<char>>,
    after: bool,
) -> Option<Seq<T::V>> {
    match first_place(s, has_id::<T>(id), 0) {
        Some(from) => if anchor == Some(id) || (anchor is Some && !any(
            s,
            is_anchor::<T>(anchor->0, g),
        )) {
            None
        } else {
            let others = s.remove(from);
            let placed = others.insert(
                target_place::<T>(others, g, anchor, after),
                T::regrouped(s[from], g),
            );
            Some(regroup(placed, group_name::<T>(), order_with::<T>(s, g)))
        },
        None => None,
    }
}

/// The order of the groups with one of them beside another.
pub open spec fn group_moved_order(
    order: Seq<Seq<char>>,
    g: Seq<char>,
    target: Seq<char>,
    after: bool,
) -> Seq<Seq<char>> {
    let others = order.remove(index_from(order, g, 0)->0);
    let i = index_from(others, target, 0)->0;
    others.insert(
        if after {
            i + 1
        } else {
            i
        },
        g,
    )
}

/// The rules with a whole group moved beside another; none where one of them is
/// missing or they are the same.
pub open spec fn group_moved<T: Member>(
    s: Seq<T::V>,
    g: Seq<char>,
    target: Seq<char>,
    after: bool,
) -> Option<Seq<T::V>> {
    let order = groups(s, group_name::<T>());
    if g == target || !order.contains(target) || !order.contains(g) {
        None
    } else {
        Some(regroup(s, group_name::<T>(), group_moved_order(order, g, target, after)))
    }
}

proof fn lemma_kept_views<T: View>(
    s: Seq<T>,
    f: spec_fn(T) -> bool,
    g: spec_fn(T::V) -> bool,
    i: int,
)
    requires
        0 <= i,
        forall|t: T| #[trigger] f(t) == g(t@),
    ensures
        views(kept(s, f, i)) == kept(views(s), g, i),
    decreases s.len() - i,
{
    if i < s.len() {
        lemma_kept_views(s, f, g, i + 1);
        assert(f(s[i]) == g(s[i]@));
        if f(s[i]) {
            assert(views(seq![s[i]] + kept(s, f, i + 1)) =~= seq![s[i]@] + views(
                kept(s, f, i + 1),
            ));
        }
    } else {
        assert(views(kept(s, f, i)) =~= kept(views(s), g, i));
    }
}

proof fn lemma_regroup_views<T: Member>(s: Seq<T>, order: Seq<Seq<char>>, n: int)
    requires
        n <= order.len(),
    ensures
        views(regroup_first(s, item_group::<T>(), order, n)) == regroup_first(
            views(s),
            group_name::<T>(),
            order,
            n,
        ),
    decreases n,
{
    if n > 0 {
        lemma_regroup_views::<T>(s, order, n - 1);
        let f = in_group(item_group::<T>(), order[n - 1]);
        let g = in_group(group_name::<T>(), order[n - 1]);
        lemma_kept_views(s, f, g, 0);
        crate::text::lemma_views_add(
            regroup_first(s, item_group::<T>(), order, n - 1),
            kept(s, f, 0),
        );
    } else {
        assert(views(regroup_first(s, item_group::<T>(), order, n)) =~= Seq::<T::V>::empty());
    }
}

proof fn lemma_groups_views<T: Member>(s: Seq<T>, n: int)
    requires
        0 <= n <= s.len(),
    ensures
        group_order(s, item_group::<T>(), n) == group_order(views(s), group_name::<T>(), n),
    decreases n,
{
    if n > 0 {
        lemma_groups_views::<T>(s, n - 1);
        assert(views(s)[n - 1] == s[n - 1]@);
    }
}

fn group_text_of<T: Member>(t: &T) -> (r: &str)
    ensures
        r@ == T::group_of(t@),
{
    t.group_text()
}

fn list_member_groups<T: Member>(items: &Vec<T>) -> (r: Vec<String>)
    ensures
        views(r@) == groups(views(items@), group_name::<T>()),
        distinct_names(views(r@)),
{
    proof {
        lemma_groups_views::<T>(items@, items@.len() as int);
    }
    list_groups(items, &group_text_of::<T>, Ghost(item_group::<T>()))
}

fn regroup_members<T: Member>(items: &mut Vec<T>, order: &Vec<String>)
    requires
        distinct_names(views(order@)),
    ensures
        views(final(items)@) == regroup(views(old(items)@), group_name::<T>(), views(order@)),
{
    proof {
        lemma_regroup_views::<T>(items@, views(order@), views(order@).len() as int);
    }
    regroup_items(items, order, &group_text_of::<T>, Ghost(item_group::<T>()));
}

pub(crate) fn find_id<T: Member>(items: &Vec<T>, id: &str) -> (r: Option<usize>)
    ensures
        (match r {
            Some(i) => i < items.len() && first_place(views(items@), has_id::<T>(id@), 0) == Some(
                i as int,
            ),
            None => first_place(views(items@), has_id::<T>(id@), 0) is None,
        }),
{
    let ghost f = has_id::<T>(id@);
    let ghost iv = views(items@);
    let mut i: usize = 0;
    while i < items.len()
        invariant
            i <= items.len(),
            iv == views(items@),
            f == has_id::<T>(id@),
            first_place(iv, f, 0) == first_place(iv, f, i as int),
        decreases items.len() - i,
    {
        let hit = same(items[i].id_text(), id);
        proof {
            assert(iv[i as int] == items@[i as int]@);
            assert(hit == f(iv[i as int]));
        }
        if hit {
            return Some(i);
        }
        i += 1;
    }
    None
}

fn holds_anchor<T: Member>(items: &Vec<T>, id: &str, g: &str) -> (r: bool)
    ensures
        r == any(views(items@), is_anchor::<T>(id@, g@)),
{
    let ghost f = is_anchor::<T>(id@, g@);
    let ghost iv = views(items@);
    let mut i: usize = 0;
    while i < items.len()
        invariant
            i <= items.len(),
            iv == views(items@),
            f == is_anchor::<T>(id@, g@),
            forall|j: int| 0 <= j < i ==> !f(#[trigger] iv[j]),
        decreases items.len() - i,
    {
        let hit = same(items[i].id_text(), id) && same(items[i].group_text(), g);
        proof {
            assert(iv[i as int] == items@[i as int]@);
            assert(hit == f(iv[i as int]));
        }
        if hit {
            return true;
        }
        i += 1;
    }
    false
}

fn find_last_member<T: Member>(items: &Vec<T>, g: &str) -> (r: Option<usize>)
    ensures
        (match r {
            Some(i) => i < items.len() && last_place(
                views(items@),
                in_group(group_name::<T>(), g@),
                items.len() as int,
            ) == Some(i as int),
            None => last_place(
                views(items@),
                in_group(group_name::<T>(), g@),
                items.len() as int,
            ) is None,
        }),
{
    let ghost f = in_group(group_name::<T>(), g@);
    let ghost iv = views(items@);
    let mut i: usize = items.len();
    while i > 0
        invariant
            i <= items.len(),
            iv == views(items@),
            f == in_group(group_name::<T>(), g@),
            last_place(iv, f, items.len() as int) == last_place(iv, f, i as int),
        decreases i,
    {
        i -= 1;
        let hit = same(items[i].group_text(), g);
        proof {
            assert(iv[i as int] == items@[i as int]@);
            assert(hit == f(iv[i as int]));
        }
        if hit {
            return Some(i);
        }
    }
    None
}

fn find_target<T: Member>(items: &Vec<T>, g: &str, anchor: Option<&str>, after: bool) -> (r: usize)
    ensures
        r == target_place::<T>(views(items@), g@, opt_str(anchor), after),
        r <= items.len(),
{
    if let Some(a) = anchor {
        if let Some(i) = find_id(items, a) {
            return if after {
                i + 1
            } else {
                i
            };
        }
    }
    match find_last_member(items, g) {
        Some(i) => i + 1,
        None => items.len(),
    }
}

pub open spec fn opt_str(o: Option<&str>) -> Option<Seq<char>> {
    match o {
        Some(s) => Some(s@),
        None => None,
    }
}

/// Moves a rule to a group, and tells whether it did.
fn insert_rule<T: Member>(
    items: &mut Vec<T>,
    id: &str,
    destination: &str,
    anchor: Option<&str>,
    after: bool,
) -> (r: bool)
    ensures
        (match moved::<T>(views(old(items)@), id@, destination@, opt_str(anchor), after) {
            Some(s) => r && views(final(items)@) == s,
            None => !r && *final(items) == *old(items),
        }),
{
    let ghost iv = views(items@);
    let from = match find_id(items, id) {
        Some(i) => i,
        None => {
            return false;
        },
    };
    if let Some(a) = anchor {
        if same(a, id) || !holds_anchor(items, a, destination) {
            return false;
        }
    }
    let mut order = list_member_groups(items);
    if !lists(&order, destination) {
        let ghost was = views(order@);
        order.push(destination.to_owned());
        proof {
            assert(views(order@) =~= was.push(destination@));
            assert forall|a: int, b: int| 0 <= a < b < views(order@).len() implies views(
                order@,
            )[a] != views(order@)[b] by {
                if b == was.len() {
                    assert(was.contains(was[a]));
                }
            }
        }
    }
    let ghost had = items@;
    let mut rule = items.remove(from);
    proof {
        crate::text::lemma_views_remove(had, from as int);
        assert(rule@ == iv[from as int]);
    }
    rule.set_group(destination.to_owned());
    let index = find_target(items, destination, anchor, after);
    let ghost others = items@;
    let ghost rv = rule;
    items.insert(index, rule);
    proof {
        crate::text::lemma_views_insert(others, index as int, rv);
    }
    regroup_members(items, &order);
    true
}

proof fn lemma_reinsert_distinct(order: Seq<Seq<char>>, i: int, at: int)
    requires
        distinct_names(order),
        0 <= i < order.len(),
        0 <= at < order.len(),
    ensures
        distinct_names(order.remove(i).insert(at, order[i])),
{
    let others = order.remove(i);
    let now = others.insert(at, order[i]);
    assert forall|a: int, b: int| 0 <= a < b < now.len() implies now[a] != now[b] by {
        let x = if a < at {
            a
        } else {
            a - 1
        };
        let y = if b < at {
            b
        } else {
            b - 1
        };
        let p = if a == at {
            i
        } else if x < i {
            x
        } else {
            x + 1
        };
        let q = if b == at {
            i
        } else if y < i {
            y
        } else {
            y + 1
        };
        assert(now[a] == order[p]);
        assert(now[b] == order[q]);
    }
}

proof fn lemma_still_there(order: Seq<Seq<char>>, i: int, g: Seq<char>)
    requires
        0 <= i < order.len(),
        order.contains(g),
        order[i] != g,
    ensures
        index_from(order.remove(i), g, 0) is Some,
{
    let others = order.remove(i);
    crate::text::lemma_index_from(others, g, 0);
    let k = choose|k: int| 0 <= k < order.len() && order[k] == g;
    if k < i {
        assert(others[k] == g);
    } else {
        assert(others[k - 1] == g);
    }
}

/// Moves a whole group beside another, and tells whether it did.
fn insert_group<T: Member>(items: &mut Vec<T>, source: &str, target: &str, after: bool) -> (r: bool)
    ensures
        (match group_moved::<T>(views(old(items)@), source@, target@, after) {
            Some(s) => r && views(final(items)@) == s,
            None => !r && *final(items) == *old(items),
        }),
{
    let mut order = list_member_groups(items);
    let ghost ov = views(order@);
    if same(source, target) || !lists(&order, target) {
        return false;
    }
    proof {
        crate::text::lemma_index_from(ov, source@, 0);
    }
    match position(&order, source) {
        Some(i) => {
            let ghost had = order@;
            let name = order.remove(i);
            proof {
                crate::text::lemma_views_remove(had, i as int);
                assert(name@ == source@);
                lemma_still_there(ov, i as int, target@);
                assert(ov.contains(source@));
            }
            if let Some(j) = position(&order, target) {
                let at: usize = if after {
                    j + 1
                } else {
                    j
                };
                let ghost left = order@;
                let ghost nv = name;
                order.insert(at, name);
                proof {
                    crate::text::lemma_views_insert(left, at as int, nv);
                    lemma_reinsert_distinct(ov, i as int, at as int);
                }
                regroup_members(items, &order);
                true
            } else {
                false
            }
        },
        None => false,
    }
}

impl RuleSet {
    /// Moves a rule to a group, beside an anchor where one is given, and tells
    /// whether it did.
    pub fn move_rule(
        &mut self,
        system: bool,
        id: &str,
        group: &str,
        anchor: Option<&str>,
        after: bool,
    ) -> (r: bool)
        ensures
            system ==> (match moved::<SystemRule>(
                old(self)@.system,
                id@,
                group@,
                opt_str(anchor),
                after,
            ) {
                Some(s) => r && final(self)@ == (RuleSetView { system: s, ..old(self)@ }),
                None => !r && final(self)@ == old(self)@,
            }),
            !system ==> (match moved::<Rule>(
                old(self)@.rules,
                id@,
                group@,
                opt_str(anchor),
                after,
            ) {
                Some(s) => r && final(self)@ == (RuleSetView { rules: s, ..old(self)@ }),
                None => !r && final(self)@ == old(self)@,
            }),
    {
        if system {
            insert_rule(&mut self.system, id, group, anchor, after)
        } else {
            insert_rule(&mut self.rules, id, group, anchor, after)
        }
    }

    /// Moves a whole group beside another, and tells whether it did.
    pub fn move_group(&mut self, system: bool, group: &str, target: &str, after: bool) -> (r: bool)
        ensures
            system ==> (match group_moved::<SystemRule>(
                old(self)@.system,
                group@,
                target@,
                after,
            ) {
                Some(s) => r && final(self)@ == (RuleSetView { system: s, ..old(self)@ }),
                None => !r && final(self)@ == old(self)@,
            }),
            !system ==> (match group_moved::<Rule>(old(self)@.rules, group@, target@, after) {
                Some(s) => r && final(self)@ == (RuleSetView { rules: s, ..old(self)@ }),
                None => !r && final(self)@ == old(self)@,
            }),
    {
        if system {
            insert_group(&mut self.system, group, target, after)
        } else {
            insert_group(&mut self.rules, group, target, after)
        }
    }
}

} // verus!
