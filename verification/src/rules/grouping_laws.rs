//! How rules stand in their groups after a move.

use crate::rules::group::{
    exchanged, group_name, group_order, groups, has_id, in_group, is_anchor, lemma_kept_all,
    lemma_kept_none, members, moved, order_with, regroup, regroup_first, swapped, target_place,
    Member,
};
use crate::rules::group_laws::{
    each_once, law_groups_name_all, law_regrouping_keeps_members, lemma_placed_named, names_all,
};
use crate::rules::merge_laws::ids_differ;
use crate::select::{
    lemma_first_holds, lemma_first_of_any, lemma_kept_add, lemma_kept_holds, lemma_last_holds,
};
use crate::text::{first_place, index_from, kept, lemma_index_from};
use vstd::prelude::*;

verus! {

/// Whether the members of each group stand together.
pub open spec fn contiguous<A>(s: Seq<A>, name: spec_fn(A) -> Seq<char>) -> bool {
    forall|i: int, j: int, k: int|
        0 <= i <= j <= k < s.len() && #[trigger] name(s[i]) == #[trigger] name(s[k])
            ==> #[trigger] name(s[j]) == name(s[i])
}

/// Whether a group has members.
pub open spec fn peopled<A>(s: Seq<A>, name: spec_fn(A) -> Seq<char>) -> spec_fn(Seq<char>) -> bool {
    |g: Seq<char>| members(s, name, g).len() > 0
}

proof fn lemma_prefix_groups<A>(s: Seq<A>, t: Seq<A>, name: spec_fn(A) -> Seq<char>, n: int)
    requires
        0 <= n <= s.len(),
    ensures
        group_order(s + t, name, n) == group_order(s, name, n),
    decreases n,
{
    if n > 0 {
        lemma_prefix_groups(s, t, name, n - 1);
        assert((s + t)[n - 1] == s[n - 1]);
    }
}

/// A name that is listed belongs to an element.
proof fn lemma_listed<A>(s: Seq<A>, name: spec_fn(A) -> Seq<char>, n: int, g: Seq<char>) -> (i: int)
    requires
        0 <= n <= s.len(),
        group_order(s, name, n).contains(g),
    ensures
        0 <= i < n,
        name(s[i]) == g,
    decreases n,
{
    let order = group_order(s, name, n);
    let k = choose|k: int| 0 <= k < order.len() && order[k] == g;
    let was = group_order(s, name, n - 1);
    if n > 0 && name(s[n - 1]) == g {
        n - 1
    } else {
        assert(was[k] == g);
        assert(was.contains(g));
        lemma_listed(s, name, n - 1, g)
    }
}

/// Members of one more group behind a list give it one more group.
proof fn lemma_groups_with<A>(
    s: Seq<A>,
    t: Seq<A>,
    name: spec_fn(A) -> Seq<char>,
    g: Seq<char>,
    n: int,
)
    requires
        0 <= n <= t.len(),
        !groups(s, name).contains(g),
        forall|k: int| 0 <= k < t.len() ==> name(#[trigger] t[k]) == g,
    ensures
        group_order(s + t, name, s.len() + n) == (if n == 0 {
            groups(s, name)
        } else {
            groups(s, name).push(g)
        }),
    decreases n,
{
    if n == 0 {
        lemma_prefix_groups(s, t, name, s.len() as int);
    } else {
        lemma_groups_with(s, t, name, g, n - 1);
        assert((s + t)[s.len() + n - 1] == t[n - 1]);
        let more = groups(s, name).push(g);
        assert(more[groups(s, name).len() as int] == g);
    }
}

/// What stands in the first groups of an order belongs to these groups.
proof fn lemma_names_within<A>(
    s: Seq<A>,
    name: spec_fn(A) -> Seq<char>,
    order: Seq<Seq<char>>,
    n: int,
)
    requires
        0 <= n <= order.len(),
    ensures
        forall|q: int|
            0 <= q < regroup_first(s, name, order, n).len() ==> order.take(n).contains(
                name(#[trigger] regroup_first(s, name, order, n)[q]),
            ),
    decreases n,
{
    if n > 0 {
        lemma_names_within(s, name, order, n - 1);
        let was = regroup_first(s, name, order, n - 1);
        let m = members(s, name, order[n - 1]);
        let all = regroup_first(s, name, order, n);
        lemma_kept_holds(s, in_group(name, order[n - 1]), 0);
        assert forall|q: int| 0 <= q < all.len() implies order.take(n).contains(
            name(#[trigger] all[q]),
        ) by {
            if q < was.len() {
                assert(all[q] == was[q]);
                let a = order.take(n - 1);
                assert(a.contains(name(was[q])));
                let k = choose|k: int| 0 <= k < a.len() && a[k] == name(was[q]);
                assert(order.take(n)[k] == name(all[q]));
            } else {
                assert(all[q] == m[q - was.len()]);
                assert(in_group(name, order[n - 1])(m[q - was.len()]));
                assert(order.take(n)[n - 1] == name(all[q]));
            }
        }
    }
}

proof fn lemma_regroup_contiguous<A>(
    s: Seq<A>,
    name: spec_fn(A) -> Seq<char>,
    order: Seq<Seq<char>>,
    n: int,
)
    requires
        0 <= n <= order.len(),
        each_once(order),
    ensures
        contiguous(regroup_first(s, name, order, n), name),
        groups(regroup_first(s, name, order, n), name) == kept(
            order.take(n),
            peopled(s, name),
            0,
        ),
    decreases n,
{
    let p = peopled(s, name);
    if n > 0 {
        lemma_regroup_contiguous(s, name, order, n - 1);
        let g = order[n - 1];
        let was = regroup_first(s, name, order, n - 1);
        let m = members(s, name, g);
        let all = regroup_first(s, name, order, n);
        lemma_names_within(s, name, order, n - 1);
        lemma_kept_holds(s, in_group(name, g), 0);
        assert forall|k: int| 0 <= k < m.len() implies name(#[trigger] m[k]) == g by {
            assert(in_group(name, g)(m[k]));
        }
        assert forall|q: int| 0 <= q < was.len() implies name(#[trigger] was[q]) != g by {
            let a = order.take(n - 1);
            assert(a.contains(name(was[q])));
            let k = choose|k: int| 0 <= k < a.len() && a[k] == name(was[q]);
            assert(order[k] == name(was[q]));
        }
        assert forall|q: int| 0 <= q < all.len() implies #[trigger] all[q] == (if q < was.len() {
            was[q]
        } else {
            m[q - was.len()]
        }) by {}
        assert forall|i: int, j: int, k: int|
            0 <= i <= j <= k < all.len() && #[trigger] name(all[i]) == #[trigger] name(
                all[k],
            ) implies #[trigger] name(all[j]) == name(all[i]) by {
            if k < was.len() {
                assert(name(was[i]) == name(was[k]));
                assert(name(was[j]) == name(was[i]));
            } else if i < was.len() {
                assert(name(was[i]) != g);
                assert(name(m[k - was.len()]) == g);
            } else {
                assert(name(m[i - was.len()]) == g);
                assert(name(m[j - was.len()]) == g);
            }
        }
        if groups(was, name).contains(g) {
            let q = lemma_listed(was, name, was.len() as int, g);
            assert(name(was[q]) != g);
        }
        lemma_groups_with(was, m, name, g, m.len() as int);
        assert(order.take(n) =~= order.take(n - 1) + seq![g]);
        lemma_kept_add(order.take(n - 1), seq![g], p, 0);
        if p(g) {
            lemma_kept_all(seq![g], p, 0);
            assert(seq![g].skip(0) =~= seq![g]);
            assert(groups(was, name).push(g) =~= groups(was, name) + seq![g]);
        } else {
            lemma_kept_none(seq![g], p, 0);
            assert(kept(order.take(n - 1), p, 0) + kept(seq![g], p, 0) =~= kept(
                order.take(n - 1),
                p,
                0,
            ));
        }
    } else {
        assert(order.take(0) =~= Seq::empty());
    }
}

/// Putting a list in an order of its groups makes the members of each group stand
/// together, and the groups that have members stand in that order.
pub proof fn law_regrouping_makes_groups_stand<A>(
    s: Seq<A>,
    name: spec_fn(A) -> Seq<char>,
    order: Seq<Seq<char>>,
)
    requires
        each_once(order),
    ensures
        contiguous(regroup(s, name, order), name),
        groups(regroup(s, name, order), name) == kept(order, peopled(s, name), 0),
{
    lemma_regroup_contiguous(s, name, order, order.len() as int);
    assert(order.take(order.len() as int) =~= order);
}

proof fn lemma_members_with<A>(s: Seq<A>, name: spec_fn(A) -> Seq<char>, x: A, g: Seq<char>)
    ensures
        members(s.push(x), name, g) == (if name(x) == g {
            members(s, name, g).push(x)
        } else {
            members(s, name, g)
        }),
{
    let f = in_group(name, g);
    assert(s.push(x) =~= s + seq![x]);
    lemma_kept_add(s, seq![x], f, 0);
    if f(x) {
        lemma_kept_all(seq![x], f, 0);
        assert(seq![x].skip(0) =~= seq![x]);
        assert(members(s, name, g).push(x) =~= members(s, name, g) + seq![x]);
    } else {
        lemma_kept_none(seq![x], f, 0);
        assert(members(s, name, g) + kept(seq![x], f, 0) =~= members(s, name, g));
    }
}

/// An element of a later group changes nothing in the first groups.
proof fn lemma_regroup_with<A>(
    s: Seq<A>,
    name: spec_fn(A) -> Seq<char>,
    x: A,
    a: Seq<Seq<char>>,
    b: Seq<Seq<char>>,
    n: int,
)
    requires
        0 <= n <= a.len(),
        n <= b.len(),
        forall|k: int| 0 <= k < n ==> #[trigger] a[k] == b[k] && a[k] != name(x),
    ensures
        regroup_first(s.push(x), name, b, n) == regroup_first(s, name, a, n),
    decreases n,
{
    if n > 0 {
        lemma_regroup_with(s, name, x, a, b, n - 1);
        lemma_members_with(s, name, x, a[n - 1]);
        assert(a[n - 1] == b[n - 1]);
    }
}

/// In a list whose groups stand together the last group is that of the last
/// element, and putting it in the order of its groups changes nothing.
proof fn lemma_regroup_own<A>(s: Seq<A>, name: spec_fn(A) -> Seq<char>)
    requires
        contiguous(s, name),
    ensures
        s.len() > 0 ==> groups(s, name).len() > 0 && groups(s, name).last() == name(s.last()),
        regroup(s, name, groups(s, name)) == s,
    decreases s.len(),
{
    if s.len() > 0 {
        let p = s.drop_last();
        let x = s.last();
        assert(p.push(x) =~= s);
        assert forall|i: int, j: int, k: int|
            0 <= i <= j <= k < p.len() && #[trigger] name(p[i]) == #[trigger] name(p[k]) implies
            #[trigger] name(p[j]) == name(p[i]) by {
            assert(name(s[i]) == name(s[k]));
            assert(name(s[j]) == name(s[i]));
        }
        lemma_regroup_own(p, name);
        assert(p + seq![x] =~= s);
        lemma_prefix_groups(p, seq![x], name, p.len() as int);
        let order = groups(p, name);
        let now = groups(s, name);
        law_groups_name_all(p, name);
        let m = order.len() as int;
        if order.contains(name(x)) {
            let i = lemma_listed(p, name, p.len() as int, name(x));
            assert(p[i] == s[i]);
            assert(name(s[i]) == name(s[s.len() - 1]));
            assert(name(s[p.len() - 1]) == name(s[i]));
            assert(p.last() == s[p.len() - 1]);
            assert(order.last() == name(x));
            assert(now == order);
            assert forall|k: int| 0 <= k < m - 1 implies #[trigger] order[k] == now[k] && order[k]
                != name(x) by {
                assert(order[k] != order[m - 1]);
            }
            lemma_regroup_with(p, name, x, order, now, m - 1);
            lemma_members_with(p, name, x, name(x));
            let first = regroup_first(p, name, order, m - 1);
            assert(regroup(p, name, order) == first + members(p, name, name(x)));
            assert(regroup(s, name, now) == first + members(s, name, name(x)));
            assert(first + members(p, name, name(x)).push(x) =~= (first + members(
                p,
                name,
                name(x),
            )).push(x));
        } else {
            assert(now == order.push(name(x)));
            assert forall|k: int| 0 <= k < m implies #[trigger] order[k] == now[k] && order[k]
                != name(x) by {
                assert(order.contains(order[k]));
            }
            lemma_regroup_with(p, name, x, order, now, m);
            lemma_members_with(p, name, x, name(x));
            assert forall|k: int| 0 <= k < p.len() implies !in_group(name, name(x))(
                #[trigger] p[k],
            ) by {
                assert(order.contains(name(p[k])));
            }
            lemma_kept_none(p, in_group(name, name(x)), 0);
            assert(members(s, name, name(x)) =~= seq![x]);
            assert(regroup(s, name, now) == p + members(s, name, name(x)));
        }
    } else {
        assert(regroup(s, name, groups(s, name)) =~= s);
    }
}

/// The order within each group decides what regrouping gives.
proof fn lemma_regroup_same<A>(
    s: Seq<A>,
    t: Seq<A>,
    name: spec_fn(A) -> Seq<char>,
    order: Seq<Seq<char>>,
    n: int,
)
    requires
        forall|g: Seq<char>| #[trigger] members(s, name, g) == members(t, name, g),
    ensures
        regroup_first(s, name, order, n) == regroup_first(t, name, order, n),
    decreases n,
{
    if n > 0 {
        lemma_regroup_same(s, t, name, order, n - 1);
    }
}

proof fn lemma_exchanged_back(order: Seq<Seq<char>>, a: Seq<char>, b: Seq<char>)
    requires
        each_once(order),
        order.contains(a),
        order.contains(b),
    ensures
        each_once(exchanged(order, a, b)),
        forall|x: Seq<char>| #[trigger]
            exchanged(order, a, b).contains(x) <==> order.contains(x),
        exchanged(exchanged(order, a, b), a, b) == order,
        exchanged(order, b, a) == exchanged(order, a, b),
{
    lemma_index_from(order, a, 0);
    lemma_index_from(order, b, 0);
    let i = index_from(order, a, 0)->0;
    let j = index_from(order, b, 0)->0;
    let e = exchanged(order, a, b);
    assert(e[i] == b && e[j] == a);
    assert forall|x: Seq<char>| #[trigger] e.contains(x) <==> order.contains(x) by {
        if order.contains(x) {
            let k = choose|k: int| 0 <= k < order.len() && order[k] == x;
            if k == i {
                assert(e[j] == x);
            } else if k == j {
                assert(e[i] == x);
            } else {
                assert(e[k] == x);
            }
        }
        if e.contains(x) {
            let k = choose|k: int| 0 <= k < e.len() && e[k] == x;
            if k == i {
                assert(order[j] == x);
            } else if k == j {
                assert(order[i] == x);
            } else {
                assert(order[k] == x);
            }
        }
    }
    lemma_index_from(e, a, 0);
    lemma_index_from(e, b, 0);
    assert(e.contains(a) && e.contains(b));
    assert(index_from(e, a, 0) == Some(j));
    assert(index_from(e, b, 0) == Some(i));
    assert(exchanged(e, a, b) =~= order);
    assert(exchanged(order, b, a) =~= e);
}

/// The groups of a list have members.
proof fn lemma_groups_peopled<A>(s: Seq<A>, name: spec_fn(A) -> Seq<char>, order: Seq<Seq<char>>)
    requires
        forall|x: Seq<char>| #[trigger] order.contains(x) ==> groups(s, name).contains(x),
    ensures
        kept(order, peopled(s, name), 0) == order,
{
    assert forall|k: int| 0 <= k < order.len() implies peopled(s, name)(#[trigger] order[k]) by {
        assert(order.contains(order[k]));
        let i = lemma_listed(s, name, s.len() as int, order[k]);
        assert(in_group(name, order[k])(s[i]));
        lemma_kept_holds(s, in_group(name, order[k]), 0);
    }
    lemma_kept_all(order, peopled(s, name), 0);
    assert(order.skip(0) =~= order);
}

/// Exchanging two groups does not depend on which of them is named first, and
/// changes nothing where one of them is missing. Otherwise the groups stand
/// together afterwards, the two in each other's place.
pub proof fn law_swapping_exchanges_groups<A>(
    s: Seq<A>,
    name: spec_fn(A) -> Seq<char>,
    a: Seq<char>,
    b: Seq<char>,
)
    ensures
        swapped(s, name, b, a) == swapped(s, name, a, b),
        !groups(s, name).contains(a) || !groups(s, name).contains(b) ==> swapped(s, name, a, b)
            == s,
        groups(s, name).contains(a) && groups(s, name).contains(b) ==> contiguous(
            swapped(s, name, a, b),
            name,
        ) && groups(swapped(s, name, a, b), name) == exchanged(groups(s, name), a, b),
{
    let order = groups(s, name);
    if order.contains(a) && order.contains(b) {
        law_groups_name_all(s, name);
        lemma_exchanged_back(order, a, b);
        let e = exchanged(order, a, b);
        law_regrouping_makes_groups_stand(s, name, e);
        lemma_groups_peopled(s, name, e);
    }
}

/// Where the groups stand together, exchanging two of them a second time puts
/// everything back.
pub proof fn law_swapping_twice_changes_nothing<A>(
    s: Seq<A>,
    name: spec_fn(A) -> Seq<char>,
    a: Seq<char>,
    b: Seq<char>,
)
    requires
        contiguous(s, name),
    ensures
        swapped(swapped(s, name, a, b), name, a, b) == s,
{
    let order = groups(s, name);
    if order.contains(a) && order.contains(b) {
        law_groups_name_all(s, name);
        law_swapping_exchanges_groups(s, name, a, b);
        lemma_exchanged_back(order, a, b);
        let e = exchanged(order, a, b);
        let t = swapped(s, name, a, b);
        assert(names_all(s, name, e)) by {
            assert forall|i: int| 0 <= i < s.len() implies e.contains(#[trigger] name(s[i])) by {
                assert(order.contains(name(s[i])));
            }
        }
        assert forall|g: Seq<char>| #[trigger] members(t, name, g) == members(s, name, g) by {
            law_regrouping_keeps_members(s, name, e, g);
        }
        assert(e.contains(a) && e.contains(b));
        assert(swapped(t, name, a, b) == regroup(t, name, order));
        lemma_regroup_same(t, s, name, order, order.len() as int);
        lemma_regroup_own(s, name);
    }
}

/// The members of a group stand in one block of what regrouping gives.
proof fn lemma_block<A>(
    s: Seq<A>,
    name: spec_fn(A) -> Seq<char>,
    order: Seq<Seq<char>>,
    k: int,
    n: int,
)
    requires
        0 <= k < n <= order.len(),
        each_once(order),
    ensures
        ({
            let t = regroup_first(s, name, order, n);
            let m = members(s, name, order[k]);
            let lo = regroup_first(s, name, order, k).len() as int;
            let hi = lo + m.len();
            &&& hi <= t.len()
            &&& t.subrange(lo, hi) == m
            &&& forall|q: int|
                0 <= q < t.len() && !(lo <= q < hi) ==> name(#[trigger] t[q]) != order[k]
        }),
    decreases n,
{
    let g = order[k];
    let m = members(s, name, g);
    let t = regroup_first(s, name, order, n);
    let lo = regroup_first(s, name, order, k).len() as int;
    let hi = lo + m.len();
    if n == k + 1 {
        let was = regroup_first(s, name, order, k);
        lemma_names_within(s, name, order, k);
        assert(t.subrange(lo, hi) =~= m);
        assert forall|q: int| 0 <= q < t.len() && !(lo <= q < hi) implies name(#[trigger] t[q])
            != g by {
            assert(t[q] == was[q]);
            let a = order.take(k);
            assert(a.contains(name(was[q])));
            let j = choose|j: int| 0 <= j < a.len() && a[j] == name(was[q]);
            assert(order[j] != order[k]);
        }
    } else {
        lemma_block(s, name, order, k, n - 1);
        let was = regroup_first(s, name, order, n - 1);
        let last = members(s, name, order[n - 1]);
        lemma_kept_holds(s, in_group(name, order[n - 1]), 0);
        assert(t.subrange(lo, hi) =~= was.subrange(lo, hi));
        assert forall|q: int| 0 <= q < t.len() && !(lo <= q < hi) implies name(#[trigger] t[q])
            != g by {
            if q < was.len() {
                assert(t[q] == was[q]);
            } else {
                assert(t[q] == last[q - was.len()]);
                assert(in_group(name, order[n - 1])(last[q - was.len()]));
                assert(order[k] != order[n - 1]);
            }
        }
    }
}

/// The members of a group in a list whose element at a place is one of them.
proof fn lemma_members_around<A>(s: Seq<A>, name: spec_fn(A) -> Seq<char>, g: Seq<char>, at: int)
    requires
        0 <= at < s.len(),
    ensures
        members(s, name, g) == members(s.take(at), name, g) + (if name(s[at]) == g {
            seq![s[at]]
        } else {
            Seq::empty()
        }) + members(s.skip(at + 1), name, g),
        members(s.remove(at), name, g) == members(s.take(at), name, g) + members(
            s.skip(at + 1),
            name,
            g,
        ),
{
    let f = in_group(name, g);
    let a = s.take(at);
    let c = s.skip(at + 1);
    assert(s =~= a.push(s[at]) + c);
    assert(s.remove(at) =~= a + c);
    lemma_kept_add(a.push(s[at]), c, f, 0);
    lemma_kept_add(a, c, f, 0);
    lemma_members_with(a, name, s[at], g);
    if name(s[at]) == g {
        assert(members(a, name, g).push(s[at]) =~= members(a, name, g) + seq![s[at]]);
    } else {
        assert(members(a, name, g) + Seq::<A>::empty() =~= members(a, name, g));
    }
}

/// Whether the anchor stands directly beside a place.
pub open spec fn stands_beside<T: Member>(
    s: Seq<T::V>,
    at: int,
    anchor: Seq<char>,
    after: bool,
) -> bool {
    if after {
        0 < at && T::id_of(s[at - 1]) == anchor
    } else {
        at + 1 < s.len() && T::id_of(s[at + 1]) == anchor
    }
}

/// Whether no member of a group stands behind a place.
pub open spec fn stands_last<T: Member>(s: Seq<T::V>, at: int, g: Seq<char>) -> bool {
    forall|q: int| at < q < s.len() ==> T::group_of(#[trigger] s[q]) != g
}

/// The place of the anchor among the other rules.
proof fn lemma_anchor<T: Member>(s: Seq<T::V>, id: Seq<char>, g: Seq<char>, a: Seq<char>)
    requires
        ids_differ::<T>(s),
        first_place(s, has_id::<T>(id), 0) is Some,
        a != id,
        crate::text::any(s, is_anchor::<T>(a, g)),
    ensures
        ({
            let others = s.remove(first_place(s, has_id::<T>(id), 0)->0);
            let i = first_place(others, has_id::<T>(a), 0);
            &&& i is Some
            &&& 0 <= i->0 < others.len()
            &&& T::id_of(others[i->0]) == a
            &&& T::group_of(others[i->0]) == g
        }),
{
    lemma_first_holds(s, has_id::<T>(id), 0);
    let from = first_place(s, has_id::<T>(id), 0)->0;
    let others = s.remove(from);
    let f = is_anchor::<T>(a, g);
    let j = choose|j: int| 0 <= j < s.len() && f(#[trigger] s[j]);
    let k = if j < from {
        j
    } else {
        j - 1
    };
    assert(others[k] == s[j]);
    lemma_first_of_any(others, has_id::<T>(a), 0, k);
    let i = first_place(others, has_id::<T>(a), 0)->0;
    let m = if i < from {
        i
    } else {
        i + 1
    };
    assert(others[i] == s[m]);
    assert(T::id_of(s[m]) == T::id_of(s[j]));
    assert(m == j);
}

/// Where an element goes when a list is put in the order of its groups.
pub open spec fn place_after<A>(
    s: Seq<A>,
    name: spec_fn(A) -> Seq<char>,
    order: Seq<Seq<char>>,
    k: int,
    to: int,
) -> int {
    regroup_first(s, name, order, k).len() as int + members(s.take(to), name, order[k]).len()
}

/// An element stands between the members of its group that stood before it and
/// those that stood behind it.
proof fn lemma_neighbours<A>(
    s: Seq<A>,
    name: spec_fn(A) -> Seq<char>,
    order: Seq<Seq<char>>,
    k: int,
    to: int,
)
    requires
        each_once(order),
        0 <= k < order.len(),
        0 <= to < s.len(),
        name(s[to]) == order[k],
    ensures
        ({
            let t = regroup(s, name, order);
            let at = place_after(s, name, order, k, to);
            let lo = regroup_first(s, name, order, k).len() as int;
            let left = members(s.take(to), name, order[k]);
            let right = members(s.skip(to + 1), name, order[k]);
            &&& 0 <= lo <= at < at + 1 + right.len() <= t.len()
            &&& t[at] == s[to]
            &&& t.subrange(lo, at) == left
            &&& t.subrange(at + 1, at + 1 + right.len()) == right
            &&& forall|q: int|
                0 <= q < t.len() && !(lo <= q < at + 1 + right.len()) ==> name(#[trigger] t[q])
                    != order[k]
        }),
{
    let g = order[k];
    let t = regroup(s, name, order);
    let at = place_after(s, name, order, k, to);
    let lo = regroup_first(s, name, order, k).len() as int;
    let left = members(s.take(to), name, g);
    let right = members(s.skip(to + 1), name, g);
    let m = members(s, name, g);
    lemma_block(s, name, order, k, order.len() as int);
    lemma_members_around(s, name, g, to);
    let block = t.subrange(lo, lo + m.len());
    assert(block == left + seq![s[to]] + right);
    assert(block[left.len() as int] == s[to]);
    assert(t.subrange(lo, at) =~= left) by {
        assert forall|q: int| 0 <= q < left.len() implies t.subrange(lo, at)[q] == left[q] by {
            assert(t.subrange(lo, at)[q] == block[q]);
        }
    }
    assert(t.subrange(at + 1, at + 1 + right.len()) =~= right) by {
        assert forall|q: int| 0 <= q < right.len() implies t.subrange(
            at + 1,
            at + 1 + right.len(),
        )[q] == right[q] by {
            assert(t.subrange(at + 1, at + 1 + right.len())[q] == block[left.len() + 1 + q]);
        }
    }
}

/// All others keep their order within each group.
proof fn lemma_others_stay<A>(
    s: Seq<A>,
    name: spec_fn(A) -> Seq<char>,
    order: Seq<Seq<char>>,
    k: int,
    to: int,
    h: Seq<char>,
)
    requires
        each_once(order),
        names_all(s, name, order),
        0 <= k < order.len(),
        0 <= to < s.len(),
        name(s[to]) == order[k],
    ensures
        members(
            regroup(s, name, order).remove(place_after(s, name, order, k, to)),
            name,
            h,
        ) == members(s.remove(to), name, h),
{
    let g = order[k];
    let t = regroup(s, name, order);
    let at = place_after(s, name, order, k, to);
    lemma_neighbours(s, name, order, k, to);
    lemma_members_around(t, name, h, at);
    lemma_members_around(s, name, h, to);
    if h == g {
        let f = in_group(name, g);
        let lo = regroup_first(s, name, order, k).len() as int;
        let left = members(s.take(to), name, g);
        let right = members(s.skip(to + 1), name, g);
        let hi = at + 1 + right.len();
        let head = t.take(lo);
        let behind = t.skip(hi);
        assert(t.take(at) =~= head + t.subrange(lo, at));
        assert(t.skip(at + 1) =~= t.subrange(at + 1, hi) + behind);
        lemma_kept_add(head, left, f, 0);
        lemma_kept_add(right, behind, f, 0);
        assert forall|q: int| 0 <= q < head.len() implies !f(#[trigger] head[q]) by {
            assert(name(t[q]) != g);
        }
        lemma_kept_none(head, f, 0);
        assert forall|q: int| 0 <= q < behind.len() implies !f(#[trigger] behind[q]) by {
            assert(behind[q] == t[hi + q]);
            assert(name(t[hi + q]) != g);
        }
        lemma_kept_none(behind, f, 0);
        lemma_kept_holds(s.take(to), f, 0);
        lemma_kept_all(left, f, 0);
        assert(left.skip(0) =~= left);
        lemma_kept_holds(s.skip(to + 1), f, 0);
        lemma_kept_all(right, f, 0);
        assert(right.skip(0) =~= right);
        assert(members(t.take(at), name, g) =~= left);
        assert(members(t.skip(at + 1), name, g) =~= right);
    } else {
        law_regrouping_keeps_members(s, name, order, h);
        let e = Seq::<A>::empty();
        assert(members(t.take(at), name, h) + e =~= members(t.take(at), name, h));
        assert(members(s.take(to), name, h) + e =~= members(s.take(to), name, h));
    }
}

/// A member directly before or behind a place is the next one of its group.
proof fn lemma_next_member<A>(s: Seq<A>, name: spec_fn(A) -> Seq<char>, g: Seq<char>, to: int)
    requires
        0 <= to < s.len(),
    ensures
        to > 0 && name(s[to - 1]) == g ==> members(s.take(to), name, g).len() > 0 && members(
            s.take(to),
            name,
            g,
        ).last() == s[to - 1],
        to + 1 < s.len() && name(s[to + 1]) == g ==> members(s.skip(to + 1), name, g).len() > 0
            && members(s.skip(to + 1), name, g)[0] == s[to + 1],
{
    let a = s.take(to);
    let c = s.skip(to + 1);
    if to > 0 {
        assert(a =~= a.drop_last().push(s[to - 1]));
        lemma_members_with(a.drop_last(), name, s[to - 1], g);
    }
    if to + 1 < s.len() {
        assert(c[0] == s[to + 1]);
    }
}

/// A rule that is moved stands in its new group directly beside the anchor, or as
/// the last of the group where none is given. The others keep their order within
/// each group, the members of each group stand together, and the groups keep the
/// order in which they first appeared, a new one behind all others.
pub proof fn law_moved_rule_stands_where_asked<T: Member>(
    s: Seq<T::V>,
    id: Seq<char>,
    g: Seq<char>,
    anchor: Option<Seq<char>>,
    after: bool,
) -> (at: int)
    requires
        moved::<T>(s, id, g, anchor, after) is Some,
        ids_differ::<T>(s),
    ensures
        ({
            let name = group_name::<T>();
            let t = moved::<T>(s, id, g, anchor, after)->0;
            let from = first_place(s, has_id::<T>(id), 0)->0;
            &&& 0 <= at < t.len()
            &&& t[at] == T::regrouped(s[from], g)
            &&& (match anchor {
                Some(a) => stands_beside::<T>(t, at, a, after),
                None => stands_last::<T>(t, at, g),
            })
            &&& forall|h: Seq<char>| #[trigger]
                members(t.remove(at), name, h) == members(s.remove(from), name, h)
            &&& contiguous(t, name)
            &&& groups(t, name) == kept(order_with::<T>(s, g), peopled(t, name), 0)
        }),
{
    let name = group_name::<T>();
    let t = moved::<T>(s, id, g, anchor, after)->0;
    lemma_first_holds(s, has_id::<T>(id), 0);
    let from = first_place(s, has_id::<T>(id), 0)->0;
    let others = s.remove(from);
    let x = T::regrouped(s[from], g);
    T::lemma_regrouped(s[from], g);
    if anchor is Some {
        lemma_anchor::<T>(s, id, g, anchor->0);
    }
    lemma_last_holds(others, in_group(name, g), others.len() as int);
    let to = target_place::<T>(others, g, anchor, after);
    let placed = others.insert(to, x);
    let order = order_with::<T>(s, g);
    lemma_placed_named::<T>(s, from, to, g);
    let k = choose|k: int| 0 <= k < order.len() && order[k] == g;
    let at = place_after(placed, name, order, k, to);
    assert(placed[to] == x);
    assert(placed.remove(to) =~= others);
    lemma_neighbours(placed, name, order, k, to);
    lemma_next_member(placed, name, g, to);
    let lo = regroup_first(placed, name, order, k).len() as int;
    let left = members(placed.take(to), name, g);
    let right = members(placed.skip(to + 1), name, g);
    match anchor {
        Some(b) => {
            let i = first_place(others, has_id::<T>(b), 0)->0;
            if after {
                assert(placed[to - 1] == others[i]);
                assert(t.subrange(lo, at)[left.len() - 1] == t[at - 1]);
            } else {
                assert(placed[to + 1] == others[i]);
                assert(t.subrange(at + 1, at + 1 + right.len())[0] == t[at + 1]);
            }
        },
        None => {
            let c = placed.skip(to + 1);
            assert forall|q: int| 0 <= q < c.len() implies !in_group(name, g)(#[trigger] c[q]) by {
                assert(c[q] == others[to + q]);
            }
            lemma_kept_none(c, in_group(name, g), 0);
            assert forall|q: int| at < q < t.len() implies T::group_of(#[trigger] t[q]) != g by {
                assert(name(t[q]) != order[k]);
            }
        },
    }
    assert forall|h: Seq<char>| #[trigger] members(t.remove(at), name, h) == members(
        others,
        name,
        h,
    ) by {
        lemma_others_stay(placed, name, order, k, to, h);
    }
    law_regrouping_makes_groups_stand(placed, name, order);
    assert forall|h: Seq<char>| #[trigger] members(t, name, h) == members(placed, name, h) by {
        law_regrouping_keeps_members(placed, name, order, h);
    }
    assert(peopled(t, name) =~= peopled(placed, name));
    at
}

} // verus!
