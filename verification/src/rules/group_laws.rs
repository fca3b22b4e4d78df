//! What moving rules and groups keeps.

use crate::rules::group::{
    exchanged, group_moved, group_moved_order, group_name, group_order, groups, has_id, in_group,
    in_none, lemma_kept_all, lemma_kept_none, members, moved, order_with, outside_first, regroup,
    regroup_first, swapped, target_place, Member,
};
use crate::select::{
    lemma_first_holds, lemma_front_multiset, lemma_kept_add, lemma_kept_holds, lemma_kept_parts,
    lemma_last_holds,
};
use crate::text::{first_place, index_from, kept, lemma_index_from};
use vstd::prelude::*;

verus! {

/// Whether an order names each group once.
pub open spec fn each_once(order: Seq<Seq<char>>) -> bool {
    forall|i: int, j: int| 0 <= i < j < order.len() ==> order[i] != order[j]
}

/// Whether an order names the groups of all elements.
pub open spec fn names_all<A>(s: Seq<A>, name: spec_fn(A) -> Seq<char>, order: Seq<Seq<char>>) -> bool {
    forall|i: int| 0 <= i < s.len() ==> order.contains(#[trigger] name(s[i]))
}

/// The groups of a list name each group once, and all of them.
pub proof fn law_groups_name_all<A>(s: Seq<A>, name: spec_fn(A) -> Seq<char>)
    ensures
        each_once(groups(s, name)),
        names_all(s, name, groups(s, name)),
{
    lemma_group_order(s, name, s.len() as int);
    assert forall|i: int| 0 <= i < s.len() implies groups(s, name).contains(
        #[trigger] name(s[i]),
    ) by {}
}

proof fn lemma_group_order<A>(s: Seq<A>, name: spec_fn(A) -> Seq<char>, n: int)
    requires
        0 <= n <= s.len(),
    ensures
        each_once(group_order(s, name, n)),
        forall|i: int| 0 <= i < n ==> group_order(s, name, n).contains(#[trigger] name(s[i])),
    decreases n,
{
    if n > 0 {
        lemma_group_order(s, name, n - 1);
        let order = group_order(s, name, n - 1);
        let more = group_order(s, name, n);
        assert forall|i: int| 0 <= i < n implies more.contains(#[trigger] name(s[i])) by {
            if i < n - 1 {
                let k = choose|k: int| 0 <= k < order.len() && order[k] == name(s[i]);
                assert(more[k] == name(s[i]));
            } else if !order.contains(name(s[n - 1])) {
                assert(more[order.len() as int] == name(s[n - 1]));
            }
        }
    }
}

proof fn lemma_regroup_parts<A>(
    s: Seq<A>,
    name: spec_fn(A) -> Seq<char>,
    order: Seq<Seq<char>>,
    n: int,
)
    requires
        0 <= n <= order.len(),
        each_once(order),
    ensures
        regroup_first(s, name, order, n).to_multiset().add(
            outside_first(s, name, order, n).to_multiset(),
        ) == s.to_multiset(),
    decreases n,
{
    broadcast use vstd::seq_lib::group_to_multiset_ensures;

    if n > 0 {
        lemma_regroup_parts(s, name, order, n - 1);
        let g = order[n - 1];
        let wide = in_none(name, order.take(n - 1));
        let narrow = in_none(name, order.take(n));
        assert forall|k: int| 0 <= k < s.len() implies wide(#[trigger] s[k]) == (in_group(
            name,
            g,
        )(s[k]) || narrow(s[k])) && !(in_group(name, g)(s[k]) && narrow(s[k])) by {
            let h = name(s[k]);
            let a = order.take(n - 1);
            let b = order.take(n);
            if a.contains(h) {
                let j = choose|j: int| 0 <= j < a.len() && a[j] == h;
                assert(b[j] == h);
                assert(order[j] == h && order[n - 1] == g);
            }
            if b.contains(h) {
                let j = choose|j: int| 0 <= j < b.len() && b[j] == h;
                if j < n - 1 {
                    assert(a[j] == h);
                }
            }
            assert(b[n - 1] == g);
        }
        lemma_kept_parts(s, wide, in_group(name, g), narrow, 0);
        vstd::seq_lib::lemma_multiset_commutative(
            regroup_first(s, name, order, n - 1),
            members(s, name, g),
        );
        assert(regroup_first(s, name, order, n).to_multiset().add(
            outside_first(s, name, order, n).to_multiset(),
        ) =~= s.to_multiset());
    } else {
        let f = in_none(name, order.take(0));
        lemma_kept_all(s, f, 0);
        assert(s.skip(0) =~= s);
        assert(regroup_first(s, name, order, n).to_multiset().add(
            outside_first(s, name, order, n).to_multiset(),
        ) =~= s.to_multiset());
    }
}

/// Putting a list in the order of its groups loses nothing, adds nothing and
/// copies nothing.
pub proof fn law_regrouping_keeps_elements<A>(
    s: Seq<A>,
    name: spec_fn(A) -> Seq<char>,
    order: Seq<Seq<char>>,
)
    requires
        each_once(order),
        names_all(s, name, order),
    ensures
        regroup(s, name, order).to_multiset() == s.to_multiset(),
{
    broadcast use vstd::seq_lib::group_to_multiset_ensures;

    let n = order.len() as int;
    lemma_regroup_parts(s, name, order, n);
    assert(order.take(n) =~= order);
    lemma_kept_none(s, in_none(name, order), 0);
    assert(outside_first(s, name, order, n) =~= Seq::<A>::empty());
    assert(regroup(s, name, order).to_multiset() =~= s.to_multiset());
}

proof fn lemma_members_of_members<A>(
    s: Seq<A>,
    name: spec_fn(A) -> Seq<char>,
    h: Seq<char>,
    g: Seq<char>,
)
    ensures
        members(members(s, name, h), name, g) == (if g == h {
            members(s, name, g)
        } else {
            Seq::empty()
        }),
{
    let f = in_group(name, h);
    let m = members(s, name, h);
    lemma_kept_holds(s, f, 0);
    if g == h {
        assert forall|k: int| 0 <= k < m.len() implies f(#[trigger] m[k]) by {}
        lemma_kept_all(m, f, 0);
        assert(m.skip(0) =~= m);
    } else {
        assert forall|k: int| 0 <= k < m.len() implies !in_group(name, g)(#[trigger] m[k]) by {
            assert(f(m[k]));
        }
        lemma_kept_none(m, in_group(name, g), 0);
        assert(members(m, name, g) =~= Seq::<A>::empty());
    }
}

proof fn lemma_regroup_members<A>(
    s: Seq<A>,
    name: spec_fn(A) -> Seq<char>,
    order: Seq<Seq<char>>,
    g: Seq<char>,
    n: int,
)
    requires
        0 <= n <= order.len(),
        each_once(order),
    ensures
        members(regroup_first(s, name, order, n), name, g) == (if order.take(n).contains(g) {
            members(s, name, g)
        } else {
            Seq::empty()
        }),
    decreases n,
{
    let f = in_group(name, g);
    if n > 0 {
        lemma_regroup_members(s, name, order, g, n - 1);
        let h = order[n - 1];
        let a = order.take(n - 1);
        let b = order.take(n);
        lemma_kept_add(regroup_first(s, name, order, n - 1), members(s, name, h), f, 0);
        lemma_members_of_members(s, name, h, g);
        if a.contains(g) {
            let j = choose|j: int| 0 <= j < a.len() && a[j] == g;
            assert(b[j] == g);
            assert(order[j] == g && order[n - 1] == h);
            assert(g != h);
            assert(members(s, name, g) + Seq::<A>::empty() =~= members(s, name, g));
        } else if g == h {
            assert(b[n - 1] == g);
            assert(Seq::<A>::empty() + members(s, name, g) =~= members(s, name, g));
        } else {
            if b.contains(g) {
                let j = choose|j: int| 0 <= j < b.len() && b[j] == g;
                assert(a[j] == g);
            }
            assert(Seq::<A>::empty() + Seq::<A>::empty() =~= Seq::<A>::empty());
        }
    }
}

/// Putting a list in the order of its groups keeps the order within each group.
pub proof fn law_regrouping_keeps_members<A>(
    s: Seq<A>,
    name: spec_fn(A) -> Seq<char>,
    order: Seq<Seq<char>>,
    g: Seq<char>,
)
    requires
        each_once(order),
        names_all(s, name, order),
    ensures
        members(regroup(s, name, order), name, g) == members(s, name, g),
{
    let n = order.len() as int;
    lemma_regroup_members(s, name, order, g, n);
    assert(order.take(n) =~= order);
    if !order.contains(g) {
        assert forall|k: int| 0 <= k < s.len() implies !in_group(name, g)(#[trigger] s[k]) by {
            assert(order.contains(name(s[k])));
        }
        lemma_kept_none(s, in_group(name, g), 0);
        assert(members(s, name, g) =~= Seq::<A>::empty());
    }
}

proof fn lemma_exchanged(order: Seq<Seq<char>>, a: Seq<char>, b: Seq<char>)
    requires
        each_once(order),
        order.contains(a),
        order.contains(b),
    ensures
        each_once(exchanged(order, a, b)),
        forall|x: Seq<char>| #[trigger] order.contains(x) ==> exchanged(order, a, b).contains(x),
{
    lemma_index_from(order, a, 0);
    lemma_index_from(order, b, 0);
    let i = index_from(order, a, 0)->0;
    let j = index_from(order, b, 0)->0;
    let e = exchanged(order, a, b);
    assert forall|x: Seq<char>| #[trigger] order.contains(x) implies e.contains(x) by {
        let k = choose|k: int| 0 <= k < order.len() && order[k] == x;
        if k == i {
            assert(e[j] == x);
        } else if k == j {
            assert(e[i] == x);
        } else {
            assert(e[k] == x);
        }
    }
}

/// Exchanging two groups keeps every element and the order within each group.
pub proof fn law_swapping_keeps_elements<A>(
    s: Seq<A>,
    name: spec_fn(A) -> Seq<char>,
    a: Seq<char>,
    b: Seq<char>,
)
    ensures
        swapped(s, name, a, b).to_multiset() == s.to_multiset(),
        forall|g: Seq<char>|
            #[trigger] members(swapped(s, name, a, b), name, g) == members(s, name, g),
{
    let order = groups(s, name);
    law_groups_name_all(s, name);
    if order.contains(a) && order.contains(b) {
        lemma_exchanged(order, a, b);
        let e = exchanged(order, a, b);
        assert(names_all(s, name, e)) by {
            assert forall|i: int| 0 <= i < s.len() implies e.contains(#[trigger] name(s[i])) by {
                assert(order.contains(name(s[i])));
            }
        }
        law_regrouping_keeps_elements(s, name, e);
        assert forall|g: Seq<char>|
            #[trigger] members(swapped(s, name, a, b), name, g) == members(s, name, g) by {
            law_regrouping_keeps_members(s, name, e, g);
        }
    }
}

/// An order without one of its names.
proof fn lemma_name_removed(order: Seq<Seq<char>>, at: int)
    requires
        each_once(order),
        0 <= at < order.len(),
    ensures
        each_once(order.remove(at)),
        !order.remove(at).contains(order[at]),
        forall|x: Seq<char>| #[trigger]
            order.contains(x) && x != order[at] ==> order.remove(at).contains(x),
{
    let others = order.remove(at);
    assert forall|k: int| 0 <= k < others.len() implies #[trigger] others[k] == order[if k < at {
        k
    } else {
        k + 1
    }] by {}
    assert forall|p: int, q: int| 0 <= p < q < others.len() implies others[p] != others[q] by {}
    if others.contains(order[at]) {
        let k = choose|k: int| 0 <= k < others.len() && others[k] == order[at];
        assert(others[k] == order[if k < at {
            k
        } else {
            k + 1
        }]);
    }
    assert forall|x: Seq<char>| #[trigger] order.contains(x) && x != order[at] implies
        others.contains(x) by {
        let k = choose|k: int| 0 <= k < order.len() && order[k] == x;
        if k < at {
            assert(others[k] == x);
        } else {
            assert(others[k - 1] == x);
        }
    }
}

/// An order with one more name.
proof fn lemma_name_inserted(order: Seq<Seq<char>>, at: int, g: Seq<char>)
    requires
        each_once(order),
        !order.contains(g),
        0 <= at <= order.len(),
    ensures
        each_once(order.insert(at, g)),
        order.insert(at, g).contains(g),
        forall|x: Seq<char>| #[trigger] order.contains(x) ==> order.insert(at, g).contains(x),
{
    let e = order.insert(at, g);
    assert(e[at] == g);
    assert forall|p: int, q: int| 0 <= p < q < e.len() implies e[p] != e[q] by {
        if p == at {
            assert(e[q] == order[q - 1]);
            assert(order.contains(order[q - 1]));
        } else if q == at {
            assert(e[p] == order[p]);
            assert(order.contains(order[p]));
        } else {
            let x = if p < at {
                p
            } else {
                p - 1
            };
            let y = if q < at {
                q
            } else {
                q - 1
            };
            assert(e[p] == order[x] && e[q] == order[y]);
        }
    }
    assert forall|x: Seq<char>| #[trigger] order.contains(x) implies e.contains(x) by {
        let k = choose|k: int| 0 <= k < order.len() && order[k] == x;
        if k < at {
            assert(e[k] == x);
        } else {
            assert(e[k + 1] == x);
        }
    }
}

proof fn lemma_moved_order(order: Seq<Seq<char>>, g: Seq<char>, target: Seq<char>, after: bool)
    requires
        each_once(order),
        order.contains(g),
        order.contains(target),
        g != target,
    ensures
        each_once(group_moved_order(order, g, target, after)),
        forall|x: Seq<char>| #[trigger]
            order.contains(x) ==> group_moved_order(order, g, target, after).contains(x),
{
    lemma_index_from(order, g, 0);
    let at = index_from(order, g, 0)->0;
    let others = order.remove(at);
    lemma_name_removed(order, at);
    assert(others.contains(target));
    lemma_index_from(others, target, 0);
    let i = index_from(others, target, 0)->0;
    let place = if after {
        i + 1
    } else {
        i
    };
    lemma_name_inserted(others, place, g);
    let e = group_moved_order(order, g, target, after);
    assert(e == others.insert(place, g));
    assert forall|x: Seq<char>| #[trigger] order.contains(x) implies e.contains(x) by {
        if x != g {
            assert(others.contains(x));
        }
    }
}

/// Moving a group keeps every rule as it is, and the order within each group.
pub proof fn law_group_move_keeps_rules<T: Member>(
    s: Seq<T::V>,
    g: Seq<char>,
    target: Seq<char>,
    after: bool,
)
    requires
        group_moved::<T>(s, g, target, after) is Some,
    ensures
        ({
            let t = group_moved::<T>(s, g, target, after)->0;
            &&& t.to_multiset() == s.to_multiset()
            &&& forall|h: Seq<char>| #[trigger]
                members(t, group_name::<T>(), h) == members(s, group_name::<T>(), h)
        }),
{
    let name = group_name::<T>();
    let order = groups(s, name);
    law_groups_name_all(s, name);
    lemma_moved_order(order, g, target, after);
    let e = group_moved_order(order, g, target, after);
    assert(names_all(s, name, e)) by {
        assert forall|i: int| 0 <= i < s.len() implies e.contains(#[trigger] name(s[i])) by {
            assert(order.contains(name(s[i])));
        }
    }
    law_regrouping_keeps_elements(s, name, e);
    let t = group_moved::<T>(s, g, target, after)->0;
    assert forall|h: Seq<char>| #[trigger] members(t, name, h) == members(s, name, h) by {
        law_regrouping_keeps_members(s, name, e, h);
    }
}

proof fn lemma_target_place<T: Member>(
    s: Seq<T::V>,
    g: Seq<char>,
    anchor: Option<Seq<char>>,
    after: bool,
)
    ensures
        0 <= target_place::<T>(s, g, anchor, after) <= s.len(),
{
    if anchor is Some {
        lemma_first_holds(s, has_id::<T>(anchor->0), 0);
    }
    lemma_last_holds(s, in_group(group_name::<T>(), g), s.len() as int);
}

/// The order of the groups names each group once, and the groups of all rules
/// after one of them went to a group.
pub proof fn lemma_placed_named<T: Member>(s: Seq<T::V>, from: int, at: int, g: Seq<char>)
    requires
        0 <= from < s.len(),
        0 <= at < s.len(),
    ensures
        each_once(order_with::<T>(s, g)),
        order_with::<T>(s, g).contains(g),
        names_all(
            s.remove(from).insert(at, T::regrouped(s[from], g)),
            group_name::<T>(),
            order_with::<T>(s, g),
        ),
{
    let name = group_name::<T>();
    let others = s.remove(from);
    T::lemma_regrouped(s[from], g);
    let placed = others.insert(at, T::regrouped(s[from], g));
    let order = order_with::<T>(s, g);
    law_groups_name_all(s, name);
    let base = groups(s, name);
    assert(each_once(order));
    assert(order.contains(g)) by {
        if !base.contains(g) {
            assert(order[base.len() as int] == g);
        }
    }
    assert(names_all(placed, name, order)) by {
        assert forall|i: int| 0 <= i < placed.len() implies order.contains(
            #[trigger] name(placed[i]),
        ) by {
            if i == at {
                assert(name(placed[i]) == g);
            } else {
                let k = if i < at {
                    i
                } else {
                    i - 1
                };
                assert(placed[i] == others[k]);
                let m = if k < from {
                    k
                } else {
                    k + 1
                };
                assert(others[k] == s[m]);
                assert(base.contains(name(s[m])));
                let q = choose|q: int| 0 <= q < base.len() && base[q] == name(s[m]);
                assert(order[q] == name(s[m]));
            }
        }
    }
}

/// Moving a rule changes its group and nothing else: the other rules stay as
/// they are, and those of other groups in their order.
pub proof fn law_rule_move_keeps_others<T: Member>(
    s: Seq<T::V>,
    id: Seq<char>,
    g: Seq<char>,
    anchor: Option<Seq<char>>,
    after: bool,
)
    requires
        moved::<T>(s, id, g, anchor, after) is Some,
    ensures
        ({
            let t = moved::<T>(s, id, g, anchor, after)->0;
            let from = first_place(s, has_id::<T>(id), 0)->0;
            let others = s.remove(from);
            &&& t.to_multiset() == others.to_multiset().insert(T::regrouped(s[from], g))
            &&& forall|h: Seq<char>|
                h != g ==> #[trigger] members(t, group_name::<T>(), h) == members(
                    others,
                    group_name::<T>(),
                    h,
                )
        }),
{
    broadcast use vstd::seq_lib::group_to_multiset_ensures;

    let name = group_name::<T>();
    lemma_first_holds(s, has_id::<T>(id), 0);
    let from = first_place(s, has_id::<T>(id), 0)->0;
    let others = s.remove(from);
    let x = T::regrouped(s[from], g);
    T::lemma_regrouped(s[from], g);
    lemma_target_place::<T>(others, g, anchor, after);
    let at = target_place::<T>(others, g, anchor, after);
    let placed = others.insert(at, x);
    let order = order_with::<T>(s, g);
    lemma_placed_named::<T>(s, from, at, g);
    law_regrouping_keeps_elements(placed, name, order);
    let t = moved::<T>(s, id, g, anchor, after)->0;
    assert(placed =~= others.take(at) + (seq![x] + others.skip(at)));
    lemma_front_multiset(x, others.skip(at));
    vstd::seq_lib::lemma_multiset_commutative(others.take(at), seq![x] + others.skip(at));
    vstd::seq_lib::lemma_multiset_commutative(others.take(at), others.skip(at));
    assert(others.take(at) + others.skip(at) =~= others);
    assert(t.to_multiset() =~= others.to_multiset().insert(x));
    assert forall|h: Seq<char>| h != g implies #[trigger] members(t, name, h) == members(
        others,
        name,
        h,
    ) by {
        let f = in_group(name, h);
        law_regrouping_keeps_members(placed, name, order, h);
        lemma_kept_add(others.take(at), seq![x] + others.skip(at), f, 0);
        lemma_kept_add(seq![x], others.skip(at), f, 0);
        lemma_kept_add(others.take(at), others.skip(at), f, 0);
        assert(!f(x));
        lemma_kept_none(seq![x], f, 0);
        assert(kept(seq![x], f, 0) + kept(others.skip(at), f, 0) =~= kept(others.skip(at), f, 0));
    }
}

} // verus!
