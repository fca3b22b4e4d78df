//! Choosing elements of a list by a condition.

use crate::rules::group::last_place;
use crate::text::{any, first_place, kept, places, views, Duplicate};
use vstd::prelude::*;

verus! {

/// Whether a function computes a condition.
pub open spec fn decides<T: View, F: Fn(&T) -> bool>(f: F, p: spec_fn(T::V) -> bool) -> bool {
    &&& forall|x: &T| #[trigger] call_requires(f, (x,))
    &&& forall|x: &T, r: bool| #[trigger] call_ensures(f, (x,), r) ==> r == p(x@)
}

/// The first place where the condition holds.
pub fn find_by<T: View, F: Fn(&T) -> bool>(
    v: &Vec<T>,
    f: &F,
    Ghost(p): Ghost<spec_fn(T::V) -> bool>,
) -> (r: Option<usize>)
    requires
        decides(*f, p),
    ensures
        (match r {
            Some(i) => i < v.len() && first_place(views(v@), p, 0) == Some(i as int),
            None => first_place(views(v@), p, 0) is None,
        }),
{
    let ghost s = views(v@);
    let mut i: usize = 0;
    while i < v.len()
        invariant
            i <= v.len(),
            s == views(v@),
            decides(*f, p),
            first_place(s, p, 0) == first_place(s, p, i as int),
        decreases v.len() - i,
    {
        let hit = f(&v[i]);
        proof {
            assert(s[i as int] == v@[i as int]@);
            assert(hit == p(s[i as int]));
        }
        if hit {
            return Some(i);
        }
        i += 1;
    }
    None
}

/// The last place where the condition holds.
pub fn find_last_by<T: View, F: Fn(&T) -> bool>(
    v: &Vec<T>,
    f: &F,
    Ghost(p): Ghost<spec_fn(T::V) -> bool>,
) -> (r: Option<usize>)
    requires
        decides(*f, p),
    ensures
        (match r {
            Some(i) => i < v.len() && last_place(views(v@), p, v.len() as int) == Some(i as int),
            None => last_place(views(v@), p, v.len() as int) is None,
        }),
{
    let ghost s = views(v@);
    let mut i: usize = v.len();
    while i > 0
        invariant
            i <= v.len(),
            s == views(v@),
            decides(*f, p),
            last_place(s, p, v.len() as int) == last_place(s, p, i as int),
        decreases i,
    {
        i -= 1;
        let hit = f(&v[i]);
        proof {
            assert(s[i as int] == v@[i as int]@);
            assert(hit == p(s[i as int]));
        }
        if hit {
            return Some(i);
        }
    }
    None
}

/// Whether the condition holds anywhere.
pub fn any_by<T: View, F: Fn(&T) -> bool>(
    v: &Vec<T>,
    f: &F,
    Ghost(p): Ghost<spec_fn(T::V) -> bool>,
) -> (r: bool)
    requires
        decides(*f, p),
    ensures
        r == any(views(v@), p),
{
    let ghost s = views(v@);
    let mut i: usize = 0;
    while i < v.len()
        invariant
            i <= v.len(),
            s == views(v@),
            decides(*f, p),
            forall|j: int| 0 <= j < i ==> !p(#[trigger] s[j]),
        decreases v.len() - i,
    {
        let hit = f(&v[i]);
        proof {
            assert(s[i as int] == v@[i as int]@);
            assert(hit == p(s[i as int]));
        }
        if hit {
            return true;
        }
        i += 1;
    }
    false
}

/// The elements where the condition holds.
pub fn keep_by<T: Duplicate, F: Fn(&T) -> bool>(
    v: &Vec<T>,
    f: &F,
    Ghost(p): Ghost<spec_fn(T::V) -> bool>,
) -> (r: Vec<T>)
    requires
        decides(*f, p),
    ensures
        views(r@) == kept(views(v@), p, 0),
{
    let ghost s = views(v@);
    let mut out: Vec<T> = Vec::new();
    let mut i: usize = 0;
    proof {
        assert(views(out@) + kept(s, p, 0) =~= kept(s, p, 0));
    }
    while i < v.len()
        invariant
            i <= v.len(),
            s == views(v@),
            decides(*f, p),
            views(out@) + kept(s, p, i as int) == kept(s, p, 0),
        decreases v.len() - i,
    {
        let ghost was = views(out@);
        let hit = f(&v[i]);
        proof {
            assert(s[i as int] == v@[i as int]@);
            assert(hit == p(s[i as int]));
        }
        if hit {
            out.push(v[i].duplicate());
            proof {
                assert(views(out@) =~= was.push(s[i as int]));
                assert(was + kept(s, p, i as int) =~= views(out@) + kept(s, p, i + 1));
            }
        }
        i += 1;
    }
    proof {
        assert(views(out@) + kept(s, p, i as int) =~= views(out@));
    }
    out
}

/// At how many places the condition holds.
pub fn count_by<T: View, F: Fn(&T) -> bool>(
    v: &Vec<T>,
    f: &F,
    Ghost(p): Ghost<spec_fn(T::V) -> bool>,
) -> (r: usize)
    requires
        decides(*f, p),
    ensures
        r == kept(views(v@), p, 0).len(),
{
    let ghost s = views(v@);
    let mut n: usize = 0;
    let mut i: usize = 0;
    while i < v.len()
        invariant
            i <= v.len(),
            n <= i,
            s == views(v@),
            decides(*f, p),
            n + kept(s, p, i as int).len() == kept(s, p, 0).len(),
        decreases v.len() - i,
    {
        let hit = f(&v[i]);
        proof {
            assert(s[i as int] == v@[i as int]@);
            assert(hit == p(s[i as int]));
        }
        if hit {
            n += 1;
        }
        i += 1;
    }
    n
}

/// A place that satisfies the condition shows that there is a first one, not
/// behind it.
pub proof fn lemma_first_of_any<A>(s: Seq<A>, p: spec_fn(A) -> bool, i: int, j: int)
    requires
        0 <= i <= j < s.len(),
        p(s[j]),
    ensures
        first_place(s, p, i) is Some,
        i <= first_place(s, p, i)->0 <= j,
        p(s[first_place(s, p, i)->0]),
    decreases j - i,
{
    if !p(s[i]) {
        lemma_first_of_any(s, p, i + 1, j);
    }
}

/// What the first place is.
pub proof fn lemma_first_holds<A>(s: Seq<A>, p: spec_fn(A) -> bool, i: int)
    requires
        0 <= i,
    ensures
        first_place(s, p, i) matches Some(k) ==> i <= k < s.len() && p(s[k]) && forall|j: int|
            i <= j < k ==> !p(#[trigger] s[j]),
        first_place(s, p, i) is None ==> forall|j: int| i <= j < s.len() ==> !p(#[trigger] s[j]),
    decreases s.len() - i,
{
    if i < s.len() && !p(s[i]) {
        lemma_first_holds(s, p, i + 1);
    }
}

/// The places where a condition holds: each once, in order, and no others.
pub proof fn lemma_places<A>(s: Seq<A>, f: spec_fn(A) -> bool, i: int)
    requires
        0 <= i,
    ensures
        forall|k: int|
            0 <= k < places(s, f, i).len() ==> i <= #[trigger] places(s, f, i)[k] < s.len(),
        forall|j: int, k: int|
            0 <= j < k < places(s, f, i).len() ==> places(s, f, i)[j] < places(s, f, i)[k],
        forall|j: int| #[trigger]
            places(s, f, i).contains(j) <==> i <= j < s.len() && f(s[j]),
    decreases s.len() - i,
{
    if i < s.len() {
        lemma_places(s, f, i + 1);
        let rest = places(s, f, i + 1);
        let all = places(s, f, i);
        if f(s[i]) {
            assert(all == seq![i] + rest);
            assert forall|k: int| 0 <= k < all.len() implies i <= #[trigger] all[k]
                < s.len() by {
                if k > 0 {
                    assert(all[k] == rest[k - 1]);
                }
            }
            assert forall|j: int, k: int| 0 <= j < k < all.len() implies all[j] < all[k] by {
                assert(all[k] == rest[k - 1]);
                if j > 0 {
                    assert(all[j] == rest[j - 1]);
                }
            }
            assert forall|j: int| #[trigger] all.contains(j) <==> i <= j < s.len() && f(s[j]) by {
                if all.contains(j) {
                    let k = choose|k: int| 0 <= k < all.len() && all[k] == j;
                    if k > 0 {
                        assert(rest[k - 1] == j);
                        assert(rest.contains(j));
                    }
                }
                if i <= j < s.len() && f(s[j]) {
                    if j == i {
                        assert(all[0] == j);
                    } else {
                        assert(rest.contains(j));
                        let k = choose|k: int| 0 <= k < rest.len() && rest[k] == j;
                        assert(all[k + 1] == j);
                    }
                }
            }
        } else {
            assert forall|j: int| #[trigger] all.contains(j) <==> i <= j < s.len() && f(s[j]) by {
                assert(all == rest);
                assert(rest.contains(j) <==> i + 1 <= j < s.len() && f(s[j]));
            }
        }
    }
}

/// A place among what is kept shows a place where it came from, and the other
/// way round.
pub proof fn lemma_kept_holds<A>(s: Seq<A>, f: spec_fn(A) -> bool, i: int)
    requires
        0 <= i,
    ensures
        forall|k: int| 0 <= k < kept(s, f, i).len() ==> f(#[trigger] kept(s, f, i)[k]),
        forall|k: int|
            0 <= k < kept(s, f, i).len() ==> exists|j: int|
                i <= j < s.len() && s[j] == #[trigger] kept(s, f, i)[k],
        forall|j: int|
            i <= j < s.len() && f(#[trigger] s[j]) ==> exists|k: int|
                0 <= k < kept(s, f, i).len() && kept(s, f, i)[k] == s[j],
    decreases s.len() - i,
{
    if i < s.len() {
        lemma_kept_holds(s, f, i + 1);
        let rest = kept(s, f, i + 1);
        let all = kept(s, f, i);
        if f(s[i]) {
            assert(all == seq![s[i]] + rest);
            assert forall|k: int| 0 <= k < all.len() implies f(#[trigger] all[k]) && exists|j: int|
                i <= j < s.len() && s[j] == all[k] by {
                if k == 0 {
                    assert(s[i] == all[0]);
                } else {
                    assert(all[k] == rest[k - 1]);
                    let j = choose|j: int| i + 1 <= j < s.len() && s[j] == rest[k - 1];
                    assert(s[j] == all[k]);
                }
            }
            assert forall|j: int| i <= j < s.len() && f(#[trigger] s[j]) implies exists|k: int|
                0 <= k < all.len() && all[k] == s[j] by {
                if j == i {
                    assert(all[0] == s[j]);
                } else {
                    let k = choose|k: int| 0 <= k < rest.len() && rest[k] == s[j];
                    assert(all[k + 1] == s[j]);
                }
            }
        } else {
            assert forall|k: int| 0 <= k < all.len() implies exists|j: int|
                i <= j < s.len() && s[j] == #[trigger] all[k] by {
                let j = choose|j: int| i + 1 <= j < s.len() && s[j] == rest[k];
                assert(s[j] == all[k]);
            }
        }
    }
}

/// Where something that is kept came from.
pub proof fn lemma_kept_source<A>(s: Seq<A>, f: spec_fn(A) -> bool, k: int) -> (j: int)
    requires
        0 <= k < kept(s, f, 0).len(),
    ensures
        0 <= j < s.len(),
        s[j] == kept(s, f, 0)[k],
        f(s[j]),
{
    lemma_kept_holds(s, f, 0);
    choose|j: int| 0 <= j < s.len() && s[j] == kept(s, f, 0)[k]
}

/// Where something that is kept goes.
pub proof fn lemma_kept_there<A>(s: Seq<A>, f: spec_fn(A) -> bool, j: int) -> (k: int)
    requires
        0 <= j < s.len(),
        f(s[j]),
    ensures
        0 <= k < kept(s, f, 0).len(),
        kept(s, f, 0)[k] == s[j],
{
    lemma_kept_holds(s, f, 0);
    choose|k: int| 0 <= k < kept(s, f, 0).len() && kept(s, f, 0)[k] == s[j]
}

/// What is kept of a list stands in the order in which it stood.
pub proof fn lemma_kept_order<A>(s: Seq<A>, f: spec_fn(A) -> bool, i: int, a: int, b: int) -> (r: (
    int,
    int,
))
    requires
        0 <= i,
        0 <= a < b < kept(s, f, i).len(),
    ensures
        i <= r.0 < r.1 < s.len(),
        s[r.0] == kept(s, f, i)[a],
        s[r.1] == kept(s, f, i)[b],
    decreases s.len() - i,
{
    let out = kept(s, f, i);
    let rest = kept(s, f, i + 1);
    if f(s[i]) {
        assert(out == seq![s[i]] + rest);
        if a == 0 {
            assert(out[b] == rest[b - 1]);
            lemma_kept_holds(s, f, i + 1);
            let j = choose|j: int| i + 1 <= j < s.len() && s[j] == rest[b - 1];
            (i, j)
        } else {
            assert(out[a] == rest[a - 1] && out[b] == rest[b - 1]);
            lemma_kept_order(s, f, i + 1, a - 1, b - 1)
        }
    } else {
        lemma_kept_order(s, f, i + 1, a, b)
    }
}

/// An element in front of others, as a bag of elements.
pub proof fn lemma_front_multiset<A>(x: A, s: Seq<A>)
    ensures
        (seq![x] + s).to_multiset() == s.to_multiset().insert(x),
{
    broadcast use vstd::seq_lib::group_to_multiset_ensures;

    vstd::seq_lib::lemma_multiset_commutative(seq![x], s);
    assert(seq![x] =~= Seq::<A>::empty().push(x));
    assert((seq![x] + s).to_multiset() =~= s.to_multiset().insert(x));
}

/// What one of two conditions keeps that exclude each other is what both keep
/// together.
pub proof fn lemma_kept_parts<A>(
    s: Seq<A>,
    all: spec_fn(A) -> bool,
    a: spec_fn(A) -> bool,
    b: spec_fn(A) -> bool,
    i: int,
)
    requires
        0 <= i,
        forall|k: int|
            0 <= k < s.len() ==> all(#[trigger] s[k]) == (a(s[k]) || b(s[k])) && !(a(s[k]) && b(
                s[k],
            )),
    ensures
        kept(s, all, i).to_multiset() == kept(s, a, i).to_multiset().add(
            kept(s, b, i).to_multiset(),
        ),
    decreases s.len() - i,
{
    broadcast use vstd::seq_lib::group_to_multiset_ensures;

    if i < s.len() {
        lemma_kept_parts(s, all, a, b, i + 1);
        lemma_front_multiset(s[i], kept(s, all, i + 1));
        lemma_front_multiset(s[i], kept(s, a, i + 1));
        lemma_front_multiset(s[i], kept(s, b, i + 1));
    }
    assert(kept(s, all, i).to_multiset() =~= kept(s, a, i).to_multiset().add(
        kept(s, b, i).to_multiset(),
    ));
}

/// What is kept of two lists in a row.
pub proof fn lemma_kept_add<A>(s: Seq<A>, t: Seq<A>, f: spec_fn(A) -> bool, i: int)
    requires
        0 <= i <= s.len(),
    ensures
        kept(s + t, f, i) == kept(s, f, i) + kept(t, f, 0),
    decreases s.len() - i,
{
    if i < s.len() {
        lemma_kept_add(s, t, f, i + 1);
        assert((s + t)[i] == s[i]);
        if f(s[i]) {
            assert(seq![s[i]] + (kept(s, f, i + 1) + kept(t, f, 0)) =~= (seq![s[i]] + kept(
                s,
                f,
                i + 1,
            )) + kept(t, f, 0));
        }
    } else {
        crate::rules::group::lemma_kept_shift(s + t, f, i);
        assert((s + t).skip(i) =~= t);
        assert(kept(s, f, i) + kept(t, f, 0) =~= kept(t, f, 0));
    }
}

/// No more is kept than there is.
pub proof fn lemma_kept_len<A>(s: Seq<A>, p: spec_fn(A) -> bool, i: int)
    requires
        0 <= i,
    ensures
        i <= s.len() ==> kept(s, p, i).len() <= s.len() - i,
    decreases s.len() - i,
{
    if i < s.len() {
        lemma_kept_len(s, p, i + 1);
    }
}

/// What the last place is.
pub proof fn lemma_last_holds<A>(s: Seq<A>, p: spec_fn(A) -> bool, n: int)
    requires
        n <= s.len(),
    ensures
        last_place(s, p, n) matches Some(k) ==> 0 <= k < n && p(s[k]) && forall|j: int|
            k < j < n ==> !p(#[trigger] s[j]),
        last_place(s, p, n) is None ==> forall|j: int| 0 <= j < n ==> !p(#[trigger] s[j]),
    decreases n,
{
    if n > 0 && !p(s[n - 1]) {
        lemma_last_holds(s, p, n - 1);
    }
}

} // verus!
