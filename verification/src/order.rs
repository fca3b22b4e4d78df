//! Stable sorting.

use crate::text::views;
use vstd::prelude::*;

verus! {

/// The sequence with `x` before its first element that does not come before `x`.
pub open spec fn place<A>(x: A, s: Seq<A>, lt: spec_fn(A, A) -> bool) -> Seq<A>
    decreases s.len(),
{
    if s.len() > 0 && lt(s[0], x) {
        seq![s[0]] + place(x, s.skip(1), lt)
    } else {
        seq![x] + s
    }
}

/// The sequence in order: each element, from the last to the first, is placed
/// among those behind it.
pub open spec fn sorted<A>(s: Seq<A>, lt: spec_fn(A, A) -> bool) -> Seq<A>
    decreases s.len(),
{
    if s.len() == 0 {
        s
    } else {
        place(s[0], sorted(s.skip(1), lt), lt)
    }
}

proof fn lemma_place_step<A>(x: A, s: Seq<A>, j: int, lt: spec_fn(A, A) -> bool)
    requires
        0 <= j < s.len(),
        lt(s[j], x),
        place(x, s, lt) == s.take(j) + place(x, s.skip(j), lt),
    ensures
        place(x, s, lt) == s.take(j + 1) + place(x, s.skip(j + 1), lt),
{
    assert(s.skip(j).skip(1) =~= s.skip(j + 1));
    assert(s.take(j) + (seq![s[j]] + place(x, s.skip(j + 1), lt)) =~= s.take(j + 1) + place(
        x,
        s.skip(j + 1),
        lt,
    ));
}

pub proof fn lemma_sorted_len<A>(s: Seq<A>, lt: spec_fn(A, A) -> bool)
    ensures
        sorted(s, lt).len() == s.len(),
    decreases s.len(),
{
    if s.len() > 0 {
        lemma_sorted_len(s.skip(1), lt);
        lemma_place_len(s[0], sorted(s.skip(1), lt), lt);
    }
}

pub proof fn lemma_place_len<A>(x: A, s: Seq<A>, lt: spec_fn(A, A) -> bool)
    ensures
        place(x, s, lt).len() == s.len() + 1,
    decreases s.len(),
{
    if s.len() > 0 && lt(s[0], x) {
        lemma_place_len(x, s.skip(1), lt);
    }
}

/// Places an element in a list that is kept in order from its back.
fn place_back<T: View, F: Fn(&T, &T) -> bool>(
    out: &mut Vec<T>,
    x: T,
    less: &F,
    Ghost(lt): Ghost<spec_fn(T::V, T::V) -> bool>,
)
    requires
        forall|a: &T, b: &T| call_requires(*less, (a, b)),
        forall|a: &T, b: &T, r: bool| call_ensures(*less, (a, b), r) ==> r == lt(a@, b@),
    ensures
        views(final(out)@).reverse() == place(x@, views(old(out)@).reverse(), lt),
        final(out).len() == old(out).len() + 1,
{
    let ghost before = views(out@);
    let ghost done = before.reverse();
    let ghost xv = x@;
    let mut i: usize = out.len();
    proof {
        assert(done.take(0) =~= Seq::empty());
        assert(done.skip(0) =~= done);
        assert(place(xv, done, lt) =~= done.take(0) + place(xv, done.skip(0), lt));
    }
    while i > 0 && less(&out[i - 1], &x)
        invariant
            forall|a: &T, b: &T| call_requires(*less, (a, b)),
            forall|a: &T, b: &T, r: bool| call_ensures(*less, (a, b), r) ==> r == lt(a@, b@),
            i <= out.len(),
            *out == *old(out),
            views(out@) == before,
            before.reverse() == done,
            x@ == xv,
            done.len() == out.len(),
            place(xv, done, lt) == done.take(out.len() - i) + place(
                xv,
                done.skip(out.len() - i),
                lt,
            ),
        ensures
            i <= out.len(),
            *out == *old(out),
            i > 0 ==> !lt(before[i - 1], xv),
            place(xv, done, lt) == done.take(out.len() - i) + place(
                xv,
                done.skip(out.len() - i),
                lt,
            ),
        decreases i,
    {
        proof {
            assert(views(out@)[i - 1] == before[i - 1]);
            assert(done[out.len() - i] == before[i - 1]);
            lemma_place_step(xv, done, out.len() - i, lt);
        }
        i -= 1;
    }
    let ghost k = out.len() - i;
    proof {
        assert(i > 0 ==> done.skip(k)[0] == before[i - 1]);
        assert(place(xv, done.skip(k), lt) == seq![xv] + done.skip(k));
        assert(before.insert(i as int, xv).reverse() =~= done.take(k) + (seq![xv] + done.skip(k)));
    }
    out.insert(i, x);
    proof {
        assert(views(out@) =~= before.insert(i as int, xv));
    }
}

/// Sorts the list; elements that come neither before nor after each other keep
/// their order.
pub(crate) fn sort_by<T: View, F: Fn(&T, &T) -> bool>(
    items: Vec<T>,
    less: F,
    Ghost(lt): Ghost<spec_fn(T::V, T::V) -> bool>,
) -> (r: Vec<T>)
    requires
        forall|a: &T, b: &T| call_requires(less, (a, b)),
        forall|a: &T, b: &T, r: bool| call_ensures(less, (a, b), r) ==> r == lt(a@, b@),
    ensures
        views(r@) == sorted(views(items@), lt),
        r.len() == items.len(),
{
    let ghost start = views(items@);
    let mut items = items;
    // Holds the elements from the back, last first.
    let mut out: Vec<T> = Vec::new();
    proof {
        assert(start.take(start.len() as int) =~= start);
        assert(views(out@).reverse() =~= sorted(start.skip(start.len() as int), lt));
    }
    while items.len() > 0
        invariant
            forall|a: &T, b: &T| call_requires(less, (a, b)),
            forall|a: &T, b: &T, r: bool| call_ensures(less, (a, b), r) ==> r == lt(a@, b@),
            items.len() + out.len() == start.len(),
            views(items@) == start.take(items.len() as int),
            views(out@).reverse() == sorted(start.skip(items.len() as int), lt),
        decreases items.len(),
    {
        let ghost was = items@;
        let ghost n = items.len() as int;
        if let Some(x) = items.pop() {
            proof {
                assert(views(was)[n - 1] == x@);
                assert(views(items@) =~= views(was).take(n - 1));
                assert(views(items@) =~= start.take(n - 1));
                assert(start.skip(n - 1).skip(1) =~= start.skip(n));
            }
            place_back(&mut out, x, &less, Ghost(lt));
        }
    }
    proof {
        assert(start.skip(0) =~= start);
    }
    reversed(out)
}

/// The list from its back.
pub(crate) fn reversed<T: View>(items: Vec<T>) -> (r: Vec<T>)
    ensures
        views(r@) == views(items@).reverse(),
        r.len() == items.len(),
{
    let mut out = items;
    let mut r: Vec<T> = Vec::new();
    let ghost back = views(out@);
    proof {
        assert(back.take(back.len() as int) =~= back);
        assert(views(r@) =~= back.skip(back.len() as int).reverse());
    }
    while out.len() > 0
        invariant
            out.len() + r.len() == back.len(),
            views(out@) == back.take(out.len() as int),
            views(r@) == back.skip(out.len() as int).reverse(),
        decreases out.len(),
    {
        let ghost n = out.len() as int;
        let ghost was = out@;
        let ghost before = views(r@);
        if let Some(x) = out.pop() {
            let ghost xv = x@;
            proof {
                assert(views(was)[n - 1] == xv);
                assert(views(out@) =~= back.take(n - 1));
                assert(before.push(xv) =~= back.skip(n - 1).reverse());
            }
            r.push(x);
            proof {
                assert(views(r@) =~= before.push(xv));
            }
        }
    }
    proof {
        assert(back.skip(0) =~= back);
    }
    r
}

} // verus!
