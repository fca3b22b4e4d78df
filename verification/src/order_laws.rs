//! What sorting keeps and what it achieves.

use crate::order::{place, sorted};
use crate::text::{before, before_from, kept};
use vstd::prelude::*;

verus! {

/// Whether a comparison orders its elements up to ties: nothing comes before
/// what comes before it, and of two elements in order a third one comes behind
/// the first or before the second.
pub open spec fn orders<A>(lt: spec_fn(A, A) -> bool) -> bool {
    &&& forall|a: A, b: A| #[trigger] lt(a, b) ==> !lt(b, a)
    &&& forall|a: A, b: A, c: A| #[trigger] lt(a, c) ==> #[trigger] lt(a, b) || lt(b, c)
}

/// Whether no element comes before one that stands further to the front.
pub open spec fn in_order<A>(s: Seq<A>, lt: spec_fn(A, A) -> bool) -> bool {
    forall|i: int, j: int| 0 <= i < j < s.len() ==> !lt(#[trigger] s[j], #[trigger] s[i])
}

/// Being neither before nor behind an element.
pub open spec fn ties<A>(lt: spec_fn(A, A) -> bool, c: A) -> spec_fn(A) -> bool {
    |a: A| !lt(a, c) && !lt(c, a)
}

proof fn lemma_place_multiset<A>(x: A, s: Seq<A>, lt: spec_fn(A, A) -> bool)
    ensures
        place(x, s, lt).to_multiset() == s.to_multiset().insert(x),
    decreases s.len(),
{
    broadcast use vstd::seq_lib::group_to_multiset_ensures;

    if s.len() > 0 && lt(s[0], x) {
        lemma_place_multiset(x, s.skip(1), lt);
        let rest = place(x, s.skip(1), lt);
        vstd::seq_lib::lemma_multiset_commutative(seq![s[0]], rest);
        vstd::seq_lib::lemma_multiset_commutative(seq![s[0]], s.skip(1));
        assert(seq![s[0]] + s.skip(1) =~= s);
        assert(place(x, s, lt).to_multiset() =~= s.to_multiset().insert(x));
    } else {
        vstd::seq_lib::lemma_multiset_commutative(seq![x], s);
        assert(seq![x].to_multiset() =~= vstd::multiset::Multiset::singleton(x)) by {
            assert(seq![x] =~= Seq::<A>::empty().push(x));
        }
        assert(place(x, s, lt).to_multiset() =~= s.to_multiset().insert(x));
    }
}

/// Sorting loses nothing, adds nothing and copies nothing.
pub proof fn law_sorting_keeps_elements<A>(s: Seq<A>, lt: spec_fn(A, A) -> bool)
    ensures
        sorted(s, lt).to_multiset() == s.to_multiset(),
    decreases s.len(),
{
    broadcast use vstd::seq_lib::group_to_multiset_ensures;

    if s.len() > 0 {
        law_sorting_keeps_elements(s.skip(1), lt);
        lemma_place_multiset(s[0], sorted(s.skip(1), lt), lt);
        vstd::seq_lib::lemma_multiset_commutative(seq![s[0]], s.skip(1));
        assert(seq![s[0]] + s.skip(1) =~= s);
        assert(seq![s[0]] =~= Seq::<A>::empty().push(s[0]));
        assert(sorted(s, lt).to_multiset() =~= s.to_multiset());
    }
}

proof fn lemma_place_in_order<A>(x: A, s: Seq<A>, lt: spec_fn(A, A) -> bool)
    requires
        orders(lt),
        in_order(s, lt),
    ensures
        in_order(place(x, s, lt), lt),
        forall|i: int|
            0 <= i < place(x, s, lt).len() ==> #[trigger] place(x, s, lt)[i] == x || exists|j: int|
                0 <= j < s.len() && s[j] == place(x, s, lt)[i],
    decreases s.len(),
{
    let out = place(x, s, lt);
    if s.len() > 0 && lt(s[0], x) {
        let tail = s.skip(1);
        assert(in_order(tail, lt)) by {
            assert forall|i: int, j: int| 0 <= i < j < tail.len() implies !lt(
                #[trigger] tail[j],
                #[trigger] tail[i],
            ) by {
                assert(tail[j] == s[j + 1] && tail[i] == s[i + 1]);
            }
        }
        lemma_place_in_order(x, tail, lt);
        let rest = place(x, tail, lt);
        assert forall|i: int| 0 <= i < out.len() implies #[trigger] out[i] == x || exists|j: int|
            0 <= j < s.len() && s[j] == out[i] by {
            if i == 0 {
                assert(out[0] == s[0]);
            } else {
                assert(out[i] == rest[i - 1]);
                if rest[i - 1] != x {
                    let j = choose|j: int| 0 <= j < tail.len() && tail[j] == rest[i - 1];
                    assert(s[j + 1] == out[i]);
                }
            }
        }
        assert forall|i: int, j: int| 0 <= i < j < out.len() implies !lt(
            #[trigger] out[j],
            #[trigger] out[i],
        ) by {
            assert(out[j] == rest[j - 1]);
            if i > 0 {
                assert(out[i] == rest[i - 1]);
            } else if rest[j - 1] != x {
                let k = choose|k: int| 0 <= k < tail.len() && tail[k] == rest[j - 1];
                assert(s[k + 1] == out[j]);
            }
        }
    } else {
        assert(out == seq![x] + s);
        assert forall|i: int| 0 <= i < out.len() implies #[trigger] out[i] == x || exists|j: int|
            0 <= j < s.len() && s[j] == out[i] by {
            if i > 0 {
                assert(s[i - 1] == out[i]);
            }
        }
        assert forall|i: int, j: int| 0 <= i < j < out.len() implies !lt(
            #[trigger] out[j],
            #[trigger] out[i],
        ) by {
            assert(out[j] == s[j - 1]);
            if i > 0 {
                assert(out[i] == s[i - 1]);
            } else if lt(s[j - 1], x) {
                assert(lt(s[j - 1], s[0]) || lt(s[0], x));
                if j > 1 {
                    assert(!lt(s[j - 1], s[0]));
                }
            }
        }
    }
}

/// Sorting by a comparison that orders its elements puts them in order.
pub proof fn law_sorting_puts_in_order<A>(s: Seq<A>, lt: spec_fn(A, A) -> bool)
    requires
        orders(lt),
    ensures
        in_order(sorted(s, lt), lt),
    decreases s.len(),
{
    if s.len() > 0 {
        law_sorting_puts_in_order(s.skip(1), lt);
        lemma_place_in_order(s[0], sorted(s.skip(1), lt), lt);
    }
}

proof fn lemma_kept_front<A>(x: A, s: Seq<A>, f: spec_fn(A) -> bool)
    ensures
        kept(seq![x] + s, f, 0) == (if f(x) {
            seq![x] + kept(s, f, 0)
        } else {
            kept(s, f, 0)
        }),
{
    let all = seq![x] + s;
    crate::rules::group::lemma_kept_shift(all, f, 1);
    assert(all.skip(1) =~= s);
}

proof fn lemma_place_ties<A>(x: A, s: Seq<A>, lt: spec_fn(A, A) -> bool, c: A)
    requires
        orders(lt),
    ensures
        kept(place(x, s, lt), ties(lt, c), 0) == (if ties(lt, c)(x) {
            seq![x] + kept(s, ties(lt, c), 0)
        } else {
            kept(s, ties(lt, c), 0)
        }),
    decreases s.len(),
{
    let f = ties(lt, c);
    if s.len() > 0 && lt(s[0], x) {
        let tail = s.skip(1);
        lemma_place_ties(x, tail, lt, c);
        lemma_kept_front(s[0], place(x, tail, lt), f);
        lemma_kept_front(s[0], tail, f);
        assert(seq![s[0]] + tail =~= s);
        if f(x) {
            assert(lt(s[0], c) || lt(c, x));
            assert(!f(s[0]));
        }
    } else {
        lemma_kept_front(x, s, f);
    }
}

/// Sorting is stable: elements that tie stay in their order.
pub proof fn law_sorting_is_stable<A>(s: Seq<A>, lt: spec_fn(A, A) -> bool, c: A)
    requires
        orders(lt),
    ensures
        kept(sorted(s, lt), ties(lt, c), 0) == kept(s, ties(lt, c), 0),
    decreases s.len(),
{
    if s.len() > 0 {
        let tail = s.skip(1);
        law_sorting_is_stable(tail, lt, c);
        lemma_place_ties(s[0], sorted(tail, lt), lt, c);
        lemma_kept_front(s[0], tail, ties(lt, c));
        assert(seq![s[0]] + tail =~= s);
    }
}

proof fn lemma_before_asymmetric(a: Seq<char>, b: Seq<char>, i: int)
    requires
        0 <= i,
    ensures
        before_from(a, b, i) ==> !before_from(b, a, i),
    decreases a.len() - i,
{
    if i < a.len() && i < b.len() && a[i] == b[i] {
        lemma_before_asymmetric(a, b, i + 1);
    }
}

proof fn lemma_before_between(a: Seq<char>, b: Seq<char>, c: Seq<char>, i: int)
    requires
        0 <= i,
    ensures
        before_from(a, c, i) ==> before_from(a, b, i) || before_from(b, c, i),
    decreases a.len() - i,
{
    if i < a.len() && i < b.len() && i < c.len() && a[i] == b[i] && b[i] == c[i] {
        lemma_before_between(a, b, c, i + 1);
    }
}

proof fn lemma_before_total(a: Seq<char>, b: Seq<char>, i: int)
    requires
        0 <= i <= a.len(),
        i <= b.len(),
        a.take(i) == b.take(i),
        !before_from(a, b, i),
        !before_from(b, a, i),
    ensures
        a == b,
    decreases a.len() - i,
{
    if i < a.len() && i < b.len() {
        assert(a[i] == b[i]);
        assert(a.take(i + 1) =~= b.take(i + 1)) by {
            assert(a.take(i + 1) =~= a.take(i).push(a[i]));
            assert(b.take(i + 1) =~= b.take(i).push(b[i]));
        }
        lemma_before_total(a, b, i + 1);
    } else {
        assert(a =~= a.take(i));
        assert(b =~= b.take(i));
    }
}

pub open spec fn by_text() -> spec_fn(Seq<char>, Seq<char>) -> bool {
    |a: Seq<char>, b: Seq<char>| before(a, b)
}

/// Texts are ordered character by character, and only equal texts tie.
pub proof fn law_texts_are_ordered()
    ensures
        orders(by_text()),
        forall|a: Seq<char>, b: Seq<char>|
            !#[trigger] before(a, b) && !before(b, a) ==> a == b,
{
    let lt = by_text();
    assert forall|a: Seq<char>, b: Seq<char>| #[trigger] lt(a, b) implies !lt(b, a) by {
        lemma_before_asymmetric(a, b, 0);
    }
    assert forall|a: Seq<char>, b: Seq<char>, c: Seq<char>| #[trigger] lt(a, c) implies
        #[trigger] lt(a, b) || lt(b, c) by {
        lemma_before_between(a, b, c, 0);
    }
    assert forall|a: Seq<char>, b: Seq<char>| !#[trigger] before(a, b) && !before(b, a) implies a
        == b by {
        assert(a.take(0) =~= b.take(0));
        lemma_before_total(a, b, 0);
    }
}

/// What comes before a text comes before all that come after it.
pub proof fn lemma_before_chain(a: Seq<char>, b: Seq<char>, c: Seq<char>)
    requires
        before(a, b),
        before(b, c),
    ensures
        before(a, c),
{
    law_texts_are_ordered();
    let t = by_text();
    assert(t(a, b) && t(b, c));
    assert(t(a, c) || t(c, b));
}

/// Whether no two elements have the same key.
pub open spec fn apart<A>(s: Seq<A>, key: spec_fn(A) -> Seq<char>) -> bool {
    forall|i: int, j: int| 0 <= i < j < s.len() ==> key(s[i]) != key(s[j])
}

proof fn lemma_place_apart<A>(
    x: A,
    s: Seq<A>,
    lt: spec_fn(A, A) -> bool,
    key: spec_fn(A) -> Seq<char>,
)
    requires
        apart(s, key),
        forall|i: int| 0 <= i < s.len() ==> key(#[trigger] s[i]) != key(x),
    ensures
        apart(place(x, s, lt), key),
        forall|i: int|
            0 <= i < place(x, s, lt).len() ==> #[trigger] place(x, s, lt)[i] == x || exists|j: int|
                0 <= j < s.len() && s[j] == place(x, s, lt)[i],
    decreases s.len(),
{
    let out = place(x, s, lt);
    if s.len() > 0 && lt(s[0], x) {
        let tail = s.skip(1);
        assert forall|i: int, j: int| 0 <= i < j < tail.len() implies key(tail[i]) != key(
            tail[j],
        ) by {
            assert(tail[i] == s[i + 1] && tail[j] == s[j + 1]);
        }
        assert forall|i: int| 0 <= i < tail.len() implies key(#[trigger] tail[i]) != key(x) by {
            assert(tail[i] == s[i + 1]);
        }
        lemma_place_apart(x, tail, lt, key);
        let rest = place(x, tail, lt);
        assert forall|i: int| 0 <= i < out.len() implies #[trigger] out[i] == x || exists|j: int|
            0 <= j < s.len() && s[j] == out[i] by {
            if i == 0 {
                assert(s[0] == out[0]);
            } else {
                assert(out[i] == rest[i - 1]);
                if rest[i - 1] != x {
                    let j = choose|j: int| 0 <= j < tail.len() && tail[j] == rest[i - 1];
                    assert(s[j + 1] == out[i]);
                }
            }
        }
        assert forall|i: int, j: int| 0 <= i < j < out.len() implies key(out[i]) != key(out[j]) by {
            assert(out[j] == rest[j - 1]);
            if i == 0 {
                if rest[j - 1] != x {
                    let k = choose|k: int| 0 <= k < tail.len() && tail[k] == rest[j - 1];
                    assert(s[k + 1] == out[j]);
                }
            } else {
                assert(out[i] == rest[i - 1]);
            }
        }
    } else {
        assert(out == seq![x] + s);
        assert forall|i: int| 0 <= i < out.len() implies #[trigger] out[i] == x || exists|j: int|
            0 <= j < s.len() && s[j] == out[i] by {
            if i > 0 {
                assert(s[i - 1] == out[i]);
            }
        }
        assert forall|i: int, j: int| 0 <= i < j < out.len() implies key(out[i]) != key(out[j]) by {
            assert(out[j] == s[j - 1]);
            if i > 0 {
                assert(out[i] == s[i - 1]);
            }
        }
    }
}

/// Sorting keeps elements with different keys apart, and brings no others in.
pub proof fn lemma_sorted_apart<A>(
    s: Seq<A>,
    lt: spec_fn(A, A) -> bool,
    key: spec_fn(A) -> Seq<char>,
)
    requires
        apart(s, key),
    ensures
        apart(sorted(s, lt), key),
        forall|i: int|
            0 <= i < sorted(s, lt).len() ==> exists|j: int|
                0 <= j < s.len() && s[j] == #[trigger] sorted(s, lt)[i],
    decreases s.len(),
{
    if s.len() > 0 {
        let tail = s.skip(1);
        assert forall|i: int, j: int| 0 <= i < j < tail.len() implies key(tail[i]) != key(
            tail[j],
        ) by {
            assert(tail[i] == s[i + 1] && tail[j] == s[j + 1]);
        }
        lemma_sorted_apart(tail, lt, key);
        let rest = sorted(tail, lt);
        assert forall|i: int| 0 <= i < rest.len() implies key(#[trigger] rest[i]) != key(s[0]) by {
            let j = choose|j: int| 0 <= j < tail.len() && tail[j] == rest[i];
            assert(s[j + 1] == rest[i]);
        }
        lemma_place_apart(s[0], rest, lt, key);
        let out = sorted(s, lt);
        assert forall|i: int| 0 <= i < out.len() implies exists|j: int|
            0 <= j < s.len() && s[j] == #[trigger] out[i] by {
            if out[i] != s[0] {
                let k = choose|k: int| 0 <= k < rest.len() && rest[k] == out[i];
                let j = choose|j: int| 0 <= j < tail.len() && tail[j] == rest[k];
                assert(s[j + 1] == out[i]);
            }
        }
    }
}

/// What is kept of elements with different keys has different keys.
pub proof fn lemma_kept_apart<A>(
    s: Seq<A>,
    f: spec_fn(A) -> bool,
    key: spec_fn(A) -> Seq<char>,
    i: int,
)
    requires
        0 <= i,
        apart(s, key),
    ensures
        apart(kept(s, f, i), key),
    decreases s.len() - i,
{
    if i < s.len() {
        lemma_kept_apart(s, f, key, i + 1);
        let rest = kept(s, f, i + 1);
        let all = kept(s, f, i);
        if f(s[i]) {
            crate::select::lemma_kept_holds(s, f, i + 1);
            assert(all == seq![s[i]] + rest);
            assert forall|a: int, b: int| 0 <= a < b < all.len() implies key(all[a]) != key(
                all[b],
            ) by {
                assert(all[b] == rest[b - 1]);
                if a == 0 {
                    let j = choose|j: int| i + 1 <= j < s.len() && s[j] == rest[b - 1];
                    assert(key(s[i]) != key(s[j]));
                } else {
                    assert(all[a] == rest[a - 1]);
                }
            }
        }
    }
}

} // verus!
