//! A row of texts under names, in the order of the names.

use crate::order_laws::{law_texts_are_ordered, lemma_before_chain};
use crate::text::{before, comes_before, same, Duplicate};
use vstd::prelude::*;

verus! {

/// Texts under names; the names are in order and each stands once.
#[derive(Clone, Debug)]
pub struct Row {
    pub cells: Vec<(String, String)>,
}

/// The names and texts of a row.
pub type RowView = Seq<(Seq<char>, Seq<char>)>;

pub open spec fn pair_views(v: Seq<(String, String)>) -> Seq<(Seq<char>, Seq<char>)> {
    Seq::new(v.len(), |i: int| (v[i].0@, v[i].1@))
}

impl View for Row {
    type V = RowView;

    open spec fn view(&self) -> RowView {
        pair_views(self.cells@)
    }
}

/// The cells with a text under a name, looked for from the cell with number `i`
/// on.
pub open spec fn put_from(s: RowView, name: Seq<char>, text: Seq<char>, i: int) -> RowView
    decreases s.len() - i,
{
    if i >= s.len() {
        s.push((name, text))
    } else if s[i].0 == name {
        s.update(i, (name, text))
    } else if before(name, s[i].0) {
        s.insert(i, (name, text))
    } else {
        put_from(s, name, text, i + 1)
    }
}

/// The row with a text under a name.
pub open spec fn put(s: RowView, name: Seq<char>, text: Seq<char>) -> RowView {
    put_from(s, name, text, 0)
}

pub open spec fn get_from(s: RowView, name: Seq<char>, i: int) -> Option<Seq<char>>
    decreases s.len() - i,
{
    if i >= s.len() {
        None
    } else if s[i].0 == name {
        Some(s[i].1)
    } else {
        get_from(s, name, i + 1)
    }
}

/// The text under a name.
pub open spec fn get(s: RowView, name: Seq<char>) -> Option<Seq<char>> {
    get_from(s, name, 0)
}

/// Whether the names are in order, each once.
pub open spec fn in_order(s: RowView) -> bool {
    forall|i: int, j: int| 0 <= i < j < s.len() ==> before(#[trigger] s[i].0, #[trigger] s[j].0)
}

pub fn duplicate_pairs(v: &Vec<(String, String)>) -> (r: Vec<(String, String)>)
    ensures
        pair_views(r@) == pair_views(v@),
{
    let mut out: Vec<(String, String)> = Vec::new();
    let mut i: usize = 0;
    while i < v.len()
        invariant
            i <= v.len(),
            out.len() == i,
            forall|j: int| 0 <= j < i ==> (#[trigger] out@[j]).0@ == v@[j].0@ && out@[j].1@ == v@[j].1@,
        decreases v.len() - i,
    {
        out.push((v[i].0.clone(), v[i].1.clone()));
        i += 1;
    }
    proof {
        assert(pair_views(out@) =~= pair_views(v@));
    }
    out
}

impl Duplicate for Row {
    fn duplicate(&self) -> (r: Self) {
        Row { cells: duplicate_pairs(&self.cells) }
    }
}

impl Row {
    pub fn new() -> (r: Self)
        ensures
            r@ == Seq::<(Seq<char>, Seq<char>)>::empty(),
            in_order(r@),
    {
        let r = Row { cells: Vec::new() };
        proof {
            assert(r@ =~= Seq::<(Seq<char>, Seq<char>)>::empty());
        }
        r
    }

    /// Puts a text under a name.
    pub fn insert(&mut self, name: String, text: String)
        ensures
            final(self)@ == put(old(self)@, name@, text@),
            in_order(old(self)@) ==> in_order(final(self)@),
    {
        proof {
            if in_order(self@) {
                law_put_keeps_order(self@, name@, text@);
            }
        }
        let ghost s = self@;
        let ghost cell = (name@, text@);
        let mut i: usize = 0;
        while i < self.cells.len()
            invariant
                i <= self.cells.len(),
                old(self)@ == s,
                self@ == s,
                s == pair_views(self.cells@),
                cell == (name@, text@),
                put(s, name@, text@) == put_from(s, name@, text@, i as int),
                in_order(s) ==> in_order(put(s, name@, text@)),
            decreases self.cells.len() - i,
        {
            proof {
                assert(s[i as int] == (self.cells@[i as int].0@, self.cells@[i as int].1@));
            }
            if same(self.cells[i].0.as_str(), name.as_str()) {
                self.cells.set(i, (name, text));
                proof {
                    assert(self@ =~= s.update(i as int, cell));
                }
                return;
            }
            if comes_before(name.as_str(), self.cells[i].0.as_str()) {
                self.cells.insert(i, (name, text));
                proof {
                    assert(self@ =~= s.insert(i as int, cell));
                }
                return;
            }
            i += 1;
        }
        self.cells.push((name, text));
        proof {
            assert(self@ =~= s.push(cell));
        }
    }

    /// The text under a name.
    pub fn get(&self, name: &str) -> (r: Option<&String>)
        ensures
            (match r {
                Some(t) => get(self@, name@) == Some(t@),
                None => get(self@, name@) is None,
            }),
    {
        let ghost s = self@;
        let mut i: usize = 0;
        while i < self.cells.len()
            invariant
                i <= self.cells.len(),
                s == pair_views(self.cells@),
                get(s, name@) == get_from(s, name@, i as int),
            decreases self.cells.len() - i,
        {
            if same(self.cells[i].0.as_str(), name) {
                return Some(&self.cells[i].1);
            }
            i += 1;
        }
        None
    }

    /// Whether any cell holds a text.
    pub fn holds_text(&self) -> (r: bool)
        ensures
            r == has_text(self@),
    {
        let ghost s = self@;
        let mut i: usize = 0;
        while i < self.cells.len()
            invariant
                i <= self.cells.len(),
                s == pair_views(self.cells@),
                forall|j: int| 0 <= j < i ==> (#[trigger] s[j]).1.len() == 0,
            decreases self.cells.len() - i,
        {
            if !self.cells[i].1.as_str().is_empty() {
                proof {
                    assert(s[i as int].1.len() > 0);
                }
                return true;
            }
            i += 1;
        }
        false
    }
}

pub open spec fn has_text(s: RowView) -> bool {
    exists|i: int| 0 <= i < s.len() && (#[trigger] s[i]).1.len() > 0
}

/// What stands under a name is what was put there last.
pub proof fn law_put_then_get(s: RowView, name: Seq<char>, text: Seq<char>, i: int)
    requires
        0 <= i,
        forall|k: int| 0 <= k < i && k < s.len() ==> (#[trigger] s[k]).0 != name,
    ensures
        get(put_from(s, name, text, i), name) == Some(text),
    decreases s.len() - i,
{
    let r = put_from(s, name, text, i);
    if i >= s.len() {
        lemma_get_skips(r, name, 0, s.len() as int);
    } else if s[i].0 == name || before(name, s[i].0) {
        lemma_get_skips(r, name, 0, i);
    } else {
        law_put_then_get(s, name, text, i + 1);
    }
}

proof fn lemma_get_skips(s: RowView, name: Seq<char>, i: int, j: int)
    requires
        0 <= i <= j < s.len(),
        s[j].0 == name,
        forall|k: int| i <= k < j ==> (#[trigger] s[k]).0 != name,
    ensures
        get_from(s, name, i) == Some(s[j].1),
    decreases j - i,
{
    if i < j {
        lemma_get_skips(s, name, i + 1, j);
    }
}

/// A text under one name leaves those under others as they were.
pub proof fn law_put_keeps_others(
    s: RowView,
    name: Seq<char>,
    text: Seq<char>,
    other: Seq<char>,
    i: int,
)
    requires
        0 <= i,
        other != name,
    ensures
        get_from(put_from(s, name, text, i), other, i) == get_from(s, other, i),
        forall|k: int|
            0 <= k < i && k < s.len() ==> put_from(s, name, text, i)[k] == #[trigger] s[k],
        put_from(s, name, text, i).len() >= s.len(),
    decreases s.len() - i,
{
    if i >= s.len() {
        if i == s.len() {
            assert(get_from(s.push((name, text)), other, i + 1) is None);
        }
    } else if s[i].0 == name {
        lemma_get_agrees(s.update(i, (name, text)), s, other, i + 1, 0);
    } else if before(name, s[i].0) {
        let r = s.insert(i, (name, text));
        lemma_get_agrees(r, s, other, i + 1, 1);
    } else {
        law_put_keeps_others(s, name, text, other, i + 1);
    }
}

/// Two rows that agree from a cell on, one shifted, give the same text.
proof fn lemma_get_agrees(a: RowView, b: RowView, name: Seq<char>, i: int, shift: int)
    requires
        0 <= shift <= i,
        a.len() == b.len() + shift,
        forall|k: int| i <= k < a.len() ==> (#[trigger] a[k]) == b[k - shift],
    ensures
        get_from(a, name, i) == get_from(b, name, i - shift),
    decreases a.len() - i,
{
    if i < a.len() {
        lemma_get_agrees(a, b, name, i + 1, shift);
    }
}

proof fn lemma_put_from_keeps_order(s: RowView, name: Seq<char>, text: Seq<char>, i: int)
    requires
        in_order(s),
        0 <= i <= s.len(),
        forall|k: int| 0 <= k < i ==> before((#[trigger] s[k]).0, name),
    ensures
        in_order(put_from(s, name, text, i)),
    decreases s.len() - i,
{
    let r = put_from(s, name, text, i);
    if i >= s.len() {
        assert forall|a: int, b: int| 0 <= a < b < r.len() implies before(
            #[trigger] r[a].0,
            #[trigger] r[b].0,
        ) by {
            assert(r[a] == s[a]);
        }
    } else if s[i].0 == name {
        assert forall|a: int, b: int| 0 <= a < b < r.len() implies before(
            #[trigger] r[a].0,
            #[trigger] r[b].0,
        ) by {
            assert(r[a].0 == s[a].0 && r[b].0 == s[b].0);
        }
    } else if before(name, s[i].0) {
        assert forall|a: int, b: int| 0 <= a < b < r.len() implies before(
            #[trigger] r[a].0,
            #[trigger] r[b].0,
        ) by {
            if a == i {
                assert(r[b] == s[b - 1]);
                if b - 1 > i {
                    lemma_before_chain(name, s[i].0, s[b - 1].0);
                }
            } else if b == i {
                assert(r[a] == s[a]);
            } else if a < i {
                assert(r[a] == s[a]);
                assert(r[b] == if b < i {
                    s[b]
                } else {
                    s[b - 1]
                });
            } else {
                assert(r[a] == s[a - 1] && r[b] == s[b - 1]);
            }
        }
    } else {
        law_texts_are_ordered();
        assert(before(s[i].0, name));
        lemma_put_from_keeps_order(s, name, text, i + 1);
    }
}

/// Putting a text under a name keeps the names in order, each once.
pub proof fn law_put_keeps_order(s: RowView, name: Seq<char>, text: Seq<char>)
    requires
        in_order(s),
    ensures
        in_order(put(s, name, text)),
{
    lemma_put_from_keeps_order(s, name, text, 0);
}

} // verus!
