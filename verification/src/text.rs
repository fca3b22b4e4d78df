//! Text as sequences of characters: searching, splitting, trimming, comparing
//! and number texts, each with the sequence that it denotes.

use vstd::prelude::*;
use vstd::string::*;
use vstd::utf8::*;

verus! {

/// `String::push` of std appends one character to the end of the string.
pub assume_specification[ String::push ](s: &mut String, c: char)
    ensures
        final(s)@ == old(s)@.push(c),
;

/// The views of the elements of a sequence.
pub open spec fn views<T: View>(s: Seq<T>) -> Seq<T::V> {
    Seq::new(s.len(), |i: int| s[i]@)
}

/// The text of an optional string.
pub open spec fn opt_view<T: View>(o: Option<T>) -> Option<T::V> {
    match o {
        Some(v) => Some(v@),
        None => None,
    }
}

pub broadcast proof fn lemma_views_push<T: View>(s: Seq<T>, v: T)
    ensures
        #[trigger] views(s.push(v)) == views(s).push(v@),
{
    assert(views(s.push(v)) =~= views(s).push(v@));
}

pub broadcast proof fn lemma_views_add<T: View>(s: Seq<T>, t: Seq<T>)
    ensures
        #[trigger] views(s + t) == views(s) + views(t),
{
    assert(views(s + t) =~= views(s) + views(t));
}

pub broadcast proof fn lemma_views_subrange<T: View>(s: Seq<T>, i: int, j: int)
    requires
        0 <= i <= j <= s.len(),
    ensures
        #[trigger] views(s.subrange(i, j)) == views(s).subrange(i, j),
{
    assert(views(s.subrange(i, j)) =~= views(s).subrange(i, j));
}

pub broadcast proof fn lemma_views_update<T: View>(s: Seq<T>, i: int, v: T)
    requires
        0 <= i < s.len(),
    ensures
        #[trigger] views(s.update(i, v)) == views(s).update(i, v@),
{
    assert(views(s.update(i, v)) =~= views(s).update(i, v@));
}

pub broadcast proof fn lemma_views_remove<T: View>(s: Seq<T>, i: int)
    requires
        0 <= i < s.len(),
    ensures
        #[trigger] views(s.remove(i)) == views(s).remove(i),
{
    assert(views(s.remove(i)) =~= views(s).remove(i));
}

pub broadcast proof fn lemma_views_insert<T: View>(s: Seq<T>, i: int, v: T)
    requires
        0 <= i <= s.len(),
    ensures
        #[trigger] views(s.insert(i, v)) == views(s).insert(i, v@),
{
    assert(views(s.insert(i, v)) =~= views(s).insert(i, v@));
}

pub broadcast proof fn lemma_views_empty<T: View>()
    ensures
        #[trigger] views(Seq::<T>::empty()) == Seq::<T::V>::empty(),
{
    assert(views(Seq::<T>::empty()) =~= Seq::<T::V>::empty());
}

pub broadcast group group_views {
    lemma_views_push,
    lemma_views_add,
    lemma_views_subrange,
    lemma_views_update,
    lemma_views_remove,
    lemma_views_insert,
    lemma_views_empty,
}

/// A copy with the same view.
pub trait Duplicate: View + Sized {
    fn duplicate(&self) -> (r: Self)
        ensures
            r@ == self@,
    ;
}

impl Duplicate for String {
    fn duplicate(&self) -> (r: Self) {
        self.clone()
    }
}

/// Copies a list element by element.
pub fn duplicate_all<T: Duplicate>(v: &Vec<T>) -> (r: Vec<T>)
    ensures
        views(r@) == views(v@),
{
    let mut out: Vec<T> = Vec::new();
    let mut i: usize = 0;
    while i < v.len()
        invariant
            i <= v.len(),
            out@.len() == i,
            forall|j: int| 0 <= j < i ==> (#[trigger] out@[j])@ == v@[j]@,
        decreases v.len() - i,
    {
        out.push(v[i].duplicate());
        i += 1;
    }
    proof {
        assert(views(out@) =~= views(v@));
    }
    out
}

/// Copies the elements from one position up to another.
pub fn duplicate_range<T: Duplicate>(v: &Vec<T>, from: usize, to: usize) -> (r: Vec<T>)
    requires
        from <= to <= v.len(),
    ensures
        views(r@) == views(v@).subrange(from as int, to as int),
{
    let mut out: Vec<T> = Vec::new();
    let mut i: usize = from;
    while i < to
        invariant
            from <= i <= to <= v.len(),
            out@.len() == i - from,
            forall|j: int| 0 <= j < i - from ==> (#[trigger] out@[j])@ == v@[from + j]@,
        decreases to - i,
    {
        out.push(v[i].duplicate());
        i += 1;
    }
    proof {
        assert(views(out@) =~= views(v@).subrange(from as int, to as int));
    }
    out
}

/// Copies an optional value.
pub fn duplicate_option<T: Duplicate>(v: &Option<T>) -> (r: Option<T>)
    ensures
        opt_view(r) == opt_view(*v),
{
    match v {
        Some(x) => Some(x.duplicate()),
        None => None,
    }
}

pub(crate) fn copy_ranges(v: &Vec<(usize, usize)>) -> (r: Vec<(usize, usize)>)
    ensures
        r@ == v@,
{
    let mut out: Vec<(usize, usize)> = Vec::new();
    let mut i: usize = 0;
    while i < v.len()
        invariant
            i <= v.len(),
            out@ == v@.take(i as int),
        decreases v.len() - i,
    {
        out.push(v[i]);
        i += 1;
        proof {
            assert(out@ =~= v@.take(i as int));
        }
    }
    proof {
        assert(v@.take(i as int) =~= v@);
    }
    out
}

/// The elements from position `i` on that satisfy the condition.
pub open spec fn kept<A>(s: Seq<A>, f: spec_fn(A) -> bool, i: int) -> Seq<A>
    decreases s.len() - i,
{
    if i >= s.len() {
        Seq::empty()
    } else if f(s[i]) {
        seq![s[i]] + kept(s, f, i + 1)
    } else {
        kept(s, f, i + 1)
    }
}

/// The positions from `i` on whose elements satisfy the condition.
pub open spec fn places<A>(s: Seq<A>, f: spec_fn(A) -> bool, i: int) -> Seq<int>
    decreases s.len() - i,
{
    if i >= s.len() {
        Seq::empty()
    } else if f(s[i]) {
        seq![i] + places(s, f, i + 1)
    } else {
        places(s, f, i + 1)
    }
}

/// The first position from `i` on whose element satisfies the condition.
pub open spec fn first_place<A>(s: Seq<A>, f: spec_fn(A) -> bool, i: int) -> Option<int>
    decreases s.len() - i,
{
    if i >= s.len() {
        None
    } else if f(s[i]) {
        Some(i)
    } else {
        first_place(s, f, i + 1)
    }
}

/// Whether any element satisfies the condition.
pub open spec fn any<A>(s: Seq<A>, f: spec_fn(A) -> bool) -> bool {
    exists|i: int| 0 <= i < s.len() && f(#[trigger] s[i])
}

/// The first element from position `i` on for which there is a result.
pub open spec fn first_result<A, B>(s: Seq<A>, f: spec_fn(A) -> Option<B>, i: int) -> Option<B>
    decreases s.len() - i,
{
    if i >= s.len() {
        None
    } else if f(s[i]) is Some {
        f(s[i])
    } else {
        first_result(s, f, i + 1)
    }
}

/// How many bytes the character takes in UTF-8.
pub open spec fn width(c: char) -> int {
    if 0x80 > c as u32 {
        1
    } else if 0x800 > c as u32 {
        2
    } else if 0x10000 > c as u32 {
        3
    } else {
        4
    }
}

/// The position at which the characters from `i` on have taken `n` bytes.
pub open spec fn byte_place(s: Seq<char>, i: int, n: int) -> Option<int>
    decreases s.len() - i,
{
    if n == 0 {
        Some(i)
    } else if n < 0 || i >= s.len() {
        None
    } else {
        byte_place(s, i + 1, n - width(s[i]))
    }
}

/// The first `n` bytes of the text, where it has so many and they end with a
/// character.
pub open spec fn byte_head(s: Seq<char>, n: int) -> Option<Seq<char>> {
    match byte_place(s, 0, n) {
        Some(i) => Some(s.subrange(0, i)),
        None => None,
    }
}

pub fn byte_head_of(s: &str, n: usize) -> (r: Option<String>)
    ensures
        opt_view(r) == byte_head(s@, n as int),
{
    let c = chars_of(s);
    let mut i: usize = 0;
    let mut left: usize = n;
    while left > 0
        invariant
            c@ == s@,
            i <= c.len(),
            byte_place(s@, 0, n as int) == byte_place(s@, i as int, left as int),
        decreases left,
    {
        if i >= c.len() {
            return None;
        }
        let x = c[i];
        let w: usize = if 0x80 > x as u32 {
            1
        } else if 0x800 > x as u32 {
            2
        } else if 0x10000 > x as u32 {
            3
        } else {
            4
        };
        if w > left {
            proof {
                assert(byte_place(s@, i + 1, left - w) is None);
            }
            return None;
        }
        left -= w;
        i += 1;
    }
    Some(text_of(&c, 0, i))
}

/// Whether two texts are equal.
pub fn same(a: &str, b: &str) -> (r: bool)
    ensures
        r == (a@ == b@),
{
    let x = a.as_bytes();
    let y = b.as_bytes();
    proof {
        encode_utf8_decode_utf8(a@);
        encode_utf8_decode_utf8(b@);
    }
    if x.len() != y.len() {
        return false;
    }
    let mut i: usize = 0;
    while i < x.len()
        invariant
            i <= x.len(),
            x.len() == y.len(),
            x@ == encode_utf8(a@),
            y@ == encode_utf8(b@),
            forall|j: int| 0 <= j < i ==> x@[j] == y@[j],
        decreases x.len() - i,
    {
        if x[i] != y[i] {
            return false;
        }
        i += 1;
    }
    proof {
        assert(x@ =~= y@);
    }
    true
}

/// The characters of a text.
pub fn chars_of(s: &str) -> (r: Vec<char>)
    ensures
        r@ == s@,
{
    let mut out: Vec<char> = Vec::new();
    for c in it: s.chars()
        invariant
            it.seq() == s@,
            out@ == s@.subrange(0, it.index() as int),
    {
        proof {
            assert(s@.subrange(0, it.index() + 1) =~= s@.subrange(0, it.index() as int).push(c));
        }
        out.push(c);
    }
    proof {
        assert(s@.subrange(0, s@.len() as int) =~= s@);
    }
    out
}

/// The text that a stretch of characters spells.
pub fn text_of(chars: &Vec<char>, from: usize, to: usize) -> (r: String)
    requires
        from <= to <= chars.len(),
    ensures
        r@ == chars@.subrange(from as int, to as int),
{
    let mut out = String::new();
    let mut i: usize = from;
    while i < to
        invariant
            from <= i <= to <= chars.len(),
            out@ == chars@.subrange(from as int, i as int),
        decreases to - i,
    {
        proof {
            assert(chars@.subrange(from as int, i + 1) =~= chars@.subrange(
                from as int,
                i as int,
            ).push(chars@[i as int]));
        }
        out.push(chars[i]);
        i += 1;
    }
    out
}

/// The classes of characters that texts are cut at.
#[derive(Clone, Copy, Debug, PartialEq, Eq, Structural)]
pub enum Class {
    /// Unicode white space.
    White,
    /// Line feed and carriage return.
    LineEnd,
    /// One character.
    One(char),
}

/// The characters with the Unicode property White_Space.
pub open spec fn white(c: char) -> bool {
    ||| '\u{9}' <= c <= '\u{d}'
    ||| c == '\u{20}'
    ||| c == '\u{85}'
    ||| c == '\u{a0}'
    ||| c == '\u{1680}'
    ||| '\u{2000}' <= c <= '\u{200a}'
    ||| c == '\u{2028}'
    ||| c == '\u{2029}'
    ||| c == '\u{202f}'
    ||| c == '\u{205f}'
    ||| c == '\u{3000}'
}

impl Class {
    pub open spec fn holds(self, c: char) -> bool {
        match self {
            Class::White => white(c),
            Class::LineEnd => c == '\n' || c == '\r',
            Class::One(d) => c == d,
        }
    }

    pub fn test(self, c: char) -> (r: bool)
        ensures
            r == self.holds(c),
    {
        match self {
            Class::White => ('\u{9}' <= c && c <= '\u{d}') || c == '\u{20}' || c == '\u{85}' || c
                == '\u{a0}' || c == '\u{1680}' || ('\u{2000}' <= c && c <= '\u{200a}') || c
                == '\u{2028}' || c == '\u{2029}' || c == '\u{202f}' || c == '\u{205f}' || c
                == '\u{3000}',
            Class::LineEnd => c == '\n' || c == '\r',
            Class::One(d) => c == d,
        }
    }
}

/// The first position from `i` on whose character is in the class (`want`) or
/// outside of it (`!want`); the length where there is none.
pub open spec fn seek(s: Seq<char>, k: Class, want: bool, i: int) -> int
    decreases s.len() - i,
{
    if i >= s.len() {
        s.len() as int
    } else if k.holds(s[i]) == want {
        i
    } else {
        seek(s, k, want, i + 1)
    }
}

/// The last position up to `i` behind a character that is in the class
/// (`want`) or outside of it (`!want`); zero where there is none.
pub open spec fn seek_back(s: Seq<char>, k: Class, want: bool, i: int) -> int
    decreases i,
{
    if i <= 0 {
        0
    } else if k.holds(s[i - 1]) == want {
        i
    } else {
        seek_back(s, k, want, i - 1)
    }
}

pub broadcast proof fn lemma_seek_bounds(s: Seq<char>, k: Class, want: bool, i: int)
    requires
        0 <= i <= s.len(),
    ensures
        i <= #[trigger] seek(s, k, want, i) <= s.len(),
        seek(s, k, want, i) < s.len() ==> k.holds(s[seek(s, k, want, i)]) == want,
        forall|j: int| i <= j < seek(s, k, want, i) ==> k.holds(#[trigger] s[j]) != want,
    decreases s.len() - i,
{
    if i < s.len() && k.holds(s[i]) != want {
        lemma_seek_bounds(s, k, want, i + 1);
    }
}

pub broadcast proof fn lemma_seek_back_bounds(s: Seq<char>, k: Class, want: bool, i: int)
    requires
        0 <= i <= s.len(),
    ensures
        0 <= #[trigger] seek_back(s, k, want, i) <= i,
        seek_back(s, k, want, i) > 0 ==> k.holds(s[seek_back(s, k, want, i) - 1]) == want,
        forall|j: int| seek_back(s, k, want, i) <= j < i ==> k.holds(#[trigger] s[j]) != want,
    decreases i,
{
    if i > 0 && k.holds(s[i - 1]) != want {
        lemma_seek_back_bounds(s, k, want, i - 1);
    }
}

pub fn seek_in(s: &Vec<char>, k: Class, want: bool, from: usize) -> (r: usize)
    requires
        from <= s.len(),
    ensures
        r == seek(s@, k, want, from as int),
        from <= r <= s.len(),
{
    let mut i: usize = from;
    while i < s.len()
        invariant
            from <= i <= s.len(),
            seek(s@, k, want, from as int) == seek(s@, k, want, i as int),
        decreases s.len() - i,
    {
        if k.test(s[i]) == want {
            return i;
        }
        i += 1;
    }
    i
}

pub fn seek_back_in(s: &Vec<char>, k: Class, want: bool, to: usize) -> (r: usize)
    requires
        to <= s.len(),
    ensures
        r == seek_back(s@, k, want, to as int),
        r <= to,
{
    let mut i: usize = to;
    while i > 0
        invariant
            i <= to <= s.len(),
            seek_back(s@, k, want, to as int) == seek_back(s@, k, want, i as int),
        decreases i,
    {
        if k.test(s[i - 1]) == want {
            return i;
        }
        i -= 1;
    }
    0
}

/// The text without the characters of the class at its start.
pub open spec fn trim_start(s: Seq<char>, k: Class) -> Seq<char> {
    s.subrange(seek(s, k, false, 0), s.len() as int)
}

/// The text without the characters of the class at its end.
pub open spec fn trim_end(s: Seq<char>, k: Class) -> Seq<char> {
    s.subrange(0, seek_back(s, k, false, s.len() as int))
}

/// The text without the characters of the class at either end.
pub open spec fn trim(s: Seq<char>, k: Class) -> Seq<char> {
    if seek(s, k, false, 0) < seek_back(s, k, false, s.len() as int) {
        s.subrange(seek(s, k, false, 0), seek_back(s, k, false, s.len() as int))
    } else {
        Seq::empty()
    }
}

pub fn trimmed(s: &str, k: Class) -> (r: String)
    ensures
        r@ == trim(s@, k),
{
    let c = chars_of(s);
    let a = seek_in(&c, k, false, 0);
    let b = seek_back_in(&c, k, false, c.len());
    if a < b {
        text_of(&c, a, b)
    } else {
        String::new()
    }
}

pub fn trimmed_start(s: &str, k: Class) -> (r: String)
    ensures
        r@ == trim_start(s@, k),
{
    let c = chars_of(s);
    let a = seek_in(&c, k, false, 0);
    text_of(&c, a, c.len())
}

pub fn trimmed_end(s: &str, k: Class) -> (r: String)
    ensures
        r@ == trim_end(s@, k),
{
    let c = chars_of(s);
    let b = seek_back_in(&c, k, false, c.len());
    text_of(&c, 0, b)
}

/// Whether nothing but white space stands in the text.
pub open spec fn blank(s: Seq<char>) -> bool {
    trim(s, Class::White).len() == 0
}

pub fn is_blank(s: &str) -> (r: bool)
    ensures
        r == blank(s@),
{
    let c = chars_of(s);
    let a = seek_in(&c, Class::White, false, 0);
    let b = seek_back_in(&c, Class::White, false, c.len());
    a >= b
}

/// Whether `p` stands in `s` at position `i`.
pub open spec fn occurs_at(s: Seq<char>, p: Seq<char>, i: int) -> bool {
    0 <= i && i + p.len() <= s.len() && s.subrange(i, i + p.len()) == p
}

/// Whether `p` stands anywhere in `s`.
pub open spec fn has(s: Seq<char>, p: Seq<char>) -> bool {
    exists|i: int| occurs_at(s, p, i)
}

pub open spec fn begins(s: Seq<char>, p: Seq<char>) -> bool {
    occurs_at(s, p, 0)
}

pub open spec fn finishes(s: Seq<char>, p: Seq<char>) -> bool {
    occurs_at(s, p, s.len() - p.len())
}

pub open spec fn has_char(s: Seq<char>, c: char) -> bool {
    exists|i: int| 0 <= i < s.len() && s[i] == c
}

/// The first position from `i` on at which `p` stands.
pub open spec fn find(s: Seq<char>, p: Seq<char>, i: int) -> Option<int>
    decreases s.len() + 1 - i,
{
    if i + p.len() > s.len() {
        None
    } else if occurs_at(s, p, i) {
        Some(i)
    } else {
        find(s, p, i + 1)
    }
}

/// The last position up to `i` at which `p` stands.
pub open spec fn find_back(s: Seq<char>, p: Seq<char>, i: int) -> Option<int>
    decreases i + 1,
{
    if i < 0 {
        None
    } else if occurs_at(s, p, i) {
        Some(i)
    } else {
        find_back(s, p, i - 1)
    }
}

pub broadcast proof fn lemma_find(s: Seq<char>, p: Seq<char>, i: int)
    requires
        0 <= i,
    ensures
        (#[trigger] find(s, p, i)) matches Some(j) ==> i <= j && occurs_at(s, p, j),
        find(s, p, i) is None ==> forall|j: int| i <= j ==> !occurs_at(s, p, j),
    decreases s.len() + 1 - i,
{
    if i + p.len() <= s.len() && !occurs_at(s, p, i) {
        lemma_find(s, p, i + 1);
    }
}

pub fn occurs_in(s: &Vec<char>, p: &Vec<char>, at: usize) -> (r: bool)
    requires
        at + p.len() <= s.len(),
    ensures
        r == occurs_at(s@, p@, at as int),
{
    let mut i: usize = 0;
    while i < p.len()
        invariant
            i <= p.len(),
            at + p.len() <= s.len(),
            forall|j: int| 0 <= j < i ==> s@[at + j] == p@[j],
        decreases p.len() - i,
    {
        if s[at + i] != p[i] {
            proof {
                assert(s@.subrange(at as int, at + p.len())[i as int] != p@[i as int]);
            }
            return false;
        }
        i += 1;
    }
    proof {
        assert(s@.subrange(at as int, at + p.len()) =~= p@);
    }
    true
}

pub fn find_in(s: &Vec<char>, p: &Vec<char>, from: usize) -> (r: Option<usize>)
    requires
        from <= s.len(),
    ensures
        (match r {
            Some(j) => find(s@, p@, from as int) == Some(j as int) && j + p.len() <= s.len()
                && occurs_at(s@, p@, j as int) && from <= j,
            None => find(s@, p@, from as int) is None,
        }),
{
    let mut i: usize = from;
    while i <= s.len() && p.len() <= s.len() - i
        invariant
            from <= i <= s.len() + 1,
            find(s@, p@, from as int) == find(s@, p@, i as int),
        decreases s.len() + 1 - i,
    {
        if occurs_in(s, p, i) {
            return Some(i);
        }
        if i == s.len() {
            proof {
                assert(find(s@, p@, i + 1) is None);
            }
            return None;
        }
        i += 1;
    }
    None
}

pub fn find_back_in(s: &Vec<char>, p: &Vec<char>) -> (r: Option<usize>)
    ensures
        (match r {
            Some(j) => find_back(s@, p@, s.len() - p.len()) == Some(j as int) && j + p.len()
                <= s.len() && occurs_at(s@, p@, j as int),
            None => find_back(s@, p@, s.len() - p.len()) is None,
        }),
{
    if p.len() > s.len() {
        return None;
    }
    let mut i: usize = s.len() - p.len();
    loop
        invariant
            i + p.len() <= s.len(),
            find_back(s@, p@, s.len() - p.len()) == find_back(s@, p@, i as int),
        decreases i,
    {
        if occurs_in(s, p, i) {
            return Some(i);
        }
        if i == 0 {
            proof {
                assert(find_back(s@, p@, -1) is None);
            }
            return None;
        }
        i -= 1;
    }
}

/// Whether the characters hold the text.
pub fn chars_hold(s: &Vec<char>, p: &str) -> (r: bool)
    ensures
        r == has(s@, p@),
{
    let c = chars_of(p);
    proof {
        lemma_find(s@, p@, 0);
    }
    match find_in(s, &c, 0) {
        Some(j) => true,
        None => {
            proof {
                assert forall|i: int| !occurs_at(s@, p@, i) by {
                    if i < 0 {
                    }
                }
            }
            false
        },
    }
}

pub fn contains(s: &str, p: &str) -> (r: bool)
    ensures
        r == has(s@, p@),
{
    let c = chars_of(s);
    chars_hold(&c, p)
}

pub fn contains_char(s: &str, c: char) -> (r: bool)
    ensures
        r == has_char(s@, c),
{
    let v = chars_of(s);
    let i = seek_in(&v, Class::One(c), true, 0);
    proof {
        lemma_seek_bounds(s@, Class::One(c), true, 0);
    }
    i < v.len()
}

pub fn chars_begin(s: &Vec<char>, p: &str) -> (r: bool)
    ensures
        r == begins(s@, p@),
{
    let d = chars_of(p);
    d.len() <= s.len() && occurs_in(s, &d, 0)
}

pub fn starts_with(s: &str, p: &str) -> (r: bool)
    ensures
        r == begins(s@, p@),
{
    let c = chars_of(s);
    chars_begin(&c, p)
}

pub fn ends_with(s: &str, p: &str) -> (r: bool)
    ensures
        r == finishes(s@, p@),
{
    let c = chars_of(s);
    let d = chars_of(p);
    d.len() <= c.len() && occurs_in(&c, &d, c.len() - d.len())
}

/// What follows the prefix, where the text has it.
pub open spec fn after_prefix(s: Seq<char>, p: Seq<char>) -> Option<Seq<char>> {
    if begins(s, p) {
        Some(s.subrange(p.len() as int, s.len() as int))
    } else {
        None
    }
}

pub fn strip_prefix(s: &str, p: &str) -> (r: Option<String>)
    ensures
        opt_view(r) == after_prefix(s@, p@),
{
    let c = chars_of(s);
    let d = chars_of(p);
    if d.len() <= c.len() && occurs_in(&c, &d, 0) {
        Some(text_of(&c, d.len(), c.len()))
    } else {
        None
    }
}

/// The text before and behind the first character of the class.
pub open spec fn cut(s: Seq<char>, k: Class) -> Option<(Seq<char>, Seq<char>)> {
    let j = seek(s, k, true, 0);
    if j < s.len() {
        Some((s.subrange(0, j), s.subrange(j + 1, s.len() as int)))
    } else {
        None
    }
}

/// The text before and behind the last character of the class.
pub open spec fn cut_back(s: Seq<char>, k: Class) -> Option<(Seq<char>, Seq<char>)> {
    let j = seek_back(s, k, true, s.len() as int);
    if j > 0 {
        Some((s.subrange(0, j - 1), s.subrange(j, s.len() as int)))
    } else {
        None
    }
}

pub open spec fn pair_view(o: Option<(String, String)>) -> Option<(Seq<char>, Seq<char>)> {
    match o {
        Some((a, b)) => Some((a@, b@)),
        None => None,
    }
}

pub fn split_once(s: &str, k: Class) -> (r: Option<(String, String)>)
    ensures
        pair_view(r) == cut(s@, k),
{
    let c = chars_of(s);
    let j = seek_in(&c, k, true, 0);
    if j < c.len() {
        Some((text_of(&c, 0, j), text_of(&c, j + 1, c.len())))
    } else {
        None
    }
}

pub fn rsplit_once(s: &str, k: Class) -> (r: Option<(String, String)>)
    ensures
        pair_view(r) == cut_back(s@, k),
{
    let c = chars_of(s);
    let j = seek_back_in(&c, k, true, c.len());
    if j > 0 {
        Some((text_of(&c, 0, j - 1), text_of(&c, j, c.len())))
    } else {
        None
    }
}

/// What stands behind the first occurrence of `p`.
pub open spec fn behind(s: Seq<char>, p: Seq<char>) -> Option<Seq<char>> {
    match find(s, p, 0) {
        Some(j) => Some(s.subrange(j + p.len(), s.len() as int)),
        None => None,
    }
}

pub fn behind_text(s: &str, p: &str) -> (r: Option<String>)
    ensures
        opt_view(r) == behind(s@, p@),
{
    let c = chars_of(s);
    let d = chars_of(p);
    match find_in(&c, &d, 0) {
        Some(j) => Some(text_of(&c, j + d.len(), c.len())),
        None => None,
    }
}

/// What stands before the first character of the class, or the whole text.
pub open spec fn head(s: Seq<char>, k: Class) -> Seq<char> {
    s.subrange(0, seek(s, k, true, 0))
}

pub fn head_of(s: &str, k: Class) -> (r: String)
    ensures
        r@ == head(s@, k),
{
    let c = chars_of(s);
    let j = seek_in(&c, k, true, 0);
    text_of(&c, 0, j)
}

/// What stands behind the last character of the class, or the whole text.
pub open spec fn tail(s: Seq<char>, k: Class) -> Seq<char> {
    s.subrange(seek_back(s, k, true, s.len() as int), s.len() as int)
}

pub fn tail_of(s: &str, k: Class) -> (r: String)
    ensures
        r@ == tail(s@, k),
{
    let c = chars_of(s);
    let j = seek_back_in(&c, k, true, c.len());
    text_of(&c, j, c.len())
}

/// The parts of the text from position `i` on between the characters of the
/// class.
pub open spec fn split_from(s: Seq<char>, k: Class, i: int) -> Seq<Seq<char>>
    decreases s.len() - i,
{
    let j = seek(s, k, true, i);
    if i < 0 || j >= s.len() || j < i {
        seq![s.subrange(i, s.len() as int)]
    } else {
        seq![s.subrange(i, j)] + split_from(s, k, j + 1)
    }
}

pub open spec fn split(s: Seq<char>, k: Class) -> Seq<Seq<char>> {
    split_from(s, k, 0)
}

pub fn split_text(s: &str, k: Class) -> (r: Vec<String>)
    ensures
        views(r@) == split(s@, k),
{
    broadcast use group_views;

    let c = chars_of(s);
    let mut out: Vec<String> = Vec::new();
    let mut i: usize = 0;
    proof {
        assert(views(out@) + split_from(s@, k, 0) =~= split(s@, k));
    }
    loop
        invariant
            c@ == s@,
            i <= c.len(),
            views(out@) + split_from(s@, k, i as int) == split(s@, k),
        decreases c.len() - i,
    {
        let j = seek_in(&c, k, true, i);
        let piece = text_of(&c, i, j);
        let ghost before = views(out@);
        let ghost piece_view = piece@;
        out.push(piece);
        proof {
            assert(views(out@) =~= before.push(piece_view));
        }
        if j >= c.len() {
            proof {
                assert(before + split_from(s@, k, i as int) =~= views(out@));
            }
            return out;
        }
        proof {
            assert(before + split_from(s@, k, i as int) =~= views(out@) + split_from(
                s@,
                k,
                j + 1,
            ));
        }
        i = j + 1;
    }
}

/// The lines of the text from position `i` on: each ends with a line feed or a
/// carriage return and a line feed, which are not part of it; the last line
/// may lack its end.
pub open spec fn lines_from(s: Seq<char>, i: int) -> Seq<Seq<char>>
    decreases s.len() - i,
{
    let j = seek(s, Class::One('\n'), true, i);
    if i < 0 || i >= s.len() || j < i {
        Seq::empty()
    } else if j >= s.len() {
        seq![s.subrange(i, s.len() as int)]
    } else {
        seq![s.subrange(i, line_stop(s, i, j))] + lines_from(s, j + 1)
    }
}

/// Where the line that starts at `i` stops, if its line feed stands at `j`.
pub open spec fn line_stop(s: Seq<char>, i: int, j: int) -> int {
    if j > i && s[j - 1] == '\r' {
        j - 1
    } else {
        j
    }
}

pub open spec fn lines(s: Seq<char>) -> Seq<Seq<char>> {
    lines_from(s, 0)
}

pub fn lines_of(s: &str) -> (r: Vec<String>)
    ensures
        views(r@) == lines(s@),
{
    broadcast use group_views;

    let c = chars_of(s);
    let mut out: Vec<String> = Vec::new();
    let mut i: usize = 0;
    proof {
        assert(views(out@) + lines_from(s@, 0) =~= lines(s@));
    }
    while i < c.len()
        invariant
            c@ == s@,
            i <= c.len(),
            views(out@) + lines_from(s@, i as int) == lines(s@),
        decreases c.len() - i,
    {
        let j = seek_in(&c, Class::One('\n'), true, i);
        let stop: usize = if j < c.len() && j > i && c[j - 1] == '\r' {
            j - 1
        } else {
            j
        };
        let piece = text_of(&c, i, stop);
        let ghost before = views(out@);
        let ghost piece_view = piece@;
        out.push(piece);
        proof {
            assert(views(out@) =~= before.push(piece_view));
        }
        if j >= c.len() {
            proof {
                assert(before + lines_from(s@, i as int) =~= views(out@));
            }
            return out;
        }
        proof {
            assert(before + lines_from(s@, i as int) =~= views(out@) + lines_from(s@, j + 1));
        }
        i = j + 1;
    }
    proof {
        assert(views(out@) + lines_from(s@, i as int) =~= views(out@));
    }
    out
}

/// The parts of the text from position `i` on between occurrences of `p`.
pub open spec fn split_at_from(s: Seq<char>, p: Seq<char>, i: int) -> Seq<Seq<char>>
    decreases s.len() - i,
{
    match find(s, p, i) {
        Some(j) => if p.len() == 0 || j < i || i < 0 || j + p.len() > s.len() {
            seq![s.subrange(i, s.len() as int)]
        } else {
            seq![s.subrange(i, j)] + split_at_from(s, p, j + p.len())
        },
        None => seq![s.subrange(i, s.len() as int)],
    }
}

pub fn split_at_text(s: &str, p: &str) -> (r: Vec<String>)
    requires
        p@.len() > 0,
    ensures
        views(r@) == split_at_from(s@, p@, 0),
{
    broadcast use group_views;

    let c = chars_of(s);
    let d = chars_of(p);
    let mut out: Vec<String> = Vec::new();
    let mut i: usize = 0;
    proof {
        assert(views(out@) + split_at_from(s@, p@, 0) =~= split_at_from(s@, p@, 0));
    }
    loop
        invariant
            c@ == s@,
            d@ == p@,
            d.len() > 0,
            i <= c.len(),
            views(out@) + split_at_from(s@, p@, i as int) == split_at_from(s@, p@, 0),
        decreases c.len() - i,
    {
        let ghost before = views(out@);
        match find_in(&c, &d, i) {
            Some(j) => {
                let piece = text_of(&c, i, j);
                let ghost piece_view = piece@;
                out.push(piece);
                proof {
                    assert(views(out@) =~= before.push(piece_view));
                    assert(before + split_at_from(s@, p@, i as int) =~= views(out@)
                        + split_at_from(s@, p@, j + p@.len()));
                }
                i = j + d.len();
            },
            None => {
                let piece = text_of(&c, i, c.len());
                let ghost piece_view = piece@;
                out.push(piece);
                proof {
                    assert(views(out@) =~= before.push(piece_view));
                    assert(before + split_at_from(s@, p@, i as int) =~= views(out@));
                }
                return out;
            },
        }
    }
}

/// The words of the text from position `i` on: the stretches between white
/// space.
pub open spec fn words_from(s: Seq<char>, i: int) -> Seq<Seq<char>>
    decreases s.len() - i,
{
    let a = seek(s, Class::White, false, i);
    let b = seek(s, Class::White, true, a);
    if i < 0 || a < i || a >= s.len() || b <= a || b > s.len() {
        Seq::empty()
    } else {
        seq![s.subrange(a, b)] + words_from(s, b)
    }
}

pub open spec fn words(s: Seq<char>) -> Seq<Seq<char>> {
    words_from(s, 0)
}

pub fn words_of(s: &str) -> (r: Vec<String>)
    ensures
        views(r@) == words(s@),
{
    broadcast use group_views;

    let c = chars_of(s);
    let mut out: Vec<String> = Vec::new();
    let mut i: usize = 0;
    proof {
        assert(views(out@) + words_from(s@, 0) =~= words(s@));
    }
    loop
        invariant
            c@ == s@,
            i <= c.len(),
            views(out@) + words_from(s@, i as int) == words(s@),
        decreases c.len() - i,
    {
        let a = seek_in(&c, Class::White, false, i);
        if a >= c.len() {
            proof {
                assert(views(out@) + words_from(s@, i as int) =~= views(out@));
            }
            return out;
        }
        let b = seek_in(&c, Class::White, true, a);
        proof {
            lemma_seek_bounds(s@, Class::White, false, i as int);
            lemma_seek_bounds(s@, Class::White, true, a as int);
        }
        let piece = text_of(&c, a, b);
        let ghost before = views(out@);
        let ghost piece_view = piece@;
        out.push(piece);
        proof {
            assert(views(out@) =~= before.push(piece_view));
            assert(before + words_from(s@, i as int) =~= views(out@) + words_from(s@, b as int));
        }
        i = b;
    }
}

pub open spec fn lower_char(c: char) -> char {
    if 'A' <= c <= 'Z' {
        (c as u32 + 32) as char
    } else {
        c
    }
}

/// The text with ASCII capitals made small.
pub open spec fn lower(s: Seq<char>) -> Seq<char> {
    Seq::new(s.len(), |i: int| lower_char(s[i]))
}

pub fn lower_chars(s: &str) -> (r: Vec<char>)
    ensures
        r@ == lower(s@),
{
    let c = chars_of(s);
    let mut out: Vec<char> = Vec::new();
    let mut i: usize = 0;
    while i < c.len()
        invariant
            c@ == s@,
            i <= c.len(),
            out@.len() == i,
            forall|j: int| 0 <= j < i ==> out@[j] == lower_char(s@[j]),
        decreases c.len() - i,
    {
        let x = c[i];
        if 'A' <= x && x <= 'Z' {
            out.push((x as u8 + 32) as char);
        } else {
            out.push(x);
        }
        i += 1;
    }
    proof {
        assert(out@ =~= lower(s@));
    }
    out
}

pub fn lower_text(s: &str) -> (r: String)
    ensures
        r@ == lower(s@),
{
    let c = lower_chars(s);
    proof {
        assert(c@.subrange(0, c@.len() as int) =~= c@);
    }
    text_of(&c, 0, c.len())
}

pub fn same_ignoring_case(a: &str, b: &str) -> (r: bool)
    ensures
        r == (lower(a@) == lower(b@)),
{
    let x = lower_text(a);
    let y = lower_text(b);
    same(x.as_str(), y.as_str())
}

/// The text with every `from` replaced by `to`.
pub open spec fn swap_char(s: Seq<char>, from: char, to: char) -> Seq<char> {
    Seq::new(s.len(), |i: int| if s[i] == from { to } else { s[i] })
}

pub fn replace_char(s: &str, from: char, to: char) -> (r: String)
    ensures
        r@ == swap_char(s@, from, to),
{
    let mut out = String::new();
    let c = chars_of(s);
    let mut i: usize = 0;
    while i < c.len()
        invariant
            c@ == s@,
            i <= c.len(),
            out@.len() == i,
            forall|j: int| 0 <= j < i ==> out@[j] == swap_char(s@, from, to)[j],
        decreases c.len() - i,
    {
        if c[i] == from {
            out.push(to);
        } else {
            out.push(c[i]);
        }
        i += 1;
    }
    proof {
        assert(out@ =~= swap_char(s@, from, to));
    }
    out
}

pub fn concat2(a: &str, b: &str) -> (r: String)
    ensures
        r@ == a@ + b@,
{
    let mut s = a.to_owned();
    s.append(b);
    s
}

pub fn concat3(a: &str, b: &str, c: &str) -> (r: String)
    ensures
        r@ == a@ + b@ + c@,
{
    let mut s = a.to_owned();
    s.append(b);
    s.append(c);
    s
}

pub fn concat5(a: &str, b: &str, c: &str, d: &str, e: &str) -> (r: String)
    ensures
        r@ == a@ + b@ + c@ + d@ + e@,
{
    let mut s = a.to_owned();
    s.append(b);
    s.append(c);
    s.append(d);
    s.append(e);
    s
}

/// The parts with the separator between each two of them.
pub open spec fn joined(parts: Seq<Seq<char>>, sep: Seq<char>) -> Seq<char>
    decreases parts.len(),
{
    if parts.len() == 0 {
        Seq::empty()
    } else if parts.len() == 1 {
        parts[0]
    } else {
        joined(parts.drop_last(), sep) + sep + parts.last()
    }
}

pub fn join(parts: &Vec<String>, sep: &str) -> (r: String)
    ensures
        r@ == joined(views(parts@), sep@),
{
    let mut out = String::new();
    let ghost all = views(parts@);
    let mut i: usize = 0;
    while i < parts.len()
        invariant
            all == views(parts@),
            i <= parts.len(),
            out@ == joined(all.subrange(0, i as int), sep@),
        decreases parts.len() - i,
    {
        proof {
            assert(all.subrange(0, i + 1).drop_last() =~= all.subrange(0, i as int));
        }
        if i > 0 {
            out.append(sep);
        } else {
            proof {
                assert(out@ =~= Seq::<char>::empty());
                assert(Seq::<char>::empty() + all[0] =~= all[0]);
            }
        }
        out.append(parts[i].as_str());
        i += 1;
    }
    proof {
        assert(all.subrange(0, all.len() as int) =~= all);
    }
    out
}

/// Whether `a` comes before `b` from position `i` on, by code points.
pub open spec fn before_from(a: Seq<char>, b: Seq<char>, i: int) -> bool
    decreases b.len() - i,
{
    if i >= b.len() {
        false
    } else if i >= a.len() {
        true
    } else if a[i] != b[i] {
        a[i] < b[i]
    } else {
        before_from(a, b, i + 1)
    }
}

/// Whether `a` comes before `b` in the order of code points.
pub open spec fn before(a: Seq<char>, b: Seq<char>) -> bool {
    before_from(a, b, 0)
}

pub fn comes_before(a: &str, b: &str) -> (r: bool)
    ensures
        r == before(a@, b@),
{
    let x = chars_of(a);
    let y = chars_of(b);
    let mut i: usize = 0;
    while i < y.len()
        invariant
            x@ == a@,
            y@ == b@,
            i <= y.len(),
            before(a@, b@) == before_from(a@, b@, i as int),
        decreases y.len() - i,
    {
        if i >= x.len() {
            return true;
        }
        if x[i] != y[i] {
            return x[i] < y[i];
        }
        i += 1;
    }
    false
}

pub open spec fn digit(d: int) -> char {
    (48 + d) as char
}

/// The decimal text of a number.
pub open spec fn decimal(n: nat) -> Seq<char>
    decreases n,
{
    if n < 10 {
        seq![digit(n as int)]
    } else {
        decimal(n / 10).push(digit((n % 10) as int))
    }
}

pub fn decimal_text(n: u64) -> (r: String)
    ensures
        r@ == decimal(n as nat),
    decreases n,
{
    if n < 10 {
        let mut s = String::new();
        s.push((48 + n as u8) as char);
        proof {
            assert(s@ =~= seq![digit(n as int)]);
        }
        s
    } else {
        let mut s = decimal_text(n / 10);
        s.push((48 + (n % 10) as u8) as char);
        s
    }
}

/// The decimal text of an integer, with a minus sign where it is negative.
pub open spec fn decimal_int(n: int) -> Seq<char> {
    if n < 0 {
        seq!['-'] + decimal((-n) as nat)
    } else {
        decimal(n as nat)
    }
}

pub fn decimal_i64(n: i64) -> (r: String)
    ensures
        r@ == decimal_int(n as int),
{
    if n < 0 {
        let mut s = String::new();
        s.push('-');
        let m: u64 = (-(n as i128)) as u64;
        let t = decimal_text(m);
        s.append(t.as_str());
        proof {
            assert(s@ =~= seq!['-'] + decimal((-n) as nat));
        }
        s
    } else {
        decimal_text(n as u64)
    }
}

pub open spec fn is_digit(c: char) -> bool {
    '0' <= c <= '9'
}

/// The number that the digits from position `i` on spell behind the number
/// `acc`.
pub open spec fn digits(s: Seq<char>, i: int, acc: nat) -> Option<nat>
    decreases s.len() - i,
{
    if i >= s.len() {
        Some(acc)
    } else if is_digit(s[i]) {
        digits(s, i + 1, (acc * 10 + (s[i] as u32 - 48)) as nat)
    } else {
        None
    }
}

/// The number that a text of digits, with or without a plus sign, spells,
/// where it does not exceed `max`.
pub open spec fn unsigned(s: Seq<char>, max: nat) -> Option<nat> {
    let i = sign_width(s);
    if i >= s.len() {
        None
    } else {
        match digits(s, i, 0) {
            Some(v) => if v <= max {
                Some(v)
            } else {
                None
            },
            None => None,
        }
    }
}

pub open spec fn sign_width(s: Seq<char>) -> int {
    if s.len() > 0 && s[0] == '+' {
        1
    } else {
        0
    }
}

pub proof fn lemma_digits_grow(s: Seq<char>, i: int, acc: nat)
    ensures
        digits(s, i, acc) matches Some(v) ==> v >= acc,
    decreases s.len() - i,
{
    if i < s.len() && is_digit(s[i]) {
        lemma_digits_grow(s, i + 1, (acc * 10 + (s[i] as u32 - 48)) as nat);
    }
}

fn digits_in(c: &Vec<char>, from: usize, max: u64) -> (r: Option<u64>)
    requires
        from <= c.len(),
    ensures
        (match r {
            Some(v) => digits(c@, from as int, 0) == Some(v as nat) && v <= max,
            None => digits(c@, from as int, 0) matches Some(v) ==> v > max,
        }),
{
    let mut acc: u64 = 0;
    let mut i: usize = from;
    while i < c.len()
        invariant
            from <= i <= c.len(),
            acc <= max,
            digits(c@, from as int, 0) == digits(c@, i as int, acc as nat),
        decreases c.len() - i,
    {
        let x = c[i];
        if !('0' <= x && x <= '9') {
            return None;
        }
        let next: u128 = acc as u128 * 10 + (x as u32 - 48) as u128;
        if next > max as u128 {
            proof {
                lemma_digits_grow(c@, i + 1, next as nat);
            }
            return None;
        }
        acc = next as u64;
        i += 1;
    }
    Some(acc)
}

pub fn parse_unsigned(s: &str, max: u64) -> (r: Option<u64>)
    ensures
        (match r {
            Some(v) => unsigned(s@, max as nat) == Some(v as nat),
            None => unsigned(s@, max as nat) is None,
        }),
{
    let c = chars_of(s);
    let i: usize = if c.len() > 0 && c[0] == '+' {
        1
    } else {
        0
    };
    if i >= c.len() {
        return None;
    }
    digits_in(&c, i, max)
}

/// The integer that a text of digits, with or without a sign, spells, where it
/// fits 64 bits.
pub open spec fn signed(s: Seq<char>) -> Option<int> {
    if s.len() > 0 && s[0] == '-' {
        if s.len() == 1 {
            None
        } else {
            match digits(s, 1, 0) {
                Some(v) => if v <= 0x8000_0000_0000_0000 {
                    Some(-(v as int))
                } else {
                    None
                },
                None => None,
            }
        }
    } else {
        match unsigned(s, 0x7fff_ffff_ffff_ffff) {
            Some(v) => Some(v as int),
            None => None,
        }
    }
}

pub fn parse_signed(s: &str) -> (r: Option<i64>)
    ensures
        (match r {
            Some(v) => signed(s@) == Some(v as int),
            None => signed(s@) is None,
        }),
{
    let c = chars_of(s);
    if c.len() > 0 && c[0] == '-' {
        if c.len() == 1 {
            return None;
        }
        match digits_in(&c, 1, 0x8000_0000_0000_0000) {
            Some(v) => Some((-(v as i128)) as i64),
            None => None,
        }
    } else {
        match parse_unsigned(s, 0x7fff_ffff_ffff_ffff) {
            Some(v) => Some(v as i64),
            None => None,
        }
    }
}

/// The first position from `i` on at which the list holds the value.
pub open spec fn index_from<A>(list: Seq<A>, v: A, i: int) -> Option<int>
    decreases list.len() - i,
{
    if i >= list.len() {
        None
    } else if list[i] == v {
        Some(i)
    } else {
        index_from(list, v, i + 1)
    }
}

pub open spec fn first_index<A>(list: Seq<A>, v: A) -> Option<int> {
    index_from(list, v, 0)
}

pub broadcast proof fn lemma_index_from<A>(list: Seq<A>, v: A, i: int)
    requires
        0 <= i,
    ensures
        (#[trigger] index_from(list, v, i)) matches Some(j) ==> i <= j < list.len() && list[j] == v
            && (forall|k: int| i <= k < j ==> list[k] != v),
        index_from(list, v, i) is None ==> forall|k: int| i <= k < list.len() ==> list[k] != v,
    decreases list.len() - i,
{
    if i < list.len() && list[i] != v {
        lemma_index_from(list, v, i + 1);
    }
}

pub fn position(list: &Vec<String>, v: &str) -> (r: Option<usize>)
    ensures
        (match r {
            Some(j) => first_index(views(list@), v@) == Some(j as int) && j < list.len(),
            None => first_index(views(list@), v@) is None,
        }),
{
    let mut i: usize = 0;
    while i < list.len()
        invariant
            i <= list.len(),
            first_index(views(list@), v@) == index_from(views(list@), v@, i as int),
        decreases list.len() - i,
    {
        if same(list[i].as_str(), v) {
            return Some(i);
        }
        i += 1;
    }
    None
}

pub fn lists(list: &Vec<String>, v: &str) -> (r: bool)
    ensures
        r == views(list@).contains(v@),
{
    let p = position(list, v);
    proof {
        lemma_index_from(views(list@), v@, 0);
    }
    match p {
        Some(_) => true,
        None => false,
    }
}

/// Whether two lists of texts are equal.
pub fn same_list(a: &Vec<String>, b: &Vec<String>) -> (r: bool)
    ensures
        r == (views(a@) == views(b@)),
{
    if a.len() != b.len() {
        proof {
            assert(views(a@).len() != views(b@).len());
        }
        return false;
    }
    let mut i: usize = 0;
    while i < a.len()
        invariant
            a.len() == b.len(),
            i <= a.len(),
            forall|j: int| 0 <= j < i ==> views(a@)[j] == views(b@)[j],
        decreases a.len() - i,
    {
        if !same(a[i].as_str(), b[i].as_str()) {
            proof {
                assert(views(a@)[i as int] != views(b@)[i as int]);
            }
            return false;
        }
        i += 1;
    }
    proof {
        assert(views(a@) =~= views(b@));
    }
    true
}

} // verus!
