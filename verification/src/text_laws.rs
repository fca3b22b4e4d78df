//! What the operations on texts do, told by the characters.

use crate::text::{
    before, before_from, cut, cut_back, decimal, digits, head, joined, lemma_seek_back_bounds,
    lemma_seek_bounds, lines, lines_from, lower, seek, seek_back, split, split_from, swap_char,
    tail, trim, trim_end, trim_start, unsigned, words, words_from, Class,
};
use vstd::prelude::*;

verus! {

/// Whether all characters of a text are in a class.
pub open spec fn all_in(s: Seq<char>, k: Class) -> bool {
    forall|i: int| 0 <= i < s.len() ==> k.holds(#[trigger] s[i])
}

/// Whether no character of a text is in a class.
pub open spec fn none_in(s: Seq<char>, k: Class) -> bool {
    forall|i: int| 0 <= i < s.len() ==> !k.holds(#[trigger] s[i])
}

/// Whether a text neither begins nor ends with a character of a class.
pub open spec fn is_bare(s: Seq<char>, k: Class) -> bool {
    s.len() > 0 ==> !k.holds(s[0]) && !k.holds(s.last())
}

/// What a text is without the characters of a class at its ends: the part between
/// them.
pub proof fn law_trimming_takes_the_ends(a: Seq<char>, c: Seq<char>, b: Seq<char>, k: Class)
    requires
        all_in(a, k),
        all_in(b, k),
        is_bare(c, k),
    ensures
        trim(a + c + b, k) == c,
        c.len() > 0 ==> trim_start(a + c + b, k) == c + b,
        c.len() > 0 ==> trim_end(a + c + b, k) == a + c,
{
    let s = a + c + b;
    lemma_seek_bounds(s, k, false, 0);
    lemma_seek_back_bounds(s, k, false, s.len() as int);
    let i = seek(s, k, false, 0);
    let j = seek_back(s, k, false, s.len() as int);
    assert forall|x: int| 0 <= x < a.len() implies k.holds(#[trigger] s[x]) by {
        assert(s[x] == a[x]);
    }
    assert forall|x: int| a.len() + c.len() <= x < s.len() implies k.holds(#[trigger] s[x]) by {
        assert(s[x] == b[x - a.len() - c.len()]);
    }
    if c.len() > 0 {
        let n = (a.len() + c.len()) as int;
        assert(s[a.len() as int] == c[0]);
        assert(s[n - 1] == c.last());
        assert(i == a.len());
        assert(j == n);
        assert(trim(s, k) =~= c);
        assert(trim_start(s, k) =~= c + b);
        assert(trim_end(s, k) =~= a + c);
    } else {
        if i < s.len() {
            assert(k.holds(s[i]));
        }
        assert(i == s.len());
        assert(trim(s, k) =~= c);
    }
}

/// What is cut off a text at its ends are characters of the class only, and what is
/// left neither begins nor ends with one.
pub proof fn law_trimming_leaves_the_rest(s: Seq<char>, k: Class) -> (r: (Seq<char>, Seq<char>))
    ensures
        s == r.0 + trim(s, k) + r.1,
        all_in(r.0, k),
        all_in(r.1, k),
        is_bare(trim(s, k), k),
{
    lemma_seek_bounds(s, k, false, 0);
    lemma_seek_back_bounds(s, k, false, s.len() as int);
    let i = seek(s, k, false, 0);
    let j = seek_back(s, k, false, s.len() as int);
    if i < j {
        let a = s.subrange(0, i);
        let b = s.subrange(j, s.len() as int);
        assert(s =~= a + trim(s, k) + b);
        (a, b)
    } else {
        assert forall|x: int| 0 <= x < s.len() implies k.holds(#[trigger] s[x]) by {
            if !k.holds(s[x]) {
                if x < i {
                    assert(k.holds(s[x]));
                } else {
                    assert(x >= j);
                    assert(k.holds(s[x]));
                }
            }
        }
        assert(s =~= s + trim(s, k) + Seq::<char>::empty());
        (s, Seq::empty())
    }
}

/// A text is cut at the first character of a class, or at the last one.
pub proof fn law_texts_are_cut_at_the_character(a: Seq<char>, c: char, b: Seq<char>, k: Class)
    requires
        k.holds(c),
    ensures
        none_in(a, k) ==> cut(a + seq![c] + b, k) == Some((a, b)) && head(a + seq![c] + b, k) == a,
        none_in(b, k) ==> cut_back(a + seq![c] + b, k) == Some((a, b)) && tail(
            a + seq![c] + b,
            k,
        ) == b,
{
    let s = a + seq![c] + b;
    assert(s[a.len() as int] == c);
    lemma_seek_bounds(s, k, true, 0);
    lemma_seek_back_bounds(s, k, true, s.len() as int);
    if none_in(a, k) {
        let j = seek(s, k, true, 0);
        if j < a.len() {
            assert(s[j] == a[j]);
        }
        assert(j == a.len());
        assert(s.subrange(0, j) =~= a);
        assert(s.subrange(j + 1, s.len() as int) =~= b);
    }
    if none_in(b, k) {
        let j = seek_back(s, k, true, s.len() as int);
        if j > a.len() + 1 {
            assert(s[j - 1] == b[j - 1 - a.len() - 1]);
        }
        if j <= a.len() {
            assert(!k.holds(s[a.len() as int]));
        }
        assert(j == a.len() + 1);
        assert(s.subrange(0, j - 1) =~= a);
        assert(s.subrange(j, s.len() as int) =~= b);
    }
}

/// A text without a character of the class is not cut.
pub proof fn law_texts_without_the_character_stay(s: Seq<char>, k: Class)
    requires
        none_in(s, k),
    ensures
        cut(s, k) is None,
        cut_back(s, k) is None,
        head(s, k) == s,
        tail(s, k) == s,
        split(s, k) == seq![s],
{
    lemma_seek_bounds(s, k, true, 0);
    lemma_seek_back_bounds(s, k, true, s.len() as int);
    assert(seek(s, k, true, 0) == s.len());
    let j = seek_back(s, k, true, s.len() as int);
    if j > 0 {
        assert(!k.holds(s[j - 1]));
    }
    assert(s.subrange(0, s.len() as int) =~= s);
    assert(split(s, k) =~= seq![s]);
}

proof fn lemma_split_from(s: Seq<char>, k: Class, i: int)
    requires
        0 <= i <= s.len(),
    ensures
        split_from(s, k, i).len() > 0,
        forall|n: int| 0 <= n < split_from(s, k, i).len() ==> none_in(
            #[trigger] split_from(s, k, i)[n],
            k,
        ),
    decreases s.len() - i,
{
    lemma_seek_bounds(s, k, true, i);
    let j = seek(s, k, true, i);
    let all = split_from(s, k, i);
    if j < s.len() {
        lemma_split_from(s, k, j + 1);
        let rest = split_from(s, k, j + 1);
        assert(all == seq![s.subrange(i, j)] + rest);
        assert forall|n: int| 0 <= n < all.len() implies none_in(#[trigger] all[n], k) by {
            if n == 0 {
                assert forall|x: int| 0 <= x < all[0].len() implies !k.holds(
                    #[trigger] all[0][x],
                ) by {
                    assert(all[0][x] == s[i + x]);
                }
            } else {
                assert(all[n] == rest[n - 1]);
            }
        }
    } else {
        assert forall|x: int| 0 <= x < all[0].len() implies !k.holds(#[trigger] all[0][x]) by {
            assert(all[0][x] == s[i + x]);
        }
    }
}

proof fn lemma_joined_front(p: Seq<char>, rest: Seq<Seq<char>>, sep: Seq<char>)
    requires
        rest.len() > 0,
    ensures
        joined(seq![p] + rest, sep) == p + sep + joined(rest, sep),
    decreases rest.len(),
{
    let all = seq![p] + rest;
    assert(all.last() == rest.last());
    assert(all.drop_last() =~= seq![p] + rest.drop_last());
    if rest.len() == 1 {
        assert(rest.drop_last() =~= Seq::empty());
        assert(all.drop_last() =~= seq![p]);
        assert(joined(all.drop_last(), sep) == p);
    } else {
        lemma_joined_front(p, rest.drop_last(), sep);
        assert(p + sep + joined(rest.drop_last(), sep) + sep + rest.last() =~= p + sep + joined(
            rest,
            sep,
        ));
    }
}

proof fn lemma_split_joined(s: Seq<char>, c: char, i: int)
    requires
        0 <= i <= s.len(),
    ensures
        joined(split_from(s, Class::One(c), i), seq![c]) == s.subrange(i, s.len() as int),
    decreases s.len() - i,
{
    let k = Class::One(c);
    lemma_seek_bounds(s, k, true, i);
    let j = seek(s, k, true, i);
    if j < s.len() {
        lemma_split_joined(s, c, j + 1);
        lemma_split_from(s, k, j + 1);
        lemma_joined_front(s.subrange(i, j), split_from(s, k, j + 1), seq![c]);
        assert(s.subrange(i, j) + seq![c] + s.subrange(j + 1, s.len() as int) =~= s.subrange(
            i,
            s.len() as int,
        ));
    }
}

/// The parts between a character hold that character nowhere, and put together with
/// it again they are the text.
pub proof fn law_parts_make_the_text(s: Seq<char>, c: char)
    ensures
        joined(split(s, Class::One(c)), seq![c]) == s,
        forall|n: int| 0 <= n < split(s, Class::One(c)).len() ==> none_in(
            #[trigger] split(s, Class::One(c))[n],
            Class::One(c),
        ),
{
    lemma_split_joined(s, c, 0);
    lemma_split_from(s, Class::One(c), 0);
    assert(s.subrange(0, s.len() as int) =~= s);
}

proof fn lemma_seek_shift(a: Seq<char>, b: Seq<char>, k: Class, want: bool, i: int)
    requires
        0 <= i <= b.len(),
    ensures
        seek(a + b, k, want, a.len() + i) == a.len() + seek(b, k, want, i),
    decreases b.len() - i,
{
    if i < b.len() {
        assert((a + b)[a.len() + i] == b[i]);
        lemma_seek_shift(a, b, k, want, i + 1);
    }
}

proof fn lemma_lines_shift(a: Seq<char>, b: Seq<char>, i: int)
    requires
        0 <= i <= b.len(),
    ensures
        lines_from(a + b, a.len() + i) == lines_from(b, i),
    decreases b.len() - i,
{
    let s = a + b;
    let n = a.len() as int;
    lemma_seek_shift(a, b, Class::One('\n'), true, i);
    lemma_seek_bounds(b, Class::One('\n'), true, i);
    let j = seek(b, Class::One('\n'), true, i);
    if i < b.len() {
        if j >= b.len() {
            assert(s.subrange(n + i, s.len() as int) =~= b.subrange(i, b.len() as int));
        } else {
            lemma_lines_shift(a, b, j + 1);
            if j > i {
                assert(s[n + j - 1] == b[j - 1]);
            }
            let stop = crate::text::line_stop(b, i, j);
            assert(crate::text::line_stop(s, n + i, n + j) == n + stop);
            assert(s.subrange(n + i, n + stop) =~= b.subrange(i, stop));
        }
    }
}

/// The first line of a text is what stands before its first line feed, without a
/// carriage return at its end, and the other lines are those of what follows.
pub proof fn law_lines_end_with_a_line_feed(l: Seq<char>, rest: Seq<char>)
    requires
        none_in(l, Class::One('\n')),
    ensures
        l.len() > 0 ==> lines(l) == seq![l],
        lines(Seq::empty()) == Seq::<Seq<char>>::empty(),
        lines(l + seq!['\n'] + rest) == seq![
            if l.len() > 0 && l.last() == '\r' {
                l.drop_last()
            } else {
                l
            },
        ] + lines(rest),
{
    let k = Class::One('\n');
    lemma_seek_bounds(l, k, true, 0);
    assert(seek(l, k, true, 0) == l.len());
    assert(l.subrange(0, l.len() as int) =~= l);
    let a = l + seq!['\n'];
    let s = a + rest;
    lemma_seek_bounds(s, k, true, 0);
    let j = seek(s, k, true, 0);
    assert(s[l.len() as int] == '\n');
    if j < l.len() {
        assert(s[j] == l[j]);
    }
    assert(j == l.len());
    lemma_lines_shift(a, rest, 0);
    let stop = crate::text::line_stop(s, 0, j);
    if l.len() > 0 {
        assert(s[j - 1] == l.last());
    }
    assert(s.subrange(0, stop) =~= if l.len() > 0 && l.last() == '\r' {
        l.drop_last()
    } else {
        l
    });
}

proof fn lemma_words_shift(a: Seq<char>, b: Seq<char>, i: int)
    requires
        0 <= i <= b.len(),
    ensures
        words_from(a + b, a.len() + i) == words_from(b, i),
    decreases b.len() - i,
{
    let s = a + b;
    let n = a.len() as int;
    lemma_seek_shift(a, b, Class::White, false, i);
    lemma_seek_bounds(b, Class::White, false, i);
    let x = seek(b, Class::White, false, i);
    lemma_seek_shift(a, b, Class::White, true, x);
    lemma_seek_bounds(b, Class::White, true, x);
    let y = seek(b, Class::White, true, x);
    if x < b.len() {
        assert(!Class::White.holds(b[x]));
        assert(y > x);
        lemma_words_shift(a, b, y);
        assert(s.subrange(n + x, n + y) =~= b.subrange(x, y));
    }
}

/// The words of a text are the stretches between white space.
pub proof fn law_words_stand_between_white_space(a: Seq<char>, w: Seq<char>, rest: Seq<char>)
    requires
        all_in(a, Class::White),
        none_in(w, Class::White),
        w.len() > 0,
        rest.len() > 0 ==> Class::White.holds(rest[0]),
    ensures
        words(a) == Seq::<Seq<char>>::empty(),
        words(a + w + rest) == seq![w] + words(rest),
{
    let k = Class::White;
    lemma_seek_bounds(a, k, false, 0);
    let z = seek(a, k, false, 0);
    if z < a.len() {
        assert(k.holds(a[z]));
    }
    let s = a + w + rest;
    lemma_seek_bounds(s, k, false, 0);
    let x = seek(s, k, false, 0);
    assert(s[a.len() as int] == w[0]);
    if x < a.len() {
        assert(s[x] == a[x]);
    }
    assert(x == a.len());
    lemma_seek_bounds(s, k, true, x);
    let y = seek(s, k, true, x);
    let n = (a.len() + w.len()) as int;
    if y < n {
        assert(s[y] == w[y - a.len()]);
    }
    if rest.len() > 0 {
        assert(s[n] == rest[0]);
    }
    assert(y == n);
    assert(s.subrange(x, y) =~= w);
    lemma_words_shift(a + w, rest, 0);
}

/// In small letters a text has the same length, ASCII capitals are small, and all
/// other characters are what they were; a text in small letters stays as it is.
pub proof fn law_small_letters(s: Seq<char>, i: int)
    requires
        0 <= i < s.len(),
    ensures
        lower(s).len() == s.len(),
        'A' <= s[i] <= 'Z' ==> lower(s)[i] as u32 == s[i] as u32 + 32,
        !('A' <= s[i] <= 'Z') ==> lower(s)[i] == s[i],
        lower(lower(s)) == lower(s),
{
    assert forall|j: int| 0 <= j < s.len() implies lower(lower(s))[j] == lower(s)[j] by {
        if 'A' <= s[j] <= 'Z' {
            assert(lower(s)[j] as u32 == s[j] as u32 + 32);
        }
    }
    assert(lower(lower(s)) =~= lower(s));
}

/// Replacing a character changes it wherever it stands and nothing else.
pub proof fn law_replaced_characters(s: Seq<char>, from: char, to: char, i: int)
    requires
        0 <= i < s.len(),
    ensures
        swap_char(s, from, to).len() == s.len(),
        s[i] == from ==> swap_char(s, from, to)[i] == to,
        s[i] != from ==> swap_char(s, from, to)[i] == s[i],
{
}

proof fn lemma_before_from(a: Seq<char>, b: Seq<char>, i: int, n: int)
    requires
        0 <= i <= n,
        n <= a.len(),
        n <= b.len(),
        forall|j: int| i <= j < n ==> a[j] == b[j],
    ensures
        before_from(a, b, i) == before_from(a, b, n),
    decreases n - i,
{
    if i < n {
        lemma_before_from(a, b, i + 1, n);
    }
}

/// Of two texts that are the same up to a place, the one comes first that ends
/// there, or that has the smaller character there.
pub proof fn law_the_first_difference_decides(a: Seq<char>, b: Seq<char>, n: int)
    requires
        0 <= n <= a.len(),
        n <= b.len(),
        forall|j: int| 0 <= j < n ==> a[j] == b[j],
        n < a.len() && n < b.len() ==> a[n] != b[n],
    ensures
        before(a, b) <==> n < b.len() && (n == a.len() || a[n] < b[n]),
{
    lemma_before_from(a, b, 0, n);
}

proof fn lemma_digits_add(s: Seq<char>, t: Seq<char>, i: int, acc: nat)
    requires
        0 <= i <= s.len(),
    ensures
        digits(s + t, i, acc) == (match digits(s, i, acc) {
            Some(v) => digits(t, 0, v),
            None => None,
        }),
    decreases s.len() - i,
{
    if i < s.len() {
        assert((s + t)[i] == s[i]);
        if crate::text::is_digit(s[i]) {
            lemma_digits_add(s, t, i + 1, (acc * 10 + (s[i] as u32 - 48)) as nat);
        }
    } else {
        lemma_digits_shift(s, t, 0, acc);
    }
}

proof fn lemma_digits_shift(s: Seq<char>, t: Seq<char>, i: int, acc: nat)
    requires
        0 <= i <= t.len(),
    ensures
        digits(s + t, s.len() + i, acc) == digits(t, i, acc),
    decreases t.len() - i,
{
    if i < t.len() {
        assert((s + t)[s.len() + i] == t[i]);
        if crate::text::is_digit(t[i]) {
            lemma_digits_shift(s, t, i + 1, (acc * 10 + (t[i] as u32 - 48)) as nat);
        }
    }
}

proof fn lemma_decimal(n: nat)
    ensures
        decimal(n).len() > 0,
        crate::text::is_digit(decimal(n)[0]),
        digits(decimal(n), 0, 0) == Some(n),
    decreases n,
{
    let d = crate::text::digit((n % 10) as int);
    assert(d as u32 == 48 + n % 10);
    if n < 10 {
        assert(crate::text::digit(n as int) as u32 == 48 + n);
        reveal_with_fuel(digits, 2);
    } else {
        lemma_decimal(n / 10);
        let s = decimal(n / 10);
        assert(decimal(n) =~= s + seq![d]);
        lemma_digits_add(s, seq![d], 0, 0);
        reveal_with_fuel(digits, 2);
        assert(n / 10 * 10 + n % 10 == n);
    }
}

/// The decimal text of a number is read as that number.
pub proof fn law_numbers_are_read_back(n: nat, max: nat)
    requires
        n <= max,
    ensures
        unsigned(decimal(n), max) == Some(n),
{
    lemma_decimal(n);
}

/// How many bytes the text takes in UTF-8: one for each character below 80, two below
/// 800, three below 10000 and four for the others, in hexadecimal.
pub open spec fn byte_count(s: Seq<char>) -> nat
    decreases s.len(),
{
    if s.len() == 0 {
        0
    } else {
        byte_count(s.drop_last()) + (if (s.last() as u32) < 0x80 {
            1nat
        } else if (s.last() as u32) < 0x800 {
            2nat
        } else if (s.last() as u32) < 0x10000 {
            3nat
        } else {
            4nat
        })
    }
}

proof fn lemma_byte_place(a: Seq<char>, b: Seq<char>, k: int)
    requires
        0 <= k <= a.len(),
    ensures
        crate::text::byte_place(a + b, k, byte_count(a) - byte_count(a.take(k))) == Some(
            a.len() as int,
        ),
        byte_count(a.take(k)) <= byte_count(a),
    decreases a.len() - k,
{
    if k < a.len() {
        lemma_byte_place(a, b, k + 1);
        let t = a.take(k + 1);
        assert(t.drop_last() =~= a.take(k));
        assert(t.last() == a[k]);
        assert((a + b)[k] == a[k]);
    } else {
        assert(a.take(k) =~= a);
    }
}

/// The first bytes of a text are the characters that take so many.
pub proof fn law_heads_are_measured_in_bytes(a: Seq<char>, b: Seq<char>)
    ensures
        crate::text::byte_head(a + b, byte_count(a) as int) == Some(a),
{
    lemma_byte_place(a, b, 0);
    assert(a.take(0) =~= Seq::<char>::empty());
    assert((a + b).subrange(0, a.len() as int) =~= a);
}

proof fn lemma_byte_found(s: Seq<char>, i: int, n: int)
    requires
        0 <= i <= s.len(),
    ensures
        crate::text::byte_place(s, i, n) matches Some(j) ==> i <= j <= s.len() && n == byte_count(
            s.take(j),
        ) - byte_count(s.take(i)),
    decreases s.len() - i,
{
    if n > 0 && i < s.len() {
        lemma_byte_found(s, i + 1, n - crate::text::width(s[i]));
        let t = s.take(i + 1);
        assert(t.drop_last() =~= s.take(i));
        assert(t.last() == s[i]);
    }
}

/// A text has a head of so many bytes only where whole characters take so many.
pub proof fn law_heads_end_with_a_character(s: Seq<char>, n: int)
    ensures
        crate::text::byte_head(s, n) matches Some(h) ==> byte_count(h) == n && h.len() <= s.len()
            && h == s.take(h.len() as int),
{
    lemma_byte_found(s, 0, n);
    assert(s.take(0) =~= Seq::<char>::empty());
    if let Some(j) = crate::text::byte_place(s, 0, n) {
        assert(s.subrange(0, j) =~= s.take(j));
    }
}

proof fn lemma_split_at(s: Seq<char>, p: Seq<char>, i: int)
    requires
        0 <= i <= s.len(),
        p.len() > 0,
    ensures
        crate::text::split_at_from(s, p, i).len() > 0,
        joined(crate::text::split_at_from(s, p, i), p) == s.subrange(i, s.len() as int),
        forall|k: int|
            0 <= k < crate::text::split_at_from(s, p, i).len() ==> crate::text::has(
                #[trigger] crate::text::split_at_from(s, p, i)[k],
                p,
            ) == false,
    decreases s.len() - i,
{
    let all = crate::text::split_at_from(s, p, i);
    lemma_find_bounds(s, p, i);
    match crate::text::find(s, p, i) {
        Some(j) => {
            lemma_split_at(s, p, j + p.len());
            let rest = crate::text::split_at_from(s, p, j + p.len());
            let first = s.subrange(i, j);
            lemma_joined_front(first, rest, p);
            assert(s.subrange(j, j + p.len()) =~= p);
            assert(first + p + s.subrange(j + p.len(), s.len() as int) =~= s.subrange(
                i,
                s.len() as int,
            ));
            assert(crate::text::has(first, p) == false) by {
                lemma_not_inside(s, p, i, j);
            }
            assert forall|k: int| 0 <= k < all.len() implies crate::text::has(
                #[trigger] all[k],
                p,
            ) == false by {
                if k > 0 {
                    assert(all[k] == rest[k - 1]);
                }
            }
        },
        None => {
            lemma_not_inside(s, p, i, s.len() as int);
            assert(all =~= seq![s.subrange(i, s.len() as int)]);
        },
    }
}

proof fn lemma_find_bounds(s: Seq<char>, p: Seq<char>, i: int)
    requires
        0 <= i,
    ensures
        (match crate::text::find(s, p, i) {
            Some(j) => i <= j && j + p.len() <= s.len() && crate::text::occurs_at(s, p, j) && forall|
                k: int,
            |
                i <= k < j ==> !(#[trigger] crate::text::occurs_at(s, p, k)),
            None => forall|k: int|
                i <= k && k + p.len() <= s.len() ==> !(#[trigger] crate::text::occurs_at(s, p, k)),
        }),
    decreases s.len() + 1 - i,
{
    if i + p.len() <= s.len() && !crate::text::occurs_at(s, p, i) {
        lemma_find_bounds(s, p, i + 1);
    }
}

proof fn lemma_not_inside(s: Seq<char>, p: Seq<char>, i: int, j: int)
    requires
        0 <= i <= j <= s.len(),
        forall|k: int|
            i <= k && k + p.len() <= j ==> !(#[trigger] crate::text::occurs_at(s, p, k)),
    ensures
        crate::text::has(s.subrange(i, j), p) == false,
{
    let t = s.subrange(i, j);
    if crate::text::has(t, p) {
        let k = choose|k: int|
            0 <= k <= t.len() - p.len() && #[trigger] crate::text::occurs_at(t, p, k);
        assert(t.subrange(k, k + p.len()) =~= s.subrange(i + k, i + k + p.len()));
        assert(crate::text::occurs_at(s, p, i + k));
    }
}

/// The parts between a text hold it nowhere, and put together with it again they are
/// the whole.
pub proof fn law_parts_between_a_text_make_the_whole(s: Seq<char>, p: Seq<char>)
    requires
        p.len() > 0,
    ensures
        joined(crate::text::split_at_from(s, p, 0), p) == s,
        forall|k: int|
            0 <= k < crate::text::split_at_from(s, p, 0).len() ==> crate::text::has(
                #[trigger] crate::text::split_at_from(s, p, 0)[k],
                p,
            ) == false,
{
    lemma_split_at(s, p, 0);
    assert(s.subrange(0, s.len() as int) =~= s);
}

/// White space is what separates words: blanks, tabs and line ends, also the wide and
/// the protected blank; no character that can be seen is white space.
pub proof fn law_white_space_cannot_be_seen(c: char)
    ensures
        c == ' ' || c == '\t' || c == '\n' || c == '\r' || c == '\u{a0}' || c == '\u{3000}'
            ==> Class::White.holds(c),
        '!' <= c <= '~' ==> !Class::White.holds(c),
        '\u{3001}' <= c ==> !Class::White.holds(c),
        '\u{a1}' <= c <= '\u{167f}' ==> !Class::White.holds(c),
        Class::LineEnd.holds(c) <==> c == '\n' || c == '\r',
{
}

/// A sign in front of a number gives it its sign.
pub proof fn law_signs_are_read(n: nat)
    requires
        n <= 0x7fff_ffff_ffff_ffff,
    ensures
        crate::text::signed(decimal(n)) == Some(n as int),
        crate::text::signed(seq!['-'] + decimal(n)) == Some(-(n as int)),
        crate::text::signed(seq!['+'] + decimal(n)) == Some(n as int),
        crate::text::signed(Seq::empty()) is None,
        crate::text::signed(seq!['-']) is None,
{
    lemma_decimal(n);
    let d = decimal(n);
    lemma_digits_shift(seq!['-'], d, 0, 0);
    lemma_digits_shift(seq!['+'], d, 0, 0);
}

} // verus!
