//! Which paths a source stands for, told by the parts of the path.

use crate::rules::model::SourceView;
use crate::rules::source::{inner, slash};
use crate::text::{begins, cut, has, lemma_seek_bounds, seek, swap_char, trim_start, Class};
use crate::text_laws::{
    law_texts_are_cut_at_the_character, law_texts_without_the_character_stay, none_in,
};
use vstd::prelude::*;

verus! {

/// Whether no component ends in a text: it holds no slash.
pub open spec fn is_part(s: Seq<char>) -> bool {
    none_in(s, Class::One('/'))
}

/// Whether a text holds no backslash.
pub open spec fn is_plain(s: Seq<char>) -> bool {
    none_in(s, Class::One('\\'))
}

proof fn lemma_plain(s: Seq<char>)
    requires
        is_plain(s),
    ensures
        swap_char(s, '\\', '/') == s,
{
    assert forall|i: int| 0 <= i < s.len() implies #[trigger] swap_char(s, '\\', '/')[i] == s[i] by {
        assert(!Class::One('\\').holds(s[i]));
    }
    assert(swap_char(s, '\\', '/') =~= s);
}

proof fn lemma_trim_front(s: Seq<char>)
    requires
        s.len() > 0 ==> s[0] != '/',
    ensures
        trim_start(s, slash()) == s,
        trim_start(seq!['/'] + s, slash()) == s,
{
    lemma_seek_bounds(s, slash(), false, 0);
    assert(seek(s, slash(), false, 0) == 0 || s.len() == 0);
    assert(s.subrange(0, s.len() as int) =~= s);
    let t = seq!['/'] + s;
    lemma_seek_bounds(t, slash(), false, 0);
    let j = seek(t, slash(), false, 0);
    assert(t[0] == '/');
    if s.len() > 0 {
        assert(t[1] == s[0]);
    }
    assert(j == 1);
    assert(trim_start(t, slash()) =~= s);
}

proof fn lemma_inner(first: Seq<char>, rest: Seq<char>)
    requires
        is_part(first),
        rest.len() > 0 ==> rest[0] != '/',
    ensures
        inner(first + seq!['/'] + rest) == rest,
        cut(first + seq!['/'] + rest, slash()) == Some((first, rest)),
        trim_start(rest, slash()) == rest,
{
    let p = first + seq!['/'] + rest;
    law_texts_are_cut_at_the_character(first, '/', rest, slash());
    lemma_seek_bounds(p, slash(), true, 0);
    let j = seek(p, slash(), true, 0);
    assert(p[first.len() as int] == '/');
    if j < first.len() {
        assert(p[j] == first[j]);
    }
    assert(j == first.len());
    assert(p.subrange(j, p.len() as int) =~= seq!['/'] + rest);
    lemma_trim_front(rest);
}

/// A source stands for a path whatever the sort of its slashes.
pub proof fn law_slashes_do_not_matter(s: SourceView, path: Seq<char>)
    ensures
        s.covers(path) == s.covers(swap_char(path, '\\', '/')),
{
    let p = swap_char(path, '\\', '/');
    assert(swap_char(p, '\\', '/') =~= p);
}

/// An exact source stands for the path that it names, and for that path below any
/// first component.
pub proof fn law_exact_sources_name_a_path(
    s: SourceView,
    first: Seq<char>,
    rest: Seq<char>,
)
    requires
        s.mode == "exact"@,
        is_part(first),
        is_plain(first),
        is_plain(rest),
        rest.len() > 0,
        rest[0] != '/',
    ensures
        s.covers(first + seq!['/'] + rest) <==> s.pattern == first + seq!['/'] + rest || s.pattern
            == rest,
        s.pattern.len() > 0 ==> (s.covers(first) <==> s.pattern == first),
{
    let p = first + seq!['/'] + rest;
    assert(is_plain(p)) by {
        assert forall|i: int| 0 <= i < p.len() implies !Class::One('\\').holds(#[trigger] p[i]) by {
            if i < first.len() {
                assert(p[i] == first[i]);
            } else if i > first.len() {
                assert(p[i] == rest[i - first.len() - 1]);
            }
        }
    }
    lemma_plain(p);
    lemma_plain(first);
    lemma_inner(first, rest);
    lemma_seek_bounds(first, slash(), true, 0);
    let j = seek(first, slash(), true, 0);
    assert(j == first.len());
    lemma_trim_front(Seq::empty());
    assert(first.subrange(j, first.len() as int) =~= Seq::empty());
    assert(inner(first).len() == 0);
}

/// A source by a part of a path stands for every path that holds it.
pub proof fn law_path_sources_name_a_part(s: SourceView, path: Seq<char>)
    requires
        s.mode == "path"@,
        is_plain(path),
    ensures
        s.covers(path) <==> has(path, s.pattern),
{
    reveal_strlit("path");
    reveal_strlit("exact");
    assert("path"@.len() == 4 && "exact"@.len() == 5);
    lemma_plain(path);
}

/// A source by a prefix without a directory stands for every file whose own name
/// begins with it, wherever it lies.
pub proof fn law_prefix_sources_name_files(s: SourceView, parent: Seq<char>, base: Seq<char>)
    requires
        s.mode != "exact"@,
        s.mode != "path"@,
        is_part(s.pattern),
        is_part(base),
        is_plain(parent),
        is_plain(base),
    ensures
        s.covers(parent + seq!['/'] + base) <==> begins(base, s.pattern),
        s.covers(base) <==> begins(base, s.pattern),
{
    let p = parent + seq!['/'] + base;
    assert(is_plain(p)) by {
        assert forall|i: int| 0 <= i < p.len() implies !Class::One('\\').holds(#[trigger] p[i]) by {
            if i < parent.len() {
                assert(p[i] == parent[i]);
            } else if i > parent.len() {
                assert(p[i] == base[i - parent.len() - 1]);
            }
        }
    }
    lemma_plain(p);
    lemma_plain(base);
    law_texts_without_the_character_stay(s.pattern, slash());
    law_texts_without_the_character_stay(base, slash());
    law_texts_are_cut_at_the_character(parent, '/', base, slash());
}

/// A source by a directory and a prefix stands for the files of that directory whose
/// names begin with the prefix; the directory may lie below any first component.
pub proof fn law_prefix_sources_name_a_directory(
    s: SourceView,
    directory: Seq<char>,
    prefix: Seq<char>,
    first: Seq<char>,
    middle: Seq<char>,
    base: Seq<char>,
)
    requires
        s.mode != "exact"@,
        s.mode != "path"@,
        s.pattern == directory + seq!['/'] + prefix,
        is_part(prefix),
        is_part(first),
        is_part(base),
        is_plain(first),
        is_plain(middle),
        is_plain(base),
        middle.len() > 0,
        middle[0] != '/',
        base.len() > 0,
    ensures
        s.covers(first + seq!['/'] + middle + seq!['/'] + base) <==> begins(base, prefix) && (
        directory == first + seq!['/'] + middle || directory == middle),
        s.covers(first + seq!['/'] + base) <==> begins(base, prefix) && directory == first,
{
    law_texts_are_cut_at_the_character(directory, '/', prefix, slash());
    let rest = middle + seq!['/'] + base;
    let p = first + seq!['/'] + rest;
    assert(first + seq!['/'] + middle + seq!['/'] + base =~= p);
    assert(is_plain(p)) by {
        assert forall|i: int| 0 <= i < p.len() implies !Class::One('\\').holds(#[trigger] p[i]) by {
            let k = i - first.len() - 1;
            if i < first.len() {
                assert(p[i] == first[i]);
            } else if i > first.len() {
                assert(p[i] == rest[k]);
                if k < middle.len() {
                    assert(rest[k] == middle[k]);
                } else if k > middle.len() {
                    assert(rest[k] == base[k - middle.len() - 1]);
                }
            }
        }
    }
    lemma_plain(p);
    lemma_inner(first, rest);
    law_texts_are_cut_at_the_character(middle, '/', base, slash());
    law_texts_are_cut_at_the_character(first + seq!['/'] + middle, '/', base, slash());
    assert(p =~= (first + seq!['/'] + middle) + seq!['/'] + base);
    let q = first + seq!['/'] + base;
    assert(is_plain(q)) by {
        assert forall|i: int| 0 <= i < q.len() implies !Class::One('\\').holds(#[trigger] q[i]) by {
            if i < first.len() {
                assert(q[i] == first[i]);
            } else if i > first.len() {
                assert(q[i] == base[i - first.len() - 1]);
            }
        }
    }
    lemma_plain(q);
    assert(!slash().holds(base[0]));
    lemma_inner(first, base);
    law_texts_are_cut_at_the_character(first, '/', base, slash());
    law_texts_without_the_character_stay(base, slash());
}

} // verus!
