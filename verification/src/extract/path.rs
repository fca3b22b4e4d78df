//! Paths into JSON values.

use crate::outside::json::Json;
use crate::text::{
    begins, chars_of, concat2, concat3, ends_with, finishes, join, joined, occurs_in, same, split,
    split_text, text_of, views, Class,
};
use vstd::prelude::*;

verus! {

/// The text without a prefix, however often it stands there.
pub open spec fn without_prefixes(s: Seq<char>, p: Seq<char>) -> Seq<char>
    decreases s.len(),
{
    if p.len() > 0 && begins(s, p) {
        without_prefixes(s.subrange(p.len() as int, s.len() as int), p)
    } else {
        s
    }
}

/// The text without a suffix, however often it stands there.
pub open spec fn without_suffixes(s: Seq<char>, p: Seq<char>) -> Seq<char>
    decreases s.len(),
{
    if p.len() > 0 && finishes(s, p) {
        without_suffixes(s.subrange(0, s.len() - p.len()), p)
    } else {
        s
    }
}

fn strip_prefixes(s: &str, p: &str) -> (r: String)
    ensures
        r@ == without_prefixes(s@, p@),
{
    let c = chars_of(s);
    let d = chars_of(p);
    let mut i: usize = 0;
    proof {
        assert(s@.subrange(0, s@.len() as int) =~= s@);
    }
    loop
        invariant
            c@ == s@,
            d@ == p@,
            i <= c.len(),
            without_prefixes(s@, p@) == without_prefixes(
                s@.subrange(i as int, s@.len() as int),
                p@,
            ),
        decreases c.len() - i,
    {
        let ghost t = s@.subrange(i as int, s@.len() as int);
        proof {
            if i + p@.len() <= s@.len() {
                assert(t.subrange(0, p@.len() as int) =~= s@.subrange(i as int, i + p@.len()));
                assert(t.subrange(p@.len() as int, t.len() as int) =~= s@.subrange(
                    i + p@.len(),
                    s@.len() as int,
                ));
            }
        }
        if d.len() == 0 || d.len() > c.len() - i || !occurs_in(&c, &d, i) {
            return text_of(&c, i, c.len());
        }
        i += d.len();
    }
}

fn strip_suffixes(s: &str, p: &str) -> (r: String)
    ensures
        r@ == without_suffixes(s@, p@),
{
    let c = chars_of(s);
    let d = chars_of(p);
    let mut n: usize = c.len();
    proof {
        assert(s@.subrange(0, s@.len() as int) =~= s@);
    }
    loop
        invariant
            c@ == s@,
            d@ == p@,
            n <= c.len(),
            without_suffixes(s@, p@) == without_suffixes(s@.subrange(0, n as int), p@),
        decreases n,
    {
        let ghost t = s@.subrange(0, n as int);
        proof {
            if p@.len() <= n {
                assert(t.subrange(t.len() - p@.len(), t.len() as int) =~= s@.subrange(
                    n - p@.len(),
                    n as int,
                ));
                assert(t.subrange(0, t.len() - p@.len()) =~= s@.subrange(0, n - p@.len()));
            }
        }
        if d.len() == 0 || d.len() > n || !occurs_in(&c, &d, n - d.len()) {
            return text_of(&c, 0, n);
        }
        n -= d.len();
    }
}

pub open spec fn member_from(o: Seq<(String, Json)>, key: Seq<char>, i: int) -> Option<Json>
    decreases o.len() - i,
{
    if i >= o.len() {
        None
    } else if o[i].0@ == key {
        Some(o[i].1)
    } else {
        member_from(o, key, i + 1)
    }
}

/// The member of an object with a key.
pub open spec fn member(v: Json, key: Seq<char>) -> Option<Json> {
    match v {
        Json::Object(o, _) => member_from(o@, key, 0),
        _ => None,
    }
}

pub fn find_member<'a>(v: &'a Json, key: &str) -> (r: Option<&'a Json>)
    ensures
        (match r {
            Some(m) => member(*v, key@) == Some(*m),
            None => member(*v, key@) is None,
        }),
{
    match v {
        Json::Object(o, _) => {
            let mut i: usize = 0;
            while i < o.len()
                invariant
                    i <= o.len(),
                    member(*v, key@) == member_from(o@, key@, 0),
                    member_from(o@, key@, 0) == member_from(o@, key@, i as int),
                decreases o.len() - i,
            {
                if same(o[i].0.as_str(), key) {
                    return Some(&o[i].1);
                }
                i += 1;
            }
            None
        },
        _ => None,
    }
}

pub open spec fn targets(v: Seq<&Json>) -> Seq<Json> {
    Seq::new(v.len(), |i: int| *v[i])
}

/// What a step of a path leads to from one value: a member, or the elements of
/// an array.
pub open spec fn step_one(v: Json, key: Seq<char>, array: bool) -> Seq<Json> {
    let item = if key.len() == 0 {
        Some(v)
    } else {
        member(v, key)
    };
    match item {
        Some(x) => if array {
            match x {
                Json::Array(a) => a@,
                _ => Seq::empty(),
            }
        } else {
            seq![x]
        },
        None => Seq::empty(),
    }
}

/// What a step leads to from the first `n` values.
pub open spec fn step(values: Seq<Json>, key: Seq<char>, array: bool, n: int) -> Seq<Json>
    decreases n,
{
    if n <= 0 {
        Seq::empty()
    } else {
        step(values, key, array, n - 1) + step_one(values[n - 1], key, array)
    }
}

pub open spec fn step_part(values: Seq<Json>, part: Seq<char>) -> Seq<Json> {
    step(values, without_suffixes(part, "[]"@), finishes(part, "[]"@), values.len() as int)
}

/// What the first `n` steps lead to.
pub open spec fn steps(v: Json, parts: Seq<Seq<char>>, n: int) -> Seq<Json>
    decreases n,
{
    if n <= 0 {
        seq![v]
    } else {
        step_part(steps(v, parts, n - 1), parts[n - 1])
    }
}

/// What a path leads to: steps between points, each a key, with `[]` behind it
/// where an array is to be spread.
pub open spec fn selected(v: Json, path: Seq<char>) -> Seq<Json> {
    if path == ""@ || path == "$"@ {
        seq![v]
    } else {
        let parts = split(without_prefixes(path, "$."@), Class::One('.'));
        steps(v, parts, parts.len() as int)
    }
}

fn push_targets<'a>(out: &mut Vec<&'a Json>, v: &'a Json, key: &str, array: bool)
    ensures
        targets(final(out)@) == targets(old(out)@) + step_one(*v, key@, array),
{
    let ghost was = targets(out@);
    let item = if key.is_empty() {
        Some(v)
    } else {
        find_member(v, key)
    };
    if let Some(x) = item {
        if array {
            if let Json::Array(a) = x {
                let mut i: usize = 0;
                proof {
                    assert(was + a@.take(0) =~= was);
                }
                while i < a.len()
                    invariant
                        i <= a.len(),
                        targets(out@) == was + a@.take(i as int),
                    decreases a.len() - i,
                {
                    let ghost had = targets(out@);
                    out.push(&a[i]);
                    i += 1;
                    proof {
                        assert(targets(out@) =~= had.push(a@[i - 1]));
                        assert(was + a@.take(i as int) =~= (was + a@.take(i - 1)).push(a@[i - 1]));
                    }
                }
                proof {
                    assert(a@.take(i as int) =~= a@);
                }
            } else {
                proof {
                    assert(was + Seq::<Json>::empty() =~= was);
                }
            }
        } else {
            out.push(x);
            proof {
                assert(targets(out@) =~= was + seq![*x]);
            }
        }
    } else {
        proof {
            assert(was + Seq::<Json>::empty() =~= was);
        }
    }
}

fn take_step<'a>(values: &Vec<&'a Json>, part: &str) -> (r: Vec<&'a Json>)
    ensures
        targets(r@) == step_part(targets(values@), part@),
{
    let array = ends_with(part, "[]");
    let key = strip_suffixes(part, "[]");
    let ghost vv = targets(values@);
    let mut out: Vec<&'a Json> = Vec::new();
    let mut i: usize = 0;
    proof {
        assert(targets(out@) =~= step(vv, key@, array, 0));
    }
    while i < values.len()
        invariant
            i <= values.len(),
            vv == targets(values@),
            targets(out@) == step(vv, key@, array, i as int),
        decreases values.len() - i,
    {
        proof {
            assert(vv[i as int] == *values@[i as int]);
        }
        push_targets(&mut out, values[i], key.as_str(), array);
        i += 1;
    }
    out
}

/// What a path leads to.
pub fn select<'a>(v: &'a Json, path: &str) -> (r: Vec<&'a Json>)
    ensures
        targets(r@) == selected(*v, path@),
{
    let mut values: Vec<&'a Json> = Vec::new();
    values.push(v);
    proof {
        assert(targets(values@) =~= seq![*v]);
    }
    if same(path, "") || same(path, "$") {
        return values;
    }
    let rest = strip_prefixes(path, "$.");
    let parts = split_text(rest.as_str(), Class::One('.'));
    let ghost pv = views(parts@);
    let mut i: usize = 0;
    while i < parts.len()
        invariant
            i <= parts.len(),
            pv == views(parts@),
            targets(values@) == steps(*v, pv, i as int),
        decreases parts.len() - i,
    {
        proof {
            assert(pv[i as int] == parts@[i as int]@);
        }
        values = take_step(&values, parts[i].as_str());
        i += 1;
    }
    values
}

/// The text of a value: elements of an array stand on lines of their own.
pub open spec fn json_text(v: Json) -> Seq<char>
    decreases v, 0int,
{
    match v {
        Json::Null => Seq::empty(),
        Json::Text(s) => s@,
        Json::Scalar(s) => s@,
        Json::Object(_, s) => s@,
        Json::Array(a) => joined(json_texts(a@, a@.len() as int), "\n"@),
    }
}

/// The texts of the first `n` values.
pub open spec fn json_texts(a: Seq<Json>, n: int) -> Seq<Seq<char>>
    decreases a, n,
{
    if n <= 0 || n > a.len() {
        Seq::empty()
    } else {
        json_texts(a, n - 1).push(json_text(a[n - 1]))
    }
}

pub fn val(v: &Json) -> (r: String)
    ensures
        r@ == json_text(*v),
    decreases v,
{
    match v {
        Json::Null => {
            let s = String::new();
            proof {
                assert(s@ =~= Seq::<char>::empty());
            }
            s
        },
        Json::Text(s) => s.clone(),
        Json::Scalar(s) => s.clone(),
        Json::Object(_, s) => s.clone(),
        Json::Array(a) => {
            let mut texts: Vec<String> = Vec::new();
            let mut i: usize = 0;
            proof {
                assert(views(texts@) =~= json_texts(a@, 0));
            }
            while i < a.len()
                invariant
                    i <= a.len(),
                    views(texts@) == json_texts(a@, i as int),
                    *v == Json::Array(*a),
                decreases a.len() - i,
            {
                let ghost was = views(texts@);
                proof {
                    assert(decreases_to!(*v => (*v)->Array_0));
                    assert(decreases_to!(*a => a@));
                    assert(decreases_to!(a@ => a@[i as int]));
                }
                let t = val(&a[i]);
                let ghost tv = t@;
                texts.push(t);
                proof {
                    assert(views(texts@) =~= was.push(tv));
                }
                i += 1;
            }
            join(&texts, "\n")
        },
    }
}

pub open spec fn below(prefix: Seq<char>, key: Seq<char>) -> Seq<char> {
    if prefix.len() == 0 {
        key
    } else {
        prefix + "."@ + key
    }
}

/// The paths of the values that are neither objects nor arrays; an array is
/// entered at its first element.
pub open spec fn leaf_paths(v: Json, prefix: Seq<char>) -> Seq<Seq<char>>
    decreases v, 0int,
{
    match v {
        Json::Object(o, _) => member_paths(o@, prefix, o@.len() as int),
        Json::Array(a) => if a@.len() > 0 {
            leaf_paths(a@[0], prefix + "[]"@)
        } else {
            Seq::empty()
        },
        _ => seq![prefix],
    }
}

/// The paths below the first `n` members.
pub open spec fn member_paths(o: Seq<(String, Json)>, prefix: Seq<char>, n: int) -> Seq<Seq<char>>
    decreases o, n,
{
    if n <= 0 || n > o.len() {
        Seq::empty()
    } else {
        member_paths(o, prefix, n - 1) + leaf_paths(o[n - 1].1, below(prefix, o[n - 1].0@))
    }
}

/// Lists the paths that a field can take its value from.
pub fn json_paths(v: &Json, prefix: &str, out: &mut Vec<String>)
    ensures
        views(final(out)@) == views(old(out)@) + leaf_paths(*v, prefix@),
    decreases v,
{
    let ghost start = views(out@);
    match v {
        Json::Object(o, _) => {
            let mut i: usize = 0;
            proof {
                assert(start + member_paths(o@, prefix@, 0) =~= start);
            }
            while i < o.len()
                invariant
                    i <= o.len(),
                    v matches Json::Object(w, _) && *o == w,
                    views(out@) == start + member_paths(o@, prefix@, i as int),
                decreases o.len() - i,
            {
                let name = if prefix.is_empty() {
                    o[i].0.clone()
                } else {
                    concat3(prefix, ".", o[i].0.as_str())
                };
                proof {
                    assert(decreases_to!(*v => (*v)->Object_0));
                    assert(decreases_to!(*o => o@));
                    assert(decreases_to!(o@ => o@[i as int]));
                    assert(decreases_to!(o@[i as int] => o@[i as int].1));
                }
                let ghost was = views(out@);
                json_paths(&o[i].1, name.as_str(), out);
                proof {
                    assert(views(out@) =~= start + member_paths(o@, prefix@, i + 1));
                }
                i += 1;
            }
        },
        Json::Array(a) => {
            if a.len() > 0 {
                let name = concat2(prefix, "[]");
                proof {
                    assert(decreases_to!(*v => (*v)->Array_0));
                    assert(decreases_to!(*a => a@));
                    assert(decreases_to!(a@ => a@[0]));
                }
                json_paths(&a[0], name.as_str(), out);
            } else {
                proof {
                    assert(start + Seq::<Seq<char>>::empty() =~= start);
                }
            }
        },
        _ => {
            out.push(prefix.to_owned());
            proof {
                assert(views(out@) =~= start + seq![prefix@]);
            }
        },
    }
}

} // verus!
