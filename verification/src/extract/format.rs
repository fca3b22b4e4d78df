//! How a raw value becomes the text of a cell.

use crate::engine::time::{compile_plain, found, usable};
use crate::outside::clock::{unix_text, unix_time};
use crate::outside::pattern::{group_at, group_by_index, opt_groups, Pattern, PatternView};
use crate::rules::model::{Field, FieldView};
use crate::text::{concat3, opt_view, parse_signed, same, signed};
use vstd::prelude::*;

verus! {

/// The text of a size for a raw number of bytes or of KiB; none where the raw
/// text is no number.
pub type Sizes = spec_fn(Seq<char>, bool) -> Option<Seq<char>>;

/// Whether a function can be asked for the text of every size and always gives
/// the same answer.
pub open spec fn gives_sizes<F: Fn(&str, bool) -> Option<String>>(f: F) -> bool {
    &&& forall|s: &str, kib: bool| #[trigger] call_requires(f, (s, kib))
    &&& forall|s: &str, t: &str, kib: bool, p: Option<String>, q: Option<String>|
        s@ == t@ && #[trigger] call_ensures(f, (s, kib), p) && #[trigger] call_ensures(
            f,
            (t, kib),
            q,
        ) ==> opt_view(p) == opt_view(q)
}

pub open spec fn answers<F: Fn(&str, bool) -> Option<String>>(
    f: F,
    raw: Seq<char>,
    kib: bool,
    p: Option<String>,
) -> bool {
    exists|s: &str| s@ == raw && #[trigger] call_ensures(f, (s, kib), p)
}

/// The size texts that a function gives.
pub open spec fn sizes_of<F: Fn(&str, bool) -> Option<String>>(f: F) -> Sizes {
    |raw: Seq<char>, kib: bool| opt_view(choose|p: Option<String>| answers(f, raw, kib, p))
}

fn size_text<F: Fn(&str, bool) -> Option<String>>(f: &F, raw: &str, kib: bool) -> (r: Option<
    String,
>)
    requires
        gives_sizes(*f),
    ensures
        opt_view(r) == sizes_of(*f)(raw@, kib),
{
    let r = f(raw, kib);
    proof {
        assert(answers(*f, raw@, kib, r));
        let p = choose|p: Option<String>| answers(*f, raw@, kib, p);
        assert(answers(*f, raw@, kib, p));
        let s = choose|s: &str| s@ == raw@ && #[trigger] call_ensures(*f, (s, kib), p);
        assert(opt_view(p) == opt_view(r));
    }
    r
}

/// The text of the first group of a match, empty where there is none.
pub open spec fn first_group(groups: Option<Seq<Option<Seq<char>>>>) -> Seq<char> {
    match groups {
        Some(g) => match group_at(g, 1) {
            Some(s) => s,
            None => Seq::empty(),
        },
        None => Seq::empty(),
    }
}

/// The part of the raw text that the field's expression captures; the whole
/// where it has none.
pub open spec fn captured(raw: Seq<char>, f: FieldView) -> Seq<char> {
    if f.capture.len() == 0 {
        raw
    } else {
        first_group(found(usable(f.capture), raw))
    }
}

/// The time that a number of seconds since 1970 stands for.
pub open spec fn unix_of(raw: Seq<char>) -> Option<Seq<char>> {
    match signed(raw) {
        Some(n) => unix_time(n as i64),
        None => None,
    }
}

/// The value as the field's format shows it, given the time that it stands for.
pub open spec fn shaped(
    value: Seq<char>,
    f: FieldView,
    time: Option<Seq<char>>,
    sizes: Sizes,
) -> Seq<char> {
    if f.format == "bytes"@ || f.format == "kib"@ {
        match sizes(value, f.format == "kib"@) {
            Some(s) => s,
            None => value,
        }
    } else if f.format == "unix"@ {
        match time {
            Some(s) => s,
            None => value,
        }
    } else {
        value
    }
}

/// The text of a cell with a value, given the time that the value stands for.
pub open spec fn cell_of(
    value: Seq<char>,
    f: FieldView,
    time: Option<Seq<char>>,
    sizes: Sizes,
) -> Seq<char> {
    if value.len() == 0 {
        f.missing
    } else if f.unit.len() == 0 {
        shaped(value, f, time, sizes)
    } else {
        shaped(value, f, time, sizes) + " "@ + f.unit
    }
}

/// The text of a cell.
pub open spec fn cell_text(raw: Seq<char>, f: FieldView, sizes: Sizes) -> Seq<char> {
    cell_of(captured(raw, f), f, unix_of(captured(raw, f)), sizes)
}

/// The expression of a field, where it has one that compiles.
pub open spec fn field_capture(f: FieldView) -> Option<PatternView> {
    if f.capture.len() == 0 {
        None
    } else {
        usable(f.capture)
    }
}

pub fn compile_capture(f: &Field) -> (r: Option<Pattern>)
    ensures
        opt_view(r) == field_capture(f@),
{
    if f.capture.as_str().is_empty() {
        None
    } else {
        compile_plain(f.capture.as_str())
    }
}

fn capture(raw: &str, f: &Field, pattern: &Option<Pattern>) -> (r: String)
    requires
        opt_view(*pattern) == field_capture(f@),
    ensures
        r@ == captured(raw@, f@),
{
    if f.capture.as_str().is_empty() {
        return raw.to_owned();
    }
    let groups = match pattern {
        Some(p) => p.groups(raw),
        None => None,
    };
    group_text(&groups)
}

/// The text of the first group of a match, empty where there is none.
pub fn group_text(groups: &Option<Vec<Option<String>>>) -> (r: String)
    ensures
        r@ == first_group(opt_groups(*groups)),
{
    let none = String::new();
    proof {
        assert(none@ =~= Seq::<char>::empty());
    }
    match groups {
        Some(g) => match group_by_index(g, 1) {
            Some(s) => s,
            None => none,
        },
        None => none,
    }
}

/// The text of a cell with a value, given the time that the value stands for.
pub fn cell<F: Fn(&str, bool) -> Option<String>>(
    value: String,
    f: &Field,
    time: Option<String>,
    sizes: &F,
) -> (r: String)
    requires
        gives_sizes(*sizes),
    ensures
        r@ == cell_of(value@, f@, opt_view(time), sizes_of(*sizes)),
{
    if value.as_str().is_empty() {
        return f.missing.clone();
    }
    let format = f.format.as_str();
    let text = if same(format, "bytes") || same(format, "kib") {
        match size_text(sizes, value.as_str(), same(format, "kib")) {
            Some(s) => s,
            None => value,
        }
    } else if same(format, "unix") {
        match time {
            Some(s) => s,
            None => value,
        }
    } else {
        value
    };
    if f.unit.as_str().is_empty() {
        text
    } else {
        concat3(text.as_str(), " ", f.unit.as_str())
    }
}

/// The text of a cell, with the field's expression compiled before.
pub fn formatted<F: Fn(&str, bool) -> Option<String>>(
    raw: &str,
    f: &Field,
    pattern: &Option<Pattern>,
    sizes: &F,
) -> (r: String)
    requires
        gives_sizes(*sizes),
        opt_view(*pattern) == field_capture(f@),
    ensures
        r@ == cell_text(raw@, f@, sizes_of(*sizes)),
{
    let value = capture(raw, f, pattern);
    let time = if same(f.format.as_str(), "unix") {
        match parse_signed(value.as_str()) {
            Some(n) => unix_text(n),
            None => None,
        }
    } else {
        None
    };
    cell(value, f, time, sizes)
}

} // verus!
