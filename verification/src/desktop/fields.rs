//! The columns of a table in the rule editor.

use crate::desktop::form::{choice, pos, texts};
use crate::rules::model::{Field, FieldView};
use crate::text::{after_prefix, concat2, parse_unsigned, strip_prefix, unsigned, views, Duplicate};
use vstd::prelude::*;

verus! {

/// The formats that a column is shown in, in the order of the list.
pub open spec fn formats() -> Seq<Seq<char>> {
    seq![""@, "bytes"@, "unix"@, "kib"@]
}

/// How a column is shown, in the order of the list.
pub open spec fn field_views() -> Seq<Seq<char>> {
    seq![""@, "cards"@, "table"@]
}

/// The name of a format.
pub fn format_at(i: usize) -> (r: String)
    ensures
        r@ == if i < formats().len() {
            formats()[i as int]
        } else {
            ""@
        },
{
    match i {
        1 => "bytes".to_owned(),
        2 => "unix".to_owned(),
        3 => "kib".to_owned(),
        _ => "".to_owned(),
    }
}

fn field_view_at(i: usize) -> (r: String)
    requires
        i < field_views().len(),
    ensures
        r@ == field_views()[i as int],
{
    match i {
        1 => "cards".to_owned(),
        2 => "table".to_owned(),
        _ => "".to_owned(),
    }
}

/// The place of a format in its list.
pub fn format_place(s: &str) -> (r: i32)
    ensures
        r == choice(s@, formats()),
{
    let a = ["", "bytes", "unix", "kib"];
    proof {
        assert(texts(a@) =~= formats());
    }
    pos(s, &a)
}

/// The place of a column's view in its list.
pub fn field_view_place(s: &str) -> (r: i32)
    ensures
        r == choice(s@, field_views()),
{
    let a = ["", "cards", "table"];
    proof {
        assert(texts(a@) =~= field_views());
    }
    pos(s, &a)
}

/// The form of a column.
#[derive(Clone, Debug)]
pub struct FieldForm {
    pub name: String,
    pub path: String,
    pub format: i32,
    pub unit: String,
    pub missing: String,
    pub wide: bool,
    pub view: i32,
    pub capture: String,
}

impl FieldForm {
    /// Whether the lists of the form stand at one of their entries.
    pub open spec fn wf(self) -> bool {
        0 <= self.format < formats().len() && 0 <= self.view < field_views().len()
    }

    /// The column that the form stands for.
    pub open spec fn column(self) -> FieldView {
        FieldView {
            name: self.name@,
            path: self.path@,
            format: formats()[self.format as int],
            unit: self.unit@,
            missing: self.missing@,
            wide: self.wide,
            view: field_views()[self.view as int],
            capture: self.capture@,
        }
    }
}

/// The columns with one of them replaced; as they are where there is none.
pub open spec fn with_column(fields: Seq<FieldView>, i: i32, f: FieldView) -> Seq<FieldView> {
    if 0 <= i < fields.len() {
        fields.update(i as int, f)
    } else {
        fields
    }
}

/// Takes over the form of a column.
pub fn save_field(fields: &mut Vec<Field>, i: i32, form: &FieldForm)
    requires
        form.wf(),
    ensures
        views(final(fields)@) == with_column(views(old(fields)@), i, form.column()),
{
    let ghost fv = views(fields@);
    proof {
        assert(fv.len() == fields.len());
    }
    if i < 0 || i as usize >= fields.len() {
        return;
    }
    let f = Field {
        name: form.name.clone(),
        path: form.path.clone(),
        format: format_at(form.format as usize),
        unit: form.unit.clone(),
        missing: form.missing.clone(),
        wide: form.wide,
        view: field_view_at(form.view as usize),
        capture: form.capture.clone(),
    };
    proof {
        assert(f@ =~= form.column());
    }
    let ghost new = f@;
    fields.set(i as usize, f);
    proof {
        assert(views(fields@) =~= fv.update(i as int, new));
    }
}

/// The form of a column: of none where there is no such column.
pub open spec fn shown_column(fields: Seq<FieldView>, i: i32) -> FieldView {
    if 0 <= i < fields.len() {
        fields[i as int]
    } else {
        blank_column()
    }
}

/// A column with nothing filled in.
pub open spec fn blank_column() -> FieldView {
    FieldView {
        name: Seq::empty(),
        path: Seq::empty(),
        format: Seq::empty(),
        unit: Seq::empty(),
        missing: Seq::empty(),
        wide: false,
        view: Seq::empty(),
        capture: Seq::empty(),
    }
}

fn blank_field() -> (r: Field)
    ensures
        r@ == blank_column(),
{
    let f = Field {
        name: String::new(),
        path: String::new(),
        format: String::new(),
        unit: String::new(),
        missing: String::new(),
        wide: false,
        view: String::new(),
        capture: String::new(),
    };
    proof {
        assert(f@ =~= blank_column());
    }
    f
}

/// The column that stands at a place of the list when it was asked for another:
/// the nearest there is, none in an empty list.
pub open spec fn nearest(len: int, i: int) -> int {
    if len == 0 {
        -1
    } else if i < 0 {
        0
    } else if i >= len {
        len - 1
    } else {
        i
    }
}

/// The column that is shown.
pub fn field_index(fields: &Vec<Field>, i: i32) -> (r: i32)
    requires
        fields.len() <= i32::MAX,
    ensures
        r == nearest(fields.len() as int, i as int),
{
    if fields.len() == 0 {
        -1
    } else if i < 0 {
        0
    } else if i as usize >= fields.len() {
        (fields.len() - 1) as i32
    } else {
        i
    }
}

/// What the form shows of a column.
pub fn load_field(fields: &Vec<Field>, i: i32) -> (r: FieldForm)
    ensures
        r.wf(),
        ({
            let f = shown_column(views(fields@), i);
            &&& r.name@ == f.name
            &&& r.path@ == f.path
            &&& r.format == choice(f.format, formats())
            &&& r.unit@ == f.unit
            &&& r.missing@ == f.missing
            &&& r.wide == f.wide
            &&& r.view == choice(f.view, field_views())
            &&& r.capture@ == f.capture
        }),
{
    proof {
        assert(views(fields@).len() == fields.len());
        crate::text::lemma_index_from(formats(), shown_column(views(fields@), i).format, 0);
        crate::text::lemma_index_from(field_views(), shown_column(views(fields@), i).view, 0);
    }
    let f = if 0 <= i && (i as usize) < fields.len() {
        fields[i as usize].duplicate()
    } else {
        blank_field()
    };
    FieldForm {
        format: format_place(f.format.as_str()),
        view: field_view_place(f.view.as_str()),
        name: f.name,
        path: f.path,
        unit: f.unit,
        missing: f.missing,
        wide: f.wide,
        capture: f.capture,
    }
}

/// A column after one of its cells was edited: its name, its path, which is
/// taken relative to the selector, or its format by its place in the list.
pub open spec fn edited(
    f: FieldView,
    column: i32,
    value: Seq<char>,
    selector: Seq<char>,
) -> Option<FieldView> {
    if column == 0 {
        Some(FieldView { name: value, ..f })
    } else if column == 1 {
        Some(
            FieldView {
                path: match after_prefix(value, selector + "."@) {
                    Some(rest) => rest,
                    None => value,
                },
                ..f
            },
        )
    } else if column == 2 {
        Some(
            FieldView {
                format: match unsigned(value, usize::MAX as nat) {
                    Some(n) => if n < formats().len() {
                        formats()[n as int]
                    } else {
                        ""@
                    },
                    None => ""@,
                },
                ..f
            },
        )
    } else {
        None
    }
}

/// Edits a cell of a column, and tells whether there is one to edit.
pub fn edit_field(
    fields: &mut Vec<Field>,
    index: i32,
    column: i32,
    value: &str,
    selector: &str,
) -> (r: bool)
    ensures
        ({
            let s = views(old(fields)@);
            let new = edited(s[index as int], column, value@, selector@);
            &&& r == (0 <= index < s.len() && new is Some)
            &&& views(final(fields)@) == if r {
                s.update(index as int, new->0)
            } else {
                s
            }
        }),
{
    let ghost s = views(fields@);
    proof {
        assert(s.len() == fields.len());
    }
    if index < 0 || index as usize >= fields.len() || column < 0 || column > 2 {
        return false;
    }
    let mut f = fields[index as usize].duplicate();
    proof {
        assert(s[index as int] == fields@[index as int]@);
    }
    if column == 0 {
        f.name = value.to_owned();
    } else if column == 1 {
        let prefix = concat2(selector, ".");
        f.path = match strip_prefix(value, prefix.as_str()) {
            Some(rest) => rest,
            None => value.to_owned(),
        };
    } else {
        f.format = match parse_unsigned(value, usize::MAX as u64) {
            Some(n) => format_at(n as usize),
            None => "".to_owned(),
        };
    }
    let ghost new = f@;
    proof {
        assert(Some(new) =~= edited(s[index as int], column, value@, selector@));
    }
    fields.set(index as usize, f);
    proof {
        assert(views(fields@) =~= s.update(index as int, new));
    }
    true
}

/// Adds an empty column at the end.
pub fn new_field(fields: &mut Vec<Field>)
    ensures
        views(final(fields)@) == views(old(fields)@).push(blank_column()),
{
    let ghost s = views(fields@);
    fields.push(blank_field());
    proof {
        assert(views(fields@) =~= s.push(blank_column()));
    }
}

/// Deletes the column of a row of the list, and tells whether there is one.
pub fn delete_field(fields: &mut Vec<Field>, index: i32) -> (r: bool)
    ensures
        ({
            let s = views(old(fields)@);
            &&& r == (0 <= index < s.len())
            &&& views(final(fields)@) == if r {
                s.remove(index as int)
            } else {
                s
            }
        }),
{
    let ghost s = views(fields@);
    proof {
        assert(s.len() == fields.len());
    }
    if index < 0 || index as usize >= fields.len() {
        return false;
    }
    fields.remove(index as usize);
    proof {
        assert(views(fields@) =~= s.remove(index as int));
    }
    true
}

/// The columns with two of them exchanged.
pub open spec fn exchanged(s: Seq<FieldView>, i: int, j: int) -> Seq<FieldView> {
    s.update(i, s[j]).update(j, s[i])
}

/// Moves the column that is shown past as many others, and gives its new place.
pub fn move_field(fields: &mut Vec<Field>, i: i32, delta: i32) -> (r: Option<i32>)
    requires
        i < old(fields).len(),
    ensures
        ({
            let s = views(old(fields)@);
            let j = i + delta;
            if i >= 0 && 0 <= j < s.len() {
                r == Some(j as i32) && views(final(fields)@) == exchanged(s, i as int, j)
            } else {
                r is None && views(final(fields)@) == s
            }
        }),
{
    let ghost s = views(fields@);
    proof {
        assert(s.len() == fields.len());
    }
    let j: i64 = i as i64 + delta as i64;
    if i < 0 || j < 0 || j as u64 >= fields.len() as u64 {
        return None;
    }
    let a = fields[i as usize].duplicate();
    let b = fields[j as usize].duplicate();
    let ghost av = a@;
    let ghost bv = b@;
    fields.set(i as usize, b);
    proof {
        assert(views(fields@) =~= s.update(i as int, bv));
    }
    fields.set(j as usize, a);
    proof {
        assert(views(fields@) =~= exchanged(s, i as int, j as int));
    }
    Some(j as i32)
}

} // verus!
