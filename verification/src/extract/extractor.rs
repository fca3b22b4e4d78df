//! The extraction of a table from a source text.

use crate::extract::format::{
    cell_text, compile_capture, field_capture, formatted, gives_sizes, sizes_of, Sizes,
};
use crate::extract::model::{StorageContext, StorageContextView, Table, TableView};
use crate::extract::path::{find_member, json_text, member, select, selected, targets, val};
use crate::fault::{refusal, Fault, FaultKind, FaultView};
use crate::outside::json::{json_value, parse_json, Json};
use crate::outside::pattern::{
    compile, group_at, group_by_index, group_by_name, group_named, group_views, pattern_fault,
    pattern_names, pattern_rows, row_views, Pattern, PatternView,
};
use crate::row::{get, has_text, pair_views, put, Row, RowView};
use crate::rules::merge::{given, lookup};
use crate::rules::model::{Field, FieldView, SystemRule, SystemRuleView};
use crate::text::{
    after_prefix, any, blank, chars_of, concat2, cut, duplicate_all, find_back, find_back_in, has,
    contains, is_blank, kept, lines, lines_of, lower, lower_text, opt_view, parse_unsigned, same,
    same_ignoring_case, seek, seek_in, split_at_from, split_at_text, split_once, strip_prefix,
    text_of, trim, trimmed, unsigned, views, Class, Duplicate,
};
use vstd::prelude::*;
use vstd::string::*;

verus! {

/// The row that the first `n` fields make of their raw values.
pub open spec fn filled(
    fields: Seq<FieldView>,
    raws: Seq<Seq<char>>,
    sizes: Sizes,
    n: int,
) -> RowView
    decreases n,
{
    if n <= 0 {
        Seq::empty()
    } else {
        put(
            filled(fields, raws, sizes, n - 1),
            fields[n - 1].name,
            cell_text(raws[n - 1], fields[n - 1], sizes),
        )
    }
}

/// The row that the fields make of their raw values.
pub open spec fn row_of(fields: Seq<FieldView>, raws: Seq<Seq<char>>, sizes: Sizes) -> RowView {
    filled(fields, raws, sizes, fields.len() as int)
}

pub open spec fn or_empty(o: Option<Seq<char>>) -> Seq<char> {
    match o {
        Some(s) => s,
        None => Seq::empty(),
    }
}

/// The raw value of a field: its path starts at the item, at the object around
/// it, or at the root.
pub open spec fn json_raw(root: Json, parent: Json, item: Json, path: Seq<char>) -> Seq<char> {
    let (v, p) = match after_prefix(path, "$root."@) {
        Some(p) => (root, p),
        None => match after_prefix(path, "$parent."@) {
            Some(p) => (parent, p),
            None => (item, path),
        },
    };
    if selected(v, p).len() > 0 {
        json_text(selected(v, p)[0])
    } else {
        Seq::empty()
    }
}

pub open spec fn json_raws(root: Json, parent: Json, item: Json, fields: Seq<FieldView>) -> Seq<
    Seq<char>,
> {
    Seq::new(fields.len(), |i: int| json_raw(root, parent, item, fields[i].path))
}

/// The rows of the first `n` items of an object.
pub open spec fn item_rows(
    root: Json,
    parent: Json,
    items: Seq<Json>,
    fields: Seq<FieldView>,
    sizes: Sizes,
    n: int,
) -> Seq<RowView>
    decreases n,
{
    if n <= 0 {
        Seq::empty()
    } else {
        item_rows(root, parent, items, fields, sizes, n - 1).push(
            row_of(fields, json_raws(root, parent, items[n - 1], fields), sizes),
        )
    }
}

/// The rows below the first `n` objects.
pub open spec fn parent_rows(
    root: Json,
    parents: Seq<Json>,
    child: Seq<char>,
    fields: Seq<FieldView>,
    sizes: Sizes,
    n: int,
) -> Seq<RowView>
    decreases n,
{
    if n <= 0 {
        Seq::empty()
    } else {
        let items = selected(parents[n - 1], child);
        parent_rows(root, parents, child, fields, sizes, n - 1) + item_rows(
            root,
            parents[n - 1],
            items,
            fields,
            sizes,
            items.len() as int,
        )
    }
}

/// The selector up to its last spread array, and what follows it.
pub open spec fn selector_parts(selector: Seq<char>) -> (Seq<char>, Seq<char>) {
    match find_back(selector, "[]."@, selector.len() - "[]."@.len()) {
        Some(j) => (
            selector.subrange(0, j) + "[]"@,
            selector.subrange(j + "[]."@.len(), selector.len() as int),
        ),
        None => (Seq::empty(), selector),
    }
}

pub open spec fn member_or_null(v: Json, key: Seq<char>) -> Json {
    match member(v, key) {
        Some(m) => m,
        None => Json::Null,
    }
}

/// The text of a member that is a string.
pub open spec fn member_string(v: Json, key: Seq<char>) -> Option<Seq<char>> {
    match member(v, key) {
        Some(Json::Text(s)) => Some(s@),
        _ => None,
    }
}

/// The first `n` members with their texts.
pub open spec fn detail_pairs(o: Seq<(String, Json)>, n: int) -> Seq<(Seq<char>, Seq<char>)>
    decreases n,
{
    if n <= 0 {
        Seq::empty()
    } else {
        detail_pairs(o, n - 1).push((o[n - 1].0@, json_text(o[n - 1].1)))
    }
}

pub open spec fn details_of(info: Json) -> Seq<(Seq<char>, Seq<char>)> {
    match info {
        Json::Object(o, _) => detail_pairs(o@, o@.len() as int),
        _ => Seq::empty(),
    }
}

/// The disk that a row is about.
pub open spec fn disk_context(disk: Json, device: usize) -> StorageContextView {
    let info = member_or_null(disk, "disk_info"@);
    StorageContextView {
        device,
        pool: or_empty(member_string(info, "used_for"@)),
        label: match member_string(info, "label"@) {
            Some(s) => s,
            None => match member_string(info, "name"@) {
                Some(s) => s,
                None => "未命名硬盘"@,
            },
        },
        raid: Seq::empty(),
        details: details_of(info),
    }
}

/// The disks of the first `n` items of an object.
pub open spec fn item_disks(
    parent: Json,
    p: int,
    items: Seq<Json>,
    whole: bool,
    n: int,
) -> Seq<StorageContextView>
    decreases n,
{
    if n <= 0 {
        Seq::empty()
    } else {
        item_disks(parent, p, items, whole, n - 1).push(
            if whole {
                disk_context(items[n - 1], (n - 1) as usize)
            } else {
                disk_context(parent, p as usize)
            },
        )
    }
}

/// The disks below the first `n` objects.
pub open spec fn parent_disks(parents: Seq<Json>, child: Seq<char>, whole: bool, n: int) -> Seq<
    StorageContextView,
>
    decreases n,
{
    if n <= 0 {
        Seq::empty()
    } else {
        let items = selected(parents[n - 1], child);
        parent_disks(parents, child, whole, n - 1) + item_disks(
            parents[n - 1],
            n - 1,
            items,
            whole,
            items.len() as int,
        )
    }
}

pub open spec fn shows_disks(view: Seq<char>) -> bool {
    view == "storage"@ || view == "storage-smart"@
}

/// The raw value of a field of a match: a group by its number or by its name.
pub open spec fn group_raw(
    names: Seq<Option<Seq<char>>>,
    groups: Seq<Option<Seq<char>>>,
    path: Seq<char>,
) -> Seq<char> {
    or_empty(
        match unsigned(path, usize::MAX as nat) {
            Some(i) => group_at(groups, i as int),
            None => group_named(names, groups, path),
        },
    )
}

pub open spec fn group_raws(
    names: Seq<Option<Seq<char>>>,
    groups: Seq<Option<Seq<char>>>,
    fields: Seq<FieldView>,
) -> Seq<Seq<char>> {
    Seq::new(fields.len(), |i: int| group_raw(names, groups, fields[i].path))
}

pub open spec fn match_rows(
    names: Seq<Option<Seq<char>>>,
    found: Seq<Seq<Option<Seq<char>>>>,
    fields: Seq<FieldView>,
    sizes: Sizes,
) -> Seq<RowView> {
    Seq::new(found.len(), |i: int| row_of(fields, group_raws(names, found[i], fields), sizes))
}

/// The keys and values of the first `n` lines that have a colon.
pub open spec fn line_pairs(ls: Seq<Seq<char>>, n: int) -> Seq<(Seq<char>, Seq<char>)>
    decreases n,
{
    if n <= 0 {
        Seq::empty()
    } else {
        line_pairs(ls, n - 1) + (match cut(trim(ls[n - 1], Class::White), Class::One(':')) {
            Some((k, v)) => seq![(trim(k, Class::White), trim(v, Class::White))],
            None => Seq::empty(),
        })
    }
}

pub open spec fn trims_to(s: Seq<char>) -> spec_fn(Seq<char>) -> bool {
    |l: Seq<char>| trim(l, Class::White) == s
}

pub open spec fn looked_up(pairs: Seq<(Seq<char>, Seq<char>)>, fields: Seq<FieldView>) -> Seq<
    Seq<char>,
> {
    Seq::new(fields.len(), |i: int| or_empty(lookup(pairs, fields[i].path)))
}

pub open spec fn some_text(raws: Seq<Seq<char>>) -> bool {
    exists|i: int| 0 <= i < raws.len() && (#[trigger] raws[i]).len() > 0
}

/// The row of a block of keys and values, where the block is asked for and one
/// of the fields is in it.
pub open spec fn chunk_row(
    chunk: Seq<char>,
    selector: Seq<char>,
    fields: Seq<FieldView>,
    sizes: Sizes,
) -> Seq<RowView> {
    let ls = lines(chunk);
    let raws = looked_up(line_pairs(ls, ls.len() as int), fields);
    if (selector.len() == 0 || any(ls, trims_to(selector))) && some_text(raws) {
        seq![row_of(fields, raws, sizes)]
    } else {
        Seq::empty()
    }
}

/// The rows of the first `n` blocks.
pub open spec fn chunk_rows(
    chunks: Seq<Seq<char>>,
    selector: Seq<char>,
    fields: Seq<FieldView>,
    sizes: Sizes,
    n: int,
) -> Seq<RowView>
    decreases n,
{
    if n <= 0 {
        Seq::empty()
    } else {
        chunk_rows(chunks, selector, fields, sizes, n - 1) + chunk_row(
            chunks[n - 1],
            selector,
            fields,
            sizes,
        )
    }
}

/// The words of a heading line from position `i` on, each with where it starts.
pub open spec fn heads_from(s: Seq<char>, i: int) -> Seq<(int, Seq<char>)>
    decreases s.len() - i,
{
    let a = seek(s, Class::White, false, i);
    let b = seek(s, Class::White, true, a);
    if i < 0 || a < i || a >= s.len() || b <= a || b > s.len() {
        Seq::empty()
    } else {
        seq![(a, s.subrange(a, b))] + heads_from(s, b)
    }
}

/// The text of a line below a heading, up to the next heading.
pub open spec fn column_cell(line: Seq<char>, heads: Seq<(int, Seq<char>)>, i: int) -> Seq<char> {
    let from = heads[i].0;
    let next = if i + 1 < heads.len() {
        heads[i + 1].0
    } else {
        line.len() as int
    };
    let to = if next < line.len() {
        next
    } else {
        line.len() as int
    };
    if from < to {
        trim(line.subrange(from, to), Class::White)
    } else {
        Seq::empty()
    }
}

pub open spec fn column_pairs(line: Seq<char>, heads: Seq<(int, Seq<char>)>) -> Seq<
    (Seq<char>, Seq<char>),
> {
    Seq::new(heads.len(), |i: int| (heads[i].1, column_cell(line, heads, i)))
}

/// A row to which a line without a first column adds: its texts go on new lines
/// of the cells.
pub open spec fn continued(
    row: RowView,
    pairs: Seq<(Seq<char>, Seq<char>)>,
    fields: Seq<FieldView>,
    n: int,
) -> RowView
    decreases n,
{
    if n <= 0 {
        row
    } else {
        let r = continued(row, pairs, fields, n - 1);
        let f = fields[n - 1];
        match lookup(pairs, f.path) {
            Some(v) => if v.len() > 0 {
                put(r, f.name, or_empty(get(r, f.name)) + "\n"@ + v)
            } else {
                r
            },
            None => r,
        }
    }
}

/// The rows so far, the last of which may still be continued.
pub open spec fn column_rows(
    heads: Seq<(int, Seq<char>)>,
    ls: Seq<Seq<char>>,
    fields: Seq<FieldView>,
    sizes: Sizes,
    n: int,
) -> Seq<RowView>
    decreases n,
{
    if n <= 1 {
        Seq::empty()
    } else {
        let rows = column_rows(heads, ls, fields, sizes, n - 1);
        let line = ls[n - 1];
        let pairs = column_pairs(line, heads);
        if blank(line) {
            rows
        } else if heads.len() == 0 || or_empty(lookup(pairs, heads[0].1)).len() == 0 {
            if rows.len() > 0 {
                rows.drop_last().push(continued(rows.last(), pairs, fields, fields.len() as int))
            } else {
                rows
            }
        } else {
            rows.push(row_of(fields, looked_up(pairs, fields), sizes))
        }
    }
}

/// Whether a rule is about block devices.
pub open spec fn lists_devices(r: SystemRuleView) -> bool {
    ||| lower(r.id) == lower("block"@)
    ||| has(lower(r.id), "lsblk"@)
    ||| has(lower(r.name), "lsblk"@)
    ||| has(lower(r.source.pattern), "lsblk"@)
}

pub open spec fn keeps_row() -> spec_fn(RowView) -> bool {
    |r: RowView| has_text(r)
}

/// A table with its rows: one without disks keeps only rows with a text, and
/// one without rows says what is missing.
pub open spec fn table_of(
    r: SystemRuleView,
    text: Seq<char>,
    source: Seq<char>,
    rows: Seq<RowView>,
    storage: Seq<StorageContextView>,
) -> TableView {
    let left = if storage.len() == 0 {
        kept(rows, keeps_row(), 0)
    } else {
        rows
    };
    TableView {
        id: r.id,
        name: r.name,
        group: r.group,
        view: r.view,
        fields: r.fields,
        rows: left,
        storage,
        raw_text: if lists_devices(r) {
            text
        } else {
            Seq::empty()
        },
        source,
        warning: if left.len() == 0 {
            r.missing
        } else {
            Seq::empty()
        },
    }
}

/// The JSON that a source is read as.
pub open spec fn root_of(json: Option<Json>, text: Seq<char>) -> Option<Json> {
    if json is Some {
        json
    } else {
        json_value(text)
    }
}

/// Why nothing can be extracted: an expression that does not compile, a text
/// that is not JSON, or a kind that is not known.
pub open spec fn extract_fault(r: SystemRuleView, text: Seq<char>, json: Option<Json>) -> Option<
    FaultView,
> {
    if r.kind == "regex"@ && pattern_fault(r.pattern, false) is Some {
        Some(refusal(FaultKind::BrokenPattern, pattern_fault(r.pattern, false)->0))
    } else if r.kind == "json"@ && root_of(json, text) is None {
        Some(refusal(FaultKind::NotJson, Seq::empty()))
    } else if !(r.kind == "json"@ || r.kind == "regex"@ || r.kind == "kv"@ || r.kind
        == "sections"@ || r.kind == "columns"@) {
        Some(refusal(FaultKind::ExtractKind, r.kind))
    } else {
        None
    }
}

/// The blocks of a text.
pub open spec fn chunks_of(r: SystemRuleView, text: Seq<char>) -> Seq<Seq<char>> {
    if r.kind == "sections"@ {
        split_at_from(text, "\n\n"@, 0)
    } else {
        seq![text]
    }
}

/// The first line of a text.
pub open spec fn heading(ls: Seq<Seq<char>>) -> Seq<char> {
    if ls.len() > 0 {
        ls[0]
    } else {
        Seq::empty()
    }
}

/// The table that a rule extracts from a source.
pub open spec fn extracted(
    r: SystemRuleView,
    text: Seq<char>,
    source: Seq<char>,
    json: Option<Json>,
    sizes: Sizes,
) -> TableView {
    if r.kind == "json"@ {
        let root = root_of(json, text)->0;
        let (parent, child) = selector_parts(r.selector);
        let parents = selected(root, parent);
        table_of(
            r,
            text,
            source,
            parent_rows(root, parents, child, r.fields, sizes, parents.len() as int),
            if shows_disks(r.view) {
                parent_disks(parents, child, r.view == "storage"@, parents.len() as int)
            } else {
                Seq::empty()
            },
        )
    } else if r.kind == "regex"@ {
        table_of(
            r,
            text,
            source,
            match_rows(
                pattern_names(r.pattern, false),
                pattern_rows(r.pattern, false, text),
                r.fields,
                sizes,
            ),
            Seq::empty(),
        )
    } else if r.kind == "columns"@ {
        let ls = lines(text);
        table_of(
            r,
            text,
            source,
            column_rows(heads_from(heading(ls), 0), ls, r.fields, sizes, ls.len() as int),
            Seq::empty(),
        )
    } else {
        let chunks = chunks_of(r, text);
        table_of(
            r,
            text,
            source,
            chunk_rows(chunks, r.selector, r.fields, sizes, chunks.len() as int),
            Seq::empty(),
        )
    }
}

/// A rule with what was compiled for it.
pub struct PreparedExtractor {
    pub rule: SystemRule,
    pub captures: Vec<Option<Pattern>>,
    pub pattern: Option<Pattern>,
}

impl PreparedExtractor {
    pub open spec fn wf(self) -> bool {
        &&& self.captures.len() == self.rule.fields.len()
        &&& forall|i: int|
            0 <= i < self.captures.len() ==> opt_view(#[trigger] self.captures@[i])
                == field_capture(self.rule.fields@[i]@)
        &&& self.rule.kind@ == "regex"@ ==> pattern_fault(self.rule.pattern@, false) is None
            && opt_view(self.pattern) == Some(
            PatternView { source: self.rule.pattern@, insensitive: false },
        )
    }

    /// Compiles the expressions of a rule; refused where the rule is one
    /// expression and that does not compile.
    pub fn new(rule: &SystemRule) -> (r: Result<Self, Fault>)
        ensures
            (match r {
                Ok(p) => p.wf() && p.rule@ == rule@ && (rule.kind@ == "regex"@ ==> pattern_fault(
                    rule.pattern@,
                    false,
                ) is None),
                Err(f) => rule.kind@ == "regex"@ && pattern_fault(rule.pattern@, false) is Some
                    && f@ == refusal(
                    FaultKind::BrokenPattern,
                    pattern_fault(rule.pattern@, false)->0,
                ),
            }),
    {
        let own = rule.duplicate();
        let mut captures: Vec<Option<Pattern>> = Vec::new();
        let mut i: usize = 0;
        while i < own.fields.len()
            invariant
                i <= own.fields.len(),
                captures.len() == i,
                forall|j: int|
                    0 <= j < i ==> opt_view(#[trigger] captures@[j]) == field_capture(
                        own.fields@[j]@,
                    ),
            decreases own.fields.len() - i,
        {
            captures.push(compile_capture(&own.fields[i]));
            i += 1;
        }
        let pattern = if same(own.kind.as_str(), "regex") {
            match compile(own.pattern.as_str(), false) {
                Ok(p) => Some(p),
                Err(e) => {
                    return Err(Fault::new(FaultKind::BrokenPattern, e.as_str()));
                },
            }
        } else {
            None
        };
        Ok(PreparedExtractor { rule: own, captures, pattern })
    }

    fn row<F: Fn(&str, bool) -> Option<String>>(&self, raws: &Vec<String>, sizes: &F) -> (r: Row)
        requires
            self.wf(),
            gives_sizes(*sizes),
            raws.len() == self.rule.fields.len(),
        ensures
            r@ == row_of(self.rule@.fields, views(raws@), sizes_of(*sizes)),
    {
        let ghost fv = self.rule@.fields;
        let ghost rv = views(raws@);
        let ghost sz = sizes_of(*sizes);
        let mut row = Row::new();
        let mut i: usize = 0;
        while i < raws.len()
            invariant
                self.wf(),
                gives_sizes(*sizes),
                raws.len() == self.rule.fields.len(),
                i <= raws.len(),
                fv == self.rule@.fields,
                rv == views(raws@),
                sz == sizes_of(*sizes),
                row@ == filled(fv, rv, sz, i as int),
            decreases raws.len() - i,
        {
            let f = &self.rule.fields[i];
            proof {
                assert(fv[i as int] == f@);
                assert(rv[i as int] == raws@[i as int]@);
            }
            let text = formatted(raws[i].as_str(), f, &self.captures[i], sizes);
            row.insert(f.name.clone(), text);
            i += 1;
        }
        row
    }
}

fn raw_by_path(root: &Json, parent: &Json, item: &Json, path: &str) -> (r: String)
    ensures
        r@ == json_raw(*root, *parent, *item, path@),
{
    let found = match strip_prefix(path, "$root.") {
        Some(p) => select(root, p.as_str()),
        None => match strip_prefix(path, "$parent.") {
            Some(p) => select(parent, p.as_str()),
            None => select(item, path),
        },
    };
    proof {
        assert(targets(found@).len() == found.len());
    }
    if found.len() > 0 {
        proof {
            assert(targets(found@)[0] == *found@[0]);
        }
        val(found[0])
    } else {
        let s = String::new();
        proof {
            assert(s@ =~= Seq::<char>::empty());
        }
        s
    }
}

fn raws_by_path(root: &Json, parent: &Json, item: &Json, fields: &Vec<Field>) -> (r: Vec<String>)
    ensures
        views(r@) == json_raws(*root, *parent, *item, views(fields@)),
        r.len() == fields.len(),
{
    let mut out: Vec<String> = Vec::new();
    let mut i: usize = 0;
    while i < fields.len()
        invariant
            i <= fields.len(),
            out.len() == i,
            forall|j: int|
                0 <= j < i ==> (#[trigger] out@[j])@ == json_raw(
                    *root,
                    *parent,
                    *item,
                    fields@[j].path@,
                ),
        decreases fields.len() - i,
    {
        out.push(raw_by_path(root, parent, item, fields[i].path.as_str()));
        i += 1;
    }
    proof {
        assert(views(out@) =~= json_raws(*root, *parent, *item, views(fields@)));
    }
    out
}

fn string_member(v: &Json, key: &str) -> (r: Option<String>)
    ensures
        opt_view(r) == member_string(*v, key@),
{
    match find_member(v, key) {
        Some(m) => match m {
            Json::Text(s) => Some(s.clone()),
            _ => None,
        },
        None => None,
    }
}

fn info_details(info: &Json) -> (r: Vec<(String, String)>)
    ensures
        pair_views(r@) == details_of(*info),
{
    let mut out: Vec<(String, String)> = Vec::new();
    proof {
        assert(pair_views(out@) =~= Seq::empty());
    }
    match info {
        Json::Object(o, _) => {
            let mut i: usize = 0;
            while i < o.len()
                invariant
                    i <= o.len(),
                    pair_views(out@) == detail_pairs(o@, i as int),
                decreases o.len() - i,
            {
                let ghost was = pair_views(out@);
                let t = val(&o[i].1);
                let ghost tv = t@;
                out.push((o[i].0.clone(), t));
                proof {
                    assert(pair_views(out@) =~= was.push((o@[i as int].0@, tv)));
                }
                i += 1;
            }
            out
        },
        _ => out,
    }
}

fn context_of_disk(disk: &Json, device: usize) -> (r: StorageContext)
    ensures
        r@ == disk_context(*disk, device),
{
    let null = Json::Null;
    let info = match find_member(disk, "disk_info") {
        Some(m) => m,
        None => &null,
    };
    let none = String::new();
    proof {
        assert(none@ =~= Seq::<char>::empty());
    }
    let pool = match string_member(info, "used_for") {
        Some(s) => s,
        None => none,
    };
    let label = match string_member(info, "label") {
        Some(s) => s,
        None => match string_member(info, "name") {
            Some(s) => s,
            None => "未命名硬盘".to_owned(),
        },
    };
    let raid = String::new();
    let details = info_details(info);
    let r = StorageContext { device, pool, label, raid, details };
    proof {
        assert(r@ =~= disk_context(*disk, device));
    }
    r
}

fn split_selector(selector: &str) -> (r: (String, String))
    ensures
        (r.0@, r.1@) == selector_parts(selector@),
{
    let c = chars_of(selector);
    let d = chars_of("[].");
    match find_back_in(&c, &d) {
        Some(j) => {
            let a = text_of(&c, 0, j);
            (concat2(a.as_str(), "[]"), text_of(&c, j + d.len(), c.len()))
        },
        None => {
            let none = String::new();
            proof {
                assert(none@ =~= Seq::<char>::empty());
            }
            (none, selector.to_owned())
        },
    }
}

impl PreparedExtractor {
    fn rows_of_items<F: Fn(&str, bool) -> Option<String>>(
        &self,
        root: &Json,
        parent: &Json,
        items: &Vec<&Json>,
        sizes: &F,
        rows: &mut Vec<Row>,
    )
        requires
            self.wf(),
            gives_sizes(*sizes),
        ensures
            views(final(rows)@) == views(old(rows)@) + item_rows(
                *root,
                *parent,
                targets(items@),
                self.rule@.fields,
                sizes_of(*sizes),
                items.len() as int,
            ),
    {
        let ghost start = views(rows@);
        let ghost iv = targets(items@);
        let ghost fv = self.rule@.fields;
        let ghost sz = sizes_of(*sizes);
        let mut i: usize = 0;
        proof {
            assert(start + item_rows(*root, *parent, iv, fv, sz, 0) =~= start);
        }
        while i < items.len()
            invariant
                self.wf(),
                gives_sizes(*sizes),
                i <= items.len(),
                iv == targets(items@),
                fv == self.rule@.fields,
                sz == sizes_of(*sizes),
                views(rows@) == start + item_rows(*root, *parent, iv, fv, sz, i as int),
            decreases items.len() - i,
        {
            let ghost was = views(rows@);
            proof {
                assert(iv[i as int] == *items@[i as int]);
            }
            let raws = raws_by_path(root, parent, items[i], &self.rule.fields);
            let row = self.row(&raws, sizes);
            let ghost rv = row@;
            rows.push(row);
            proof {
                assert(views(rows@) =~= was.push(rv));
                assert(views(rows@) =~= start + item_rows(*root, *parent, iv, fv, sz, i + 1));
            }
            i += 1;
        }
    }

    fn json_table<F: Fn(&str, bool) -> Option<String>>(&self, root: &Json, sizes: &F) -> (r: (
        Vec<Row>,
        Vec<StorageContext>,
    ))
        requires
            self.wf(),
            gives_sizes(*sizes),
        ensures
            ({
                let (parent, child) = selector_parts(self.rule.selector@);
                let parents = selected(*root, parent);
                &&& views(r.0@) == parent_rows(
                    *root,
                    parents,
                    child,
                    self.rule@.fields,
                    sizes_of(*sizes),
                    parents.len() as int,
                )
                &&& views(r.1@) == if shows_disks(self.rule.view@) {
                    parent_disks(
                        parents,
                        child,
                        self.rule.view@ == "storage"@,
                        parents.len() as int,
                    )
                } else {
                    Seq::empty()
                }
            }),
    {
        let (parent_path, child_path) = split_selector(self.rule.selector.as_str());
        let ghost child = child_path@;
        let ghost fv = self.rule@.fields;
        let ghost sz = sizes_of(*sizes);
        let whole = same(self.rule.view.as_str(), "storage");
        let disks = whole || same(self.rule.view.as_str(), "storage-smart");
        let parents = select(root, parent_path.as_str());
        let ghost pv = targets(parents@);
        let mut rows: Vec<Row> = Vec::new();
        let mut storage: Vec<StorageContext> = Vec::new();
        let mut i: usize = 0;
        proof {
            assert(views(rows@) =~= parent_rows(*root, pv, child, fv, sz, 0));
            assert(views(storage@) =~= parent_disks(pv, child, whole, 0));
        }
        while i < parents.len()
            invariant
                self.wf(),
                gives_sizes(*sizes),
                i <= parents.len(),
                pv == targets(parents@),
                child == child_path@,
                fv == self.rule@.fields,
                sz == sizes_of(*sizes),
                views(rows@) == parent_rows(*root, pv, child, fv, sz, i as int),
                views(storage@) == if disks {
                    parent_disks(pv, child, whole, i as int)
                } else {
                    Seq::empty()
                },
            decreases parents.len() - i,
        {
            let parent = parents[i];
            proof {
                assert(pv[i as int] == *parent);
            }
            let items = select(parent, child_path.as_str());
            let ghost iv = targets(items@);
            self.rows_of_items(root, parent, &items, sizes, &mut rows);
            if disks {
                let ghost start = views(storage@);
                let mut k: usize = 0;
                proof {
                    assert(start + item_disks(*parent, i as int, iv, whole, 0) =~= start);
                }
                while k < items.len()
                    invariant
                        k <= items.len(),
                        iv == targets(items@),
                        views(storage@) == start + item_disks(
                            *parent,
                            i as int,
                            iv,
                            whole,
                            k as int,
                        ),
                    decreases items.len() - k,
                {
                    let ghost was = views(storage@);
                    proof {
                        assert(iv[k as int] == *items@[k as int]);
                    }
                    let c = if whole {
                        context_of_disk(items[k], k)
                    } else {
                        context_of_disk(parent, i)
                    };
                    let ghost cv = c@;
                    storage.push(c);
                    proof {
                        assert(views(storage@) =~= was.push(cv));
                        assert(views(storage@) =~= start + item_disks(
                            *parent,
                            i as int,
                            iv,
                            whole,
                            k + 1,
                        ));
                    }
                    k += 1;
                }
            }
            i += 1;
        }
        (rows, storage)
    }
}

fn raws_by_group(
    names: &Vec<Option<String>>,
    groups: &Vec<Option<String>>,
    fields: &Vec<Field>,
) -> (r: Vec<String>)
    ensures
        views(r@) == group_raws(group_views(names@), group_views(groups@), views(fields@)),
        r.len() == fields.len(),
{
    let ghost nv = group_views(names@);
    let ghost gv = group_views(groups@);
    let mut out: Vec<String> = Vec::new();
    let mut i: usize = 0;
    while i < fields.len()
        invariant
            i <= fields.len(),
            nv == group_views(names@),
            gv == group_views(groups@),
            out.len() == i,
            forall|j: int|
                0 <= j < i ==> (#[trigger] out@[j])@ == group_raw(nv, gv, fields@[j].path@),
        decreases fields.len() - i,
    {
        let path = fields[i].path.as_str();
        let found = match parse_unsigned(path, usize::MAX as u64) {
            Some(k) => group_by_index(groups, k as usize),
            None => group_by_name(names, groups, path),
        };
        out.push(text_or_none(found));
        i += 1;
    }
    proof {
        assert(views(out@) =~= group_raws(nv, gv, views(fields@)));
    }
    out
}

fn text_or_none(o: Option<String>) -> (r: String)
    ensures
        r@ == or_empty(opt_view(o)),
{
    match o {
        Some(s) => s,
        None => {
            let s = String::new();
            proof {
                assert(s@ =~= Seq::<char>::empty());
            }
            s
        },
    }
}

fn find_value(pairs: &Vec<(String, String)>, key: &str) -> (r: Option<String>)
    ensures
        opt_view(r) == lookup(pair_views(pairs@), key@),
{
    let ghost pv = pair_views(pairs@);
    let mut i: usize = pairs.len();
    while i > 0
        invariant
            i <= pairs.len(),
            pv == pair_views(pairs@),
            lookup(pv, key@) == given(pv, key@, i as int),
        decreases i,
    {
        i -= 1;
        if same(pairs[i].0.as_str(), key) {
            return Some(pairs[i].1.clone());
        }
    }
    None
}

fn raws_by_key(pairs: &Vec<(String, String)>, fields: &Vec<Field>) -> (r: Vec<String>)
    ensures
        views(r@) == looked_up(pair_views(pairs@), views(fields@)),
        r.len() == fields.len(),
{
    let ghost pv = pair_views(pairs@);
    let mut out: Vec<String> = Vec::new();
    let mut i: usize = 0;
    while i < fields.len()
        invariant
            i <= fields.len(),
            pv == pair_views(pairs@),
            out.len() == i,
            forall|j: int|
                0 <= j < i ==> (#[trigger] out@[j])@ == or_empty(lookup(pv, fields@[j].path@)),
        decreases fields.len() - i,
    {
        out.push(text_or_none(find_value(pairs, fields[i].path.as_str())));
        i += 1;
    }
    proof {
        assert(views(out@) =~= looked_up(pv, views(fields@)));
    }
    out
}

fn pairs_of_lines(ls: &Vec<String>) -> (r: Vec<(String, String)>)
    ensures
        pair_views(r@) == line_pairs(views(ls@), ls.len() as int),
{
    let ghost lv = views(ls@);
    let mut out: Vec<(String, String)> = Vec::new();
    let mut i: usize = 0;
    proof {
        assert(pair_views(out@) =~= line_pairs(lv, 0));
    }
    while i < ls.len()
        invariant
            i <= ls.len(),
            lv == views(ls@),
            pair_views(out@) == line_pairs(lv, i as int),
        decreases ls.len() - i,
    {
        let ghost was = pair_views(out@);
        let line = trimmed(ls[i].as_str(), Class::White);
        proof {
            assert(lv[i as int] == ls@[i as int]@);
        }
        if let Some((k, v)) = split_once(line.as_str(), Class::One(':')) {
            let k = trimmed(k.as_str(), Class::White);
            let v = trimmed(v.as_str(), Class::White);
            let ghost cell = (k@, v@);
            out.push((k, v));
            proof {
                assert(pair_views(out@) =~= was + seq![cell]);
            }
        } else {
            proof {
                assert(was + Seq::<(Seq<char>, Seq<char>)>::empty() =~= was);
            }
        }
        i += 1;
    }
    out
}

fn holds_line(ls: &Vec<String>, wanted: &str) -> (r: bool)
    ensures
        r == any(views(ls@), trims_to(wanted@)),
{
    let ghost lv = views(ls@);
    let ghost f = trims_to(wanted@);
    let mut i: usize = 0;
    while i < ls.len()
        invariant
            i <= ls.len(),
            lv == views(ls@),
            f == trims_to(wanted@),
            forall|j: int| 0 <= j < i ==> !f(#[trigger] lv[j]),
        decreases ls.len() - i,
    {
        let line = trimmed(ls[i].as_str(), Class::White);
        let hit = same(line.as_str(), wanted);
        proof {
            assert(hit == f(lv[i as int]));
        }
        if hit {
            return true;
        }
        i += 1;
    }
    false
}

fn any_text(raws: &Vec<String>) -> (r: bool)
    ensures
        r == some_text(views(raws@)),
{
    let ghost rv = views(raws@);
    let mut i: usize = 0;
    while i < raws.len()
        invariant
            i <= raws.len(),
            rv == views(raws@),
            forall|j: int| 0 <= j < i ==> (#[trigger] rv[j]).len() == 0,
        decreases raws.len() - i,
    {
        if !raws[i].as_str().is_empty() {
            proof {
                assert(rv[i as int].len() > 0);
            }
            return true;
        }
        i += 1;
    }
    false
}

impl PreparedExtractor {
    fn match_table<F: Fn(&str, bool) -> Option<String>>(
        &self,
        pattern: &Pattern,
        text: &str,
        sizes: &F,
    ) -> (r: Vec<Row>)
        requires
            self.wf(),
            gives_sizes(*sizes),
        ensures
            views(r@) == match_rows(
                pattern_names(pattern@.source, pattern@.insensitive),
                pattern_rows(pattern@.source, pattern@.insensitive, text@),
                self.rule@.fields,
                sizes_of(*sizes),
            ),
    {
        let names = pattern.names();
        let found = pattern.rows(text);
        self.matched_rows(&names, &found, sizes)
    }

    /// The rows of matches, given the names of the groups and the groups of each
    /// match.
    pub fn matched_rows<F: Fn(&str, bool) -> Option<String>>(
        &self,
        names: &Vec<Option<String>>,
        found: &Vec<Vec<Option<String>>>,
        sizes: &F,
    ) -> (r: Vec<Row>)
        requires
            self.wf(),
            gives_sizes(*sizes),
        ensures
            views(r@) == match_rows(
                group_views(names@),
                row_views(found@),
                self.rule@.fields,
                sizes_of(*sizes),
            ),
    {
        let ghost nv = group_views(names@);
        let ghost ov = row_views(found@);
        let ghost fv = self.rule@.fields;
        let ghost sz = sizes_of(*sizes);
        let mut out: Vec<Row> = Vec::new();
        let mut i: usize = 0;
        proof {
            assert(ov.len() == found.len());
        }
        while i < found.len()
            invariant
                self.wf(),
                gives_sizes(*sizes),
                i <= found.len(),
                nv == group_views(names@),
                ov == row_views(found@),
                fv == self.rule@.fields,
                sz == sizes_of(*sizes),
                out.len() == i,
                forall|j: int|
                    0 <= j < i ==> (#[trigger] out@[j])@ == row_of(
                        fv,
                        group_raws(nv, ov[j], fv),
                        sz,
                    ),
            decreases found.len() - i,
        {
            proof {
                assert(ov[i as int] == group_views(found@[i as int]@));
            }
            let raws = raws_by_group(names, &found[i], &self.rule.fields);
            out.push(self.row(&raws, sizes));
            i += 1;
        }
        proof {
            assert(views(out@) =~= match_rows(nv, ov, fv, sz));
        }
        out
    }

    fn chunk_table<F: Fn(&str, bool) -> Option<String>>(
        &self,
        chunks: &Vec<String>,
        sizes: &F,
    ) -> (r: Vec<Row>)
        requires
            self.wf(),
            gives_sizes(*sizes),
        ensures
            views(r@) == chunk_rows(
                views(chunks@),
                self.rule.selector@,
                self.rule@.fields,
                sizes_of(*sizes),
                chunks.len() as int,
            ),
    {
        let ghost cv = views(chunks@);
        let ghost sel = self.rule.selector@;
        let ghost fv = self.rule@.fields;
        let ghost sz = sizes_of(*sizes);
        let mut out: Vec<Row> = Vec::new();
        let mut i: usize = 0;
        proof {
            assert(views(out@) =~= chunk_rows(cv, sel, fv, sz, 0));
        }
        while i < chunks.len()
            invariant
                self.wf(),
                gives_sizes(*sizes),
                i <= chunks.len(),
                cv == views(chunks@),
                sel == self.rule.selector@,
                fv == self.rule@.fields,
                sz == sizes_of(*sizes),
                views(out@) == chunk_rows(cv, sel, fv, sz, i as int),
            decreases chunks.len() - i,
        {
            let ghost was = views(out@);
            proof {
                assert(cv[i as int] == chunks@[i as int]@);
            }
            let ls = lines_of(chunks[i].as_str());
            if self.rule.selector.as_str().is_empty() || holds_line(
                &ls,
                self.rule.selector.as_str(),
            ) {
                let pairs = pairs_of_lines(&ls);
                let raws = raws_by_key(&pairs, &self.rule.fields);
                if any_text(&raws) {
                    let row = self.row(&raws, sizes);
                    let ghost rv = row@;
                    out.push(row);
                    proof {
                        assert(views(out@) =~= was + seq![rv]);
                    }
                } else {
                    proof {
                        assert(was + Seq::<RowView>::empty() =~= was);
                    }
                }
            } else {
                proof {
                    assert(was + Seq::<RowView>::empty() =~= was);
                }
            }
            proof {
                assert(ls@.len() == views(ls@).len());
                assert(views(out@) =~= chunk_rows(cv, sel, fv, sz, i + 1));
            }
            i += 1;
        }
        out
    }
}

pub open spec fn head_views(v: Seq<(usize, String)>) -> Seq<(int, Seq<char>)> {
    Seq::new(v.len(), |i: int| (v[i].0 as int, v[i].1@))
}

fn heads_of(header: &str) -> (r: Vec<(usize, String)>)
    ensures
        head_views(r@) == heads_from(header@, 0),
{
    let c = chars_of(header);
    let mut out: Vec<(usize, String)> = Vec::new();
    let mut i: usize = 0;
    proof {
        assert(head_views(out@) + heads_from(header@, 0) =~= heads_from(header@, 0));
    }
    loop
        invariant
            c@ == header@,
            i <= c.len(),
            head_views(out@) + heads_from(header@, i as int) == heads_from(header@, 0),
        decreases c.len() - i,
    {
        let a = seek_in(&c, Class::White, false, i);
        if a >= c.len() {
            proof {
                assert(head_views(out@) + heads_from(header@, i as int) =~= head_views(out@));
            }
            return out;
        }
        let b = seek_in(&c, Class::White, true, a);
        proof {
            crate::text::lemma_seek_bounds(header@, Class::White, false, i as int);
            crate::text::lemma_seek_bounds(header@, Class::White, true, a as int);
        }
        let word = text_of(&c, a, b);
        let ghost was = head_views(out@);
        let ghost wv = word@;
        out.push((a, word));
        proof {
            assert(head_views(out@) =~= was.push((a as int, wv)));
            assert(was + heads_from(header@, i as int) =~= head_views(out@) + heads_from(
                header@,
                b as int,
            ));
        }
        i = b;
    }
}

fn cells_of_line(line: &str, heads: &Vec<(usize, String)>) -> (r: Vec<(String, String)>)
    ensures
        pair_views(r@) == column_pairs(line@, head_views(heads@)),
{
    let c = chars_of(line);
    let ghost hv = head_views(heads@);
    let mut out: Vec<(String, String)> = Vec::new();
    let mut i: usize = 0;
    while i < heads.len()
        invariant
            c@ == line@,
            i <= heads.len(),
            hv == head_views(heads@),
            out.len() == i,
            forall|j: int|
                0 <= j < i ==> (#[trigger] out@[j]).0@ == hv[j].1 && out@[j].1@ == column_cell(
                    line@,
                    hv,
                    j,
                ),
        decreases heads.len() - i,
    {
        let from = heads[i].0;
        let next = if i < heads.len() - 1 {
            proof {
                assert(hv[i + 1].0 == heads@[i + 1].0);
            }
            heads[i + 1].0
        } else {
            c.len()
        };
        let to = if next < c.len() {
            next
        } else {
            c.len()
        };
        proof {
            assert(hv[i as int] == (heads@[i as int].0 as int, heads@[i as int].1@));
        }
        let cell = if from < to {
            let raw = text_of(&c, from, to);
            trimmed(raw.as_str(), Class::White)
        } else {
            text_or_none(None)
        };
        out.push((heads[i].1.clone(), cell));
        i += 1;
    }
    proof {
        assert(pair_views(out@) =~= column_pairs(line@, hv));
    }
    out
}

fn continue_row(row: &mut Row, pairs: &Vec<(String, String)>, fields: &Vec<Field>)
    ensures
        final(row)@ == continued(
            old(row)@,
            pair_views(pairs@),
            views(fields@),
            fields.len() as int,
        ),
{
    let ghost start = row@;
    let ghost pv = pair_views(pairs@);
    let ghost fv = views(fields@);
    let mut i: usize = 0;
    while i < fields.len()
        invariant
            i <= fields.len(),
            pv == pair_views(pairs@),
            fv == views(fields@),
            row@ == continued(start, pv, fv, i as int),
        decreases fields.len() - i,
    {
        let f = &fields[i];
        proof {
            assert(fv[i as int] == f@);
        }
        if let Some(v) = find_value(pairs, f.path.as_str()) {
            if !v.as_str().is_empty() {
                let mut cell = match row.get(f.name.as_str()) {
                    Some(t) => t.clone(),
                    None => text_or_none(None),
                };
                cell.append("\n");
                cell.append(v.as_str());
                row.insert(f.name.clone(), cell);
            }
        }
        i += 1;
    }
}

impl PreparedExtractor {
    fn column_table<F: Fn(&str, bool) -> Option<String>>(&self, text: &str, sizes: &F) -> (r: Vec<
        Row,
    >)
        requires
            self.wf(),
            gives_sizes(*sizes),
        ensures
            views(r@) == column_rows(
                heads_from(heading(lines(text@)), 0),
                lines(text@),
                self.rule@.fields,
                sizes_of(*sizes),
                lines(text@).len() as int,
            ),
    {
        let ls = lines_of(text);
        let ghost lv = views(ls@);
        let ghost fv = self.rule@.fields;
        let ghost sz = sizes_of(*sizes);
        let mut out: Vec<Row> = Vec::new();
        proof {
            assert(lv.len() == ls.len());
            assert(views(out@) =~= Seq::<RowView>::empty());
        }
        if ls.len() == 0 {
            return out;
        }
        let heads = heads_of(ls[0].as_str());
        let ghost hv = head_views(heads@);
        proof {
            assert(heading(lv) == ls@[0]@);
        }
        let mut i: usize = 1;
        while i < ls.len()
            invariant
                self.wf(),
                gives_sizes(*sizes),
                1 <= i <= ls.len(),
                lv == views(ls@),
                hv == head_views(heads@),
                fv == self.rule@.fields,
                sz == sizes_of(*sizes),
                views(out@) == column_rows(hv, lv, fv, sz, i as int),
            decreases ls.len() - i,
        {
            let line = ls[i].as_str();
            let ghost was = views(out@);
            proof {
                assert(lv[i as int] == line@);
            }
            if !is_blank(line) {
                let pairs = cells_of_line(line, &heads);
                let ghost pv = pair_views(pairs@);
                proof {
                    assert(heads.len() > 0 ==> hv[0].1 == heads@[0].1@);
                }
                let first = if heads.len() == 0 {
                    text_or_none(None)
                } else {
                    text_or_none(find_value(&pairs, heads[0].1.as_str()))
                };
                if heads.len() == 0 || first.as_str().is_empty() {
                    if out.len() > 0 {
                        let ghost had = out@;
                        let n = out.len() - 1;
                        let mut row = out[n].duplicate();
                        proof {
                            assert(was.last() == had[n as int]@);
                        }
                        continue_row(&mut row, &pairs, &self.rule.fields);
                        let ghost rv = row@;
                        out.set(n, row);
                        proof {
                            assert(views(out@) =~= was.drop_last().push(rv));
                        }
                    }
                } else {
                    let raws = raws_by_key(&pairs, &self.rule.fields);
                    let row = self.row(&raws, sizes);
                    let ghost rv = row@;
                    out.push(row);
                    proof {
                        assert(views(out@) =~= was.push(rv));
                    }
                }
            }
            proof {
                assert(views(out@) =~= column_rows(hv, lv, fv, sz, i + 1));
            }
            i += 1;
        }
        out
    }
}

pub fn is_lsblk_rule(rule: &SystemRule) -> (r: bool)
    ensures
        r == lists_devices(rule@),
{
    same_ignoring_case(rule.id.as_str(), "block") || contains(
        lower_text(rule.id.as_str()).as_str(),
        "lsblk",
    ) || contains(lower_text(rule.name.as_str()).as_str(), "lsblk") || contains(
        lower_text(rule.source.pattern.as_str()).as_str(),
        "lsblk",
    )
}

fn rows_with_text(rows: Vec<Row>) -> (r: Vec<Row>)
    ensures
        views(r@) == kept(views(rows@), keeps_row(), 0),
{
    let ghost rv = views(rows@);
    let ghost f = keeps_row();
    let mut out: Vec<Row> = Vec::new();
    let mut i: usize = 0;
    proof {
        assert(views(out@) + kept(rv, f, 0) =~= kept(rv, f, 0));
    }
    while i < rows.len()
        invariant
            i <= rows.len(),
            rv == views(rows@),
            f == keeps_row(),
            views(out@) + kept(rv, f, i as int) == kept(rv, f, 0),
        decreases rows.len() - i,
    {
        let ghost was = views(out@);
        let hit = rows[i].holds_text();
        proof {
            assert(rv[i as int] == rows@[i as int]@);
            assert(hit == f(rv[i as int]));
        }
        if hit {
            out.push(rows[i].duplicate());
            proof {
                assert(views(out@) =~= was.push(rv[i as int]));
                assert(was + kept(rv, f, i as int) =~= views(out@) + kept(rv, f, i + 1));
            }
        }
        i += 1;
    }
    proof {
        assert(views(out@) + kept(rv, f, i as int) =~= views(out@));
    }
    out
}

fn make_table(
    rule: &SystemRule,
    text: &str,
    source: &str,
    rows: Vec<Row>,
    storage: Vec<StorageContext>,
) -> (r: Table)
    ensures
        r@ == table_of(rule@, text@, source@, views(rows@), views(storage@)),
{
    let ghost all = views(rows@);
    let ghost sv = views(storage@);
    proof {
        assert(sv.len() == storage.len());
    }
    let rows = if storage.len() == 0 {
        rows_with_text(rows)
    } else {
        rows
    };
    let warning = if rows.len() == 0 {
        rule.missing.clone()
    } else {
        text_or_none(None)
    };
    let raw_text = if is_lsblk_rule(rule) {
        text.to_owned()
    } else {
        text_or_none(None)
    };
    proof {
        assert(views(rows@).len() == rows.len());
    }
    let r = Table {
        id: rule.id.clone(),
        name: rule.name.clone(),
        group: rule.group.clone(),
        view: rule.view.clone(),
        fields: duplicate_all(&rule.fields),
        rows,
        storage,
        raw_text,
        source: source.to_owned(),
        warning,
    };
    proof {
        assert(r@ =~= table_of(rule@, text@, source@, all, sv));
    }
    r
}

pub open spec fn opt_json(o: Option<&Json>) -> Option<Json> {
    match o {
        Some(j) => Some(*j),
        None => None,
    }
}

impl PreparedExtractor {
    /// The table that the rule extracts. A caller that has read the source as
    /// JSON hands it in.
    pub fn extract<F: Fn(&str, bool) -> Option<String>>(
        &self,
        text: &str,
        source: &str,
        json: Option<&Json>,
        sizes: &F,
    ) -> (r: Result<Table, Fault>)
        requires
            self.wf(),
            gives_sizes(*sizes),
        ensures
            (match r {
                Ok(t) => extract_fault(self.rule@, text@, opt_json(json)) is None && t@ == extracted(
                    self.rule@,
                    text@,
                    source@,
                    opt_json(json),
                    sizes_of(*sizes),
                ),
                Err(f) => extract_fault(self.rule@, text@, opt_json(json)) == Some(f@),
            }),
    {
        let kind = self.rule.kind.as_str();
        let mut none: Vec<StorageContext> = Vec::new();
        proof {
            assert(views(none@) =~= Seq::<StorageContextView>::empty());
        }
        if same(kind, "json") {
            let parsed;
            let root = match json {
                Some(j) => j,
                None => {
                    match parse_json(text) {
                        Some(j) => {
                            parsed = j;
                            &parsed
                        },
                        None => {
                            let empty = text_or_none(None);
                            return Err(Fault::new(FaultKind::NotJson, empty.as_str()));
                        },
                    }
                },
            };
            let (rows, storage) = self.json_table(root, sizes);
            return Ok(make_table(&self.rule, text, source, rows, storage));
        }
        if same(kind, "regex") {
            match &self.pattern {
                Some(p) => {
                    let rows = self.match_table(p, text, sizes);
                    return Ok(make_table(&self.rule, text, source, rows, none));
                },
                None => {
                    proof {
                        assert(false);
                    }
                },
            }
        }
        if same(kind, "columns") {
            let rows = self.column_table(text, sizes);
            return Ok(make_table(&self.rule, text, source, rows, none));
        }
        if same(kind, "sections") {
            let chunks = split_at_text(text, section_break());
            let rows = self.chunk_table(&chunks, sizes);
            proof {
                assert(views(chunks@).len() == chunks.len());
            }
            return Ok(make_table(&self.rule, text, source, rows, none));
        }
        if same(kind, "kv") {
            let mut chunks: Vec<String> = Vec::new();
            chunks.push(text.to_owned());
            proof {
                assert(views(chunks@) =~= seq![text@]);
            }
            let rows = self.chunk_table(&chunks, sizes);
            return Ok(make_table(&self.rule, text, source, rows, none));
        }
        Err(Fault::new(FaultKind::ExtractKind, kind))
    }
}

/// The empty line between blocks.
fn section_break() -> (r: &'static str)
    ensures
        r@ == "\n\n"@,
        r@.len() > 0,
{
    proof {
        reveal_strlit("\n\n");
    }
    "\n\n"
}

/// The table that a rule extracts from a text.
pub fn extract<F: Fn(&str, bool) -> Option<String>>(
    rule: &SystemRule,
    text: &str,
    source: &str,
    sizes: &F,
) -> (r: Result<Table, Fault>)
    requires
        gives_sizes(*sizes),
    ensures
        (match r {
            Ok(t) => extract_fault(rule@, text@, None) is None && t@ == extracted(
                rule@,
                text@,
                source@,
                None,
                sizes_of(*sizes),
            ),
            Err(f) => extract_fault(rule@, text@, None) == Some(f@),
        }),
{
    match PreparedExtractor::new(rule) {
        Ok(p) => p.extract(text, source, None, sizes),
        Err(f) => Err(f),
    }
}

} // verus!
