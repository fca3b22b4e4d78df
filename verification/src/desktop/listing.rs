//! The lists of the rule editor: the log files and the rules that read the one
//! that is shown. They show the rules and copy nothing of them.

use crate::desktop::draft::{Draft, DraftView};
use crate::outside::std_text::{lowercase, to_lowercase};
use crate::rules::catalog::{file_place, find_file};
use crate::rules::edit::labels;
use crate::rules::model::{
    LogFileView, Rule, RuleSet, RuleSetView, RuleView, SystemRule, SystemRuleView,
};
use crate::select::{count_by, keep_by};
use crate::text::{
    concat2, concat3, contains, decimal, decimal_text, duplicate_all, first_index, has, join,
    joined, kept, lists, position, same, views, Duplicate,
};
use vstd::prelude::*;

verus! {

/// A rule of the section as the list shows it.
#[derive(Clone, Debug)]
pub struct Entry {
    pub index: usize,
    pub id: String,
    pub name: String,
    pub group: String,
    pub files: Vec<String>,
    pub enabled: bool,
    pub terms: Vec<String>,
    pub fields: usize,
}

/// What an `Entry` holds.
#[verifier::ext_equal]
pub ghost struct EntryView {
    pub index: usize,
    pub id: Seq<char>,
    pub name: Seq<char>,
    pub group: Seq<char>,
    pub files: Seq<Seq<char>>,
    pub enabled: bool,
    pub terms: Seq<Seq<char>>,
    pub fields: usize,
}

impl View for Entry {
    type V = EntryView;

    open spec fn view(&self) -> EntryView {
        EntryView {
            index: self.index,
            id: self.id@,
            name: self.name@,
            group: self.group@,
            files: views(self.files@),
            enabled: self.enabled,
            terms: views(self.terms@),
            fields: self.fields,
        }
    }
}

impl Duplicate for Entry {
    fn duplicate(&self) -> (r: Self) {
        Entry {
            index: self.index,
            id: self.id.clone(),
            name: self.name.clone(),
            group: self.group.clone(),
            files: duplicate_all(&self.files),
            enabled: self.enabled,
            terms: duplicate_all(&self.terms),
            fields: self.fields,
        }
    }
}

/// Whether a rule belongs to a section: to the keywords, to the timeline, or to
/// both.
pub open spec fn in_section(section: i32, r: RuleView) -> bool {
    (section == 2 && r.target != "keywords"@) || (section == 0 && r.target != "timeline"@)
}

pub open spec fn rule_entry(r: RuleView, i: int) -> EntryView {
    EntryView {
        index: i as usize,
        id: r.id,
        name: r.name,
        group: r.group,
        files: r.source_file_ids,
        enabled: r.enabled,
        terms: r.terms,
        fields: 0,
    }
}

pub open spec fn system_entry(r: SystemRuleView, i: int) -> EntryView {
    EntryView {
        index: i as usize,
        id: r.id,
        name: r.name,
        group: r.group,
        files: seq![r.source_file_id],
        enabled: r.enabled,
        terms: Seq::empty(),
        fields: r.fields.len() as usize,
    }
}

/// Those of the first `n` rules that belong to a section.
pub open spec fn rule_entries(rules: Seq<RuleView>, section: i32, n: int) -> Seq<EntryView>
    decreases n,
{
    if n <= 0 {
        Seq::empty()
    } else if in_section(section, rules[n - 1]) {
        rule_entries(rules, section, n - 1).push(rule_entry(rules[n - 1], n - 1))
    } else {
        rule_entries(rules, section, n - 1)
    }
}

pub open spec fn system_entries(system: Seq<SystemRuleView>) -> Seq<EntryView> {
    Seq::new(system.len(), |i: int| system_entry(system[i], i))
}

/// The rules of the section.
pub open spec fn entries(d: DraftView) -> Seq<EntryView> {
    if d.section == 1 {
        system_entries(d.rules.system)
    } else {
        rule_entries(d.rules.rules, d.section, d.rules.rules.len() as int)
    }
}

pub open spec fn file_ids(files: Seq<LogFileView>) -> Seq<Seq<char>> {
    files.map_values(|f: LogFileView| f.id)
}

/// Whether the files that the rules of the section read are in the catalogue.
pub open spec fn navigable(d: DraftView) -> bool {
    forall|k: int, j: int|
        0 <= k < entries(d).len() && 0 <= j < entries(d)[k].files.len() ==> file_ids(
            d.rules.log_files,
        ).contains(#[trigger] entries(d)[k].files[j])
}

pub open spec fn in_list(list: Seq<Seq<char>>) -> spec_fn(Seq<char>) -> bool {
    |s: Seq<char>| list.contains(s)
}

pub open spec fn not_in_list(list: Seq<Seq<char>>) -> spec_fn(Seq<char>) -> bool {
    |s: Seq<char>| !list.contains(s)
}

/// The files in the order that was chosen, those without one behind.
pub open spec fn ordered_files(order: Seq<Seq<char>>, ids: Seq<Seq<char>>) -> Seq<Seq<char>> {
    let first = kept(order, in_list(ids), 0);
    first + kept(ids, not_in_list(first), 0)
}

/// The file that is shown: the one that was, where it is still there, else the
/// first.
pub open spec fn shown_file(files: Seq<Seq<char>>, active: Seq<char>) -> Seq<char> {
    if files.contains(active) {
        active
    } else if files.len() > 0 {
        files[0]
    } else {
        Seq::empty()
    }
}

pub open spec fn entry_reads(file: Seq<char>) -> spec_fn(EntryView) -> bool {
    |e: EntryView| e.files.contains(file)
}

/// How many rules of the section read a file, in words.
pub open spec fn count_text(d: DraftView, file: Seq<char>) -> Seq<char> {
    " · "@ + decimal(kept(entries(d), entry_reads(file), 0).len()) + " 条规则"@
}

/// What is shown of files.
pub open spec fn files_label(set: RuleSetView, ids: Seq<Seq<char>>) -> Seq<char> {
    joined(labels(set.log_files, ids, ids.len() as int), "；"@)
}

/// A file in the list of files.
pub open spec fn file_label(d: DraftView, file: Seq<char>) -> Seq<char> {
    files_label(d.rules, seq![file]) + count_text(d, file)
}

/// A file in the side bar: its name above the file name.
pub open spec fn file_title(d: DraftView, file: Seq<char>) -> Seq<char> {
    let f = d.rules.log_files[file_place(d.rules.log_files, file)->0];
    f.name + "\n"@ + f.file_name() + count_text(d, file)
}

/// Whether a search finds a rule: by its name, its group, its files or its
/// terms.
pub open spec fn rule_found(set: RuleSetView, e: EntryView, query: Seq<char>) -> bool {
    has(lowercase(e.name), query) || has(lowercase(e.group), query) || has(
        lowercase(files_label(set, e.files)),
        query,
    ) || has(lowercase(joined(e.terms, " "@)), query)
}

pub open spec fn row_shown(set: RuleSetView, file: Seq<char>, query: Seq<char>) -> spec_fn(
    EntryView,
) -> bool {
    |e: EntryView| e.files.contains(file) && rule_found(set, e, query)
}

/// A row of the list of rules.
#[derive(Clone, Debug)]
pub struct RuleListRow {
    pub expanded: bool,
    pub name: String,
    pub identity: String,
    pub summary: String,
    pub source: String,
    pub enabled: bool,
    /// Where the row begins.
    pub offset: u128,
    pub height: u128,
    pub terms: Vec<String>,
}

/// What a `RuleListRow` holds.
#[verifier::ext_equal]
pub ghost struct RuleListRowView {
    pub expanded: bool,
    pub name: Seq<char>,
    pub identity: Seq<char>,
    pub summary: Seq<char>,
    pub source: Seq<char>,
    pub enabled: bool,
    pub offset: u128,
    pub height: u128,
    pub terms: Seq<Seq<char>>,
}

impl View for RuleListRow {
    type V = RuleListRowView;

    open spec fn view(&self) -> RuleListRowView {
        RuleListRowView {
            expanded: self.expanded,
            name: self.name@,
            identity: self.identity@,
            summary: self.summary@,
            source: self.source@,
            enabled: self.enabled,
            offset: self.offset,
            height: self.height,
            terms: views(self.terms@),
        }
    }
}

/// The height of a row: a folded one, a table, or a rule with its terms.
pub open spec fn row_height(expanded: bool, table: bool, terms: nat) -> nat {
    if !expanded {
        62
    } else if table {
        86
    } else {
        94 + 36 * terms
    }
}

/// The height of the row of a rule.
pub open spec fn entry_height(d: DraftView, e: EntryView) -> nat {
    row_height(d.expanded.contains(e.id), d.section == 1, e.terms.len())
}

/// The height of the first `n` rows together.
pub open spec fn rows_height(d: DraftView, shown: Seq<EntryView>, n: int) -> nat
    decreases n,
{
    if n <= 0 {
        0
    } else {
        rows_height(d, shown, n - 1) + entry_height(d, shown[n - 1])
    }
}

/// The rules as rows, each below the one before it.
pub open spec fn rows_of(d: DraftView, shown: Seq<EntryView>) -> Seq<RuleListRowView> {
    Seq::new(shown.len(), |k: int| row_of(d, shown[k], rows_height(d, shown, k)))
}

/// A rule as a row that begins at an offset.
pub open spec fn row_of(d: DraftView, e: EntryView, offset: nat) -> RuleListRowView {
    RuleListRowView {
        expanded: d.expanded.contains(e.id),
        name: e.name,
        identity: e.id,
        summary: if d.section == 1 {
            decimal(e.fields as nat) + " 个展示字段"@
        } else {
            Seq::empty()
        },
        source: files_label(d.rules, e.files),
        enabled: e.enabled,
        offset: offset as u128,
        height: row_height(d.expanded.contains(e.id), d.section == 1, e.terms.len()) as u128,
        terms: e.terms,
    }
}

/// What the lists show.
#[derive(Debug)]
pub struct Listing {
    pub files: Vec<String>,
    pub file_index: i32,
    pub file_labels: Vec<String>,
    pub file_titles: Vec<String>,
    pub active_label: String,
    pub rows: Vec<RuleListRow>,
    /// The height of all rows together.
    pub content_height: u128,
    pub selected: i32,
}

/// A place in a list, -1 for none.
pub open spec fn place_number(o: Option<int>) -> int {
    match o {
        Some(i) => i,
        None => -1,
    }
}

impl DraftView {
    /// The files of the section in their order.
    pub open spec fn files(self) -> Seq<Seq<char>> {
        ordered_files(self.rules.layout.file_order, file_ids(self.rules.log_files))
    }

    /// The rules that the list shows.
    pub open spec fn shown(self) -> Seq<EntryView> {
        kept(
            entries(self),
            row_shown(
                self.rules,
                shown_file(self.files(), self.active),
                lowercase(self.search),
            ),
            0,
        )
    }

    /// The draft after its lists were drawn.
    pub open spec fn listed(self) -> DraftView {
        let d = self.flushed();
        DraftView {
            active: shown_file(d.files(), d.active),
            indices: d.shown().map_values(|e: EntryView| e.index),
            ..d
        }
    }
}

impl Listing {
    /// Whether this is what the lists show of a draft that was drawn.
    pub open spec fn shows(self, d: DraftView) -> bool {
        &&& views(self.files@) == d.files()
        &&& self.file_index == place_number(first_index(d.files(), d.active))
        &&& views(self.file_labels@) == d.files().map_values(|f: Seq<char>| file_label(d, f))
        &&& views(self.file_titles@) == d.files().map_values(|f: Seq<char>| file_title(d, f))
        &&& self.active_label@ == files_label(d.rules, seq![d.active])
        &&& views(self.rows@) == rows_of(d, d.shown())
        &&& self.content_height == rows_height(d, d.shown(), d.shown().len() as int)
        &&& self.selected == place_number(d.selected_row())
    }
}

proof fn lemma_entries_in_range(rules: Seq<RuleView>, section: i32, n: int)
    requires
        0 <= n <= rules.len() <= usize::MAX,
    ensures
        forall|k: int|
            0 <= k < rule_entries(rules, section, n).len() ==> (#[trigger] rule_entries(
                rules,
                section,
                n,
            )[k]).index < n,
        rule_entries(rules, section, n).len() <= n,
    decreases n,
{
    if n > 0 {
        lemma_entries_in_range(rules, section, n - 1);
    }
}

fn list_rules(rules: &Vec<Rule>, section: i32) -> (r: Vec<Entry>)
    ensures
        views(r@) == rule_entries(views(rules@), section, rules.len() as int),
{
    let ghost rv = views(rules@);
    let mut out: Vec<Entry> = Vec::new();
    let mut i: usize = 0;
    proof {
        assert(views(out@) =~= rule_entries(rv, section, 0));
    }
    while i < rules.len()
        invariant
            i <= rules.len(),
            rv == views(rules@),
            views(out@) == rule_entries(rv, section, i as int),
        decreases rules.len() - i,
    {
        let r = &rules[i];
        proof {
            assert(rv[i as int] == r@);
        }
        let ghost was = out@;
        let hit = (section == 2 && !same(r.target.as_str(), "keywords")) || (section == 0 && !same(
            r.target.as_str(),
            "timeline",
        ));
        if hit {
            let e = Entry {
                index: i,
                id: r.id.clone(),
                name: r.name.clone(),
                group: r.group.clone(),
                files: duplicate_all(&r.source_file_ids),
                enabled: r.enabled,
                terms: duplicate_all(&r.terms),
                fields: 0,
            };
            proof {
                assert(e@ =~= rule_entry(rv[i as int], i as int));
            }
            let ghost ev = e@;
            out.push(e);
            proof {
                assert(views(out@) =~= views(was).push(ev));
            }
        }
        i += 1;
    }
    out
}

fn list_system(system: &Vec<SystemRule>) -> (r: Vec<Entry>)
    ensures
        views(r@) == system_entries(views(system@)),
{
    let ghost rv = views(system@);
    let mut out: Vec<Entry> = Vec::new();
    let mut i: usize = 0;
    while i < system.len()
        invariant
            i <= system.len(),
            rv == views(system@),
            out.len() == i,
            forall|j: int| 0 <= j < i ==> (#[trigger] out@[j])@ == system_entry(rv[j], j),
        decreases system.len() - i,
    {
        let r = &system[i];
        proof {
            assert(rv[i as int] == r@);
            assert(r@.fields.len() == r.fields.len());
        }
        let mut files: Vec<String> = Vec::new();
        files.push(r.source_file_id.clone());
        let terms: Vec<String> = Vec::new();
        proof {
            assert(views(files@) =~= seq![r@.source_file_id]);
            assert(views(terms@) =~= Seq::<Seq<char>>::empty());
        }
        let e = Entry {
            index: i,
            id: r.id.clone(),
            name: r.name.clone(),
            group: r.group.clone(),
            files,
            enabled: r.enabled,
            terms,
            fields: r.fields.len(),
        };
        proof {
            assert(e@ =~= system_entry(rv[i as int], i as int));
        }
        out.push(e);
        i += 1;
    }
    proof {
        assert(views(out@).len() == out.len());
        assert(views(out@) =~= system_entries(rv));
    }
    out
}

fn list_entries(d: &Draft) -> (r: Vec<Entry>)
    ensures
        views(r@) == entries(d@),
{
    proof {
        assert(d@.rules.rules.len() == d.rules.rules.len());
    }
    if d.section == 1 {
        list_system(&d.rules.system)
    } else {
        list_rules(&d.rules.rules, d.section)
    }
}

fn order_files(set: &RuleSet) -> (r: Vec<String>)
    ensures
        views(r@) == ordered_files(set@.layout.file_order, file_ids(set@.log_files)),
{
    let ghost fv = set@.log_files;
    let mut ids: Vec<String> = Vec::new();
    let mut i: usize = 0;
    while i < set.log_files.len()
        invariant
            i <= set.log_files.len(),
            fv == views(set.log_files@),
            ids.len() == i,
            forall|j: int| 0 <= j < i ==> (#[trigger] ids@[j])@ == fv[j].id,
        decreases set.log_files.len() - i,
    {
        proof {
            assert(fv[i as int] == set.log_files@[i as int]@);
        }
        ids.push(set.log_files[i].id.clone());
        i += 1;
    }
    proof {
        assert(views(ids@).len() == ids.len());
        assert(fv.len() == set.log_files.len());
        assert(views(ids@) =~= file_ids(fv));
    }
    let f = |s: &String| -> (r: bool)
        ensures
            r == in_list(views(ids@))(s@),
        { lists(&ids, s.as_str()) };
    let mut first = keep_by(&set.layout.file_order, &f, Ghost(in_list(views(ids@))));
    let g = |s: &String| -> (r: bool)
        ensures
            r == not_in_list(views(first@))(s@),
        { !lists(&first, s.as_str()) };
    let mut rest = keep_by(&ids, &g, Ghost(not_in_list(views(first@))));
    let ghost a = views(first@);
    let ghost b = views(rest@);
    first.append(&mut rest);
    proof {
        assert(views(first@) =~= a + b);
    }
    first
}

fn label_of(set: &RuleSet, file: &str) -> (r: String)
    ensures
        r@ == files_label(set@, seq![file@]),
{
    let mut ids: Vec<String> = Vec::new();
    ids.push(file.to_owned());
    proof {
        assert(views(ids@) =~= seq![file@]);
    }
    set.source_label(&ids)
}

fn count_of(d: Ghost<DraftView>, list: &Vec<Entry>, file: &str) -> (r: String)
    requires
        views(list@) == entries(d@),
    ensures
        r@ == count_text(d@, file@),
{
    let f = |e: &Entry| -> (r: bool)
        ensures
            r == entry_reads(file@)(e@),
        { lists(&e.files, file) };
    let n = count_by(list, &f, Ghost(entry_reads(file@)));
    let number = decimal_text(n as u64);
    concat3(" · ", number.as_str(), " 条规则")
}

fn finds_rule(set: &RuleSet, e: &Entry, query: &str) -> (r: bool)
    ensures
        r == rule_found(set@, e@, query@),
{
    if contains(to_lowercase(e.name.as_str()).as_str(), query) || contains(
        to_lowercase(e.group.as_str()).as_str(),
        query,
    ) {
        return true;
    }
    let label = set.source_label(&e.files);
    if contains(to_lowercase(label.as_str()).as_str(), query) {
        return true;
    }
    let terms = join(&e.terms, " ");
    contains(to_lowercase(terms.as_str()).as_str(), query)
}

fn make_row(d: &Draft, e: &Entry, offset: u128) -> (r: RuleListRow)
    ensures
        r@ == row_of(d@, e@, offset as nat),
{
    let expanded = lists(&d.expanded, e.id.as_str());
    proof {
        assert(e@.terms.len() == e.terms.len());
    }
    let height: u128 = if !expanded {
        62
    } else if d.section == 1 {
        86
    } else {
        94 + 36 * (e.terms.len() as u128)
    };
    let summary = if d.section == 1 {
        let n = decimal_text(e.fields as u64);
        concat2(n.as_str(), " 个展示字段")
    } else {
        String::new()
    };
    let r = RuleListRow {
        expanded,
        name: e.name.clone(),
        identity: e.id.clone(),
        summary,
        source: d.rules.source_label(&e.files),
        enabled: e.enabled,
        offset,
        height,
        terms: duplicate_all(&e.terms),
    };
    proof {
        assert(r@ =~= row_of(d@, e@, offset as nat));
    }
    r
}

/// The rows are not higher together than the numbers of a row can tell.
proof fn lemma_rows_height(d: DraftView, shown: Seq<EntryView>, n: int)
    requires
        0 <= n <= shown.len(),
        forall|k: int| 0 <= k < shown.len() ==> (#[trigger] shown[k]).terms.len() <= usize::MAX,
    ensures
        rows_height(d, shown, n) <= n * 0x1000_0000_0000_0000_0000,
    decreases n,
{
    if n > 0 {
        lemma_rows_height(d, shown, n - 1);
        assert(shown[n - 1].terms.len() <= usize::MAX);
        assert(entry_height(d, shown[n - 1]) <= 0x1000_0000_0000_0000_0000);
    }
}

/// The rules as rows, and the height of all of them.
fn make_rows(d: &Draft, shown: &Vec<Entry>) -> (r: (Vec<RuleListRow>, u128))
    requires
        shown.len() <= i32::MAX,
    ensures
        views(r.0@) == rows_of(d@, views(shown@)),
        r.1 == rows_height(d@, views(shown@), shown.len() as int),
{
    let ghost sv = views(shown@);
    let mut out: Vec<RuleListRow> = Vec::new();
    let mut offset: u128 = 0;
    let mut i: usize = 0;
    proof {
        assert forall|k: int| 0 <= k < sv.len() implies (#[trigger] sv[k]).terms.len()
            <= usize::MAX by {
            assert(sv[k] == shown@[k]@);
            assert(sv[k].terms.len() == shown@[k].terms.len());
        }
    }
    while i < shown.len()
        invariant
            i <= shown.len() <= i32::MAX,
            sv == views(shown@),
            forall|k: int| 0 <= k < sv.len() ==> (#[trigger] sv[k]).terms.len() <= usize::MAX,
            out.len() == i,
            offset == rows_height(d@, sv, i as int),
            forall|j: int|
                0 <= j < i ==> (#[trigger] out@[j])@ == row_of(
                    d@,
                    sv[j],
                    rows_height(d@, sv, j),
                ),
        decreases shown.len() - i,
    {
        proof {
            assert(sv[i as int] == shown@[i as int]@);
            assert(sv.len() == shown.len());
            lemma_rows_height(d@, sv, i + 1);
        }
        let row = make_row(d, &shown[i], offset);
        offset += row.height;
        out.push(row);
        i += 1;
    }
    proof {
        assert(views(out@).len() == out.len());
        assert(sv.len() == shown.len());
        assert(views(out@) =~= rows_of(d@, sv));
    }
    (out, offset)
}

fn indices_of(shown: &Vec<Entry>) -> (r: Vec<usize>)
    ensures
        r@ == views(shown@).map_values(|e: EntryView| e.index),
{
    let ghost sv = views(shown@);
    let mut out: Vec<usize> = Vec::new();
    let mut i: usize = 0;
    while i < shown.len()
        invariant
            i <= shown.len(),
            sv == views(shown@),
            out.len() == i,
            forall|j: int| 0 <= j < i ==> #[trigger] out@[j] == sv[j].index,
        decreases shown.len() - i,
    {
        proof {
            assert(sv[i as int] == shown@[i as int]@);
        }
        out.push(shown[i].index);
        i += 1;
    }
    proof {
        assert(sv.len() == shown.len());
        assert(out@ =~= sv.map_values(|e: EntryView| e.index));
    }
    out
}

fn file_labels(d: &Draft, list: &Vec<Entry>, files: &Vec<String>) -> (r: Vec<String>)
    requires
        views(list@) == entries(d@),
    ensures
        views(r@) == views(files@).map_values(|f: Seq<char>| file_label(d@, f)),
{
    let ghost fv = views(files@);
    let mut out: Vec<String> = Vec::new();
    let mut i: usize = 0;
    while i < files.len()
        invariant
            i <= files.len(),
            fv == views(files@),
            views(list@) == entries(d@),
            out.len() == i,
            forall|j: int| 0 <= j < i ==> (#[trigger] out@[j])@ == file_label(d@, fv[j]),
        decreases files.len() - i,
    {
        proof {
            assert(fv[i as int] == files@[i as int]@);
        }
        let label = label_of(&d.rules, files[i].as_str());
        let count = count_of(Ghost(d@), list, files[i].as_str());
        out.push(concat2(label.as_str(), count.as_str()));
        i += 1;
    }
    proof {
        assert(views(out@).len() == out.len());
        assert(fv.len() == files.len());
        assert(views(out@) =~= fv.map_values(|f: Seq<char>| file_label(d@, f)));
    }
    out
}

fn file_titles(d: &Draft, list: &Vec<Entry>, files: &Vec<String>) -> (r: Vec<String>)
    requires
        views(list@) == entries(d@),
        forall|j: int|
            0 <= j < files.len() ==> file_place(d@.rules.log_files, #[trigger] files@[j]@) is Some,
    ensures
        views(r@) == views(files@).map_values(|f: Seq<char>| file_title(d@, f)),
{
    let ghost fv = views(files@);
    let mut out: Vec<String> = Vec::new();
    let mut i: usize = 0;
    while i < files.len()
        invariant
            i <= files.len(),
            fv == views(files@),
            views(list@) == entries(d@),
            forall|j: int|
                0 <= j < files.len() ==> file_place(
                    d@.rules.log_files,
                    #[trigger] files@[j]@,
                ) is Some,
            out.len() == i,
            forall|j: int| 0 <= j < i ==> (#[trigger] out@[j])@ == file_title(d@, fv[j]),
        decreases files.len() - i,
    {
        proof {
            assert(fv[i as int] == files@[i as int]@);
        }
        let mut title = String::new();
        let count = count_of(Ghost(d@), list, files[i].as_str());
        if let Some(k) = find_file(&d.rules.log_files, files[i].as_str()) {
            proof {
                assert(d@.rules.log_files[k as int] == d.rules.log_files@[k as int]@);
            }
            let name = d.rules.log_files[k].file_name();
            let head = concat3(d.rules.log_files[k].name.as_str(), "\n", name.as_str());
            title = concat2(head.as_str(), count.as_str());
        }
        out.push(title);
        i += 1;
    }
    proof {
        assert(views(out@).len() == out.len());
        assert(fv.len() == files.len());
        assert(views(out@) =~= fv.map_values(|f: Seq<char>| file_title(d@, f)));
    }
    out
}

/// Every file of the list is in the catalogue.
proof fn lemma_files_known(d: DraftView)
    ensures
        forall|j: int|
            0 <= j < d.files().len() ==> file_place(
                d.rules.log_files,
                #[trigger] d.files()[j],
            ) is Some,
{
    let files = d.rules.log_files;
    let ids = file_ids(files);
    let order = d.rules.layout.file_order;
    let first = kept(order, in_list(ids), 0);
    let rest = kept(ids, not_in_list(first), 0);
    crate::select::lemma_kept_holds(order, in_list(ids), 0);
    crate::select::lemma_kept_holds(ids, not_in_list(first), 0);
    assert forall|j: int| 0 <= j < d.files().len() implies file_place(
        files,
        #[trigger] d.files()[j],
    ) is Some by {
        let id = d.files()[j];
        assert(ids.contains(id)) by {
            if j < first.len() {
                assert(first[j] == id);
                assert(in_list(ids)(first[j]));
            } else {
                assert(rest[j - first.len()] == id);
                let k = choose|k: int| 0 <= k < ids.len() && ids[k] == rest[j - first.len()];
                assert(ids[k] == id);
            }
        }
        let k = choose|k: int| 0 <= k < ids.len() && ids[k] == id;
        assert(files[k].id == id);
        crate::rules::catalog::lemma_file_there(files, id, k);
    }
}

/// The rows stand for rules of the section.
proof fn lemma_shown_in_range(d: DraftView)
    requires
        d.rules.rules.len() <= usize::MAX,
        d.rules.system.len() <= usize::MAX,
    ensures
        forall|k: int| 0 <= k < d.shown().len() ==> (#[trigger] d.shown()[k]).index < d.count(),
        d.shown().len() <= d.count(),
{
    let f = row_shown(d.rules, shown_file(d.files(), d.active), lowercase(d.search));
    lemma_entries_in_range(d.rules.rules, d.section, d.rules.rules.len() as int);
    crate::select::lemma_kept_holds(entries(d), f, 0);
    crate::select::lemma_kept_len(entries(d), f, 0);
    assert forall|k: int| 0 <= k < d.shown().len() implies (#[trigger] d.shown()[k]).index
        < d.count() by {
        let j = choose|j: int| 0 <= j < entries(d).len() && entries(d)[j] == d.shown()[k];
        if d.section == 1 {
            assert(entries(d)[j] == system_entry(d.rules.system[j], j));
        }
    }
}

impl Draft {
    /// Takes over what is being typed and draws the lists.
    pub fn refresh(&mut self) -> (r: Listing)
        requires
            navigable(old(self)@.flushed()),
            old(self)@.flushed().files().len() <= i32::MAX,
            old(self)@.count() <= i32::MAX,
        ensures
            final(self)@ == old(self)@.listed(),
            r.shows(final(self)@),
            old(self)@.wf() ==> final(self)@.wf(),
    {
        let ghost start = self@;
        self.flush();
        let ghost d = self@;
        proof {
            assert(d.rules.rules.len() == self.rules.rules.len());
            assert(d.rules.system.len() == self.rules.system.len());
            crate::desktop::draft::lemma_terms_put_ids(
                start.rules.rules,
                start.pending,
                start.pending.len() as int,
            );
            lemma_shown_in_range(d);
            lemma_files_known(d);
        }
        let list = list_entries(self);
        let files = order_files(&self.rules);
        let ghost fv = views(files@);
        proof {
            assert(fv.len() == files.len());
        }
        if !lists(&files, self.active.as_str()) {
            self.active = if files.len() > 0 {
                files[0].clone()
            } else {
                String::new()
            };
            proof {
                if files.len() > 0 {
                    assert(fv[0] == files@[0]@);
                } else {
                    assert(self.active@ =~= Seq::<char>::empty());
                }
            }
        }
        let query = to_lowercase(self.search.as_str());
        let set = &self.rules;
        let active = self.active.as_str();
        let f = |e: &Entry| -> (r: bool)
            ensures
                r == row_shown(set@, active@, query@)(e@),
            { lists(&e.files, active) && finds_rule(set, e, query.as_str()) };
        let shown = keep_by(&list, &f, Ghost(row_shown(set@, active@, query@)));
        let indices = indices_of(&shown);
        self.indices = indices;
        let ghost out = self@;
        proof {
            assert(out =~= start.listed());
            assert(entries(out) == entries(d));
            assert(out.files() == d.files());
            assert(shown_file(out.files(), out.active) == out.active);
            assert(out.shown() == d.shown());
            assert forall|j: int| 0 <= j < files.len() implies file_place(
                out.rules.log_files,
                #[trigger] files@[j]@,
            ) is Some by {
                assert(fv[j] == files@[j]@);
                assert(d.files()[j] == fv[j]);
            }
        }
        let file_index: i32 = match position(&files, self.active.as_str()) {
            Some(i) => i as i32,
            None => -1,
        };
        let selected: i32 = match self.find_selected_row() {
            Some(k) => k as i32,
            None => -1,
        };
        let file_labels = file_labels(self, &list, &files);
        let file_titles = file_titles(self, &list, &files);
        let active_label = label_of(&self.rules, self.active.as_str());
        proof {
            assert(views(shown@).len() == shown.len());
        }
        let (rows, content_height) = make_rows(self, &shown);
        Listing {
            files,
            file_index,
            file_labels,
            file_titles,
            active_label,
            rows,
            content_height,
            selected,
        }
    }

    /// Whether the files that the rules of the section read are in the
    /// catalogue.
    pub fn is_navigable(&self) -> (r: bool)
        ensures
            r == navigable(self@),
    {
        let list = list_entries(self);
        let ghost lv = entries(self@);
        let ghost ids = file_ids(self@.rules.log_files);
        let mut i: usize = 0;
        while i < list.len()
            invariant
                i <= list.len(),
                lv == views(list@),
                lv == entries(self@),
                ids == file_ids(self@.rules.log_files),
                forall|k: int, j: int|
                    0 <= k < i && 0 <= j < lv[k].files.len() ==> ids.contains(
                        #[trigger] lv[k].files[j],
                    ),
            decreases list.len() - i,
        {
            proof {
                assert(lv[i as int] == list@[i as int]@);
                assert(lv[i as int].files.len() == list@[i as int].files.len());
            }
            let mut j: usize = 0;
            while j < list[i].files.len()
                invariant
                    i < list.len(),
                    lv == views(list@),
                    lv == entries(self@),
                    lv[i as int] == list@[i as int]@,
                    j <= list@[i as int].files.len(),
                    ids == file_ids(self@.rules.log_files),
                    forall|m: int|
                        0 <= m < j ==> ids.contains(#[trigger] lv[i as int].files[m]),
                decreases list@[i as int].files.len() - j,
            {
                proof {
                    assert(lv[i as int].files[j as int] == list@[i as int].files@[j as int]@);
                }
                match find_file(&self.rules.log_files, list[i].files[j].as_str()) {
                    Some(k) => {
                        proof {
                            crate::select::lemma_first_holds(
                                self@.rules.log_files,
                                crate::rules::catalog::file_with(lv[i as int].files[j as int]),
                                0,
                            );
                            assert(ids[k as int] == lv[i as int].files[j as int]);
                        }
                    },
                    None => {
                        proof {
                            let id = lv[i as int].files[j as int];
                            if ids.contains(id) {
                                let k = choose|k: int| 0 <= k < ids.len() && ids[k] == id;
                                crate::rules::catalog::lemma_file_there(
                                    self@.rules.log_files,
                                    id,
                                    k,
                                );
                            }
                        }
                        return false;
                    },
                }
                j += 1;
            }
            i += 1;
        }
        true
    }
}

} // verus!
