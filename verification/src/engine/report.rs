//! The report of a package.

use crate::engine::events::{arrange_events, report_events, timeline_notes, timeline_warnings};
use crate::engine::evidence::{limit_report_evidence, limited_finding};
use crate::engine::findings::{
    add_absent, annotate_finding, annotated, by_group, by_rule, enabled_tables, finish_finding,
    finished, gives_volumes, is_enabled_table, rule_groups, sort_findings, sort_tables, volumes_of,
    with_absent, Gathered, GatheredView, Volumes,
};
use crate::engine::model::{
    Event, EventView, Finding, FindingView, TimelineSession, TimelineSessionView,
};
use crate::engine::sessions::{build_timeline_sessions, sessions};
use crate::engine::time::{compile_plain, found, usable};
use crate::extract::extractor::or_empty;
use crate::extract::join::{join_tables, joined_tables};
use crate::extract::model::{StorageContext, StorageContextView, Table, TableView};
use crate::order::{reversed, sorted};
use crate::outside::pattern::{group_at, group_by_index, pattern_matches, Pattern, opt_groups};
use crate::row::{get, put, Row, RowView};
use crate::rules::model::{
    Layout, LayoutView, LogFile, LogFileView, RuleSet, RuleSetView, SystemRule, SystemRuleView,
};
use crate::rules::validate::system_ids;
use crate::text::{
    concat2, concat3, duplicate_all, first_place, join, joined, kept, opt_view, same, tail, tail_of,
    views, Class, Duplicate,
};
use vstd::prelude::*;

verus! {

/// A file of the package and the catalogue entries that stand for it.
#[derive(Clone, Debug)]
pub struct CatalogEntry {
    pub path: String,
    pub ids: Vec<String>,
}

/// What a `CatalogEntry` holds.
#[verifier::ext_equal]
pub ghost struct CatalogEntryView {
    pub path: Seq<char>,
    pub ids: Seq<Seq<char>>,
}

impl View for CatalogEntry {
    type V = CatalogEntryView;

    open spec fn view(&self) -> CatalogEntryView {
        CatalogEntryView {
            path: self.path@,
            ids: views(self.ids@),
        }
    }
}

impl Duplicate for CatalogEntry {
    fn duplicate(&self) -> (r: Self) {
        CatalogEntry {
            path: self.path.clone(),
            ids: duplicate_all(&self.ids),
        }
    }
}

/// What a report shows.
#[derive(Debug)]
pub struct Report {
    pub package: String,
    pub generated: String,
    pub layout: Layout,
    pub log_files: Vec<LogFile>,
    /// What is shown for the files of the package; evidence keeps their paths.
    pub source_labels: Row,
    pub source_catalog: Vec<CatalogEntry>,
    pub system_file_ids: Row,
    pub system: Vec<Table>,
    pub findings: Vec<Finding>,
    pub events: Vec<Event>,
    /// The same as `events`, under the name that newer readers use.
    pub timeline_facts: Vec<Event>,
    pub timeline_sessions: Vec<TimelineSession>,
    pub timeline_warnings: Vec<String>,
    pub warnings: Vec<String>,
}

/// What a `Report` holds.
#[verifier::ext_equal]
pub ghost struct ReportView {
    pub package: Seq<char>,
    pub generated: Seq<char>,
    pub layout: LayoutView,
    pub log_files: Seq<LogFileView>,
    pub source_labels: RowView,
    pub source_catalog: Seq<CatalogEntryView>,
    pub system_file_ids: RowView,
    pub system: Seq<TableView>,
    pub findings: Seq<FindingView>,
    pub events: Seq<EventView>,
    pub timeline_facts: Seq<EventView>,
    pub timeline_sessions: Seq<TimelineSessionView>,
    pub timeline_warnings: Seq<Seq<char>>,
    pub warnings: Seq<Seq<char>>,
}

impl View for Report {
    type V = ReportView;

    open spec fn view(&self) -> ReportView {
        ReportView {
            package: self.package@,
            generated: self.generated@,
            layout: self.layout@,
            log_files: views(self.log_files@),
            source_labels: self.source_labels@,
            source_catalog: views(self.source_catalog@),
            system_file_ids: self.system_file_ids@,
            system: views(self.system@),
            findings: views(self.findings@),
            events: views(self.events@),
            timeline_facts: views(self.timeline_facts@),
            timeline_sessions: views(self.timeline_sessions@),
            timeline_warnings: views(self.timeline_warnings@),
            warnings: views(self.warnings@),
        }
    }
}

pub const RAID_PATTERN: &'static str = "(?i)\\braid(\\d+)\\b";

pub const LINEAR_PATTERN: &'static str = "(?i)\\blinear\\b";

pub const POOL_PATTERN: &'static str = "pool(\\d+)-";

/// The texts of a row with blanks between them.
pub open spec fn row_text(r: RowView) -> Seq<char> {
    joined(Seq::new(r.len(), |i: int| r[i].1), " "@)
}

/// The sort of array that a row names, given whether it tells of a linear one and
/// the match that tells its level: a linear one is shown as JBOD.
pub open spec fn raid_name(linear: bool, level: Option<Seq<Option<Seq<char>>>>) -> Option<
    Seq<char>,
> {
    if linear {
        Some("JBOD"@)
    } else {
        match level {
            Some(g) => Some("RAID"@ + or_empty(group_at(g, 1))),
            None => None,
        }
    }
}

/// The sort of array that a text names.
pub open spec fn raid_in(text: Seq<char>) -> Option<Seq<char>> {
    raid_name(
        usable(LINEAR_PATTERN@) is Some && pattern_matches(LINEAR_PATTERN@, false, text),
        found(usable(RAID_PATTERN@), text),
    )
}

/// The sort of array that the first `n` rows last named.
pub open spec fn raid_seen(rows: Seq<RowView>, n: int) -> Option<Seq<char>>
    decreases n,
{
    if n <= 0 {
        None
    } else {
        match raid_in(row_text(rows[n - 1])) {
            Some(s) => Some(s),
            None => raid_seen(rows, n - 1),
        }
    }
}

/// The sorts of the arrays of the pools that the first `n` rows name.
pub open spec fn raid_pools(rows: Seq<RowView>, n: int) -> RowView
    decreases n,
{
    if n <= 0 {
        Seq::empty()
    } else {
        let m = raid_pools(rows, n - 1);
        match (found(usable(POOL_PATTERN@), row_text(rows[n - 1])), raid_seen(rows, n)) {
            (Some(g), Some(raid)) => put(m, "Storage Pool "@ + or_empty(group_at(g, 1)), raid),
            _ => m,
        }
    }
}

fn text_of_row(r: &Row) -> (s: String)
    ensures
        s@ == row_text(r@),
{
    let ghost rv = r@;
    let mut parts: Vec<String> = Vec::new();
    let mut i: usize = 0;
    while i < r.cells.len()
        invariant
            i <= r.cells.len(),
            rv == r@,
            parts.len() == i,
            forall|j: int| 0 <= j < i ==> (#[trigger] parts@[j])@ == rv[j].1,
        decreases r.cells.len() - i,
    {
        parts.push(r.cells[i].1.clone());
        i += 1;
    }
    proof {
        assert(views(parts@) =~= Seq::new(rv.len(), |i: int| rv[i].1));
    }
    join(&parts, " ")
}

fn group_text(g: &Vec<Option<String>>, i: usize) -> (r: String)
    ensures
        r@ == or_empty(group_at(crate::outside::pattern::group_views(g@), i as int)),
{
    match group_by_index(g, i) {
        Some(s) => s,
        None => {
            let s = String::new();
            proof {
                assert(s@ =~= Seq::<char>::empty());
            }
            s
        },
    }
}

/// The sort of array that a row names, given whether it tells of a linear one and
/// the match that tells its level.
pub fn name_of_raid(linear: bool, level: &Option<Vec<Option<String>>>) -> (r: Option<String>)
    ensures
        opt_view(r) == raid_name(linear, opt_groups(*level)),
{
    if linear {
        return Some("JBOD".to_owned());
    }
    match level {
        Some(g) => {
            let number = group_text(g, 1);
            Some(concat2("RAID", number.as_str()))
        },
        None => None,
    }
}

fn raid_of_text(linear: &Option<Pattern>, raid: &Option<Pattern>, text: &str) -> (r: Option<String>)
    requires
        opt_view(*linear) == usable(LINEAR_PATTERN@),
        opt_view(*raid) == usable(RAID_PATTERN@),
    ensures
        opt_view(r) == raid_in(text@),
{
    let is_linear = match linear {
        Some(p) => p.is_match(text),
        None => false,
    };
    let level = match raid {
        Some(p) => p.groups(text),
        None => None,
    };
    name_of_raid(is_linear, &level)
}

/// The sorts of the arrays of the pools that a table of block devices names.
/// The rows themselves stay as they are.
pub fn infer_raid_by_pool(block: &Table) -> (r: Row)
    ensures
        r@ == raid_pools(block@.rows, block@.rows.len() as int),
{
    let ghost rv = block@.rows;
    let linear = compile_plain(LINEAR_PATTERN);
    let raid = compile_plain(RAID_PATTERN);
    let pool = compile_plain(POOL_PATTERN);
    let mut out = Row::new();
    let mut seen: Option<String> = None;
    let mut i: usize = 0;
    while i < block.rows.len()
        invariant
            i <= block.rows.len(),
            rv == views(block.rows@),
            opt_view(linear) == usable(LINEAR_PATTERN@),
            opt_view(raid) == usable(RAID_PATTERN@),
            opt_view(pool) == usable(POOL_PATTERN@),
            opt_view(seen) == raid_seen(rv, i as int),
            out@ == raid_pools(rv, i as int),
        decreases block.rows.len() - i,
    {
        let text = text_of_row(&block.rows[i]);
        proof {
            assert(rv[i as int] == block.rows@[i as int]@);
        }
        let named = raid_of_text(&linear, &raid, text.as_str());
        if named.is_some() {
            seen = named;
        }
        proof {
            assert(opt_view(seen) == raid_seen(rv, i + 1));
        }
        if let Some(p) = &pool {
            if let Some(g) = p.groups(text.as_str()) {
                if let Some(value) = &seen {
                    let number = group_text(&g, 1);
                    let name = concat2("Storage Pool ", number.as_str());
                    out.insert(name, value.clone());
                }
            }
        }
        i += 1;
    }
    out
}

pub open spec fn is_block_table() -> spec_fn(TableView) -> bool {
    |t: TableView| t.id == "block"@
}

/// The sorts of arrays that the tables of a report tell.
pub open spec fn pools_of(tables: Seq<TableView>) -> RowView {
    match first_place(tables, is_block_table(), 0) {
        Some(i) => raid_pools(tables[i].rows, tables[i].rows.len() as int),
        None => Seq::empty(),
    }
}

pub open spec fn with_raid(t: TableView, pools: RowView) -> TableView {
    if t.view == "storage"@ {
        TableView {
            storage: Seq::new(
                t.storage.len(),
                |i: int|
                    StorageContextView {
                        raid: or_empty(get(pools, t.storage[i].pool)),
                        ..t.storage[i]
                    },
            ),
            ..t
        }
    } else {
        t
    }
}

fn find_block(tables: &Vec<Table>) -> (r: Option<usize>)
    ensures
        (match r {
            Some(i) => i < tables.len() && first_place(views(tables@), is_block_table(), 0) == Some(
                i as int,
            ),
            None => first_place(views(tables@), is_block_table(), 0) is None,
        }),
{
    let ghost tv = views(tables@);
    let ghost f = is_block_table();
    let mut i: usize = 0;
    while i < tables.len()
        invariant
            i <= tables.len(),
            tv == views(tables@),
            f == is_block_table(),
            first_place(tv, f, 0) == first_place(tv, f, i as int),
        decreases tables.len() - i,
    {
        let hit = same(tables[i].id.as_str(), "block");
        proof {
            assert(tv[i as int] == tables@[i as int]@);
            assert(hit == f(tv[i as int]));
        }
        if hit {
            return Some(i);
        }
        i += 1;
    }
    None
}

fn set_raid(t: &Table, pools: &Row) -> (r: Table)
    ensures
        r@ == with_raid(t@, pools@),
{
    let ghost start = t@;
    let mut out = t.duplicate();
    if same(t.view.as_str(), "storage") {
        let mut storage: Vec<StorageContext> = Vec::new();
        let mut i: usize = 0;
        while i < t.storage.len()
            invariant
                i <= t.storage.len(),
                start == t@,
                storage.len() == i,
                forall|j: int|
                    0 <= j < i ==> (#[trigger] storage@[j])@ == (StorageContextView {
                        raid: or_empty(get(pools@, start.storage[j].pool)),
                        ..start.storage[j]
                    }),
            decreases t.storage.len() - i,
        {
            let mut c = t.storage[i].duplicate();
            proof {
                assert(start.storage[i as int] == t.storage@[i as int]@);
            }
            c.raid = match pools.get(c.pool.as_str()) {
                Some(v) => v.clone(),
                None => {
                    let s = String::new();
                    proof {
                        assert(s@ =~= Seq::<char>::empty());
                    }
                    s
                },
            };
            proof {
                assert(c@ =~= (StorageContextView {
                    raid: or_empty(get(pools@, start.storage[i as int].pool)),
                    ..start.storage[i as int]
                }));
            }
            storage.push(c);
            i += 1;
        }
        proof {
            assert(views(storage@) =~= with_raid(start, pools@).storage);
        }
        out.storage = storage;
        proof {
            assert(out@ =~= with_raid(start, pools@));
        }
    }
    out
}

/// The tables of a report.
pub open spec fn report_tables(set: RuleSetView, tables: Seq<TableView>) -> Seq<TableView> {
    let enabled = kept(set.system, is_enabled_table(), 0);
    let all = sorted(
        with_absent(tables, enabled, enabled.len() as int),
        by_rule(system_ids(set.system)),
    );
    let joint = joined_tables(all, set.system, set.system.len() as int);
    Seq::new(joint.len(), |i: int| with_raid(joint[i], pools_of(joint)))
}

fn arrange_tables(set: &RuleSet, tables: Vec<Table>) -> (r: Vec<Table>)
    ensures
        views(r@) == report_tables(set@, views(tables@)),
{
    let mut tables = tables;
    let enabled = enabled_tables(&set.system);
    proof {
        assert(enabled.len() == views(enabled@).len());
    }
    add_absent(&mut tables, &enabled);
    let mut tables = sort_tables(tables, &set.system);
    join_tables(&mut tables, &set.system);
    let ghost joint = views(tables@);
    let pools = match find_block(&tables) {
        Some(i) => {
            proof {
                assert(joint[i as int] == tables@[i as int]@);
            }
            infer_raid_by_pool(&tables[i])
        },
        None => Row::new(),
    };
    let mut out: Vec<Table> = Vec::new();
    let mut i: usize = 0;
    while i < tables.len()
        invariant
            i <= tables.len(),
            joint == views(tables@),
            pools@ == pools_of(joint),
            out.len() == i,
            forall|j: int| 0 <= j < i ==> (#[trigger] out@[j])@ == with_raid(joint[j], pools@),
        decreases tables.len() - i,
    {
        proof {
            assert(joint[i as int] == tables@[i as int]@);
        }
        out.push(set_raid(&tables[i], &pools));
        i += 1;
    }
    proof {
        assert(views(out@) =~= Seq::new(joint.len(), |i: int| with_raid(joint[i], pools@)));
    }
    out
}

/// The findings of a report before their evidence is limited.
pub open spec fn full_findings(set: RuleSetView, findings: Seq<FindingView>, volumes: Volumes)
    -> Seq<FindingView> {
    let s = sorted(findings, by_group(rule_groups(set.rules)));
    Seq::new(s.len(), |i: int| annotated(finished(s[i]), volumes))
}

fn arrange_findings<F: Fn(&str, &str, &str) -> Option<String>>(
    set: &RuleSet,
    findings: Vec<Finding>,
    volumes: &F,
) -> (r: Vec<Finding>)
    requires
        gives_volumes(*volumes),
    ensures
        views(r@) == full_findings(set@, views(findings@), volumes_of(*volumes)),
{
    let ghost vs = volumes_of(*volumes);
    let all = sort_findings(findings, &set.rules);
    let ghost s = views(all@);
    let mut left = all;
    let ghost n = left@.len();
    let mut back: Vec<Finding> = Vec::new();
    proof {
        assert(s.take(s.len() as int) =~= s);
    }
    while left.len() > 0
        invariant
            gives_volumes(*volumes),
            vs == volumes_of(*volumes),
            left.len() + back.len() == s.len(),
            views(left@) == s.take(left.len() as int),
            forall|i: int|
                0 <= i < back.len() ==> (#[trigger] back@[i])@ == annotated(
                    finished(s[s.len() - 1 - i]),
                    vs,
                ),
        decreases left.len(),
    {
        let ghost m = left.len() as int;
        let ghost was = left@;
        if let Some(f) = left.pop() {
            proof {
                assert(views(was)[m - 1] == f@);
                assert(views(left@) =~= s.take(m - 1));
            }
            let mut f = finish_finding(f);
            annotate_finding(&mut f, volumes);
            back.push(f);
        }
    }
    let out = reversed(back);
    proof {
        assert(views(out@) =~= Seq::new(s.len(), |i: int| annotated(finished(s[i]), vs)));
    }
    out
}

/// A span of seconds as a signed number of 64 bits.
pub open spec fn window_of(seconds: u64) -> int {
    if seconds <= i64::MAX {
        seconds as int
    } else {
        seconds - 0x1_0000_0000_0000_0000
    }
}

pub fn signed_window(seconds: u64) -> (r: i64)
    ensures
        r == window_of(seconds),
{
    if seconds <= i64::MAX as u64 {
        seconds as i64
    } else {
        (seconds as i128 - 0x1_0000_0000_0000_0000) as i64
    }
}

/// The sessions in the order of a report.
pub open spec fn report_sessions(events: Seq<EventView>, window: int, desc: bool) -> Seq<
    TimelineSessionView,
> {
    if desc {
        sessions(events, window).reverse()
    } else {
        sessions(events, window)
    }
}

pub(crate) fn arrange_sessions(events: &Vec<Event>, window: u64, desc: bool) -> (r: Vec<TimelineSession>)
    ensures
        views(r@) == report_sessions(views(events@), window_of(window), desc),
{
    let s = build_timeline_sessions(events, signed_window(window));
    if desc {
        reversed(s)
    } else {
        s
    }
}

/// Whether an entry stands for a file of the package.
pub open spec fn stands_for(f: LogFileView, path: Seq<char>) -> bool {
    f.fault() is None && f.as_source().covers(path)
}

pub open spec fn for_path(path: Seq<char>) -> spec_fn(LogFileView) -> bool {
    |f: LogFileView| stands_for(f, path)
}

pub open spec fn ids_for(files: Seq<LogFileView>, path: Seq<char>) -> Seq<Seq<char>> {
    let s = kept(files, for_path(path), 0);
    Seq::new(s.len(), |i: int| s[i].id)
}

pub open spec fn names_for(files: Seq<LogFileView>, path: Seq<char>) -> Seq<Seq<char>> {
    let s = kept(files, for_path(path), 0);
    Seq::new(s.len(), |i: int| s[i].name)
}

/// The labels of the first `n` files of the package.
pub open spec fn file_labels(files: Seq<LogFileView>, paths: Seq<Seq<char>>, n: int) -> RowView
    decreases n,
{
    if n <= 0 {
        Seq::empty()
    } else {
        let m = file_labels(files, paths, n - 1);
        let names = names_for(files, paths[n - 1]);
        if names.len() == 0 {
            m
        } else {
            put(
                m,
                paths[n - 1],
                joined(names, "、"@) + " · "@ + tail(paths[n - 1], Class::One('/')),
            )
        }
    }
}

pub open spec fn entry_for(path: Seq<char>) -> spec_fn(CatalogEntryView) -> bool {
    |e: CatalogEntryView| e.path == path
}

/// The catalogue entries of the first `n` files of the package.
pub open spec fn file_catalog(files: Seq<LogFileView>, paths: Seq<Seq<char>>, n: int) -> Seq<
    CatalogEntryView,
>
    decreases n,
{
    if n <= 0 {
        Seq::empty()
    } else {
        let m = file_catalog(files, paths, n - 1);
        let e = CatalogEntryView { path: paths[n - 1], ids: ids_for(files, paths[n - 1]) };
        match first_place(m, entry_for(paths[n - 1]), 0) {
            Some(i) => m.update(i, e),
            None => m.push(e),
        }
    }
}

fn entries_for(files: &Vec<LogFile>, path: &str) -> (r: (Vec<String>, Vec<String>))
    ensures
        views(r.0@) == ids_for(views(files@), path@),
        views(r.1@) == names_for(views(files@), path@),
{
    let ghost fv = views(files@);
    let ghost f = for_path(path@);
    let ghost mut seen: Seq<LogFileView> = Seq::empty();
    let mut ids: Vec<String> = Vec::new();
    let mut names: Vec<String> = Vec::new();
    let mut i: usize = 0;
    proof {
        assert(seen + kept(fv, f, 0) =~= kept(fv, f, 0));
    }
    while i < files.len()
        invariant
            i <= files.len(),
            fv == views(files@),
            f == for_path(path@),
            seen + kept(fv, f, i as int) == kept(fv, f, 0),
            ids.len() == seen.len(),
            names.len() == seen.len(),
            forall|j: int| 0 <= j < ids.len() ==> (#[trigger] ids@[j])@ == seen[j].id,
            forall|j: int| 0 <= j < names.len() ==> (#[trigger] names@[j])@ == seen[j].name,
        decreases files.len() - i,
    {
        let hit = match files[i].source() {
            Ok(s) => s.matches(path),
            Err(_) => false,
        };
        proof {
            assert(fv[i as int] == files@[i as int]@);
            assert(hit == f(fv[i as int]));
        }
        if hit {
            let ghost was = seen;
            ids.push(files[i].id.clone());
            names.push(files[i].name.clone());
            proof {
                seen = seen.push(fv[i as int]);
                assert(was + kept(fv, f, i as int) =~= seen + kept(fv, f, i + 1));
            }
        }
        i += 1;
    }
    proof {
        assert(seen + kept(fv, f, i as int) =~= seen);
        assert(views(ids@) =~= ids_for(fv, path@));
        assert(views(names@) =~= names_for(fv, path@));
    }
    (ids, names)
}

fn put_entry(catalog: &mut Vec<CatalogEntry>, path: &str, ids: Vec<String>)
    ensures
        ({
            let e = CatalogEntryView { path: path@, ids: views(ids@) };
            views(final(catalog)@) == match first_place(
                views(old(catalog)@),
                entry_for(path@),
                0,
            ) {
                Some(i) => views(old(catalog)@).update(i, e),
                None => views(old(catalog)@).push(e),
            }
        }),
{
    let ghost cv = views(catalog@);
    let ghost f = entry_for(path@);
    let ghost had = catalog@;
    let ghost e = CatalogEntryView { path: path@, ids: views(ids@) };
    let mut i: usize = 0;
    while i < catalog.len()
        invariant
            i <= catalog.len(),
            catalog@ == had,
            cv == views(had),
            f == entry_for(path@),
            first_place(cv, f, 0) == first_place(cv, f, i as int),
            e == (CatalogEntryView { path: path@, ids: views(ids@) }),
            cv == views(old(catalog)@),
        decreases catalog.len() - i,
    {
        let hit = same(catalog[i].path.as_str(), path);
        proof {
            assert(cv[i as int] == had[i as int]@);
            assert(hit == f(cv[i as int]));
        }
        if hit {
            let new = CatalogEntry { path: path.to_owned(), ids };
            catalog.set(i, new);
            proof {
                assert(views(catalog@) =~= cv.update(i as int, e));
            }
            return;
        }
        i += 1;
    }
    let new = CatalogEntry { path: path.to_owned(), ids };
    catalog.push(new);
    proof {
        assert(views(catalog@) =~= cv.push(e));
    }
}

fn describe_files(files: &Vec<LogFile>, paths: &Vec<String>) -> (r: (Row, Vec<CatalogEntry>))
    ensures
        r.0@ == file_labels(views(files@), views(paths@), paths.len() as int),
        views(r.1@) == file_catalog(views(files@), views(paths@), paths.len() as int),
{
    let ghost fv = views(files@);
    let ghost pv = views(paths@);
    let mut labels = Row::new();
    let mut catalog: Vec<CatalogEntry> = Vec::new();
    let mut i: usize = 0;
    proof {
        assert(views(catalog@) =~= file_catalog(fv, pv, 0));
    }
    while i < paths.len()
        invariant
            i <= paths.len(),
            fv == views(files@),
            pv == views(paths@),
            labels@ == file_labels(fv, pv, i as int),
            views(catalog@) == file_catalog(fv, pv, i as int),
        decreases paths.len() - i,
    {
        let path = paths[i].as_str();
        proof {
            assert(pv[i as int] == path@);
        }
        let (ids, names) = entries_for(files, path);
        proof {
            assert(names.len() == views(names@).len());
        }
        if names.len() > 0 {
            let all = join(&names, "、");
            let base = tail_of(path, Class::One('/'));
            labels.insert(path.to_owned(), concat3(all.as_str(), " · ", base.as_str()));
        }
        put_entry(&mut catalog, path, ids);
        i += 1;
    }
    (labels, catalog)
}

/// Which catalogue entry each of the first `n` tables is read from.
pub open spec fn table_files(system: Seq<SystemRuleView>, n: int) -> RowView
    decreases n,
{
    if n <= 0 {
        Seq::empty()
    } else {
        put(table_files(system, n - 1), system[n - 1].id, system[n - 1].source_file_id)
    }
}

pub(crate) fn files_of_tables(system: &Vec<SystemRule>) -> (r: Row)
    ensures
        r@ == table_files(views(system@), system.len() as int),
{
    let ghost sv = views(system@);
    let mut out = Row::new();
    let mut i: usize = 0;
    while i < system.len()
        invariant
            i <= system.len(),
            sv == views(system@),
            out@ == table_files(sv, i as int),
        decreases system.len() - i,
    {
        proof {
            assert(sv[i as int] == system@[i as int]@);
        }
        out.insert(system[i].id.clone(), system[i].source_file_id.clone());
        i += 1;
    }
    out
}

/// The report of a package whose files are all read. The references of the
/// rules are resolved.
pub open spec fn report_of(
    set: RuleSetView,
    g: GatheredView,
    paths: Seq<Seq<char>>,
    package: Seq<char>,
    generated: Seq<char>,
    volumes: Volumes,
) -> ReportView {
    let desc = set.layout.timeline_sort == "desc"@;
    let findings = full_findings(set, g.findings, volumes);
    let events = report_events(findings, g.events, desc);
    ReportView {
        package,
        generated,
        layout: set.layout,
        log_files: set.log_files,
        source_labels: file_labels(set.log_files, paths, paths.len() as int),
        source_catalog: file_catalog(set.log_files, paths, paths.len() as int),
        system_file_ids: table_files(set.system, set.system.len() as int),
        system: report_tables(set, g.system),
        findings: Seq::new(findings.len(), |i: int| limited_finding(findings[i])),
        events,
        timeline_facts: events,
        timeline_sessions: report_sessions(
            events,
            window_of(set.timeline.thresholds.match_window_seconds),
            desc,
        ),
        timeline_warnings: timeline_notes(events),
        warnings: g.warnings,
    }
}

fn limit_all(findings: Vec<Finding>) -> (r: Vec<Finding>)
    ensures
        views(r@) == Seq::new(
            findings@.len(),
            |i: int| limited_finding(views(findings@)[i]),
        ),
{
    let ghost s = views(findings@);
    let mut left = findings;
    let mut back: Vec<Finding> = Vec::new();
    proof {
        assert(s.take(s.len() as int) =~= s);
    }
    while left.len() > 0
        invariant
            left.len() + back.len() == s.len(),
            views(left@) == s.take(left.len() as int),
            forall|i: int|
                0 <= i < back.len() ==> (#[trigger] back@[i])@ == limited_finding(
                    s[s.len() - 1 - i],
                ),
        decreases left.len(),
    {
        let ghost m = left.len() as int;
        let ghost was = left@;
        if let Some(f) = left.pop() {
            proof {
                assert(views(was)[m - 1] == f@);
                assert(views(left@) =~= s.take(m - 1));
            }
            let mut f = f;
            limit_report_evidence(&mut f);
            back.push(f);
        }
    }
    let out = reversed(back);
    proof {
        assert(views(out@) =~= Seq::new(s.len(), |i: int| limited_finding(s[i])));
    }
    out
}

/// Assembles the report of a package. Evidence is limited last: the timeline is
/// made of all of it.
pub fn assemble_report<F: Fn(&str, &str, &str) -> Option<String>>(
    set: &RuleSet,
    gathered: Gathered,
    paths: &Vec<String>,
    package: &str,
    generated: &str,
    volumes: &F,
) -> (r: Report)
    requires
        gives_volumes(*volumes),
    ensures
        r@ == report_of(
            set@,
            gathered@,
            views(paths@),
            package@,
            generated@,
            volumes_of(*volumes),
        ),
{
    let ghost gv = gathered@;
    let Gathered { findings, system, events, warnings } = gathered;
    let desc = same(set.layout.timeline_sort.as_str(), "desc");
    let system = arrange_tables(set, system);
    let findings = arrange_findings(set, findings, volumes);
    let ghost full = views(findings@);
    let events = arrange_events(&findings, &events, desc);
    let timeline_facts = duplicate_all(&events);
    let timeline_sessions = arrange_sessions(
        &events,
        set.timeline.thresholds.match_window_seconds,
        desc,
    );
    let notes = timeline_warnings(&events);
    proof {
        assert(full.len() == findings@.len());
    }
    let findings = limit_all(findings);
    let (source_labels, source_catalog) = describe_files(&set.log_files, paths);
    let r = Report {
        package: package.to_owned(),
        generated: generated.to_owned(),
        layout: set.layout.duplicate(),
        log_files: duplicate_all(&set.log_files),
        source_labels,
        source_catalog,
        system_file_ids: files_of_tables(&set.system),
        system,
        findings,
        events,
        timeline_facts,
        timeline_sessions,
        timeline_warnings: notes,
        warnings,
    };
    proof {
        let want = report_of(
            set@,
            gv,
            views(paths@),
            package@,
            generated@,
            volumes_of(*volumes),
        );
        assert(r@.findings =~= want.findings);
        assert(r@ =~= want);
    }
    r
}

} // verus!
