//! The analysis of one file: the reset record, the tables and the scan.

use crate::engine::facts::{parse_reset_reason_blocks, reset_events};
use crate::engine::model::{Event, EventView};
use crate::engine::plan::{below, is_reset_file, is_reset_record};
use crate::engine::scan::{
    content_lines, log_scan, scan_log, Content, PreparedRule, PreparedRuleView, Scan, ScanView,
    Task,
};
use crate::engine::time::TimePatterns;
use crate::extract::extractor::{extract_fault, extracted, PreparedExtractor};
use crate::extract::format::{gives_sizes, sizes_of, Sizes};
use crate::extract::model::{Table, TableView};
use crate::outside::json::{json_value, parse_json, Json};
use crate::outside::std_text::from_utf8;
use crate::rules::model::{Rule, SourceView, SystemRuleView};
use crate::text::{any, concat3, same, views};
use vstd::prelude::*;
use vstd::string::*;
use vstd::utf8::*;

verus! {

/// What the analysis of one file found: the results of the active rules in their
/// order, the tables, the events and the warnings.
#[derive(Debug)]
pub struct FileAnalysis {
    pub scans: Vec<Scan>,
    pub system: Vec<Table>,
    pub events: Vec<Event>,
    pub warnings: Vec<String>,
}

/// What a `FileAnalysis` holds.
#[verifier::ext_equal]
pub ghost struct FileAnalysisView {
    pub scans: Seq<ScanView>,
    pub system: Seq<TableView>,
    pub events: Seq<EventView>,
    pub warnings: Seq<Seq<char>>,
}

impl View for FileAnalysis {
    type V = FileAnalysisView;

    open spec fn view(&self) -> FileAnalysisView {
        FileAnalysisView {
            scans: views(self.scans@),
            system: views(self.system@),
            events: views(self.events@),
            warnings: views(self.warnings@),
        }
    }
}

/// The text of a file, or why it has none.
pub open spec fn content_text(c: Content) -> Result<Seq<char>, Seq<char>> {
    match c.error {
        Some(e) => Err(e@),
        None => if valid_utf8(c.bytes@) {
            Ok(decode_utf8(c.bytes@))
        } else {
            Err("stream did not contain valid UTF-8"@)
        },
    }
}

pub open spec fn result_view(r: Result<String, String>) -> Result<Seq<char>, Seq<char>> {
    match r {
        Ok(s) => Ok(s@),
        Err(s) => Err(s@),
    }
}

impl Content {
    /// The text of the file, or why it has none.
    pub fn text(&self) -> (r: Result<String, String>)
        ensures
            result_view(r) == content_text(*self),
    {
        match &self.error {
            Some(e) => Err(e.clone()),
            None => match from_utf8(self.bytes.as_slice()) {
                Some(s) => Ok(s),
                None => Err("stream did not contain valid UTF-8".to_owned()),
            },
        }
    }
}

pub open spec fn source_covers(name: Seq<char>) -> spec_fn(SourceView) -> bool {
    |s: SourceView| s.covers(name)
}

pub open spec fn feeds_timeline(name: Seq<char>) -> spec_fn(PreparedRuleView) -> bool {
    |p: PreparedRuleView|
        p.rule.target != "keywords"@ && any(p.rule.sources, source_covers(name))
}

/// Whether a rule takes care of the timeline of a file. Facts are recognised
/// without rules only where none does.
pub open spec fn timeline_ruled(rules: Seq<PreparedRuleView>, name: Seq<char>) -> bool {
    any(rules, feeds_timeline(name))
}

fn any_covers(r: &Rule, name: &str) -> (out: bool)
    ensures
        out == any(r@.sources, source_covers(name@)),
{
    let ghost sv = r@.sources;
    let ghost f = source_covers(name@);
    let mut i: usize = 0;
    while i < r.sources.len()
        invariant
            i <= r.sources.len(),
            sv == views(r.sources@),
            f == source_covers(name@),
            forall|j: int| 0 <= j < i ==> !f(#[trigger] sv[j]),
        decreases r.sources.len() - i,
    {
        let hit = r.sources[i].matches(name);
        proof {
            assert(sv[i as int] == r.sources@[i as int]@);
            assert(hit == f(sv[i as int]));
        }
        if hit {
            return true;
        }
        i += 1;
    }
    false
}

fn has_timeline_rule(rules: &Vec<PreparedRule>, name: &str) -> (r: bool)
    ensures
        r == timeline_ruled(views(rules@), name@),
{
    let ghost rv = views(rules@);
    let ghost f = feeds_timeline(name@);
    let mut i: usize = 0;
    while i < rules.len()
        invariant
            i <= rules.len(),
            rv == views(rules@),
            f == feeds_timeline(name@),
            forall|j: int| 0 <= j < i ==> !f(#[trigger] rv[j]),
        decreases rules.len() - i,
    {
        let hit = !same(rules[i].rule.target.as_str(), "keywords") && any_covers(
            &rules[i].rule,
            name,
        );
        proof {
            assert(rv[i as int] == rules@[i as int]@);
            assert(hit == f(rv[i as int]));
        }
        if hit {
            return true;
        }
        i += 1;
    }
    false
}

/// The table that a rule extracts from a file, or why there is none.
pub open spec fn table_result(
    r: SystemRuleView,
    name: Seq<char>,
    text: Result<Seq<char>, Seq<char>>,
    sizes: Sizes,
) -> Result<TableView, Seq<char>> {
    match text {
        Ok(t) => match extract_fault(r, t, None) {
            Some(f) => Err(f.message()),
            None => Ok(extracted(r, t, name, None, sizes)),
        },
        Err(e) => Err(e),
    }
}

pub open spec fn table_warning(r: SystemRuleView, name: Seq<char>, e: Seq<char>) -> Seq<char> {
    r.name + " / "@ + name + "："@ + e
}

/// The tables of the first `n` rules that are asked for.
pub open spec fn file_tables(
    rules: Seq<SystemRuleView>,
    asked: Seq<usize>,
    name: Seq<char>,
    text: Result<Seq<char>, Seq<char>>,
    sizes: Sizes,
    n: int,
) -> Seq<TableView>
    decreases n,
{
    if n <= 0 {
        Seq::empty()
    } else {
        file_tables(rules, asked, name, text, sizes, n - 1) + (match table_result(
            rules[asked[n - 1] as int],
            name,
            text,
            sizes,
        ) {
            Ok(t) => seq![t],
            Err(_) => Seq::empty(),
        })
    }
}

/// The warnings of the first `n` rules that are asked for.
pub open spec fn file_table_warnings(
    rules: Seq<SystemRuleView>,
    asked: Seq<usize>,
    name: Seq<char>,
    text: Result<Seq<char>, Seq<char>>,
    sizes: Sizes,
    n: int,
) -> Seq<Seq<char>>
    decreases n,
{
    if n <= 0 {
        Seq::empty()
    } else {
        let r = rules[asked[n - 1] as int];
        file_table_warnings(rules, asked, name, text, sizes, n - 1) + (match table_result(
            r,
            name,
            text,
            sizes,
        ) {
            Ok(_) => Seq::empty(),
            Err(e) => seq![table_warning(r, name, e)],
        })
    }
}

pub open spec fn extractor_rules(v: Seq<PreparedExtractor>) -> Seq<SystemRuleView> {
    Seq::new(v.len(), |i: int| v[i].rule@)
}

pub open spec fn extractors_ok(v: Seq<PreparedExtractor>) -> bool {
    forall|i: int| 0 <= i < v.len() ==> (#[trigger] v[i]).wf()
}

fn file_table<F: Fn(&str, bool) -> Option<String>>(
    e: &PreparedExtractor,
    name: &str,
    text: &Result<String, String>,
    json: &Option<Json>,
    sizes: &F,
) -> (r: Result<Table, String>)
    requires
        e.wf(),
        gives_sizes(*sizes),
        *json is Some ==> *text is Ok && json_value((*text)->Ok_0@) == *json,
    ensures
        (match r {
            Ok(t) => table_result(e.rule@, name@, result_view(*text), sizes_of(*sizes)) == Ok::<
                TableView,
                Seq<char>,
            >(t@),
            Err(m) => table_result(e.rule@, name@, result_view(*text), sizes_of(*sizes)) == Err::<
                TableView,
                Seq<char>,
            >(m@),
        }),
{
    match text {
        Ok(t) => match e.extract(t.as_str(), name, json.as_ref(), sizes) {
            Ok(table) => Ok(table),
            Err(f) => Err(f.message()),
        },
        Err(m) => Err(m.clone()),
    }
}

fn read_tables<F: Fn(&str, bool) -> Option<String>>(
    extractors: &Vec<PreparedExtractor>,
    asked: &Vec<usize>,
    name: &str,
    text: &Result<String, String>,
    sizes: &F,
) -> (r: (Vec<Table>, Vec<String>))
    requires
        extractors_ok(extractors@),
        below(asked@, extractors.len() as int),
        gives_sizes(*sizes),
    ensures
        views(r.0@) == file_tables(
            extractor_rules(extractors@),
            asked@,
            name@,
            result_view(*text),
            sizes_of(*sizes),
            asked.len() as int,
        ),
        views(r.1@) == file_table_warnings(
            extractor_rules(extractors@),
            asked@,
            name@,
            result_view(*text),
            sizes_of(*sizes),
            asked.len() as int,
        ),
{
    let ghost rv = extractor_rules(extractors@);
    let ghost av = asked@;
    let ghost tv = result_view(*text);
    let ghost sz = sizes_of(*sizes);
    let json = match text {
        Ok(t) => if asks_json(extractors, asked) {
            parse_json(t.as_str())
        } else {
            None
        },
        Err(_) => None,
    };
    let mut tables: Vec<Table> = Vec::new();
    let mut warnings: Vec<String> = Vec::new();
    let mut i: usize = 0;
    proof {
        assert(views(tables@) =~= file_tables(rv, av, name@, tv, sz, 0));
        assert(views(warnings@) =~= file_table_warnings(rv, av, name@, tv, sz, 0));
    }
    while i < asked.len()
        invariant
            extractors_ok(extractors@),
            below(asked@, extractors.len() as int),
            gives_sizes(*sizes),
            i <= asked.len(),
            rv == extractor_rules(extractors@),
            av == asked@,
            tv == result_view(*text),
            sz == sizes_of(*sizes),
            json is Some ==> *text is Ok && json_value((*text)->Ok_0@) == json,
            views(tables@) == file_tables(rv, av, name@, tv, sz, i as int),
            views(warnings@) == file_table_warnings(rv, av, name@, tv, sz, i as int),
        decreases asked.len() - i,
    {
        let ghost was_t = views(tables@);
        let ghost was_w = views(warnings@);
        proof {
            assert(asked@[i as int] < extractors.len());
        }
        let e = &extractors[asked[i]];
        proof {
            assert(rv[av[i as int] as int] == e.rule@);
        }
        match file_table(e, name, text, &json, sizes) {
            Ok(t) => {
                let ghost t_view = t@;
                tables.push(t);
                proof {
                    assert(views(tables@) =~= was_t + seq![t_view]);
                    assert(was_w + Seq::<Seq<char>>::empty() =~= was_w);
                }
            },
            Err(m) => {
                let mut w = concat3(e.rule.name.as_str(), " / ", name);
                w.append("：");
                w.append(m.as_str());
                let ghost w_view = w@;
                warnings.push(w);
                proof {
                    assert(views(warnings@) =~= was_w + seq![w_view]);
                    assert(was_t + Seq::<TableView>::empty() =~= was_t);
                }
            },
        }
        i += 1;
    }
    (tables, warnings)
}

fn asks_json(extractors: &Vec<PreparedExtractor>, asked: &Vec<usize>) -> bool
    requires
        below(asked@, extractors.len() as int),
{
    let mut i: usize = 0;
    while i < asked.len()
        invariant
            below(asked@, extractors.len() as int),
            i <= asked.len(),
        decreases asked.len() - i,
    {
        if same(extractors[asked[i]].rule.kind.as_str(), "json") {
            return true;
        }
        i += 1;
    }
    false
}

pub open spec fn record_warning(name: Seq<char>, e: Seq<char>) -> Seq<char> {
    "无法解析 pstore 复位原因 "@ + name + "："@ + e
}

/// The events of a reset record.
pub open spec fn record_events(name: Seq<char>, text: Result<Seq<char>, Seq<char>>) -> Seq<
    EventView,
> {
    if is_reset_file(name) && text is Ok {
        reset_events(name, text->Ok_0)
    } else {
        Seq::empty()
    }
}

pub open spec fn record_warnings(name: Seq<char>, text: Result<Seq<char>, Seq<char>>) -> Seq<
    Seq<char>,
> {
    if is_reset_file(name) && text is Err {
        seq![record_warning(name, text->Err_0)]
    } else {
        Seq::empty()
    }
}

/// What the analysis of a file finds.
pub open spec fn file_analysis(
    name: Seq<char>,
    c: Content,
    tables: Seq<SystemRuleView>,
    asked: Seq<usize>,
    rules: Seq<PreparedRuleView>,
    active: Seq<usize>,
    sizes: Sizes,
) -> FileAnalysisView {
    let text = content_text(c);
    let scan = log_scan(
        Task {
            file: name,
            lines: content_lines(c),
            rules,
            active,
            automatic: !timeline_ruled(rules, name),
        },
        c,
    );
    FileAnalysisView {
        scans: scan.scans,
        system: file_tables(tables, asked, name, text, sizes, asked.len() as int),
        events: record_events(name, text) + scan.events,
        warnings: record_warnings(name, text) + file_table_warnings(
            tables,
            asked,
            name,
            text,
            sizes,
            asked.len() as int,
        ) + scan.warnings,
    }
}

/// Analyses one file: the tables that are asked for, the hits of the active
/// rules, and the facts of the timeline.
pub fn analyze_file<F: Fn(&str, bool) -> Option<String>>(
    name: &str,
    content: &Content,
    extractors: &Vec<PreparedExtractor>,
    asked: &Vec<usize>,
    rules: &Vec<PreparedRule>,
    active: &Vec<usize>,
    times: &TimePatterns,
    sizes: &F,
) -> (r: FileAnalysis)
    requires
        times.wf(),
        extractors_ok(extractors@),
        below(asked@, extractors.len() as int),
        below(active@, rules.len() as int),
        gives_sizes(*sizes),
    ensures
        r@ == file_analysis(
            name@,
            *content,
            extractor_rules(extractors@),
            asked@,
            views(rules@),
            active@,
            sizes_of(*sizes),
        ),
{
    let automatic = !has_timeline_rule(rules, name);
    let text = content.text();
    let ghost tv = content_text(*content);
    let mut events: Vec<Event> = Vec::new();
    let mut warnings: Vec<String> = Vec::new();
    proof {
        assert(views(events@) =~= Seq::<EventView>::empty());
        assert(views(warnings@) =~= Seq::<Seq<char>>::empty());
    }
    if is_reset_record(name) {
        match &text {
            Ok(t) => {
                events = parse_reset_reason_blocks(name, t.as_str());
            },
            Err(e) => {
                let w = concat3("无法解析 pstore 复位原因 ", name, "：");
                let mut w = w;
                w.append(e.as_str());
                let ghost w_view = w@;
                warnings.push(w);
                proof {
                    assert(views(warnings@) =~= seq![w_view]);
                }
            },
        }
    }
    let (tables, mut table_warnings) = read_tables(extractors, asked, name, &text, sizes);
    proof {
        assert(views(events@) =~= record_events(name@, tv));
        assert(views(warnings@) =~= record_warnings(name@, tv));
        crate::text::lemma_views_add(warnings@, table_warnings@);
    }
    warnings.append(&mut table_warnings);
    let scan = scan_log(name, content, rules, active, automatic, times);
    let mut more = scan.events;
    let mut notes = scan.warnings;
    proof {
        crate::text::lemma_views_add(events@, more@);
        crate::text::lemma_views_add(warnings@, notes@);
    }
    events.append(&mut more);
    warnings.append(&mut notes);
    FileAnalysis { scans: scan.scans, system: tables, events, warnings }
}

} // verus!
