//! What stands around a fact: its context, its notes and the warnings of its file.

use crate::engine::events::{evidence_of, fragment_with, hit_at, source_with_context, with_context};
use crate::engine::file::{file_table_warnings, file_tables, record_warnings, table_result};
use crate::engine::findings::{absent_table, annotated, hit_groups, Volumes};
use crate::engine::model::{EventView, FindingView, FragmentView, LogLineView};
use crate::engine::scan::{raw_lines, scan_status, scan_warnings, Content};
use crate::engine::time::{near, time_of};
use crate::extract::extractor::{table_of, extract_fault, extracted};
use crate::extract::format::Sizes;
use crate::extract::model::{StorageContextView, TableView};
use crate::outside::clock::{moment, Moment};
use crate::outside::pattern::{pattern_fault, pattern_groups, PatternView};
use crate::row::RowView;
use crate::rules::model::SystemRuleView;
use crate::text::{any, finishes, has, lower, swap_char};
use vstd::prelude::*;

verus! {

/// Whether a fragment shows a line of a file as a hit.
pub open spec fn shows_hit(f: FragmentView, file: Seq<char>, number: usize) -> bool {
    f.file == file && exists|i: int|
        0 <= i < f.lines.len() && (#[trigger] f.lines[i]).hit && f.lines[i].number == number
}

proof fn lemma_shows(f: FragmentView, file: Seq<char>, number: usize)
    ensures
        (f.file == file && any(f.lines, hit_at(number))) == shows_hit(f, file, number),
{
    let g = hit_at(number);
    if any(f.lines, g) {
        let i = choose|i: int| 0 <= i < f.lines.len() && g(#[trigger] f.lines[i]);
        assert(f.lines[i].hit);
    }
    if shows_hit(f, file, number) {
        let i = choose|i: int|
            0 <= i < f.lines.len() && (#[trigger] f.lines[i]).hit && f.lines[i].number == number;
        assert(g(f.lines[i]));
    }
}

/// Whether a fragment is the last of a finding that shows a line.
pub open spec fn is_last_showing(
    s: Seq<FragmentView>,
    file: Seq<char>,
    number: usize,
    k: int,
) -> bool {
    &&& 0 <= k < s.len()
    &&& shows_hit(s[k], file, number)
    &&& forall|j: int| k < j < s.len() ==> !shows_hit(#[trigger] s[j], file, number)
}

proof fn lemma_fragment(s: Seq<FragmentView>, file: Seq<char>, number: usize, n: int)
    requires
        0 <= n <= s.len(),
        forall|j: int| n <= j < s.len() ==> !shows_hit(#[trigger] s[j], file, number),
    ensures
        (match fragment_with(s, file, number, n) {
            Some(f) => exists|k: int| #[trigger] is_last_showing(s, file, number, k) && s[k] == f,
            None => forall|j: int| 0 <= j < s.len() ==> !shows_hit(#[trigger] s[j], file, number),
        }),
    decreases n,
{
    if n > 0 {
        lemma_shows(s[n - 1], file, number);
        if shows_hit(s[n - 1], file, number) {
            assert(is_last_showing(s, file, number, n - 1));
        } else {
            lemma_fragment(s, file, number, n - 1);
        }
    }
}

/// Whether a finding is of the rule of an event and feeds the timeline.
pub open spec fn is_of_event(f: FindingView, e: EventView) -> bool {
    f.rule.target != "keywords"@ && f.rule.name == e.name && f.rule.group == e.group
}

/// Whether a finding is of the rule of an event and shows its line.
pub open spec fn gives_evidence(
    f: FindingView,
    e: EventView,
    file: Seq<char>,
    number: usize,
) -> bool {
    is_of_event(f, e) && exists|k: int| #[trigger] is_last_showing(f.fragments, file, number, k)
}

proof fn lemma_last_unique(s: Seq<FragmentView>, file: Seq<char>, number: usize, a: int, b: int)
    requires
        is_last_showing(s, file, number, a),
        is_last_showing(s, file, number, b),
    ensures
        a == b,
{
    if a < b {
        assert(!shows_hit(s[b], file, number));
    }
    if b < a {
        assert(!shows_hit(s[a], file, number));
    }
}

proof fn lemma_evidence(
    s: Seq<FindingView>,
    e: EventView,
    file: Seq<char>,
    number: usize,
    n: int,
    i: int,
    k: int,
)
    requires
        0 <= n <= s.len(),
    ensures
        0 <= i < n && is_of_event(s[i], e) && is_last_showing(s[i].fragments, file, number, k) && (
        forall|j: int| i < j < n ==> !gives_evidence(#[trigger] s[j], e, file, number))
            ==> evidence_of(s, e, file, number, n) == Some(s[i].fragments[k]),
        (forall|j: int| 0 <= j < n ==> !gives_evidence(#[trigger] s[j], e, file, number))
            ==> evidence_of(s, e, file, number, n) is None,
    decreases n,
{
    if n > 0 {
        let f = s[n - 1];
        let m = f.fragments.len() as int;
        lemma_fragment(f.fragments, file, number, m);
        let here = fragment_with(f.fragments, file, number, m);
        lemma_evidence(s, e, file, number, n - 1, i, k);
        lemma_evidence(s, e, file, number, n - 1, -1, k);
        if here is Some {
            let x = choose|x: int| #[trigger]
                is_last_showing(f.fragments, file, number, x) && f.fragments[x] == here->0;
            if i == n - 1 && is_last_showing(f.fragments, file, number, k) {
                lemma_last_unique(f.fragments, file, number, x, k);
            }
            assert(is_of_event(f, e) ==> gives_evidence(f, e, file, number));
        } else {
            if gives_evidence(f, e, file, number) {
                let x = choose|x: int| #[trigger] is_last_showing(f.fragments, file, number, x);
                assert(shows_hit(f.fragments[x], file, number));
            }
            assert(!gives_evidence(f, e, file, number));
            if i == n - 1 && is_last_showing(f.fragments, file, number, k) {
                assert(shows_hit(f.fragments[k], file, number));
            }
        }
        if 0 <= i < n - 1 && (forall|j: int|
            i < j < n ==> !gives_evidence(#[trigger] s[j], e, file, number)) {
            assert(!gives_evidence(f, e, file, number));
        }
        if forall|j: int| 0 <= j < n ==> !gives_evidence(#[trigger] s[j], e, file, number) {
            assert(!gives_evidence(f, e, file, number));
        }
    }
}

/// A source of an event is shown in the fragment, with its context, in which a finding
/// of the event's own rule shows that line: the last such fragment of the last such
/// finding. Where no finding of that rule for the timeline shows the line, the source
/// stays as it is.
pub proof fn law_sources_stand_in_their_context(
    s: Seq<FindingView>,
    e: EventView,
    source: FragmentView,
    i: int,
    k: int,
)
    requires
        source.lines.len() > 0,
    ensures
        ({
            let number = source.lines[0].number;
            &&& 0 <= i < s.len() && is_of_event(s[i], e) && is_last_showing(
                s[i].fragments,
                source.file,
                number,
                k,
            ) && (forall|j: int|
                i < j < s.len() ==> !gives_evidence(#[trigger] s[j], e, source.file, number))
                ==> source_with_context(s, e, source) == s[i].fragments[k]
            &&& (forall|j: int|
                0 <= j < s.len() ==> !gives_evidence(#[trigger] s[j], e, source.file, number))
                ==> source_with_context(s, e, source) == source
        }),
{
    lemma_evidence(s, e, source.file, source.lines[0].number, s.len() as int, i, k);
}

/// Context changes the sources of an event alone, each in its place.
pub proof fn law_context_changes_sources_alone(s: Seq<FindingView>, e: EventView, i: int)
    requires
        0 <= i < e.sources.len(),
    ensures
        ({
            let out = with_context(s, e);
            &&& out.sources.len() == e.sources.len()
            &&& out.sources[i] == source_with_context(s, e, e.sources[i])
            &&& out.name == e.name && out.group == e.group && out.time == e.time && out.key == e.key
            &&& out.event_type == e.event_type && out.note == e.note
        }),
{
}

/// Whether a line is the first hit of a fragment that an expression matches.
pub open spec fn is_first_match(
    lines: Seq<LogLineView>,
    term: Seq<char>,
    i: int,
    g: Seq<Option<Seq<char>>>,
) -> bool {
    &&& 0 <= i < lines.len()
    &&& lines[i].hit
    &&& pattern_groups(term, false, lines[i].text) == Some(g)
    &&& forall|j: int|
        0 <= j < i && (#[trigger] lines[j]).hit ==> pattern_groups(term, false, lines[j].text)
            is None
}

proof fn lemma_hit_groups(p: PatternView, lines: Seq<LogLineView>, from: int, i: int)
    requires
        0 <= from <= i < lines.len(),
        lines[i].hit,
        pattern_groups(p.source, p.insensitive, lines[i].text) is Some,
        forall|j: int|
            0 <= j < i && (#[trigger] lines[j]).hit ==> pattern_groups(
                p.source,
                p.insensitive,
                lines[j].text,
            ) is None,
    ensures
        hit_groups(p, lines, from) == pattern_groups(p.source, p.insensitive, lines[i].text),
    decreases i - from,
{
    if from < i {
        lemma_hit_groups(p, lines, from + 1, i);
    }
}

proof fn lemma_no_groups(p: PatternView, lines: Seq<LogLineView>, from: int)
    requires
        0 <= from,
        forall|j: int|
            0 <= j < lines.len() && (#[trigger] lines[j]).hit ==> pattern_groups(
                p.source,
                p.insensitive,
                lines[j].text,
            ) is None,
    ensures
        hit_groups(p, lines, from) is None,
    decreases lines.len() - from,
{
    if from < lines.len() {
        lemma_no_groups(p, lines, from + 1);
    }
}

/// A rule for the sizes of volumes writes them beside each fragment, from the three
/// groups of its first expression in the first hit that it matches; where nothing
/// matches, and for any other rule, the fragments stay as they are.
pub proof fn law_volumes_are_written_beside(
    f: FindingView,
    volumes: Volumes,
    n: int,
    i: int,
    g: Seq<Option<Seq<char>>>,
    a: Seq<char>,
    b: Seq<char>,
    c: Seq<char>,
    text: Seq<char>,
)
    requires
        0 <= n < f.fragments.len(),
    ensures
        f.rule.fmt != "volume_info"@ || !f.rule.regex || f.rule.terms.len() == 0 ==> annotated(
            f,
            volumes,
        ) == f,
        f.rule.fmt == "volume_info"@ && f.rule.regex && f.rule.terms.len() > 0 && pattern_fault(
            f.rule.terms[0],
            false,
        ) is None ==> {
            let lines = f.fragments[n].lines;
            let out = annotated(f, volumes).fragments[n];
            &&& out.lines == lines && out.file == f.fragments[n].file
            &&& is_first_match(lines, f.rule.terms[0], i, g) && g.len() > 3 && g[1] == Some(a)
                && g[2] == Some(b) && g[3] == Some(c) && volumes(a, b, c) == Some(text)
                ==> out.annotation == text
            &&& (forall|j: int|
                0 <= j < lines.len() && (#[trigger] lines[j]).hit ==> pattern_groups(
                    f.rule.terms[0],
                    false,
                    lines[j].text,
                ) is None) ==> out.annotation == f.fragments[n].annotation
        },
        annotated(f, volumes).count == f.count,
        annotated(f, volumes).fragments.len() == f.fragments.len(),
{
    if f.rule.terms.len() > 0 {
        let p = PatternView { source: f.rule.terms[0], insensitive: false };
        let lines = f.fragments[n].lines;
        if is_first_match(lines, f.rule.terms[0], i, g) {
            lemma_hit_groups(p, lines, 0, i);
        }
        if forall|j: int|
            0 <= j < lines.len() && (#[trigger] lines[j]).hit ==> pattern_groups(
                f.rule.terms[0],
                false,
                lines[j].text,
            ) is None {
            lemma_no_groups(p, lines, 0);
        }
    }
}

/// The reader is told of a file exactly where one of its lines holds a NUL byte, and
/// where it could not be read to its end; only in the second case is it incomplete.
pub proof fn law_files_tell_what_was_not_read(file: Seq<char>, c: Content, w: Seq<char>)
    ensures
        ({
            let nul = exists|k: int|
                0 <= k < raw_lines(c).len() && (#[trigger] raw_lines(c)[k]).contains(0u8);
            scan_warnings(file, c).contains(w) <==> {
                ||| nul && w == file
                    + " 含不可见 NUL 字节；报告用 [NUL × 数量] 表示连续字节，原文件保持不变。"@
                ||| c.error is Some && w == "日志读取失败 "@ + file + "："@ + c.error->0@
            }
        }),
        c.error is Some ==> scan_status(c) == "日志读取不完整"@,
        c.error is None ==> scan_status(c) == "未找到符合规则的日志"@,
{
    let nul = exists|k: int|
        0 <= k < raw_lines(c).len() && (#[trigger] raw_lines(c)[k]).contains(0u8);
    assert(crate::engine::scan::nul_within(raw_lines(c), raw_lines(c).len() as int) == nul);
    let one = file + " 含不可见 NUL 字节；报告用 [NUL × 数量] 表示连续字节，原文件保持不变。"@;
    let a = if nul {
        seq![one]
    } else {
        Seq::empty()
    };
    let b = match c.error {
        Some(e) => seq!["日志读取失败 "@ + file + "："@ + e@],
        None => Seq::empty(),
    };
    assert(scan_warnings(file, c) == a + b);
    crate::rules::acceptance_laws::lemma_sum(a, b, w);
    assert(seq![one][0] == one);
    if let Some(e) = c.error {
        assert(b[0] == "日志读取失败 "@ + file + "："@ + e@);
    }
}

/// Every table that a file is asked for is there or is said to have failed, by the name
/// of its rule, the file and the reason.
pub proof fn law_tables_are_there_or_told(
    rules: Seq<SystemRuleView>,
    asked: Seq<usize>,
    name: Seq<char>,
    text: Result<Seq<char>, Seq<char>>,
    sizes: Sizes,
    n: int,
    t: TableView,
    w: Seq<char>,
)
    requires
        0 <= n <= asked.len(),
    ensures
        file_tables(rules, asked, name, text, sizes, n).contains(t) <==> exists|i: int|
            0 <= i < n && is_table(rules[(#[trigger] asked[i]) as int], name, text, sizes, t),
        file_table_warnings(rules, asked, name, text, sizes, n).contains(w) <==> exists|i: int|
            0 <= i < n && is_told(rules[(#[trigger] asked[i]) as int], name, text, w),
    decreases n,
{
    if n > 0 {
        law_tables_are_there_or_told(rules, asked, name, text, sizes, n - 1, t, w);
        let r = rules[asked[n - 1] as int];
        let res = table_result(r, name, text, sizes);
        let a = match res {
            Ok(x) => seq![x],
            Err(_) => Seq::empty(),
        };
        let b = match res {
            Ok(_) => Seq::empty(),
            Err(e) => seq![r.name + " / "@ + name + "："@ + e],
        };
        let was = file_tables(rules, asked, name, text, sizes, n - 1);
        let all = was + a;
        if let Ok(x) = res {
            assert(a[0] == x);
        }
        if let Err(e) = res {
            assert(b[0] == r.name + " / "@ + name + "："@ + e);
        }
        assert(a.contains(t) == is_table(r, name, text, sizes, t));
        assert(b.contains(w) == is_told(r, name, text, w));
        crate::rules::acceptance_laws::lemma_sum(
            file_table_warnings(rules, asked, name, text, sizes, n - 1),
            b,
            w,
        );
        if all.contains(t) {
            let i = choose|i: int| 0 <= i < all.len() && all[i] == t;
            if i < was.len() {
                assert(was[i] == t);
            } else {
                assert(a[i - was.len()] == t);
            }
        }
        if was.contains(t) {
            let i = choose|i: int| 0 <= i < was.len() && was[i] == t;
            assert(all[i] == t);
        }
        if a.contains(t) {
            let i = choose|i: int| 0 <= i < a.len() && a[i] == t;
            assert(all[was.len() + i] == t);
        }
    }
}

/// Whether a table is what a rule extracts from the text of a file.
pub open spec fn is_table(
    r: SystemRuleView,
    name: Seq<char>,
    text: Result<Seq<char>, Seq<char>>,
    sizes: Sizes,
    t: TableView,
) -> bool {
    text matches Ok(s) && extract_fault(r, s, None) is None && t == extracted(
        r,
        s,
        name,
        None,
        sizes,
    )
}

/// Whether a warning says why a rule extracts nothing from a file.
pub open spec fn is_told(
    r: SystemRuleView,
    name: Seq<char>,
    text: Result<Seq<char>, Seq<char>>,
    w: Seq<char>,
) -> bool {
    match text {
        Ok(s) => extract_fault(r, s, None) matches Some(f) && w == r.name + " / "@ + name + "："@
            + f.message(),
        Err(e) => w == r.name + " / "@ + name + "："@ + e,
    }
}

/// A reset file that cannot be read as text is told, and no other file is.
pub proof fn law_unreadable_records_are_told(name: Seq<char>, text: Result<Seq<char>, Seq<char>>)
    ensures
        ({
            let reset = finishes(swap_char(name, '\\', '/'), "/pstore/ug_reset_reason.log"@);
            &&& reset && text is Err ==> record_warnings(name, text) == seq![
                "无法解析 pstore 复位原因 "@ + name + "："@ + text->Err_0,
            ]
            &&& !reset || text is Ok ==> record_warnings(name, text).len() == 0
        }),
{
}

/// Two times are near where they lie no more seconds apart than asked, whichever is the
/// earlier; times that give no moment are near only where they are the same.
pub proof fn law_near_times_lie_close(
    a: Seq<char>,
    b: Seq<char>,
    x: Moment,
    y: Moment,
    seconds: int,
)
    ensures
        moment(a) == Some(x) && moment(b) == Some(y) ==> (near(Some(a), Some(b), seconds) <==> (
        x.timestamp <= y.timestamp + seconds && y.timestamp <= x.timestamp + seconds)),
        moment(a) is None || moment(b) is None ==> (near(Some(a), Some(b), seconds) <==> a == b),
        near(Some(a), Some(b), seconds) == near(Some(b), Some(a), seconds),
        !near(None, Some(b), seconds) && !near(Some(a), None, seconds) && !near(
            None,
            None,
            seconds,
        ),
{
}

/// A line whose full time is not found shows its incomplete one and says so, and one
/// without any says that; neither has a place on the timeline.
pub proof fn law_incomplete_times_are_said_to_be(
    line: Seq<char>,
    custom: PatternView,
    format: Seq<char>,
    zone: Seq<char>,
    g: Seq<Option<Seq<char>>>,
    shown: Seq<char>,
)
    requires
        pattern_groups(custom.source, custom.insensitive, line) is None,
        pattern_fault(crate::engine::time::PARTIAL_TIME@, false) is None,
    ensures
        pattern_groups(crate::engine::time::PARTIAL_TIME@, false, line) == Some(g) && g.len() > 0
            && g[0] == Some(shown) ==> time_of(line, Some(custom), format, zone) == (
            shown + "（时间不完整）"@,
            None::<Seq<char>>,
        ),
        pattern_groups(crate::engine::time::PARTIAL_TIME@, false, line) is None ==> time_of(
            line,
            Some(custom),
            format,
            zone,
        ) == ("时间未识别"@, None::<Seq<char>>),
{
}

/// A table whose file is missing shows the rule's fields without a row, and says what is
/// missing where the rule has words for it.
pub proof fn law_missing_tables_say_so(r: SystemRuleView)
    ensures
        ({
            let t = absent_table(r);
            &&& t.id == r.id && t.name == r.name && t.group == r.group && t.fields == r.fields
            &&& t.rows.len() == 0 && t.storage.len() == 0
            &&& r.missing.len() > 0 ==> t.warning == r.missing + "：来源缺失或提取失败"@
            &&& r.missing.len() == 0 ==> t.warning.len() == 0
        }),
{
}

/// The whole text is kept beside a table of block devices alone, whether its identity,
/// its name or its source says so.
pub proof fn law_block_devices_keep_their_text(
    r: SystemRuleView,
    text: Seq<char>,
    source: Seq<char>,
    rows: Seq<RowView>,
    storage: Seq<StorageContextView>,
)
    ensures
        ({
            let t = table_of(r, text, source, rows, storage);
            let devices = lower(r.id) == seq!['b', 'l', 'o', 'c', 'k'] || has(lower(r.id), "lsblk"@)
                || has(lower(r.name), "lsblk"@) || has(lower(r.source.pattern), "lsblk"@);
            &&& devices ==> t.raw_text == text
            &&& !devices ==> t.raw_text.len() == 0
            &&& t.id == r.id && t.name == r.name && t.group == r.group && t.view == r.view
            &&& t.fields == r.fields && t.source == source && t.storage == storage
        }),
{
    reveal_strlit("block");
    assert(lower("block"@) =~= seq!['b', 'l', 'o', 'c', 'k']);
}

} // verus!
