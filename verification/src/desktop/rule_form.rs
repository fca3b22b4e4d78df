//! The forms of a rule, of a table and of the report's layout.

use crate::desktop::form::{choice, chosen_ids, entries_of, listed_ids, pos, strings, texts};
use crate::rules::model::{
    Field, Layout, LayoutView, LogFile, LogFileView, Rule, RuleView, SystemRule, SystemRuleView,
};
use crate::text::{duplicate_all, join, joined, lemma_index_from, opt_view, same, views, Duplicate};
use vstd::prelude::*;

verus! {

/// What a rule is shown on, in the order of the list.
pub open spec fn targets() -> Seq<Seq<char>> {
    seq!["keywords"@, "timeline"@, "both"@]
}

/// How the fragments of a rule are ordered, in the order of the list.
pub open spec fn sorts() -> Seq<Seq<char>> {
    seq!["source"@, "asc"@, "desc"@]
}

/// How the terms of a rule are combined, in the order of the list.
pub open spec fn modes() -> Seq<Seq<char>> {
    seq!["any"@, "all"@]
}

/// How a table is read, in the order of the list.
pub open spec fn kinds() -> Seq<Seq<char>> {
    seq!["json"@, "kv"@, "sections"@, "columns"@, "regex"@]
}

/// How a table is shown, in the order of the list.
pub open spec fn table_views() -> Seq<Seq<char>> {
    seq!["cards"@, "table"@, "storage"@, "storage-smart"@]
}

fn target_at(i: i32) -> (r: String)
    requires
        0 <= i < targets().len(),
    ensures
        r@ == targets()[i as int],
{
    match i {
        0 => "keywords".to_owned(),
        1 => "timeline".to_owned(),
        _ => "both".to_owned(),
    }
}

fn sort_at(i: i32) -> (r: String)
    requires
        0 <= i < sorts().len(),
    ensures
        r@ == sorts()[i as int],
{
    match i {
        0 => "source".to_owned(),
        1 => "asc".to_owned(),
        _ => "desc".to_owned(),
    }
}

fn kind_at(i: i32) -> (r: String)
    requires
        0 <= i < kinds().len(),
    ensures
        r@ == kinds()[i as int],
{
    match i {
        0 => "json".to_owned(),
        1 => "kv".to_owned(),
        2 => "sections".to_owned(),
        3 => "columns".to_owned(),
        _ => "regex".to_owned(),
    }
}

fn table_view_at(i: i32) -> (r: String)
    requires
        0 <= i < table_views().len(),
    ensures
        r@ == table_views()[i as int],
{
    match i {
        0 => "cards".to_owned(),
        1 => "table".to_owned(),
        2 => "storage".to_owned(),
        _ => "storage-smart".to_owned(),
    }
}

/// The form of a rule.
#[derive(Clone, Debug)]
pub struct RuleForm {
    pub name: String,
    pub enabled: bool,
    pub files: Vec<String>,
    /// One term on each line.
    pub terms: String,
    /// One excluded text on each line.
    pub excludes: String,
    pub note: String,
    pub match_mode: i32,
    pub regex: bool,
    pub case_sensitive: bool,
    pub before: i32,
    pub after: i32,
    pub target: i32,
    pub reverse: bool,
    pub open: bool,
    pub formatter: String,
    pub time_pattern: String,
    pub time_format: String,
    pub timezone: String,
    pub sort: i32,
}

pub open spec fn not_negative(n: i32) -> usize {
    if n < 0 {
        0
    } else {
        n as usize
    }
}

impl RuleForm {
    /// Whether the lists of the form stand at one of their entries.
    pub open spec fn wf(self) -> bool {
        0 <= self.target < targets().len() && 0 <= self.sort < sorts().len()
    }

    /// A rule with what the form says of it. Its identity, its group and what
    /// the form does not show stay.
    pub open spec fn filled(self, r: RuleView) -> RuleView {
        RuleView {
            name: self.name@,
            enabled: self.enabled,
            source_file_ids: views(self.files@),
            terms: entries_of(self.terms@),
            exclude: entries_of(self.excludes@),
            note: self.note@,
            mode: if self.match_mode == 1 {
                "all"@
            } else {
                "any"@
            },
            regex: self.regex,
            case_sensitive: self.case_sensitive,
            before: not_negative(self.before),
            after: not_negative(self.after),
            target: targets()[self.target as int],
            reverse: self.reverse,
            open: self.open,
            fmt: self.formatter@,
            time_regex: self.time_pattern@,
            time_format: self.time_format@,
            timezone: self.timezone@,
            sort: sorts()[self.sort as int],
            ..r
        }
    }
}

/// Fills a rule with what the form says of it.
pub fn fill_rule(r: &Rule, form: &RuleForm) -> (out: Rule)
    requires
        form.wf(),
    ensures
        out@ == form.filled(r@),
{
    let mut out = r.duplicate();
    out.name = form.name.clone();
    out.enabled = form.enabled;
    out.source_file_ids = duplicate_all(&form.files);
    out.terms = strings(form.terms.as_str());
    out.exclude = strings(form.excludes.as_str());
    out.note = form.note.clone();
    out.mode = if form.match_mode == 1 {
        "all".to_owned()
    } else {
        "any".to_owned()
    };
    out.regex = form.regex;
    out.case_sensitive = form.case_sensitive;
    out.before = if form.before < 0 {
        0
    } else {
        form.before as usize
    };
    out.after = if form.after < 0 {
        0
    } else {
        form.after as usize
    };
    out.target = target_at(form.target);
    out.reverse = form.reverse;
    out.open = form.open;
    out.fmt = form.formatter.clone();
    out.time_regex = form.time_pattern.clone();
    out.time_format = form.time_format.clone();
    out.timezone = form.timezone.clone();
    out.sort = sort_at(form.sort);
    proof {
        assert(out@ =~= form.filled(r@));
    }
    out
}

/// How a length is shown in a field of 32 bits.
pub open spec fn field_number(n: int) -> i32 {
    let m = n % 0x1_0000_0000;
    if m < 0x8000_0000 {
        m as i32
    } else {
        (m - 0x1_0000_0000) as i32
    }
}

fn number_field(n: u64) -> (r: i32)
    ensures
        r == field_number(n as int),
{
    let m: i64 = (n % 0x1_0000_0000) as i64;
    if m < 0x8000_0000 {
        m as i32
    } else {
        (m - 0x1_0000_0000) as i32
    }
}

impl RuleForm {
    /// Whether the form shows a rule; of its files it shows those of the
    /// catalogue.
    pub open spec fn shows(self, r: RuleView, files: Seq<LogFileView>) -> bool {
        &&& self.wf()
        &&& self.name@ == r.name
        &&& self.enabled == r.enabled
        &&& views(self.files@) == listed_ids(files, r.source_file_ids)
        &&& self.terms@ == joined(r.terms, "\n"@)
        &&& self.excludes@ == joined(r.exclude, "\n"@)
        &&& self.note@ == r.note
        &&& self.match_mode == choice(r.mode, modes())
        &&& self.regex == r.regex
        &&& self.case_sensitive == r.case_sensitive
        &&& self.before == field_number(r.before as int)
        &&& self.after == field_number(r.after as int)
        &&& self.target == choice(r.target, targets())
        &&& self.reverse == r.reverse
        &&& self.open == r.open
        &&& self.formatter@ == r.fmt
        &&& self.time_pattern@ == r.time_regex
        &&& self.time_format@ == r.time_format
        &&& self.timezone@ == r.timezone
        &&& self.sort == choice(r.sort, sorts())
    }
}

/// What the form shows of a rule.
pub fn load_rule(r: &Rule, files: &Vec<LogFile>) -> (out: RuleForm)
    ensures
        out.shows(r@, views(files@)),
{
    let m = ["any", "all"];
    let t = ["keywords", "timeline", "both"];
    let s = ["source", "asc", "desc"];
    proof {
        assert(texts(m@) =~= modes());
        assert(texts(t@) =~= targets());
        assert(texts(s@) =~= sorts());
        lemma_index_from(targets(), r@.target, 0);
        lemma_index_from(sorts(), r@.sort, 0);
    }
    RuleForm {
        name: r.name.clone(),
        enabled: r.enabled,
        files: chosen_ids(files, &r.source_file_ids),
        terms: join(&r.terms, "\n"),
        excludes: join(&r.exclude, "\n"),
        note: r.note.clone(),
        match_mode: pos(r.mode.as_str(), &m),
        regex: r.regex,
        case_sensitive: r.case_sensitive,
        before: number_field(r.before as u64),
        after: number_field(r.after as u64),
        target: pos(r.target.as_str(), &t),
        reverse: r.reverse,
        open: r.open,
        formatter: r.fmt.clone(),
        time_pattern: r.time_regex.clone(),
        time_format: r.time_format.clone(),
        timezone: r.timezone.clone(),
        sort: pos(r.sort.as_str(), &s),
    }
}

/// The form of a table.
#[derive(Clone, Debug)]
pub struct SystemForm {
    pub name: String,
    pub enabled: bool,
    pub files: Vec<String>,
    pub extract_mode: i32,
    pub selector: String,
    pub pattern: String,
    pub view_mode: i32,
    pub missing: String,
    pub join_rule: String,
    pub join_key: String,
    pub foreign_key: String,
    pub fields: Vec<Field>,
}

impl SystemForm {
    /// Whether the lists of the form stand at one of their entries.
    pub open spec fn wf(self) -> bool {
        0 <= self.extract_mode < kinds().len() && 0 <= self.view_mode < table_views().len()
    }

    /// A table with what the form says of it, where a file is chosen.
    pub open spec fn filled(self, r: SystemRuleView) -> Option<SystemRuleView> {
        if self.files.len() == 0 {
            None
        } else {
            Some(
                SystemRuleView {
                    name: self.name@,
                    enabled: self.enabled,
                    source_file_id: self.files@[0]@,
                    kind: kinds()[self.extract_mode as int],
                    selector: self.selector@,
                    pattern: self.pattern@,
                    view: table_views()[self.view_mode as int],
                    missing: self.missing@,
                    join_rule: self.join_rule@,
                    join_key: self.join_key@,
                    join_foreign_key: self.foreign_key@,
                    fields: views(self.fields@),
                    ..r
                },
            )
        }
    }

    /// Whether the form shows a table, with its file where the catalogue has it.
    pub open spec fn shows(self, r: SystemRuleView, files: Seq<LogFileView>) -> bool {
        &&& self.wf()
        &&& self.name@ == r.name
        &&& self.enabled == r.enabled
        &&& views(self.files@) == listed_ids(files, seq![r.source_file_id])
        &&& self.extract_mode == choice(r.kind, kinds())
        &&& self.selector@ == r.selector
        &&& self.pattern@ == r.pattern
        &&& self.view_mode == choice(r.view, table_views())
        &&& self.missing@ == r.missing
        &&& self.join_rule@ == r.join_rule
        &&& self.join_key@ == r.join_key
        &&& self.foreign_key@ == r.join_foreign_key
        &&& views(self.fields@) == r.fields
    }
}

/// Fills a table with what the form says of it; nothing where no file is chosen.
pub fn fill_system(r: &SystemRule, form: &SystemForm) -> (out: Option<SystemRule>)
    requires
        form.wf(),
    ensures
        opt_view(out) == form.filled(r@),
{
    if form.files.len() == 0 {
        return None;
    }
    let mut out = r.duplicate();
    out.name = form.name.clone();
    out.enabled = form.enabled;
    out.source_file_id = form.files[0].clone();
    out.kind = kind_at(form.extract_mode);
    out.selector = form.selector.clone();
    out.pattern = form.pattern.clone();
    out.view = table_view_at(form.view_mode);
    out.missing = form.missing.clone();
    out.join_rule = form.join_rule.clone();
    out.join_key = form.join_key.clone();
    out.join_foreign_key = form.foreign_key.clone();
    out.fields = duplicate_all(&form.fields);
    proof {
        assert(Some(out@) =~= form.filled(r@));
    }
    Some(out)
}

/// What the form shows of a table.
pub fn load_system(r: &SystemRule, files: &Vec<LogFile>) -> (out: SystemForm)
    ensures
        out.shows(r@, views(files@)),
{
    let k = ["json", "kv", "sections", "columns", "regex"];
    let v = ["cards", "table", "storage", "storage-smart"];
    let mut ids: Vec<String> = Vec::new();
    ids.push(r.source_file_id.clone());
    proof {
        assert(texts(k@) =~= kinds());
        assert(texts(v@) =~= table_views());
        lemma_index_from(kinds(), r@.kind, 0);
        lemma_index_from(table_views(), r@.view, 0);
        assert(views(ids@) =~= seq![r@.source_file_id]);
    }
    SystemForm {
        name: r.name.clone(),
        enabled: r.enabled,
        files: chosen_ids(files, &ids),
        extract_mode: pos(r.kind.as_str(), &k),
        selector: r.selector.clone(),
        pattern: r.pattern.clone(),
        view_mode: pos(r.view.as_str(), &v),
        missing: r.missing.clone(),
        join_rule: r.join_rule.clone(),
        join_key: r.join_key.clone(),
        foreign_key: r.join_foreign_key.clone(),
        fields: duplicate_all(&r.fields),
    }
}

/// The form of the report's layout.
#[derive(Clone, Debug)]
pub struct LayoutForm {
    pub title: String,
    pub system_title: String,
    pub keyword_title: String,
    pub timeline_title: String,
    pub accent: String,
    pub font_size: i32,
    pub density: i32,
    pub section_order: i32,
    pub timeline_sort: i32,
    pub first_open: bool,
    pub log_lines_per_batch: i32,
}

/// The sections of the report that an entry of the list stands for.
pub open spec fn sections_at(i: i32) -> Seq<Seq<char>> {
    if i == 1 {
        seq!["timeline"@, "keywords"@]
    } else if i == 2 {
        seq!["keywords"@]
    } else if i == 3 {
        seq!["timeline"@]
    } else {
        seq!["keywords"@, "timeline"@]
    }
}

/// The entry of the list that stands for the sections of a report.
pub open spec fn section_choice(sections: Seq<Seq<char>>) -> i32 {
    if sections == seq!["timeline"@] {
        3
    } else if sections == seq!["keywords"@] {
        2
    } else if sections.len() > 0 && sections[0] == "timeline"@ {
        1
    } else {
        0
    }
}

fn section_list(i: i32) -> (r: Vec<String>)
    ensures
        views(r@) == sections_at(i),
{
    let mut out: Vec<String> = Vec::new();
    if i == 1 {
        out.push("timeline".to_owned());
        out.push("keywords".to_owned());
    } else if i == 2 {
        out.push("keywords".to_owned());
    } else if i == 3 {
        out.push("timeline".to_owned());
    } else {
        out.push("keywords".to_owned());
        out.push("timeline".to_owned());
    }
    proof {
        assert(views(out@) =~= sections_at(i));
    }
    out
}

fn section_place(sections: &Vec<String>) -> (r: i32)
    ensures
        r == section_choice(views(sections@)),
{
    let ghost s = views(sections@);
    proof {
        assert(s.len() == sections.len());
        if s.len() > 0 {
            assert(s[0] == sections@[0]@);
        }
        if s.len() == 1 {
            assert(s[0] == "timeline"@ ==> s =~= seq!["timeline"@]);
            assert(s[0] == "keywords"@ ==> s =~= seq!["keywords"@]);
            assert(s == seq!["timeline"@] ==> s[0] == "timeline"@);
            assert(s == seq!["keywords"@] ==> s[0] == "keywords"@);
        } else {
            assert(seq!["timeline"@].len() == 1 && seq!["keywords"@].len() == 1);
        }
    }
    if sections.len() == 0 {
        return 0;
    }
    let timeline = same(sections[0].as_str(), "timeline");
    if sections.len() == 1 {
        if timeline {
            return 3;
        }
        if same(sections[0].as_str(), "keywords") {
            return 2;
        }
    }
    if timeline {
        1
    } else {
        0
    }
}

/// A number of a field as one without a sign.
pub open spec fn unsigned_field(n: i32) -> u32 {
    if n < 0 {
        (n + 0x1_0000_0000) as u32
    } else {
        n as u32
    }
}

impl LayoutForm {
    /// A layout with what the form says of it. The order of the files and the
    /// width of their list stay.
    pub open spec fn filled(self, l: LayoutView) -> LayoutView {
        LayoutView {
            title: self.title@,
            system_title: self.system_title@,
            keyword_title: self.keyword_title@,
            timeline_title: self.timeline_title@,
            accent: self.accent@,
            font_size: unsigned_field(self.font_size),
            density: if self.density == 1 {
                "compact"@
            } else {
                "comfortable"@
            },
            sections: sections_at(self.section_order),
            timeline_sort: if self.timeline_sort == 1 {
                "asc"@
            } else {
                "desc"@
            },
            first_open: self.first_open,
            log_lines_per_batch: if self.log_lines_per_batch < 10 {
                10
            } else {
                self.log_lines_per_batch as u32
            },
            ..l
        }
    }

    /// Whether the form shows a layout.
    pub open spec fn shows(self, l: LayoutView) -> bool {
        &&& self.title@ == l.title
        &&& self.system_title@ == l.system_title
        &&& self.keyword_title@ == l.keyword_title
        &&& self.timeline_title@ == l.timeline_title
        &&& self.accent@ == l.accent
        &&& self.font_size == field_number(l.font_size as int)
        &&& self.density == if l.density == "compact"@ {
            1
        } else {
            0int
        }
        &&& self.section_order == section_choice(l.sections)
        &&& self.timeline_sort == if l.timeline_sort == "asc"@ {
            1
        } else {
            0int
        }
        &&& self.first_open == l.first_open
        &&& self.log_lines_per_batch == field_number(l.log_lines_per_batch as int)
    }
}

/// Fills a layout with what the form says of it.
pub fn fill_layout(l: &Layout, form: &LayoutForm) -> (out: Layout)
    ensures
        out@ == form.filled(l@),
{
    let mut out = l.duplicate();
    out.title = form.title.clone();
    out.system_title = form.system_title.clone();
    out.keyword_title = form.keyword_title.clone();
    out.timeline_title = form.timeline_title.clone();
    out.accent = form.accent.clone();
    out.font_size = if form.font_size < 0 {
        (form.font_size as i64 + 0x1_0000_0000) as u32
    } else {
        form.font_size as u32
    };
    out.density = if form.density == 1 {
        "compact".to_owned()
    } else {
        "comfortable".to_owned()
    };
    out.sections = section_list(form.section_order);
    out.timeline_sort = if form.timeline_sort == 1 {
        "asc".to_owned()
    } else {
        "desc".to_owned()
    };
    out.first_open = form.first_open;
    out.log_lines_per_batch = if form.log_lines_per_batch < 10 {
        10
    } else {
        form.log_lines_per_batch as u32
    };
    proof {
        assert(out@ =~= form.filled(l@));
    }
    out
}

/// What the form shows of a layout.
pub fn load_layout(l: &Layout) -> (out: LayoutForm)
    ensures
        out.shows(l@),
{
    LayoutForm {
        title: l.title.clone(),
        system_title: l.system_title.clone(),
        keyword_title: l.keyword_title.clone(),
        timeline_title: l.timeline_title.clone(),
        accent: l.accent.clone(),
        font_size: number_field(l.font_size as u64),
        density: if same(l.density.as_str(), "compact") {
            1
        } else {
            0
        },
        section_order: section_place(&l.sections),
        timeline_sort: if same(l.timeline_sort.as_str(), "asc") {
            1
        } else {
            0
        },
        first_open: l.first_open,
        log_lines_per_batch: number_field(l.log_lines_per_batch as u64),
    }
}

/// The width of the list of files, within its limits.
pub open spec fn panel_width(width: u32) -> u32 {
    if width < 180 {
        180
    } else if width > 360 {
        360
    } else {
        width
    }
}

/// The width of the list of files, within its limits.
pub fn clamped_width(width: u32) -> (r: u32)
    ensures
        r == panel_width(width),
        180 <= r <= 360,
{
    if width < 180 {
        180
    } else if width > 360 {
        360
    } else {
        width
    }
}

/// A form that shows a layout and is not touched changes nothing of it.
pub proof fn law_untouched_layout_stays(form: LayoutForm, l: LayoutView)
    requires
        form.shows(l),
        l.density == "compact"@ || l.density == "comfortable"@,
        l.timeline_sort == "asc"@ || l.timeline_sort == "desc"@,
        exists|i: i32| #[trigger] sections_at(i) == l.sections,
        10 <= l.log_lines_per_batch <= i32::MAX,
    ensures
        form.filled(l) == l,
{
    reveal_strlit("timeline");
    reveal_strlit("keywords");
    assert("timeline"@.len() == 8 && "timeline"@[0] == 't');
    assert("keywords"@[0] == 'k');
    let i = choose|i: i32| #[trigger] sections_at(i) == l.sections;
    assert(seq!["timeline"@].len() == 1);
    assert(seq!["timeline"@][0] == "timeline"@);
    assert(seq!["keywords"@][0] == "keywords"@);
    assert(seq!["timeline"@, "keywords"@].len() == 2 && seq!["timeline"@, "keywords"@][0]
        == "timeline"@);
    assert(seq!["keywords"@, "timeline"@].len() == 2 && seq!["keywords"@, "timeline"@][0]
        == "keywords"@);
    assert(sections_at(form.section_order) =~= l.sections);
    reveal_strlit("compact");
    reveal_strlit("comfortable");
    reveal_strlit("asc");
    reveal_strlit("desc");
    assert("compact"@.len() != "comfortable"@.len());
    assert("asc"@.len() != "desc"@.len());
    assert(form.filled(l) =~= l);
}

} // verus!
