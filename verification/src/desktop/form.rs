//! The forms of the rule editor: what they show of a rule and what they make of
//! it.

use crate::extract::path::{json_paths, leaf_paths};
use crate::outside::json::{json_value, parse_json};
use crate::outside::std_text::{lowercase, to_lowercase};
use crate::rules::edit::other_text;
use crate::rules::model::{LogFile, LogFileView, RuleSet};
use crate::select::keep_by;
use crate::text::{
    after_prefix, blank, concat2, contains, cut, duplicate_all, first_index, has, index_from,
    is_blank, join, joined, kept, lines, lines_of, lists, same, split_once, strip_prefix, trim,
    trimmed, views, Class,
};
use vstd::prelude::*;

verus! {

pub open spec fn not_empty() -> spec_fn(Seq<char>) -> bool {
    |s: Seq<char>| s.len() > 0
}

/// The lines of a text without the white space around them.
pub open spec fn trimmed_lines(s: Seq<char>) -> Seq<Seq<char>> {
    lines(s).map_values(|l: Seq<char>| trim(l, Class::White))
}

/// The entries of a text with one on each line; blank lines are none.
pub open spec fn entries_of(s: Seq<char>) -> Seq<Seq<char>> {
    kept(trimmed_lines(s), not_empty(), 0)
}

/// The entries of a text with one on each line.
pub fn strings(text: &str) -> (r: Vec<String>)
    ensures
        views(r@) == entries_of(text@),
{
    let rows = lines_of(text);
    let mut cut: Vec<String> = Vec::new();
    let mut i: usize = 0;
    while i < rows.len()
        invariant
            i <= rows.len(),
            views(rows@) == lines(text@),
            cut.len() == i,
            forall|j: int| 0 <= j < i ==> (#[trigger] cut@[j])@ == trim(rows@[j]@, Class::White),
        decreases rows.len() - i,
    {
        cut.push(trimmed(rows[i].as_str(), Class::White));
        i += 1;
    }
    proof {
        assert forall|j: int| 0 <= j < cut.len() implies views(cut@)[j] == trimmed_lines(
            text@,
        )[j] by {
            assert(rows@[j]@ == views(rows@)[j]);
        }
        assert(views(cut@).len() == cut.len());
        assert(views(rows@).len() == rows.len());
        assert(views(cut@) =~= trimmed_lines(text@));
    }
    let f = |s: &String| -> (r: bool)
        ensures
            r == not_empty()(s@),
        { !s.as_str().is_empty() };
    keep_by(&cut, &f, Ghost(not_empty()))
}

/// The entries with one more at the end, where it is new.
pub open spec fn with_entry(entries: Seq<Seq<char>>, term: Seq<char>) -> Seq<Seq<char>> {
    if entries.contains(term) {
        entries
    } else {
        entries.push(term)
    }
}

/// The text of a list of terms with one that was typed; a blank one adds
/// nothing.
pub open spec fn term_added(text: Seq<char>, typed: Seq<char>) -> Seq<char> {
    let term = trim(typed, Class::White);
    if term.len() == 0 {
        text
    } else {
        joined(with_entry(entries_of(text), term), "\n"@)
    }
}

/// Adds a term that was typed to the text of a list.
pub fn add_term(text: &str, typed: &str) -> (r: String)
    ensures
        r@ == term_added(text@, typed@),
{
    let term = trimmed(typed, Class::White);
    if term.as_str().is_empty() {
        return text.to_owned();
    }
    let mut terms = strings(text);
    let ghost tv = views(terms@);
    if !lists(&terms, term.as_str()) {
        let ghost was = terms@;
        terms.push(term);
        proof {
            assert(views(terms@) =~= views(was).push(trim(typed@, Class::White)));
        }
    }
    join(&terms, "\n")
}

/// The name of the way in which a path is compared.
pub open spec fn mode_name(i: i32) -> Seq<char> {
    if i == 1 {
        "path"@
    } else if i == 2 {
        "exact"@
    } else {
        "prefix"@
    }
}

/// The name of the way in which a path is compared.
pub fn source_mode(i: i32) -> (r: String)
    ensures
        r@ == mode_name(i),
{
    if i == 1 {
        "path".to_owned()
    } else if i == 2 {
        "exact".to_owned()
    } else {
        "prefix".to_owned()
    }
}

/// The texts of a list of choices.
pub open spec fn texts(a: Seq<&str>) -> Seq<Seq<char>> {
    a.map_values(|s: &str| s@)
}

/// The place of a text among choices, the first one for another.
pub open spec fn choice(s: Seq<char>, a: Seq<Seq<char>>) -> int {
    match first_index(a, s) {
        Some(i) => i,
        None => 0,
    }
}

/// The place of a text among choices, the first one for another.
pub fn pos(s: &str, a: &[&str]) -> (r: i32)
    requires
        a.len() <= i32::MAX,
    ensures
        r == choice(s@, texts(a@)),
{
    let ghost av = texts(a@);
    let mut i: usize = 0;
    while i < a.len()
        invariant
            i <= a.len() <= i32::MAX,
            av == texts(a@),
            index_from(av, s@, 0) == index_from(av, s@, i as int),
        decreases a.len() - i,
    {
        proof {
            assert(av[i as int] == a@[i as int]@);
        }
        if same(a[i], s) {
            return i as i32;
        }
        i += 1;
    }
    0
}

/// What is shown of a directory: the prefix of extended Windows paths is left
/// out.
pub open spec fn shown_directory(path: Seq<char>) -> Seq<char> {
    match after_prefix(path, "\\\\?\\UNC\\"@) {
        Some(rest) => "\\\\"@ + rest,
        None => match after_prefix(path, "\\\\?\\"@) {
            Some(rest) => rest,
            None => path,
        },
    }
}

/// What is shown of a directory.
pub fn directory_label(path: &str) -> (r: String)
    ensures
        r@ == shown_directory(path@),
{
    if let Some(rest) = strip_prefix(path, "\\\\?\\UNC\\") {
        return concat2("\\\\", rest.as_str());
    }
    match strip_prefix(path, "\\\\?\\") {
        Some(rest) => rest,
        None => path.to_owned(),
    }
}

/// A log file that a rule may be given.
#[derive(Clone, Debug)]
pub struct LogFileChoice {
    pub id: String,
    pub label: String,
    pub chosen: bool,
    pub matching: bool,
}

/// What a `LogFileChoice` holds.
#[verifier::ext_equal]
pub ghost struct LogFileChoiceView {
    pub id: Seq<char>,
    pub label: Seq<char>,
    pub chosen: bool,
    pub matching: bool,
}

impl View for LogFileChoice {
    type V = LogFileChoiceView;

    open spec fn view(&self) -> LogFileChoiceView {
        LogFileChoiceView {
            id: self.id@,
            label: self.label@,
            chosen: self.chosen,
            matching: self.matching,
        }
    }
}

/// Whether a search for a file finds it: by its identity, its name, its path or
/// the file name at the end of the path.
pub open spec fn file_found(query: Seq<char>) -> spec_fn(LogFileView) -> bool {
    |f: LogFileView|
        query.len() == 0 || has(lowercase(f.id), query) || has(lowercase(f.name), query) || has(
            lowercase(f.path),
            query,
        ) || has(lowercase(f.file_name()), query)
}

/// A file as a choice.
pub open spec fn file_choice(f: LogFileView, ids: Seq<Seq<char>>) -> LogFileChoiceView {
    LogFileChoiceView { id: f.id, label: f.label(), chosen: ids.contains(f.id), matching: true }
}

/// The files that a search finds, in the order of the catalogue, each with
/// whether it is among the chosen ones.
pub open spec fn choices(
    files: Seq<LogFileView>,
    ids: Seq<Seq<char>>,
    query: Seq<char>,
) -> Seq<LogFileChoiceView> {
    kept(files, file_found(lowercase(trim(query, Class::White))), 0).map_values(
        |f: LogFileView| file_choice(f, ids),
    )
}

/// The files that a search finds. A search changes nothing of what is chosen.
pub fn source_choices(rules: &RuleSet, ids: &Vec<String>, query: &str) -> (r: Vec<LogFileChoice>)
    ensures
        views(r@) == choices(rules@.log_files, views(ids@), query@),
{
    let asked = trimmed(query, Class::White);
    let query = to_lowercase(asked.as_str());
    let f = |f: &LogFile| -> (r: bool)
        ensures
            r == file_found(query@)(f@),
        {
            query.as_str().is_empty() || contains(to_lowercase(f.id.as_str()).as_str(), query.as_str())
                || contains(to_lowercase(f.name.as_str()).as_str(), query.as_str()) || contains(
                to_lowercase(f.path.as_str()).as_str(),
                query.as_str(),
            ) || contains(to_lowercase(f.file_name().as_str()).as_str(), query.as_str())
        };
    let files = keep_by(&rules.log_files, &f, Ghost(file_found(query@)));
    let ghost fv = views(files@);
    let ghost iv = views(ids@);
    let mut out: Vec<LogFileChoice> = Vec::new();
    let mut i: usize = 0;
    while i < files.len()
        invariant
            i <= files.len(),
            fv == views(files@),
            iv == views(ids@),
            out.len() == i,
            forall|j: int| 0 <= j < i ==> (#[trigger] out@[j])@ == file_choice(fv[j], iv),
        decreases files.len() - i,
    {
        proof {
            assert(fv[i as int] == files@[i as int]@);
        }
        out.push(
            LogFileChoice {
                id: files[i].id.clone(),
                label: files[i].label(),
                chosen: lists(ids, files[i].id.as_str()),
                matching: true,
            },
        );
        i += 1;
    }
    proof {
        assert(views(out@).len() == out.len());
        assert(fv.len() == files.len());
        assert(views(out@) =~= fv.map_values(|f: LogFileView| file_choice(f, iv)));
    }
    out
}

pub open spec fn file_among(ids: Seq<Seq<char>>) -> spec_fn(LogFileView) -> bool {
    |f: LogFileView| ids.contains(f.id)
}

/// The chosen files as a form holds them: those of the catalogue that are among
/// the given ones, in its order.
pub open spec fn listed_ids(files: Seq<LogFileView>, ids: Seq<Seq<char>>) -> Seq<Seq<char>> {
    kept(files, file_among(ids), 0).map_values(|f: LogFileView| f.id)
}

/// The chosen files as a form holds them.
pub fn chosen_ids(files: &Vec<LogFile>, ids: &Vec<String>) -> (r: Vec<String>)
    ensures
        views(r@) == listed_ids(views(files@), views(ids@)),
{
    let f = |f: &LogFile| -> (r: bool)
        ensures
            r == file_among(views(ids@))(f@),
        { lists(ids, f.id.as_str()) };
    let chosen = keep_by(files, &f, Ghost(file_among(views(ids@))));
    let ghost cv = views(chosen@);
    let mut out: Vec<String> = Vec::new();
    let mut i: usize = 0;
    while i < chosen.len()
        invariant
            i <= chosen.len(),
            cv == views(chosen@),
            out.len() == i,
            forall|j: int| 0 <= j < i ==> (#[trigger] out@[j])@ == cv[j].id,
        decreases chosen.len() - i,
    {
        proof {
            assert(cv[i as int] == chosen@[i as int]@);
        }
        out.push(chosen[i].id.clone());
        i += 1;
    }
    proof {
        assert(views(out@).len() == out.len());
        assert(cv.len() == chosen.len());
        assert(views(out@) =~= cv.map_values(|f: LogFileView| f.id));
    }
    out
}

/// The chosen files after one was ticked or unticked; a table reads one file
/// only.
pub open spec fn chosen_after(
    files: Seq<LogFileView>,
    ids: Seq<Seq<char>>,
    id: Seq<char>,
    chosen: bool,
    single: bool,
) -> Seq<Seq<char>> {
    let others = if single {
        Seq::empty()
    } else {
        kept(ids, other_text(id), 0)
    };
    listed_ids(
        files,
        if chosen {
            others.push(id)
        } else {
            others
        },
    )
}

/// Ticks or unticks a file.
pub fn choose_source(
    files: &Vec<LogFile>,
    ids: &Vec<String>,
    id: &str,
    chosen: bool,
    single: bool,
) -> (r: Vec<String>)
    ensures
        views(r@) == chosen_after(views(files@), views(ids@), id@, chosen, single),
{
    let mut out: Vec<String> = Vec::new();
    proof {
        assert(views(out@) =~= Seq::<Seq<char>>::empty());
    }
    if !single {
        let f = |s: &String| -> (r: bool)
            ensures
                r == other_text(id@)(s@),
            { !same(s.as_str(), id) };
        out = keep_by(ids, &f, Ghost(other_text(id@)));
    }
    if chosen {
        let ghost was = views(out@);
        out.push(id.to_owned());
        proof {
            assert(views(out@) =~= was.push(id@));
        }
    }
    chosen_ids(files, &out)
}

/// The chosen files without the last one; nothing where none was chosen.
pub open spec fn without_last(files: Seq<LogFileView>, ids: Seq<Seq<char>>) -> Option<
    Seq<Seq<char>>,
> {
    if ids.len() == 0 {
        None
    } else {
        Some(listed_ids(files, ids.drop_last()))
    }
}

/// Takes the last of the chosen files away; nothing where none was chosen.
pub fn remove_last_source(files: &Vec<LogFile>, ids: &Vec<String>) -> (r: Option<Vec<String>>)
    ensures
        (match r {
            Some(v) => without_last(views(files@), views(ids@)) == Some(views(v@)),
            None => without_last(views(files@), views(ids@)) is None,
        }),
{
    if ids.len() == 0 {
        return None;
    }
    let mut out = duplicate_all(ids);
    let ghost was = views(out@);
    proof {
        assert(was.len() == out.len());
    }
    out.pop();
    proof {
        assert(views(out@) =~= was.drop_last());
    }
    Some(chosen_ids(files, &out))
}

/// The names before the first colon of the first `n` lines that have one.
pub open spec fn line_keys(lines: Seq<Seq<char>>, n: int) -> Seq<Seq<char>>
    decreases n,
{
    if n <= 0 {
        Seq::empty()
    } else {
        match cut(trim(lines[n - 1], Class::White), Class::One(':')) {
            Some((key, _)) => line_keys(lines, n - 1).push(trim(key, Class::White)),
            None => line_keys(lines, n - 1),
        }
    }
}

/// The names that a sample offers for the columns of a table: the paths of a
/// JSON text, else the names before a colon.
pub open spec fn offered_paths(text: Seq<char>) -> Seq<Seq<char>> {
    match json_value(text) {
        Some(v) => leaf_paths(v, Seq::empty()),
        None => line_keys(lines(text), lines(text).len() as int),
    }
}

/// The names that a sample offers for the columns of a table, and whether it is
/// JSON.
pub fn sample_paths(text: &str) -> (r: (Vec<String>, bool))
    ensures
        views(r.0@) == offered_paths(text@),
        r.1 == (json_value(text@) is Some),
{
    let mut out: Vec<String> = Vec::new();
    proof {
        assert(views(out@) =~= Seq::<Seq<char>>::empty());
    }
    if let Some(v) = parse_json(text) {
        let none = String::new();
        proof {
            assert(none@ =~= Seq::<char>::empty());
        }
        json_paths(&v, none.as_str(), &mut out);
        proof {
            assert(views(out@) =~= leaf_paths(v, Seq::empty()));
        }
        return (out, true);
    }
    let rows = lines_of(text);
    let ghost lv = lines(text@);
    let mut i: usize = 0;
    while i < rows.len()
        invariant
            i <= rows.len(),
            lv == views(rows@),
            views(out@) == line_keys(lv, i as int),
        decreases rows.len() - i,
    {
        let ghost was = out@;
        proof {
            assert(lv[i as int] == rows@[i as int]@);
        }
        let row = trimmed(rows[i].as_str(), Class::White);
        if let Some((key, _)) = split_once(row.as_str(), Class::One(':')) {
            out.push(trimmed(key.as_str(), Class::White));
            proof {
                assert(views(out@) =~= views(was).push(trim(key@, Class::White)));
            }
        }
        i += 1;
    }
    (out, false)
}

/// Whether the first step of a new rule lacks its name or its log file.
pub fn basics_missing(name: &str, source: &str) -> (r: bool)
    ensures
        r == (blank(name@) || blank(source@)),
{
    is_blank(name) || is_blank(source)
}

} // verus!
