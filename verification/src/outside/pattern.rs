//! Regular expressions of the `regex` crate.

use crate::text::{first_index, opt_view, Duplicate};
use vstd::prelude::*;

verus! {

/// The compiled expression of the `regex` crate, carried as an opaque value.
#[verifier::external_type_specification]
#[verifier::external_body]
pub struct ExRegex(regex::Regex);

/// Why `regex::RegexBuilder::build` refuses the expression, with or without
/// letter case; none where it compiles.
pub uninterp spec fn pattern_fault(source: Seq<char>, insensitive: bool) -> Option<Seq<char>>;

/// Whether the expression matches anywhere in the text (`Regex::is_match`).
pub uninterp spec fn pattern_matches(source: Seq<char>, insensitive: bool, text: Seq<char>) -> bool;

/// The byte ranges of the successive matches in the text (`Regex::find_iter`).
pub uninterp spec fn pattern_spans(
    source: Seq<char>,
    insensitive: bool,
    text: Seq<char>,
) -> Seq<(usize, usize)>;

/// The texts of the groups of the first match (`Regex::captures`).
pub uninterp spec fn pattern_groups(
    source: Seq<char>,
    insensitive: bool,
    text: Seq<char>,
) -> Option<Seq<Option<Seq<char>>>>;

/// The texts of the groups of each match (`Regex::captures_iter`).
pub uninterp spec fn pattern_rows(
    source: Seq<char>,
    insensitive: bool,
    text: Seq<char>,
) -> Seq<Seq<Option<Seq<char>>>>;

/// The names of the groups (`Regex::capture_names`).
pub uninterp spec fn pattern_names(source: Seq<char>, insensitive: bool) -> Seq<Option<Seq<char>>>;

/// Whether a character means more than itself in an expression.
pub open spec fn is_meta(c: char) -> bool {
    ||| c == '\\' || c == '.' || c == '+' || c == '*' || c == '?' || c == '(' || c == ')'
    ||| c == '|' || c == '[' || c == ']' || c == '{' || c == '}' || c == '^' || c == '$'
    ||| c == '#' || c == '&' || c == '-' || c == '~'
}

/// The expression that matches the first `n` characters of a text themselves: a
/// backslash stands before each that means more than itself.
pub open spec fn escaped_head(text: Seq<char>, n: int) -> Seq<char>
    decreases n,
{
    if n <= 0 {
        Seq::empty()
    } else if is_meta(text[n - 1]) {
        escaped_head(text, n - 1) + seq!['\\', text[n - 1]]
    } else {
        escaped_head(text, n - 1) + seq![text[n - 1]]
    }
}

/// The expression that matches a text itself.
pub open spec fn escaped(text: Seq<char>) -> Seq<char> {
    escaped_head(text, text.len() as int)
}

/// A compiled expression together with what it was compiled from. The fields
/// are private and `compile` alone fills them.
#[derive(Debug)]
pub struct Pattern {
    regex: regex::Regex,
    source: String,
    insensitive: bool,
}

/// What an expression is compiled from.
#[verifier::ext_equal]
pub ghost struct PatternView {
    pub source: Seq<char>,
    pub insensitive: bool,
}

impl View for Pattern {
    type V = PatternView;

    closed spec fn view(&self) -> PatternView {
        PatternView { source: self.source@, insensitive: self.insensitive }
    }
}

pub open spec fn group_views(groups: Seq<Option<String>>) -> Seq<Option<Seq<char>>> {
    Seq::new(groups.len(), |i: int| opt_view(groups[i]))
}

pub open spec fn opt_groups(groups: Option<Vec<Option<String>>>) -> Option<
    Seq<Option<Seq<char>>>,
> {
    match groups {
        Some(g) => Some(group_views(g@)),
        None => None,
    }
}

pub open spec fn row_views(rows: Seq<Vec<Option<String>>>) -> Seq<Seq<Option<Seq<char>>>> {
    Seq::new(rows.len(), |i: int| group_views(rows[i]@))
}

/// `regex::RegexBuilder::build` compiles the expression, or refuses it with an
/// error whose text is given back. Nothing is claimed of the compiled value
/// itself; what it was compiled from is kept beside it.
#[verifier::external_body]
pub(crate) fn compile(source: &str, insensitive: bool) -> (r: Result<Pattern, String>)
    ensures
        (match r {
            Ok(p) => p@ == (PatternView { source: source@, insensitive }) && pattern_fault(
                source@,
                insensitive,
            ) is None,
            Err(e) => pattern_fault(source@, insensitive) == Some(e@),
        }),
{
    match regex::RegexBuilder::new(source).case_insensitive(insensitive).build() {
        Ok(regex) => Ok(Pattern { regex, source: source.to_owned(), insensitive }),
        Err(e) => Err(e.to_string()),
    }
}

/// `Regex::clone` shares the compiled expression and behaves the same.
#[verifier::external_body]
fn share(p: &Pattern) -> (r: Pattern)
    ensures
        r@ == p@,
{
    Pattern { regex: p.regex.clone(), source: p.source.clone(), insensitive: p.insensitive }
}

impl Duplicate for Pattern {
    fn duplicate(&self) -> (r: Self) {
        share(self)
    }
}

impl Pattern {
    /// `Regex::is_match` tells whether there is a match anywhere in the text.
    #[verifier::external_body]
    pub(crate) fn is_match(&self, text: &str) -> (r: bool)
        ensures
            r == pattern_matches(self@.source, self@.insensitive, text@),
    {
        self.regex.is_match(text)
    }

    /// `Regex::find_iter` yields the successive matches that do not overlap,
    /// here as byte ranges of the text.
    #[verifier::external_body]
    pub(crate) fn spans(&self, text: &str) -> (r: Vec<(usize, usize)>)
        ensures
            r@ == pattern_spans(self@.source, self@.insensitive, text@),
    {
        self.regex.find_iter(text).map(|m| (m.start(), m.end())).collect()
    }

    /// `Regex::captures` gives the groups of the first match; group zero is the
    /// whole match and always there.
    #[verifier::external_body]
    pub(crate) fn groups(&self, text: &str) -> (r: Option<Vec<Option<String>>>)
        ensures
            opt_groups(r) == pattern_groups(self@.source, self@.insensitive, text@),
            r matches Some(g) ==> g.len() > 0 && g@[0] is Some,
    {
        let found = self.regex.captures(text)?;
        Some(found.iter().map(|m| m.map(|m| m.as_str().to_owned())).collect())
    }

    /// `Regex::captures_iter` gives the groups of each successive match.
    #[verifier::external_body]
    pub(crate) fn rows(&self, text: &str) -> (r: Vec<Vec<Option<String>>>)
        ensures
            row_views(r@) == pattern_rows(self@.source, self@.insensitive, text@),
    {
        let found = self.regex.captures_iter(text);
        found.map(|c| c.iter().map(|m| m.map(|m| m.as_str().to_owned())).collect()).collect()
    }

    /// `Regex::capture_names` lists the groups by index, each with its name if
    /// it has one.
    #[verifier::external_body]
    pub(crate) fn names(&self) -> (r: Vec<Option<String>>)
        ensures
            group_views(r@) == pattern_names(self@.source, self@.insensitive),
    {
        self.regex.capture_names().map(|n| n.map(|n| n.to_owned())).collect()
    }
}

/// `regex::escape` puts a backslash before each character that means more than
/// itself in an expression.
#[verifier::external_body]
pub(crate) fn escape(text: &str) -> (r: String)
    ensures
        r@ == escaped(text@),
{
    regex::escape(text)
}

/// The text of the group at an index, where the match has it.
pub open spec fn group_at(groups: Seq<Option<Seq<char>>>, i: int) -> Option<Seq<char>> {
    if 0 <= i < groups.len() {
        groups[i]
    } else {
        None
    }
}

/// The text of the group with a name, where the expression has such a group
/// and the match has it.
pub open spec fn group_named(
    names: Seq<Option<Seq<char>>>,
    groups: Seq<Option<Seq<char>>>,
    name: Seq<char>,
) -> Option<Seq<char>> {
    match first_index(names, Some(name)) {
        Some(i) => group_at(groups, i),
        None => None,
    }
}

pub fn group_by_index(groups: &Vec<Option<String>>, i: usize) -> (r: Option<String>)
    ensures
        opt_view(r) == group_at(group_views(groups@), i as int),
{
    if i < groups.len() {
        match &groups[i] {
            Some(s) => Some(s.clone()),
            None => None,
        }
    } else {
        None
    }
}

pub fn group_by_name(
    names: &Vec<Option<String>>,
    groups: &Vec<Option<String>>,
    name: &str,
) -> (r: Option<String>)
    ensures
        opt_view(r) == group_named(group_views(names@), group_views(groups@), name@),
{
    let mut i: usize = 0;
    while i < names.len()
        invariant
            i <= names.len(),
            first_index(group_views(names@), Some(name@)) == crate::text::index_from(
                group_views(names@),
                Some(name@),
                i as int,
            ),
        decreases names.len() - i,
    {
        if let Some(n) = &names[i] {
            if crate::text::same(n.as_str(), name) {
                return group_by_index(groups, i);
            }
        }
        i += 1;
    }
    None
}

} // verus!
