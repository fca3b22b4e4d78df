//! Which lines a rule matches.

use crate::outside::pattern::{
    compile, escape, escaped, pattern_fault, pattern_matches, pattern_spans, Pattern, PatternView,
};
use crate::outside::std_text::{lowercase, to_lowercase};
use crate::rules::model::{Rule, RuleView};
use crate::text::{any, contains, has, same, views, Duplicate};
use vstd::prelude::*;

verus! {

/// The compiled terms of a rule.
#[derive(Debug)]
pub struct Matcher {
    patterns: Vec<Pattern>,
    exclude: Vec<String>,
    all: bool,
    sensitive: bool,
}

#[verifier::ext_equal]
pub ghost struct MatcherView {
    pub patterns: Seq<PatternView>,
    pub exclude: Seq<Seq<char>>,
    pub all: bool,
    pub sensitive: bool,
}

impl View for Matcher {
    type V = MatcherView;

    closed spec fn view(&self) -> MatcherView {
        MatcherView {
            patterns: views(self.patterns@),
            exclude: views(self.exclude@),
            all: self.all,
            sensitive: self.sensitive,
        }
    }
}

/// The expression that a term of a rule is searched with.
pub open spec fn term_pattern(r: RuleView, term: Seq<char>) -> PatternView {
    PatternView {
        source: if r.regex {
            term
        } else {
            escaped(term)
        },
        insensitive: !r.case_sensitive,
    }
}

/// Why the first term from `i` on that does not compile is refused.
pub open spec fn term_fault(r: RuleView, i: int) -> Option<Seq<char>>
    decreases r.terms.len() - i,
{
    if i >= r.terms.len() {
        None
    } else {
        let p = term_pattern(r, r.terms[i]);
        let fault = pattern_fault(p.source, p.insensitive);
        if fault is Some {
            fault
        } else {
            term_fault(r, i + 1)
        }
    }
}

pub open spec fn excluded_word(r: RuleView, word: Seq<char>) -> Seq<char> {
    if r.case_sensitive {
        word
    } else {
        lowercase(word)
    }
}

/// What is searched for by a rule.
pub open spec fn matcher_of(r: RuleView) -> MatcherView {
    MatcherView {
        patterns: Seq::new(r.terms.len(), |i: int| term_pattern(r, r.terms[i])),
        exclude: Seq::new(r.exclude.len(), |i: int| excluded_word(r, r.exclude[i])),
        all: r.mode == "all"@,
        sensitive: r.case_sensitive,
    }
}

/// Whether one of the words stands in the text.
pub open spec fn holds_word(text: Seq<char>, words: Seq<Seq<char>>) -> bool {
    any(words, |x: Seq<char>| has(text, x))
}

/// Whether one of the words stands in the text.
pub fn any_word(text: &str, words: &Vec<String>) -> (r: bool)
    ensures
        r == holds_word(text@, views(words@)),
{
    let ghost f = |x: Seq<char>| has(text@, x);
    let ghost wv = views(words@);
    let mut i: usize = 0;
    while i < words.len()
        invariant
            i <= words.len(),
            wv == views(words@),
            f == (|x: Seq<char>| has(text@, x)),
            forall|j: int| 0 <= j < i ==> !f(#[trigger] wv[j]),
        decreases words.len() - i,
    {
        let hit = contains(text, words[i].as_str());
        proof {
            assert(wv[i as int] == words@[i as int]@);
            assert(hit == f(wv[i as int]));
        }
        if hit {
            return true;
        }
        i += 1;
    }
    false
}

/// Whether enough terms were found: one of them, or each of them and at least
/// one.
pub open spec fn enough(found: Seq<bool>, all: bool) -> bool {
    if all {
        found.len() > 0 && forall|i: int| 0 <= i < found.len() ==> #[trigger] found[i]
    } else {
        exists|i: int| 0 <= i < found.len() && #[trigger] found[i]
    }
}

/// Whether enough terms were found.
pub fn are_enough(found: &Vec<bool>, all: bool) -> (r: bool)
    ensures
        r == enough(found@, all),
{
    let mut i: usize = 0;
    while i < found.len()
        invariant
            i <= found.len(),
            forall|j: int| 0 <= j < i ==> #[trigger] found@[j] == all,
        decreases found.len() - i,
    {
        let hit = found[i];
        if hit != all {
            return hit;
        }
        i += 1;
    }
    all && found.len() > 0
}

impl MatcherView {
    /// Whether a word that rules the text out stands in it.
    pub open spec fn excludes(self, s: Seq<char>) -> bool {
        let test = if self.sensitive {
            s
        } else {
            lowercase(s)
        };
        holds_word(test, self.exclude)
    }

    pub open spec fn finds(self, i: int, s: Seq<char>) -> bool {
        pattern_matches(self.patterns[i].source, self.patterns[i].insensitive, s)
    }

    /// Which terms are found in the text.
    pub open spec fn found(self, s: Seq<char>) -> Seq<bool> {
        Seq::new(self.patterns.len(), |i: int| self.finds(i, s))
    }

    /// Whether the text is a hit: no word rules it out, and one term, or each
    /// of them, is found.
    pub open spec fn accepts(self, s: Seq<char>) -> bool {
        !self.excludes(s) && enough(self.found(s), self.all)
    }

    /// The byte ranges that the terms from `i` on match, term by term.
    pub open spec fn ranges_from(self, s: Seq<char>, i: int) -> Seq<(usize, usize)>
        decreases self.patterns.len() - i,
    {
        if i >= self.patterns.len() {
            Seq::empty()
        } else {
            pattern_spans(self.patterns[i].source, self.patterns[i].insensitive, s)
                + self.ranges_from(s, i + 1)
        }
    }

    pub open spec fn ranges(self, s: Seq<char>) -> Seq<(usize, usize)> {
        self.ranges_from(s, 0)
    }
}

impl Matcher {
    /// Compiles the terms of a rule; the error is that of the first term that
    /// does not compile.
    pub fn new(r: &Rule) -> (m: Result<Self, String>)
        ensures
            (match m {
                Ok(m) => m@ == matcher_of(r@) && term_fault(r@, 0) is None,
                Err(e) => term_fault(r@, 0) == Some(e@),
            }),
    {
        let ghost rv = r@;
        let mut patterns: Vec<Pattern> = Vec::new();
        let mut i: usize = 0;
        while i < r.terms.len()
            invariant
                rv == r@,
                i <= r.terms.len(),
                patterns.len() == i,
                forall|j: int|
                    0 <= j < i ==> (#[trigger] patterns@[j])@ == term_pattern(rv, rv.terms[j]),
                term_fault(rv, 0) == term_fault(rv, i as int),
            decreases r.terms.len() - i,
        {
            let compiled = if r.regex {
                compile(r.terms[i].as_str(), !r.case_sensitive)
            } else {
                compile(escape(r.terms[i].as_str()).as_str(), !r.case_sensitive)
            };
            match compiled {
                Ok(p) => {
                    patterns.push(p);
                },
                Err(e) => {
                    return Err(e);
                },
            }
            i += 1;
        }
        let mut exclude: Vec<String> = Vec::new();
        let mut k: usize = 0;
        while k < r.exclude.len()
            invariant
                rv == r@,
                k <= r.exclude.len(),
                exclude.len() == k,
                forall|j: int|
                    0 <= j < k ==> (#[trigger] exclude@[j])@ == excluded_word(rv, rv.exclude[j]),
            decreases r.exclude.len() - k,
        {
            if r.case_sensitive {
                exclude.push(r.exclude[k].clone());
            } else {
                exclude.push(to_lowercase(r.exclude[k].as_str()));
            }
            k += 1;
        }
        let m = Matcher {
            patterns,
            exclude,
            all: same(r.mode.as_str(), "all"),
            sensitive: r.case_sensitive,
        };
        proof {
            assert(views(m.patterns@) =~= matcher_of(rv).patterns);
            assert(views(m.exclude@) =~= matcher_of(rv).exclude);
        }
        Ok(m)
    }

    fn rules_out(&self, s: &str) -> (r: bool)
        ensures
            r == self@.excludes(s@),
    {
        if self.exclude.len() == 0 {
            return false;
        }
        if self.sensitive {
            any_word(s, &self.exclude)
        } else {
            any_word(to_lowercase(s).as_str(), &self.exclude)
        }
    }

    /// Whether the text is a hit.
    pub fn matches(&self, s: &str) -> (r: bool)
        ensures
            r == self@.accepts(s@),
    {
        if self.rules_out(s) {
            return false;
        }
        let ghost pv = self@.patterns;
        let mut found: Vec<bool> = Vec::new();
        let mut i: usize = 0;
        while i < self.patterns.len()
            invariant
                i <= self.patterns.len(),
                pv == views(self.patterns@),
                pv == self@.patterns,
                found.len() == i,
                forall|j: int| 0 <= j < i ==> #[trigger] found@[j] == self@.finds(j, s@),
            decreases self.patterns.len() - i,
        {
            let hit = self.patterns[i].is_match(s);
            proof {
                assert(pv[i as int] == self.patterns@[i as int]@);
                assert(hit == self@.finds(i as int, s@));
            }
            found.push(hit);
            i += 1;
        }
        proof {
            assert(found@ =~= self@.found(s@));
        }
        are_enough(&found, self.all)
    }

    /// The byte ranges that the terms match, term by term.
    pub fn ranges(&self, s: &str) -> (r: Vec<(usize, usize)>)
        ensures
            r@ == self@.ranges(s@),
    {
        let ghost pv = self@.patterns;
        let mut out: Vec<(usize, usize)> = Vec::new();
        let mut i: usize = 0;
        proof {
            assert(out@ + self@.ranges_from(s@, 0) =~= self@.ranges(s@));
        }
        while i < self.patterns.len()
            invariant
                i <= self.patterns.len(),
                pv == views(self.patterns@),
                pv == self@.patterns,
                out@ + self@.ranges_from(s@, i as int) == self@.ranges(s@),
            decreases self.patterns.len() - i,
        {
            let mut found = self.patterns[i].spans(s);
            proof {
                assert(pv[i as int] == self.patterns@[i as int]@);
                assert(out@ + (found@ + self@.ranges_from(s@, i + 1)) =~= out@ + found@
                    + self@.ranges_from(s@, i + 1));
            }
            out.append(&mut found);
            i += 1;
        }
        proof {
            assert(out@ + self@.ranges_from(s@, i as int) =~= out@);
        }
        out
    }
}

impl Duplicate for Matcher {
    fn duplicate(&self) -> (r: Self) {
        Matcher {
            patterns: crate::text::duplicate_all(&self.patterns),
            exclude: crate::text::duplicate_all(&self.exclude),
            all: self.all,
            sensitive: self.sensitive,
        }
    }
}

} // verus!
