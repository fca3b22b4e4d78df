//! Which lines a rule takes for hits.

use crate::outside::pattern::{escaped, pattern_matches, pattern_spans};
use crate::outside::std_text::lowercase;
use crate::rules::matcher::{matcher_of, MatcherView};
use crate::rules::model::RuleView;
use crate::text::has;
use vstd::prelude::*;

verus! {

/// Whether a term of a rule is found in a line: as an expression, or as the text
/// that it is, in letters of either case unless the rule heeds case.
pub open spec fn finds_term(r: RuleView, term: Seq<char>, s: Seq<char>) -> bool {
    if r.regex {
        pattern_matches(term, !r.case_sensitive, s)
    } else {
        pattern_matches(escaped(term), !r.case_sensitive, s)
    }
}

/// Whether an exclusion word stands in a line: as it is written where the rule
/// heeds case, else in small letters, as the line is.
pub open spec fn names_word(r: RuleView, word: Seq<char>, s: Seq<char>) -> bool {
    if r.case_sensitive {
        has(s, word)
    } else {
        has(lowercase(s), lowercase(word))
    }
}

/// A line is a hit of a rule exactly where it holds none of the exclusion words,
/// and holds each term, or one of them where one is enough. A rule without terms
/// has no hits.
pub proof fn law_hits_hold_the_terms_and_no_exclusion(r: RuleView, s: Seq<char>)
    ensures
        matcher_of(r).accepts(s) <==> (forall|i: int|
            0 <= i < r.exclude.len() ==> !names_word(r, #[trigger] r.exclude[i], s))
            && r.terms.len() > 0 && (if r.mode == "all"@ {
            forall|i: int| 0 <= i < r.terms.len() ==> finds_term(r, #[trigger] r.terms[i], s)
        } else {
            exists|i: int| 0 <= i < r.terms.len() && finds_term(r, #[trigger] r.terms[i], s)
        }),
{
    let m = matcher_of(r);
    lemma_excludes(r, s);
    let f = m.found(s);
    assert forall|i: int| 0 <= i < r.terms.len() implies #[trigger] f[i] == finds_term(
        r,
        r.terms[i],
        s,
    ) by {}
    if r.mode == "all"@ {
        if m.accepts(s) {
            assert forall|i: int| 0 <= i < r.terms.len() implies finds_term(
                r,
                #[trigger] r.terms[i],
                s,
            ) by {
                assert(f[i]);
            }
        }
    } else {
        if exists|i: int| 0 <= i < f.len() && #[trigger] f[i] {
            let i = choose|i: int| 0 <= i < f.len() && #[trigger] f[i];
            assert(finds_term(r, r.terms[i], s));
        }
        if exists|i: int| 0 <= i < r.terms.len() && finds_term(r, #[trigger] r.terms[i], s) {
            let i = choose|i: int| 0 <= i < r.terms.len() && finds_term(r, #[trigger] r.terms[i], s);
            assert(f[i]);
        }
    }
}

proof fn lemma_excludes(r: RuleView, s: Seq<char>)
    ensures
        matcher_of(r).excludes(s) <==> exists|i: int|
            0 <= i < r.exclude.len() && names_word(r, #[trigger] r.exclude[i], s),
{
    let m = matcher_of(r);
    let test = if r.case_sensitive {
        s
    } else {
        lowercase(s)
    };
    let p = |x: Seq<char>| has(test, x);
    assert(m.excludes(s) == crate::text::any(m.exclude, p));
    if m.excludes(s) {
        let i = choose|i: int| 0 <= i < m.exclude.len() && p(#[trigger] m.exclude[i]);
        assert(names_word(r, r.exclude[i], s));
    }
    if exists|i: int| 0 <= i < r.exclude.len() && names_word(r, #[trigger] r.exclude[i], s) {
        let i = choose|i: int| 0 <= i < r.exclude.len() && names_word(r, #[trigger] r.exclude[i], s);
        assert(p(m.exclude[i]));
    }
}

/// A line that holds an exclusion word is never a hit. Where the rule heeds case
/// the word must stand there as it is written; else it is enough that it does in
/// small letters.
pub proof fn law_excluded_lines_are_no_hits(r: RuleView, s: Seq<char>, word: Seq<char>)
    requires
        r.exclude.contains(word),
        if r.case_sensitive {
            has(s, word)
        } else {
            has(lowercase(s), lowercase(word))
        },
    ensures
        !matcher_of(r).accepts(s),
        matcher_of(r).excludes(s),
{
    lemma_excludes(r, s);
    let i = choose|i: int| 0 <= i < r.exclude.len() && r.exclude[i] == word;
    assert(names_word(r, r.exclude[i], s));
}

/// Where a rule does not heed case, lines that are the same in small letters are
/// excluded alike; so is a line and itself in small letters.
pub proof fn law_exclusion_goes_by_small_letters(r: RuleView, s: Seq<char>, t: Seq<char>)
    requires
        !r.case_sensitive,
        lowercase(s) == lowercase(t),
    ensures
        matcher_of(r).excludes(s) == matcher_of(r).excludes(t),
{
    lemma_excludes(r, s);
    lemma_excludes(r, t);
    assert forall|i: int| 0 <= i < r.exclude.len() implies names_word(r, #[trigger] r.exclude[i], s)
        == names_word(r, r.exclude[i], t) by {}
}

/// One more exclusion word never makes a hit, and where one term is enough one more
/// term never unmakes one.
pub proof fn law_more_words_exclude_more(r: RuleView, s: Seq<char>, word: Seq<char>)
    ensures
        matcher_of(RuleView { exclude: r.exclude.push(word), ..r }).accepts(s)
            ==> matcher_of(r).accepts(s),
        r.mode != "all"@ && matcher_of(r).accepts(s) ==> matcher_of(
            RuleView { terms: r.terms.push(word), ..r },
        ).accepts(s),
{
    let x = RuleView { exclude: r.exclude.push(word), ..r };
    let y = RuleView { terms: r.terms.push(word), ..r };
    law_hits_hold_the_terms_and_no_exclusion(r, s);
    law_hits_hold_the_terms_and_no_exclusion(x, s);
    law_hits_hold_the_terms_and_no_exclusion(y, s);
    assert forall|t: Seq<char>| finds_term(r, t, s) == #[trigger] finds_term(x, t, s) by {}
    assert forall|t: Seq<char>| finds_term(r, t, s) == #[trigger] finds_term(y, t, s) by {}
    if matcher_of(x).accepts(s) {
        assert forall|i: int| 0 <= i < r.exclude.len() implies !names_word(
            r,
            #[trigger] r.exclude[i],
            s,
        ) by {
            assert(x.exclude[i] == r.exclude[i]);
            assert(!names_word(x, x.exclude[i], s));
        }
        if r.mode == "all"@ {
            assert forall|i: int| 0 <= i < r.terms.len() implies finds_term(
                r,
                #[trigger] r.terms[i],
                s,
            ) by {
                assert(finds_term(x, x.terms[i], s));
            }
        } else {
            let i = choose|i: int| 0 <= i < x.terms.len() && finds_term(x, #[trigger] x.terms[i], s);
            assert(finds_term(r, r.terms[i], s));
        }
    }
    if r.mode != "all"@ && matcher_of(r).accepts(s) {
        assert forall|i: int| 0 <= i < y.exclude.len() implies !names_word(
            y,
            #[trigger] y.exclude[i],
            s,
        ) by {
            assert(!names_word(r, r.exclude[i], s));
        }
        let i = choose|i: int| 0 <= i < r.terms.len() && finds_term(r, #[trigger] r.terms[i], s);
        assert(y.terms[i] == r.terms[i]);
        assert(finds_term(y, y.terms[i], s));
    }
}

proof fn lemma_ranges_from(m: MatcherView, s: Seq<char>, i: int, x: (usize, usize))
    requires
        0 <= i <= m.patterns.len(),
    ensures
        m.ranges_from(s, i).contains(x) <==> exists|k: int|
            i <= k < m.patterns.len() && pattern_spans(
                (#[trigger] m.patterns[k]).source,
                m.patterns[k].insensitive,
                s,
            ).contains(x),
    decreases m.patterns.len() - i,
{
    if i < m.patterns.len() {
        lemma_ranges_from(m, s, i + 1, x);
        let a = pattern_spans(m.patterns[i].source, m.patterns[i].insensitive, s);
        let b = m.ranges_from(s, i + 1);
        let all = m.ranges_from(s, i);
        assert(all == a + b);
        if all.contains(x) {
            let k = choose|k: int| 0 <= k < all.len() && all[k] == x;
            if k < a.len() {
                assert(a[k] == x);
                assert(a.contains(x));
            } else {
                assert(b[k - a.len()] == x);
                assert(b.contains(x));
            }
        }
        if a.contains(x) {
            let k = choose|k: int| 0 <= k < a.len() && a[k] == x;
            assert(all[k] == x);
        }
        if b.contains(x) {
            let k = choose|k: int| 0 <= k < b.len() && b[k] == x;
            assert(all[a.len() + k] == x);
        }
    }
}

/// What is marked in a line is what its terms match there, and all of it.
pub proof fn law_marks_are_what_the_terms_match(r: RuleView, s: Seq<char>, x: (usize, usize))
    ensures
        matcher_of(r).ranges(s).contains(x) <==> exists|k: int|
            0 <= k < r.terms.len() && pattern_spans(
                if r.regex {
                    #[trigger] r.terms[k]
                } else {
                    escaped(r.terms[k])
                },
                !r.case_sensitive,
                s,
            ).contains(x),
{
    let m = matcher_of(r);
    lemma_ranges_from(m, s, 0, x);
    if m.ranges(s).contains(x) {
        let k = choose|k: int|
            0 <= k < m.patterns.len() && pattern_spans(
                (#[trigger] m.patterns[k]).source,
                m.patterns[k].insensitive,
                s,
            ).contains(x);
        assert(r.terms[k] == r.terms[k]);
    }
    if exists|k: int|
        0 <= k < r.terms.len() && pattern_spans(
            if r.regex {
                #[trigger] r.terms[k]
            } else {
                escaped(r.terms[k])
            },
            !r.case_sensitive,
            s,
        ).contains(x) {
        let k = choose|k: int|
            0 <= k < r.terms.len() && pattern_spans(
                if r.regex {
                    #[trigger] r.terms[k]
                } else {
                    escaped(r.terms[k])
                },
                !r.case_sensitive,
                s,
            ).contains(x);
        assert(m.patterns[k].insensitive == !r.case_sensitive);
    }
}

} // verus!
