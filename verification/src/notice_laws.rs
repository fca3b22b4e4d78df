//! What the texts of notifications say.

use crate::notify::{toast, xml_char, xml_text};
use vstd::prelude::*;

verus! {

/// Whether a character stands in XML as it is.
pub open spec fn is_plain(c: char) -> bool {
    c != '&' && c != '<' && c != '>' && c != '"' && c != '\'' && (' ' <= c || c == '\n' || c == '\r'
        || c == '\t')
}

/// Escaping goes character by character.
pub proof fn law_texts_are_escaped_piece_by_piece(a: Seq<char>, b: Seq<char>, n: int)
    requires
        0 <= n <= b.len(),
    ensures
        xml_text(a + b, a.len() + n) == xml_text(a, a.len() as int) + xml_text(b, n),
    decreases n,
{
    if n > 0 {
        law_texts_are_escaped_piece_by_piece(a, b, n - 1);
        assert((a + b)[a.len() + n - 1] == b[n - 1]);
        assert(xml_text(a, a.len() as int) + xml_text(b, n) =~= xml_text(a, a.len() as int)
            + xml_text(b, n - 1) + xml_char(b[n - 1]));
    } else {
        lemma_front(a, b, a.len() as int);
        assert(xml_text(a, a.len() as int) + Seq::<char>::empty() =~= xml_text(a, a.len() as int));
    }
}

proof fn lemma_front(a: Seq<char>, b: Seq<char>, n: int)
    requires
        0 <= n <= a.len(),
    ensures
        xml_text(a + b, n) == xml_text(a, n),
    decreases n,
{
    if n > 0 {
        lemma_front(a, b, n - 1);
        assert((a + b)[n - 1] == a[n - 1]);
    }
}

/// A text without markup and without control characters stands as it is.
pub proof fn law_plain_texts_stay(s: Seq<char>, n: int)
    requires
        0 <= n <= s.len(),
        forall|i: int| 0 <= i < s.len() ==> is_plain(#[trigger] s[i]),
    ensures
        xml_text(s, n) == s.subrange(0, n),
    decreases n,
{
    if n > 0 {
        law_plain_texts_stay(s, n - 1);
        assert(is_plain(s[n - 1]));
        assert(s.subrange(0, n) =~= s.subrange(0, n - 1) + seq![s[n - 1]]);
    } else {
        assert(s.subrange(0, 0) =~= Seq::<char>::empty());
    }
}

/// The five characters of markup stand as the entities that XML has for them, and a
/// control character that XML forbids is left out.
pub proof fn law_markup_stands_as_entities(c: char)
    ensures
        xml_text(seq!['&'], 1) == "&amp;"@,
        xml_text(seq!['<'], 1) == "&lt;"@,
        xml_text(seq!['>'], 1) == "&gt;"@,
        xml_text(seq!['"'], 1) == "&quot;"@,
        xml_text(seq!['\''], 1) == "&apos;"@,
        c < ' ' && c != '\n' && c != '\r' && c != '\t' ==> xml_text(seq![c], 1).len() == 0,
{
    reveal_with_fuel(xml_text, 2);
    assert(xml_text(seq!['&'], 1) =~= "&amp;"@);
    assert(xml_text(seq!['<'], 1) =~= "&lt;"@);
    assert(xml_text(seq!['>'], 1) =~= "&gt;"@);
    assert(xml_text(seq!['"'], 1) =~= "&quot;"@);
    assert(xml_text(seq!['\''], 1) =~= "&apos;"@);
}

/// A notification names the package first and the summary behind it, under the title
/// of a success or of a failure, with the hint that goes with it.
pub proof fn law_notifications_name_the_package(package: Seq<char>, summary: Seq<char>)
    ensures
        toast(package, summary, true)
            == "<toast><visual><binding template=\"ToastGeneric\"><text>"@ + "诊断包分析完成"@
            + "</text><text>"@ + xml_text(package, package.len() as int) + "</text><text>"@
            + xml_text(summary, summary.len() as int) + " · "@ + "点击打开 HTML 报告"@
            + "</text></binding></visual></toast>"@,
        toast(package, summary, false)
            == "<toast><visual><binding template=\"ToastGeneric\"><text>"@ + "诊断包分析失败"@
            + "</text><text>"@ + xml_text(package, package.len() as int) + "</text><text>"@
            + xml_text(summary, summary.len() as int) + " · "@ + "点击查看失败任务"@
            + "</text></binding></visual></toast>"@,
{
}

} // verus!
