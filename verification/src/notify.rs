//! Texts of the desktop integration: the start-up command and notifications.

use crate::text::{chars_of, concat3};
use vstd::prelude::*;
use vstd::string::*;

verus! {

/// The command that starts the program with the session.
pub fn startup_command(exe: &str) -> (r: String)
    ensures
        r@ == "\""@ + exe@ + "\" --startup"@,
{
    concat3("\"", exe, "\" --startup")
}

/// How a character stands in XML; a control character that XML forbids does not.
pub open spec fn xml_char(c: char) -> Seq<char> {
    if c == '&' {
        "&amp;"@
    } else if c == '<' {
        "&lt;"@
    } else if c == '>' {
        "&gt;"@
    } else if c == '"' {
        "&quot;"@
    } else if c == '\'' {
        "&apos;"@
    } else if ' ' <= c || c == '\n' || c == '\r' || c == '\t' {
        seq![c]
    } else {
        Seq::empty()
    }
}

/// How the first `n` characters stand in XML.
pub open spec fn xml_text(s: Seq<char>, n: int) -> Seq<char>
    decreases n,
{
    if n <= 0 {
        Seq::empty()
    } else {
        xml_text(s, n - 1) + xml_char(s[n - 1])
    }
}

/// The text as it stands in XML.
pub fn escape_xml(text: &str) -> (r: String)
    ensures
        r@ == xml_text(text@, text@.len() as int),
{
    let c = chars_of(text);
    let mut out = String::new();
    let mut i: usize = 0;
    proof {
        assert(out@ =~= xml_text(text@, 0));
    }
    while i < c.len()
        invariant
            c@ == text@,
            i <= c.len(),
            out@ == xml_text(text@, i as int),
        decreases c.len() - i,
    {
        let x = c[i];
        let ghost was = out@;
        if x == '&' {
            out.append("&amp;");
        } else if x == '<' {
            out.append("&lt;");
        } else if x == '>' {
            out.append("&gt;");
        } else if x == '"' {
            out.append("&quot;");
        } else if x == '\'' {
            out.append("&apos;");
        } else if ' ' <= x || x == '\n' || x == '\r' || x == '\t' {
            out.push(x);
            proof {
                assert(out@ =~= was + seq![x]);
            }
        } else {
            proof {
                assert(out@ =~= was + Seq::<char>::empty());
            }
        }
        i += 1;
    }
    out
}

pub open spec fn toast_title(success: bool) -> Seq<char> {
    if success {
        "诊断包分析完成"@
    } else {
        "诊断包分析失败"@
    }
}

pub open spec fn toast_hint(success: bool) -> Seq<char> {
    if success {
        "点击打开 HTML 报告"@
    } else {
        "点击查看失败任务"@
    }
}

/// The notification of the end of an analysis.
pub open spec fn toast(package: Seq<char>, summary: Seq<char>, success: bool) -> Seq<char> {
    "<toast><visual><binding template=\"ToastGeneric\"><text>"@ + toast_title(success)
        + "</text><text>"@ + xml_text(package, package.len() as int) + "</text><text>"@ + xml_text(
        summary,
        summary.len() as int,
    ) + " · "@ + toast_hint(success) + "</text></binding></visual></toast>"@
}

/// The notification of the end of an analysis; `package` is the name of the
/// file.
pub fn toast_xml(package: &str, summary: &str, success: bool) -> (r: String)
    ensures
        r@ == toast(package@, summary@, success),
{
    let title = if success {
        "诊断包分析完成"
    } else {
        "诊断包分析失败"
    };
    let hint = if success {
        "点击打开 HTML 报告"
    } else {
        "点击查看失败任务"
    };
    let name = escape_xml(package);
    let text = escape_xml(summary);
    let mut out = "<toast><visual><binding template=\"ToastGeneric\"><text>".to_owned();
    out.append(title);
    out.append("</text><text>");
    out.append(name.as_str());
    out.append("</text><text>");
    out.append(text.as_str());
    out.append(" · ");
    out.append(hint);
    out.append("</text></binding></visual></toast>");
    out
}

/// Whether a text holds a character that ends a text or begins a tag in XML.
pub open spec fn has_markup(s: Seq<char>) -> bool {
    exists|i: int|
        0 <= i < s.len() && (#[trigger] s[i] == '<' || s[i] == '>' || s[i] == '"' || s[i] == '\'')
}

/// A text that was escaped can neither end the text that it stands in nor begin a
/// tag.
pub proof fn law_escaped_text_has_no_markup(s: Seq<char>, n: int)
    requires
        n <= s.len(),
    ensures
        !has_markup(xml_text(s, n)),
    decreases n,
{
    if n > 0 {
        law_escaped_text_has_no_markup(s, n - 1);
        reveal_strlit("&amp;");
        reveal_strlit("&lt;");
        reveal_strlit("&gt;");
        reveal_strlit("&quot;");
        reveal_strlit("&apos;");
        let a = xml_text(s, n - 1);
        let b = xml_char(s[n - 1]);
        assert(!has_markup(b));
        let t = xml_text(s, n);
        assert(t == a + b);
        assert forall|i: int| 0 <= i < t.len() implies #[trigger] t[i] != '<' && t[i] != '>'
            && t[i] != '"' && t[i] != '\'' by {
            if i < a.len() {
                assert(t[i] == a[i]);
            } else {
                assert(t[i] == b[i - a.len()]);
            }
        }
    }
}

} // verus!
