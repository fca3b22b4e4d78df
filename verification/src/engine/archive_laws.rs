//! Where an archive may write.

use crate::engine::archive::{
    archive_fault, device_name, is_other, names, names_fault, safe_name, target_fault, PathPartView,
};
use crate::fault::{refusal, FaultKind};
use crate::text::{any, has_char, lower, Class};
use crate::text_laws::{law_texts_are_cut_at_the_character, none_in};
use vstd::prelude::*;

verus! {

proof fn lemma_names_safe(s: Seq<Seq<char>>, links: Seq<bool>, i: int, k: int)
    requires
        0 <= i <= k < s.len(),
        names_fault(s, links, i) is None,
    ensures
        safe_name(s[k]),
        k < links.len() ==> !links[k],
    decreases k - i,
{
    if i < k {
        lemma_names_safe(s, links, i + 1, k);
    }
}

/// A path that is accepted never leaves the output directory: it goes neither up
/// nor to a root, through no link, and by names that are safe on every system.
pub proof fn law_accepted_paths_stay_inside(
    parts: Seq<PathPartView>,
    links: Seq<bool>,
    i: int,
    k: int,
)
    requires
        target_fault(parts, links) is None,
        0 <= i < parts.len(),
        0 <= k < names(parts, parts.len() as int).len(),
    ensures
        !(parts[i] is Other),
        safe_name(names(parts, parts.len() as int)[k]),
        k < links.len() ==> !links[k],
{
    lemma_names_safe(names(parts, parts.len() as int), links, 0, k);
    if parts[i] is Other {
        assert(is_other()(parts[i]));
    }
}

/// An archive is read exactly where it is a diagnostic archive and begins with the
/// two bytes of gzip.
pub proof fn law_archives_begin_with_their_bytes(container: Seq<char>, start: Seq<u8>)
    ensures
        archive_fault(container, start) is None <==> container == "diagnostic_archive"@
            && start.len() >= 2 && start[0] == 0x1f && start[1] == 0x8b,
        container == "zip"@ ==> archive_fault(container, start) == Some(
            refusal(FaultKind::ZipArchive, Seq::empty()),
        ),
        container != "zip"@ && container != "diagnostic_archive"@ ==> archive_fault(
            container,
            start,
        ) == Some(refusal(FaultKind::ArchiveContainer, container)),
        container == "diagnostic_archive"@ && start.len() >= 2 && start[0] == 0x50 && start[1]
            == 0x4b ==> archive_fault(container, start) == Some(
            refusal(FaultKind::ZipContent, Seq::empty()),
        ),
        container == "diagnostic_archive"@ && start.len() < 2 ==> archive_fault(container, start)
            == Some(refusal(FaultKind::NotArchive, Seq::empty())),
{
    reveal_strlit("zip");
    reveal_strlit("diagnostic_archive");
    assert("zip"@.len() == 3 && "diagnostic_archive"@.len() == 18);
}

/// The names that stand for devices, with the ports numbered from one to nine.
pub open spec fn is_device(s: Seq<char>) -> bool {
    ||| s == seq!['c', 'o', 'n']
    ||| s == seq!['p', 'r', 'n']
    ||| s == seq!['a', 'u', 'x']
    ||| s == seq!['n', 'u', 'l']
    ||| s.len() == 4 && (s.subrange(0, 3) == seq!['c', 'o', 'm'] || s.subrange(0, 3) == seq![
        'l',
        'p',
        't',
    ]) && '1' <= s[3] <= '9'
}

proof fn lemma_devices(s: Seq<char>)
    ensures
        device_name(s) == is_device(s),
{
    reveal_strlit("con");
    reveal_strlit("prn");
    reveal_strlit("aux");
    reveal_strlit("nul");
    reveal_strlit("com1");
    reveal_strlit("com2");
    reveal_strlit("com3");
    reveal_strlit("com4");
    reveal_strlit("com5");
    reveal_strlit("com6");
    reveal_strlit("com7");
    reveal_strlit("com8");
    reveal_strlit("com9");
    reveal_strlit("lpt1");
    reveal_strlit("lpt2");
    reveal_strlit("lpt3");
    reveal_strlit("lpt4");
    reveal_strlit("lpt5");
    reveal_strlit("lpt6");
    reveal_strlit("lpt7");
    reveal_strlit("lpt8");
    reveal_strlit("lpt9");
    assert("con"@ =~= seq!['c', 'o', 'n']);
    assert("prn"@ =~= seq!['p', 'r', 'n']);
    assert("aux"@ =~= seq!['a', 'u', 'x']);
    assert("nul"@ =~= seq!['n', 'u', 'l']);
    let com = seq!['c', 'o', 'm'];
    let lpt = seq!['l', 'p', 't'];
    assert("com1"@ =~= com.push('1') && "com2"@ =~= com.push('2') && "com3"@ =~= com.push('3'));
    assert("com4"@ =~= com.push('4') && "com5"@ =~= com.push('5') && "com6"@ =~= com.push('6'));
    assert("com7"@ =~= com.push('7') && "com8"@ =~= com.push('8') && "com9"@ =~= com.push('9'));
    assert("lpt1"@ =~= lpt.push('1') && "lpt2"@ =~= lpt.push('2') && "lpt3"@ =~= lpt.push('3'));
    assert("lpt4"@ =~= lpt.push('4') && "lpt5"@ =~= lpt.push('5') && "lpt6"@ =~= lpt.push('6'));
    assert("lpt7"@ =~= lpt.push('7') && "lpt8"@ =~= lpt.push('8') && "lpt9"@ =~= lpt.push('9'));
    assert forall|c: char| #[trigger] com.push(c).subrange(0, 3) == com by {
        assert(com.push(c).subrange(0, 3) =~= com);
    }
    assert forall|c: char| #[trigger] lpt.push(c).subrange(0, 3) == lpt by {
        assert(lpt.push(c).subrange(0, 3) =~= lpt);
    }
    if s.len() == 4 {
        assert(s =~= s.subrange(0, 3).push(s[3]));
    }
}

/// A name is safe exactly where it holds neither a colon nor a backslash and what
/// stands before its first point is no device in small or capital letters.
pub proof fn law_safe_names_are_no_devices(stem: Seq<char>, rest: Seq<char>)
    requires
        !has_char(stem, '.'),
    ensures
        is_device(lower(stem)) ==> !safe_name(stem) && !safe_name(stem + seq!['.'] + rest),
        has_char(stem, ':') || has_char(stem, '\\') ==> !safe_name(stem),
        !is_device(lower(stem)) && !has_char(stem, ':') && !has_char(stem, '\\') ==> safe_name(
            stem,
        ),
        !is_device(lower(stem)) && !has_char(stem, ':') && !has_char(stem, '\\') && !has_char(
            rest,
            ':',
        ) && !has_char(rest, '\\') ==> safe_name(stem + seq!['.'] + rest),
{
    let k = Class::One('.');
    assert(none_in(stem, k));
    law_texts_are_cut_at_the_character(stem, '.', rest, k);
    crate::text_laws::law_texts_without_the_character_stay(stem, k);
    lemma_devices(lower(stem));
    let full = stem + seq!['.'] + rest;
    assert forall|i: int| 0 <= i < full.len() implies #[trigger] full[i] == (if i < stem.len() {
        stem[i]
    } else if i == stem.len() {
        '.'
    } else {
        rest[i - stem.len() - 1]
    }) by {}
}

/// A path that goes up, to a root or to a drive is refused, whatever else it holds.
pub proof fn law_paths_that_leave_are_refused(parts: Seq<PathPartView>, links: Seq<bool>, i: int)
    requires
        0 <= i < parts.len(),
        parts[i] is Other,
    ensures
        target_fault(parts, links) == Some(refusal(FaultKind::IllegalPath, Seq::empty())),
{
    let f = is_other();
    assert(f(parts[i]));
}

/// A path of safe names that meets no link is accepted.
pub proof fn law_harmless_paths_are_accepted(parts: Seq<PathPartView>, links: Seq<bool>)
    requires
        forall|i: int|
            0 <= i < parts.len() ==> (match #[trigger] parts[i] {
                PathPartView::Normal(s) => safe_name(s),
                PathPartView::Current => true,
                PathPartView::Other => false,
            }),
        forall|i: int| 0 <= i < links.len() ==> !#[trigger] links[i],
    ensures
        target_fault(parts, links) is None,
{
    let f = is_other();
    if any(parts, f) {
        let i = choose|i: int| 0 <= i < parts.len() && f(#[trigger] parts[i]);
        assert(parts[i] is Other);
    }
    lemma_names_are_parts(parts, parts.len() as int);
    lemma_no_fault(names(parts, parts.len() as int), links, 0);
}

proof fn lemma_names_are_parts(parts: Seq<PathPartView>, n: int)
    requires
        0 <= n <= parts.len(),
        forall|i: int|
            0 <= i < parts.len() ==> (match #[trigger] parts[i] {
                PathPartView::Normal(s) => safe_name(s),
                PathPartView::Current => true,
                PathPartView::Other => false,
            }),
    ensures
        forall|k: int| 0 <= k < names(parts, n).len() ==> safe_name(#[trigger] names(parts, n)[k]),
    decreases n,
{
    if n > 0 {
        lemma_names_are_parts(parts, n - 1);
        let was = names(parts, n - 1);
        let now = names(parts, n);
        if let PathPartView::Normal(s) = parts[n - 1] {
            assert(now == was.push(s));
            assert(safe_name(s));
            assert forall|k: int| 0 <= k < now.len() implies safe_name(#[trigger] now[k]) by {
                if k < was.len() {
                    assert(now[k] == was[k]);
                    assert(safe_name(was[k]));
                }
            }
        }
    }
}

proof fn lemma_no_fault(s: Seq<Seq<char>>, links: Seq<bool>, i: int)
    requires
        0 <= i,
        forall|k: int| 0 <= k < s.len() ==> safe_name(#[trigger] s[k]),
        forall|k: int| 0 <= k < links.len() ==> !#[trigger] links[k],
    ensures
        names_fault(s, links, i) is None,
    decreases s.len() - i,
{
    if i < s.len() {
        lemma_no_fault(s, links, i + 1);
    }
}

/// The names of a path are those of its components that have one, in their order.
pub proof fn law_names_are_those_of_the_components(
    parts: Seq<PathPartView>,
    last: PathPartView,
    n: int,
)
    requires
        n == parts.len(),
    ensures
        names(parts.push(last), n + 1) == (match last {
            PathPartView::Normal(s) => names(parts, n).push(s),
            PathPartView::Current => names(parts, n),
            PathPartView::Other => names(parts, n),
        }),
{
    lemma_names_front(parts, last, n);
}

proof fn lemma_names_front(parts: Seq<PathPartView>, last: PathPartView, n: int)
    requires
        0 <= n <= parts.len(),
    ensures
        names(parts.push(last), n) == names(parts, n),
    decreases n,
{
    if n > 0 {
        lemma_names_front(parts, last, n - 1);
    }
}

} // verus!
