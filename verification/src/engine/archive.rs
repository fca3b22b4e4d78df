//! What an archive may hold, and where its entries may be written.

use crate::fault::{refusal, Fault, FaultKind, FaultView};
use crate::text::{
    any, contains_char, has_char, head, head_of, lower, lower_text, replace_char, same, swap_char,
    views, Class,
};
use vstd::prelude::*;

verus! {

/// A component of a path in an archive.
#[derive(Clone, Debug)]
pub enum PathPart {
    /// A name.
    Normal(String),
    /// The directory itself.
    Current,
    /// A root, a prefix or a step upwards.
    Other,
}

pub ghost enum PathPartView {
    Normal(Seq<char>),
    Current,
    Other,
}

impl View for PathPart {
    type V = PathPartView;

    open spec fn view(&self) -> PathPartView {
        match self {
            PathPart::Normal(s) => PathPartView::Normal(s@),
            PathPart::Current => PathPartView::Current,
            PathPart::Other => PathPartView::Other,
        }
    }
}

/// Why an archive cannot be read, by its container and its first bytes.
pub open spec fn archive_fault(container: Seq<char>, start: Seq<u8>) -> Option<FaultView> {
    if container == "zip"@ {
        Some(refusal(FaultKind::ZipArchive, Seq::empty()))
    } else if container != "diagnostic_archive"@ {
        Some(refusal(FaultKind::ArchiveContainer, container))
    } else if start.len() >= 2 && start[0] == 0x50 && start[1] == 0x4b {
        Some(refusal(FaultKind::ZipContent, Seq::empty()))
    } else if start.len() < 2 || start[0] != 0x1f || start[1] != 0x8b {
        Some(refusal(FaultKind::NotArchive, Seq::empty()))
    } else {
        None
    }
}

/// Checks the container and the first bytes of an archive.
pub fn check_archive(container: &str, start: &[u8]) -> (r: Result<(), Fault>)
    ensures
        (match r {
            Ok(_) => archive_fault(container@, start@) is None,
            Err(f) => archive_fault(container@, start@) == Some(f@),
        }),
{
    if same(container, "zip") {
        return Err(Fault::plain(FaultKind::ZipArchive));
    }
    if !same(container, "diagnostic_archive") {
        return Err(Fault::new(FaultKind::ArchiveContainer, container));
    }
    if start.len() >= 2 && start[0] == 0x50 && start[1] == 0x4b {
        return Err(Fault::plain(FaultKind::ZipContent));
    }
    if start.len() < 2 || start[0] != 0x1f || start[1] != 0x8b {
        return Err(Fault::plain(FaultKind::NotArchive));
    }
    Ok(())
}

/// Checks the type of an entry: only files and directories are read.
pub fn check_entry(is_file: bool, is_dir: bool) -> (r: Result<(), Fault>)
    ensures
        (match r {
            Ok(_) => is_file || is_dir,
            Err(f) => !is_file && !is_dir && f@ == refusal(FaultKind::EntryType, Seq::empty()),
        }),
{
    if is_file || is_dir {
        Ok(())
    } else {
        Err(Fault::plain(FaultKind::EntryType))
    }
}

/// Checks that an archive holds something.
pub fn check_entry_count(count: usize) -> (r: Result<(), Fault>)
    ensures
        (match r {
            Ok(_) => count > 0,
            Err(f) => count == 0 && f@ == refusal(FaultKind::EmptyArchive, Seq::empty()),
        }),
{
    if count == 0 {
        Err(Fault::plain(FaultKind::EmptyArchive))
    } else {
        Ok(())
    }
}

/// Checks that an archive holds a file.
pub fn check_file_count(count: usize) -> (r: Result<(), Fault>)
    ensures
        (match r {
            Ok(_) => count > 0,
            Err(f) => count == 0 && f@ == refusal(FaultKind::NoFiles, Seq::empty()),
        }),
{
    if count == 0 {
        Err(Fault::plain(FaultKind::NoFiles))
    } else {
        Ok(())
    }
}

/// The names that Windows keeps for devices, in small letters.
pub open spec fn device_name(s: Seq<char>) -> bool {
    ||| s == "con"@
    ||| s == "prn"@
    ||| s == "aux"@
    ||| s == "nul"@
    ||| s == "com1"@
    ||| s == "com2"@
    ||| s == "com3"@
    ||| s == "com4"@
    ||| s == "com5"@
    ||| s == "com6"@
    ||| s == "com7"@
    ||| s == "com8"@
    ||| s == "com9"@
    ||| s == "lpt1"@
    ||| s == "lpt2"@
    ||| s == "lpt3"@
    ||| s == "lpt4"@
    ||| s == "lpt5"@
    ||| s == "lpt6"@
    ||| s == "lpt7"@
    ||| s == "lpt8"@
    ||| s == "lpt9"@
}

/// Whether a name can be written on every system: it names no stream, holds no
/// separator and is no device, whatever its extension.
pub open spec fn safe_name(name: Seq<char>) -> bool {
    &&& !has_char(name, ':')
    &&& !has_char(name, '\\')
    &&& !device_name(lower(head(name, Class::One('.'))))
}

fn is_device(s: &str) -> (r: bool)
    ensures
        r == device_name(s@),
{
    same(s, "con") || same(s, "prn") || same(s, "aux") || same(s, "nul") || same(s, "com1") || same(
        s,
        "com2",
    ) || same(s, "com3") || same(s, "com4") || same(s, "com5") || same(s, "com6") || same(s, "com7")
        || same(s, "com8") || same(s, "com9") || same(s, "lpt1") || same(s, "lpt2") || same(
        s,
        "lpt3",
    ) || same(s, "lpt4") || same(s, "lpt5") || same(s, "lpt6") || same(s, "lpt7") || same(s, "lpt8")
        || same(s, "lpt9")
}

pub fn is_safe_name(name: &str) -> (r: bool)
    ensures
        r == safe_name(name@),
{
    let device = head_of(name, Class::One('.'));
    let device = lower_text(device.as_str());
    !contains_char(name, ':') && !contains_char(name, '\\') && !is_device(device.as_str())
}

pub open spec fn is_other() -> spec_fn(PathPartView) -> bool {
    |p: PathPartView| p is Other
}

/// The names among the first `n` components.
pub open spec fn names(parts: Seq<PathPartView>, n: int) -> Seq<Seq<char>>
    decreases n,
{
    if n <= 0 {
        Seq::empty()
    } else {
        match parts[n - 1] {
            PathPartView::Normal(s) => names(parts, n - 1).push(s),
            _ => names(parts, n - 1),
        }
    }
}

/// Why the names from number `i` on are refused: one is not safe, or the path up
/// to it is a link. `links` tells which of the paths that exist are.
pub open spec fn names_fault(s: Seq<Seq<char>>, links: Seq<bool>, i: int) -> Option<FaultView>
    decreases s.len() - i,
{
    if i >= s.len() {
        None
    } else if !safe_name(s[i]) {
        Some(refusal(FaultKind::UnsafeName, s[i]))
    } else if i < links.len() && links[i] {
        Some(refusal(FaultKind::LinkInOutput, Seq::empty()))
    } else {
        names_fault(s, links, i + 1)
    }
}

/// Why an entry may not be written to its path.
pub open spec fn target_fault(parts: Seq<PathPartView>, links: Seq<bool>) -> Option<FaultView> {
    if any(parts, is_other()) {
        Some(refusal(FaultKind::IllegalPath, Seq::empty()))
    } else {
        names_fault(names(parts, parts.len() as int), links, 0)
    }
}

fn holds_other(parts: &Vec<PathPart>) -> (r: bool)
    ensures
        r == any(views(parts@), is_other()),
{
    let ghost pv = views(parts@);
    let ghost f = is_other();
    let mut i: usize = 0;
    while i < parts.len()
        invariant
            i <= parts.len(),
            pv == views(parts@),
            f == is_other(),
            forall|j: int| 0 <= j < i ==> !f(#[trigger] pv[j]),
        decreases parts.len() - i,
    {
        let hit = match &parts[i] {
            PathPart::Other => true,
            _ => false,
        };
        proof {
            assert(pv[i as int] == parts@[i as int]@);
            assert(hit == f(pv[i as int]));
        }
        if hit {
            return true;
        }
        i += 1;
    }
    false
}

fn names_of(parts: &Vec<PathPart>) -> (r: Vec<String>)
    ensures
        views(r@) == names(views(parts@), parts.len() as int),
{
    let ghost pv = views(parts@);
    let mut out: Vec<String> = Vec::new();
    let mut i: usize = 0;
    proof {
        assert(views(out@) =~= names(pv, 0));
    }
    while i < parts.len()
        invariant
            i <= parts.len(),
            pv == views(parts@),
            views(out@) == names(pv, i as int),
        decreases parts.len() - i,
    {
        proof {
            assert(pv[i as int] == parts@[i as int]@);
        }
        match &parts[i] {
            PathPart::Normal(s) => {
                let ghost was = views(out@);
                out.push(s.clone());
                proof {
                    assert(views(out@) =~= was.push(s@));
                }
            },
            _ => {},
        }
        i += 1;
    }
    out
}

/// The names below the root that an entry is written to. A path that leads out
/// of the root, a name that is not safe everywhere or a link on the way is
/// refused.
pub fn safe_target(parts: &Vec<PathPart>, links: &Vec<bool>) -> (r: Result<Vec<String>, Fault>)
    ensures
        (match r {
            Ok(v) => target_fault(views(parts@), links@) is None && views(v@) == names(
                views(parts@),
                parts.len() as int,
            ),
            Err(f) => target_fault(views(parts@), links@) == Some(f@),
        }),
{
    if holds_other(parts) {
        return Err(Fault::plain(FaultKind::IllegalPath));
    }
    let all = names_of(parts);
    let ghost av = views(all@);
    let mut i: usize = 0;
    proof {
        assert(views(parts@).len() == parts.len());
    }
    while i < all.len()
        invariant
            i <= all.len(),
            av == views(all@),
            av == names(views(parts@), parts.len() as int),
            !any(views(parts@), is_other()),
            views(parts@).len() == parts.len(),
            names_fault(av, links@, 0) == names_fault(av, links@, i as int),
        decreases all.len() - i,
    {
        proof {
            assert(av[i as int] == all@[i as int]@);
        }
        if !is_safe_name(all[i].as_str()) {
            return Err(Fault::new(FaultKind::UnsafeName, all[i].as_str()));
        }
        if i < links.len() && links[i] {
            return Err(Fault::plain(FaultKind::LinkInOutput));
        }
        i += 1;
    }
    Ok(all)
}

/// The name under which a file of an archive is known.
pub fn entry_name(path: &str) -> (r: String)
    ensures
        r@ == swap_char(path@, '\\', '/'),
{
    replace_char(path, '\\', '/')
}

/// Whether the package is still what it was when the analysis began.
pub fn check_unchanged(same_stamp: bool, late: bool) -> (r: Result<(), Fault>)
    ensures
        (match r {
            Ok(_) => same_stamp,
            Err(f) => !same_stamp && f@ == refusal(
                if late {
                    FaultKind::PackageChangedLate
                } else {
                    FaultKind::PackageChanged
                },
                Seq::empty(),
            ),
        }),
{
    if same_stamp {
        Ok(())
    } else if late {
        Err(Fault::plain(FaultKind::PackageChangedLate))
    } else {
        Err(Fault::plain(FaultKind::PackageChanged))
    }
}

/// An analysis was told to stop.
#[derive(Clone, Copy, Debug, PartialEq, Eq, Structural)]
pub struct Cancelled;

impl Cancelled {
    /// What the user is told.
    pub fn fault(&self) -> (r: Fault)
        ensures
            r@ == refusal(FaultKind::Cancelled, Seq::empty()),
    {
        Fault::plain(FaultKind::Cancelled)
    }
}

/// Stops an analysis that was told to.
pub fn check_cancelled(cancelled: bool) -> (r: Result<(), Cancelled>)
    ensures
        r is Err == cancelled,
{
    if cancelled {
        Err(Cancelled)
    } else {
        Ok(())
    }
}

} // verus!
