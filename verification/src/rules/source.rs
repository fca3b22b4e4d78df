//! Which paths a source stands for.

use crate::rules::model::{Source, SourceView};
use crate::text::{
    begins, chars_of, contains, cut, cut_back, has, replace_char, rsplit_once, same, seek, seek_in,
    split_once, starts_with, swap_char, tail, tail_of, text_of, trim_start, trimmed_start, Class,
};
use vstd::prelude::*;

verus! {

pub open spec fn slash() -> Class {
    Class::One('/')
}

/// The path behind its first component.
pub open spec fn inner(path: Seq<char>) -> Seq<char> {
    trim_start(path.subrange(seek(path, slash(), true, 0), path.len() as int), slash())
}

/// Whether the path lies in the directory and its last component begins with
/// the prefix.
pub open spec fn lies_under(path: Seq<char>, directory: Seq<char>, prefix: Seq<char>) -> bool {
    match cut_back(path, slash()) {
        Some((parent, name)) => parent == directory && begins(name, prefix),
        None => false,
    }
}

impl SourceView {
    /// Whether the source stands for the path. The first component of a path is
    /// the directory that an archive was unpacked to and may be left out of the
    /// pattern.
    pub open spec fn covers(self, path: Seq<char>) -> bool {
        let p = swap_char(path, '\\', '/');
        if self.mode == "exact"@ {
            p == self.pattern || inner(p) == self.pattern
        } else if self.mode == "path"@ {
            has(p, self.pattern)
        } else {
            match cut_back(self.pattern, slash()) {
                Some((directory, prefix)) => lies_under(p, directory, prefix) || (match cut(
                    p,
                    slash(),
                ) {
                    Some((_, rest)) => lies_under(trim_start(rest, slash()), directory, prefix),
                    None => false,
                }),
                None => begins(tail(p, slash()), self.pattern),
            }
        }
    }
}

fn is_under(path: &str, directory: &str, prefix: &str) -> (r: bool)
    ensures
        r == lies_under(path@, directory@, prefix@),
{
    match rsplit_once(path, Class::One('/')) {
        Some((parent, name)) => same(parent.as_str(), directory) && starts_with(
            name.as_str(),
            prefix,
        ),
        None => false,
    }
}

impl Source {
    pub fn matches(&self, path: &str) -> (r: bool)
        ensures
            r == self@.covers(path@),
    {
        let p = replace_char(path, '\\', '/');
        let p = p.as_str();
        if same(self.mode.as_str(), "exact") {
            if same(p, self.pattern.as_str()) {
                return true;
            }
            let c = chars_of(p);
            let j = seek_in(&c, Class::One('/'), true, 0);
            let rest = text_of(&c, j, c.len());
            let rest = trimmed_start(rest.as_str(), Class::One('/'));
            same(rest.as_str(), self.pattern.as_str())
        } else if same(self.mode.as_str(), "path") {
            contains(p, self.pattern.as_str())
        } else {
            match rsplit_once(self.pattern.as_str(), Class::One('/')) {
                Some((directory, prefix)) => {
                    if is_under(p, directory.as_str(), prefix.as_str()) {
                        return true;
                    }
                    match split_once(p, Class::One('/')) {
                        Some((_, rest)) => {
                            let rest = trimmed_start(rest.as_str(), Class::One('/'));
                            is_under(rest.as_str(), directory.as_str(), prefix.as_str())
                        },
                        None => false,
                    }
                },
                None => {
                    let base = tail_of(p, Class::One('/'));
                    starts_with(base.as_str(), self.pattern.as_str())
                },
            }
        }
    }
}

} // verus!
