//! The watch over the file of the library.
use vstd::prelude::*;

use crate::text::same_text;

verus! {

/// When a file was last written: how far from the beginning of 1970, and on
/// which side of it.
#[derive(Debug, Clone, Copy, PartialEq, Eq, Structural)]
pub struct FileTime {
    pub before_1970: bool,
    pub secs: u64,
    pub nanos: u32,
}

/// What the last look at the file found.
pub struct LibraryWatch {
    last: Option<(String, FileTime)>,
}

impl LibraryWatch {
    /// The path and the time that the last look found.
    pub closed spec fn seen(self) -> Option<(Seq<char>, FileTime)> {
        match self.last {
            Some((path, time)) => Some((path@, time)),
            None => None,
        }
    }

    /// No look yet.
    pub fn new() -> (w: Self)
        ensures
            w.seen() is None,
    {
        LibraryWatch { last: None }
    }

    /// Notes what a look found, and tells whether it is another file than at
    /// the look before or was written since. The first look tells of no change.
    pub fn look(&mut self, path: String, time: FileTime) -> (changed: bool)
        ensures
            final(self).seen() == Some((path@, time)),
            changed == match old(self).seen() {
                Some((p, t)) => p != path@ || t != time,
                None => false,
            },
    {
        let changed: bool = match &self.last {
            Some((p, t)) => !same_text(p.as_str(), path.as_str()) || *t != time,
            None => false,
        };
        self.last = Some((path, time));
        changed
    }
}

} // verus!
