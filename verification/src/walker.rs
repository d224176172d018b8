//! Walking a set of paths, with the paths still to visit on a stack.
//!
//! A path is tried as a directory first and as a file second; a path that is
//! neither is passed over. A directory gives its entries as further paths, a
//! file gives its k-mers. The walker opens nothing itself: it says which path
//! is at hand and what to try on it, and takes what the caller found.

use vstd::prelude::*;

verus! {

/// What to try on the path at hand.
#[derive(Clone, Copy, PartialEq, Eq, Debug)]
pub enum Attempt {
    /// Open it as a directory.
    Directory,
    /// Open it as a file to read.
    File,
}

/// What the caller found when it tried.
pub enum Found<P> {
    /// The path is a directory. `children` are the paths of the entries that
    /// it listed before it ended or failed.
    Directory { children: Vec<P> },
    /// The path could not be opened as a directory.
    NotDirectory,
    /// The path is a file, and it holds `count` k-mers.
    File { count: usize },
    /// The path could not be opened as a file either.
    NotFile,
}

/// A walker as a plain value: the paths still to visit, the last of them at
/// hand; what to try on that one; and the k-mers found so far.
pub ghost struct Walk<P> {
    pub pending: Seq<P>,
    pub attempt: Attempt,
    pub total: nat,
}

impl<P> Walk<P> {
    /// The walk after `found`. A finding that does not answer what was to be
    /// tried changes nothing, and neither does any finding once no path is
    /// left.
    pub open spec fn after(self, found: Found<P>) -> Walk<P> {
        if self.pending.len() == 0 {
            self
        } else {
            match (self.attempt, found) {
                (Attempt::Directory, Found::Directory { children }) => Walk {
                    pending: self.pending.drop_last() + children@,
                    attempt: Attempt::Directory,
                    total: self.total,
                },
                (Attempt::Directory, Found::NotDirectory) => Walk {
                    pending: self.pending,
                    attempt: Attempt::File,
                    total: self.total,
                },
                (Attempt::File, Found::File { count }) => Walk {
                    pending: self.pending.drop_last(),
                    attempt: Attempt::Directory,
                    total: self.total + count as nat,
                },
                (Attempt::File, Found::NotFile) => Walk {
                    pending: self.pending.drop_last(),
                    attempt: Attempt::Directory,
                    total: self.total,
                },
                _ => self,
            }
        }
    }

    /// Whether `found` can be taken in: the total must fit in a `usize`.
    pub open spec fn has_room(self, found: Found<P>) -> bool {
        self.after(found).total <= usize::MAX
    }
}

/// The walker of a set of paths of the type `P`.
pub struct Walker<P> {
    pending: Vec<P>,
    attempt: Attempt,
    total: usize,
}

impl<P> View for Walker<P> {
    type V = Walk<P>;

    closed spec fn view(&self) -> Walk<P> {
        Walk { pending: self.pending@, attempt: self.attempt, total: self.total as nat }
    }
}

impl<P> Walker<P> {
    /// A walker that has `roots` to visit, the last of them first.
    pub fn new(roots: Vec<P>) -> (walker: Walker<P>)
        ensures
            walker@ == (Walk { pending: roots@, attempt: Attempt::Directory, total: 0 }),
    {
        Walker { pending: roots, attempt: Attempt::Directory, total: 0 }
    }

    /// The path at hand, or `None` once every path has been visited.
    pub fn current(&self) -> (path: Option<&P>)
        ensures
            self@.pending.len() == 0 ==> path is None,
            self@.pending.len() > 0 ==> path == Some(&self@.pending.last()),
    {
        let n = self.pending.len();
        if n == 0 {
            None
        } else {
            Some(&self.pending[n - 1])
        }
    }

    /// What to try on the path at hand.
    pub fn attempt(&self) -> (attempt: Attempt)
        ensures
            attempt == self@.attempt,
    {
        self.attempt
    }

    /// The k-mers found so far.
    pub fn total(&self) -> (total: usize)
        ensures
            total == self@.total,
    {
        self.total
    }

    /// Whether [`Walker::record`] can take `found` in.
    pub fn can_record(&self, found: &Found<P>) -> (r: bool)
        ensures
            r == self@.has_room(*found),
    {
        match (self.attempt, found) {
            (Attempt::File, Found::File { count }) => {
                self.pending.len() == 0 || *count <= usize::MAX - self.total
            },
            _ => true,
        }
    }

    /// Takes in what the caller found on the path at hand.
    pub fn record(&mut self, found: Found<P>)
        requires
            old(self)@.has_room(found),
        ensures
            final(self)@ == old(self)@.after(found),
    {
        if self.pending.len() == 0 {
            return ;
        }
        match (self.attempt, found) {
            (Attempt::Directory, Found::Directory { children }) => {
                let mut children = children;
                self.pending.pop();
                self.pending.append(&mut children);
            },
            (Attempt::Directory, Found::NotDirectory) => {
                self.attempt = Attempt::File;
            },
            (Attempt::File, Found::File { count }) => {
                self.pending.pop();
                self.total = self.total + count;
                self.attempt = Attempt::Directory;
            },
            (Attempt::File, Found::NotFile) => {
                self.pending.pop();
                self.attempt = Attempt::Directory;
            },
            _ => {},
        }
    }
}

} // verus!
