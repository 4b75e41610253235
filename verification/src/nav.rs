//! Browser-style navigation history over visited directories: an ordered
//! sequence of paths and a current index.  New navigation discards the
//! forward part; stepping at a boundary is a no-op.

use vstd::prelude::*;
use vstd::string::*;

verus! {

/// The back/forward stack of visited directory paths.
///
/// Invariant: the index always points at an entry, so the sequence never
/// becomes empty; it holds at least the path the session started in.
pub struct NavigationHistory {
    pub entries: Vec<String>,
    pub index: usize,
}

impl NavigationHistory {
    /// The history's invariant: the current index points at an entry.
    pub open spec fn well_formed(&self) -> bool {
        self.index < self.entries@.len()
    }

    /// A history holding only the initial path, which is current.
    pub fn new(initial: String) -> (r: Self)
        ensures
            r.well_formed(),
            r.entries.deep_view() =~= seq![initial@],
            r.index == 0,
    {
        let mut entries: Vec<String> = Vec::new();
        entries.push(initial);
        NavigationHistory { entries, index: 0 }
    }

    /// The path the history currently points at.
    pub fn current(&self) -> (r: String)
        requires
            self.well_formed(),
        ensures
            r@ == self.entries.deep_view()[self.index as int],
    {
        self.entries[self.index].clone()
    }

    /// Records a navigation to `path`: everything after the current entry is
    /// discarded, `path` is appended, and it becomes current.
    pub fn push(&mut self, path: String)
        requires
            old(self).well_formed(),
        ensures
            final(self).well_formed(),
            final(self).entries.deep_view() =~= old(self).entries.deep_view().take(
                old(self).index + 1,
            ).push(path@),
            final(self).index == old(self).index + 1,
    {
        let n = self.entries.len();
        assert(self.index < n);
        self.entries.truncate(self.index + 1);
        self.entries.push(path);
        self.index = self.entries.len() - 1;
    }

    /// Steps one entry back and returns the path now current; at the oldest
    /// entry nothing changes and nothing is returned.
    pub fn back(&mut self) -> (r: Option<String>)
        requires
            old(self).well_formed(),
        ensures
            final(self).well_formed(),
            final(self).entries.deep_view() == old(self).entries.deep_view(),
            old(self).index > 0 ==> final(self).index == old(self).index - 1 && (r matches Some(p)
                && p@ == old(self).entries.deep_view()[old(self).index - 1]),
            old(self).index == 0 ==> final(self).index == old(self).index && r is None,
    {
        if self.index > 0 {
            self.index = self.index - 1;
            Some(self.entries[self.index].clone())
        } else {
            None
        }
    }

    /// Steps one entry forward and returns the path now current; at the
    /// newest entry nothing changes and nothing is returned.
    pub fn forward(&mut self) -> (r: Option<String>)
        requires
            old(self).well_formed(),
        ensures
            final(self).well_formed(),
            final(self).entries.deep_view() == old(self).entries.deep_view(),
            old(self).index + 1 < old(self).entries@.len() ==> final(self).index == old(self).index
                + 1 && (r matches Some(p) && p@ == old(self).entries.deep_view()[old(self).index
                + 1]),
            old(self).index + 1 >= old(self).entries@.len() ==> final(self).index == old(
                self,
            ).index && r is None,
    {
        if self.index < self.entries.len() - 1 {
            self.index = self.index + 1;
            Some(self.entries[self.index].clone())
        } else {
            None
        }
    }
}

} // verus!
