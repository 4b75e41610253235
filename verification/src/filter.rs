//! Live substring filtering of the current directory listing.

use vstd::prelude::*;
use vstd::string::*;

use crate::model::{DirEntry, EntryModel};
use crate::text::{chars_vec, contains_seq, lower_of, to_lower, vec_contains};

verus! {

/// The entry's name contains `q`, case-insensitively.
pub open spec fn name_matches(e: EntryModel, q: Seq<char>) -> bool {
    contains_seq(lower_of(e.name), lower_of(q))
}

/// The entries of `listing` whose names contain `q`, case-insensitively,
/// in their original order.
pub open spec fn filter_matches(listing: Seq<EntryModel>, q: Seq<char>) -> Seq<EntryModel> {
    listing.filter(|e: EntryModel| name_matches(e, q))
}

/// The live filter over the current directory listing.  While active, the
/// filtered entries stand in for the listing and the selection is reset.
pub struct DirectoryFilter {
    pub filtered: Vec<DirEntry>,
    pub active: bool,
    pub selected: usize,
}

impl DirectoryFilter {
    /// An inactive filter.
    pub fn new() -> (r: Self)
        ensures
            !r.active,
            r.filtered@.len() == 0,
            r.selected == 0,
    {
        DirectoryFilter { filtered: Vec::new(), active: false, selected: 0 }
    }

    /// Recomputes the filter for `query` over `listing`.
    ///
    /// An empty query disables filtering and drops the cached entries; any
    /// other query caches exactly the entries whose names contain it,
    /// case-insensitively, in listing order.  Each recompute resets the
    /// selection to the first entry.
    pub fn apply(&mut self, query: &str, listing: &Vec<DirEntry>)
        ensures
            final(self).selected == 0,
            query@.len() == 0 ==> !final(self).active && final(self).filtered@.len() == 0,
            query@.len() > 0 ==> final(self).active && final(self).filtered.deep_view()
                == filter_matches(listing.deep_view(), query@),
    {
        if query.is_empty() {
            self.active = false;
            self.filtered.clear();
            self.selected = 0;
            return ;
        }
        let ql = to_lower(query);
        let qv = chars_vec(ql.as_str());
        let mut out: Vec<DirEntry> = Vec::new();
        proof {
            reveal_with_fuel(Seq::<_>::filter, 1);
            assert(filter_matches(listing.deep_view().take(0), query@) =~= Seq::<
                EntryModel,
            >::empty());
        }
        for i in 0..listing.len()
            invariant
                qv@ == lower_of(query@),
                out@.len() == filter_matches(listing.deep_view().take(i as int), query@).len(),
                out.deep_view() =~= filter_matches(listing.deep_view().take(i as int), query@),
        {
            let ghost le = listing.deep_view()[i as int];
            proof {
                reveal_with_fuel(Seq::<_>::filter, 1);
                assert(listing.deep_view().take(i + 1).drop_last() =~= listing.deep_view().take(
                    i as int,
                ));
                assert(listing.deep_view().take(i + 1).last() == le);
            }
            let name_l = to_lower(listing[i].name.as_str());
            let nv = chars_vec(name_l.as_str());
            proof {
                assert(le.name == listing@[i as int].name@);
                assert(nv@ == lower_of(le.name));
            }
            if vec_contains(&nv, &qv) {
                let e = listing[i].clone();
                let ghost pre = out@;
                let ghost pre_dv = out.deep_view();
                out.push(e);
                proof {
                    assert(name_matches(le, query@));
                    assert forall|j: int|
                        0 <= j < out@.len() implies out.deep_view()[j] == pre_dv.push(e@)[j] by {
                        assert(out.deep_view()[j] == out@[j].deep_view());
                        if j < pre.len() {
                            assert(out@[j] == pre[j]);
                            assert(pre_dv[j] == pre[j].deep_view());
                        } else {
                            assert(out@[j] == e);
                        }
                    }
                    assert(out.deep_view() =~= pre_dv.push(e@));
                    assert(filter_matches(listing.deep_view().take(i + 1), query@)
                        =~= filter_matches(listing.deep_view().take(i as int), query@).push(le));
                    assert(out.deep_view() =~= filter_matches(
                        listing.deep_view().take(i + 1),
                        query@,
                    ));
                }
            } else {
                proof {
                    assert(!name_matches(le, query@));
                    assert(filter_matches(listing.deep_view().take(i + 1), query@)
                        =~= filter_matches(listing.deep_view().take(i as int), query@));
                    assert(out.deep_view() =~= filter_matches(
                        listing.deep_view().take(i + 1),
                        query@,
                    ));
                }
            }
        }
        proof {
            assert(listing.deep_view().take(listing@.len() as int) =~= listing.deep_view());
        }
        self.filtered = out;
        self.active = true;
        self.selected = 0;
    }

    /// The entries a view should show: the filtered set while the filter is
    /// active, the full listing otherwise.
    pub fn get_display_list(&self, listing: &Vec<DirEntry>) -> (r: Vec<DirEntry>)
        ensures
            self.active ==> r.deep_view() == self.filtered.deep_view(),
            !self.active ==> r.deep_view() == listing.deep_view(),
    {
        if self.active {
            clone_entries(&self.filtered)
        } else {
            clone_entries(listing)
        }
    }

    /// Drops the cached entries and deactivates the filter, as a listing
    /// change or a cancelled search requires.
    pub fn clear(&mut self)
        ensures
            !final(self).active,
            final(self).filtered@.len() == 0,
            final(self).selected == 0,
    {
        self.active = false;
        self.filtered.clear();
        self.selected = 0;
    }
}

/// An element-wise copy of a listing.
pub fn clone_entries(v: &Vec<DirEntry>) -> (r: Vec<DirEntry>)
    ensures
        r.deep_view() == v.deep_view(),
{
    let mut out: Vec<DirEntry> = Vec::new();
    for i in 0..v.len()
        invariant
            out@.len() == i,
            out.deep_view() =~= v.deep_view().take(i as int),
    {
        let e = v[i].clone();
        let ghost pre = out@;
        let ghost pre_dv = out.deep_view();
        out.push(e);
        proof {
            assert forall|j: int|
                0 <= j < i + 1 implies out.deep_view()[j] == v.deep_view().take(i + 1)[j] by {
                assert(out.deep_view()[j] == out@[j].deep_view());
                if j < i {
                    assert(out@[j] == pre[j]);
                    assert(pre_dv[j] == pre[j].deep_view());
                } else {
                    assert(out@[j] == e);
                }
            }
            assert(out.deep_view() =~= v.deep_view().take(i + 1));
        }
    }
    proof {
        assert(v.deep_view().take(v@.len() as int) =~= v.deep_view());
    }
    out
}

} // verus!
