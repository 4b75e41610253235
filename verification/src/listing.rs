//! Arrangement of a directory listing: hidden entries dropped unless asked
//! for, directories before files, each group in name order.  Reading the
//! entries from disk is the caller's task; this orders what was read.

use vstd::prelude::*;
use vstd::string::*;

use crate::model::{DirEntry, EntryModel};
use crate::text::{lex_le, str_lex_le};

verus! {

/// A hidden entry: its name starts with a dot.
pub open spec fn is_hidden(e: EntryModel) -> bool {
    e.name.len() > 0 && e.name[0] == '.'
}

/// The entries that are not hidden, in their order.
pub open spec fn unhidden(es: Seq<EntryModel>) -> Seq<EntryModel> {
    es.filter(|e: EntryModel| !is_hidden(e))
}

/// The entries a listing shows before sorting: all of them, or only the
/// unhidden ones.
pub open spec fn visible_entries(es: Seq<EntryModel>, show_hidden: bool) -> Seq<EntryModel> {
    if show_hidden {
        es
    } else {
        unhidden(es)
    }
}

/// Listing order: directories before files, names lexicographically within
/// each group.
pub open spec fn entry_le(a: EntryModel, b: EntryModel) -> bool {
    if a.is_dir != b.is_dir {
        a.is_dir
    } else {
        lex_le(a.name, b.name)
    }
}

/// `x` inserted into `s` after every entry that does not order after it:
/// one step of a stable insertion sort.
pub open spec fn insert_entry(s: Seq<EntryModel>, x: EntryModel) -> Seq<EntryModel>
    decreases s.len(),
{
    if s.len() == 0 {
        seq![x]
    } else if entry_le(s[0], x) {
        seq![s[0]] + insert_entry(s.drop_first(), x)
    } else {
        seq![x] + s
    }
}

/// `s` rearranged into listing order by stable insertion.
pub open spec fn entries_sorted(s: Seq<EntryModel>) -> Seq<EntryModel>
    decreases s.len(),
{
    if s.len() == 0 {
        s
    } else {
        insert_entry(entries_sorted(s.drop_last()), s.last())
    }
}

pub proof fn lemma_insert_entry_len(s: Seq<EntryModel>, x: EntryModel)
    ensures
        insert_entry(s, x).len() == s.len() + 1,
    decreases s.len(),
{
    if s.len() > 0 && entry_le(s[0], x) {
        lemma_insert_entry_len(s.drop_first(), x);
    }
}

/// Listing order is total.
pub proof fn lemma_entry_le_total(a: EntryModel, b: EntryModel)
    ensures
        entry_le(a, b) || entry_le(b, a),
{
    if a.is_dir == b.is_dir {
        crate::complete::lemma_lex_le_total(a.name, b.name);
    }
}

/// Neighbouring entries are in listing order.
pub open spec fn is_entries_sorted(s: Seq<EntryModel>) -> bool {
    forall|i: int| 0 <= i < s.len() - 1 ==> entry_le(#[trigger] s[i], s[i + 1])
}

proof fn lemma_insert_entry_head(s: Seq<EntryModel>, x: EntryModel)
    ensures
        insert_entry(s, x).len() == s.len() + 1,
        insert_entry(s, x)[0] == if s.len() > 0 && entry_le(s[0], x) {
            s[0]
        } else {
            x
        },
{
    lemma_insert_entry_len(s, x);
}

proof fn lemma_insert_entry_keeps_sorted(s: Seq<EntryModel>, x: EntryModel)
    requires
        is_entries_sorted(s),
    ensures
        is_entries_sorted(insert_entry(s, x)),
    decreases s.len(),
{
    lemma_insert_entry_len(s, x);
    if s.len() == 0 {
    } else if entry_le(s[0], x) {
        let rest = s.drop_first();
        assert forall|i: int| 0 <= i < rest.len() - 1 implies entry_le(
            #[trigger] rest[i],
            rest[i + 1],
        ) by {
            assert(rest[i] == s[i + 1]);
            assert(rest[i + 1] == s[i + 2]);
        }
        lemma_insert_entry_keeps_sorted(rest, x);
        lemma_insert_entry_head(rest, x);
        let r = seq![s[0]] + insert_entry(rest, x);
        assert forall|i: int| 0 <= i < r.len() - 1 implies entry_le(#[trigger] r[i], r[i + 1]) by {
            if i == 0 {
                if rest.len() > 0 && entry_le(rest[0], x) {
                    assert(r[1] == rest[0]);
                    assert(entry_le(s[0], s[1]));
                } else {
                    assert(r[1] == x);
                }
            } else {
                assert(r[i] == insert_entry(rest, x)[i - 1]);
                assert(r[i + 1] == insert_entry(rest, x)[i]);
            }
        }
    } else {
        lemma_entry_le_total(s[0], x);
        let r = seq![x] + s;
        assert forall|i: int| 0 <= i < r.len() - 1 implies entry_le(#[trigger] r[i], r[i + 1]) by {
            if i == 0 {
                assert(r[1] == s[0]);
            } else {
                assert(r[i] == s[i - 1]);
                assert(r[i + 1] == s[i]);
            }
        }
    }
}

/// An arranged listing is sorted: directories first, names in order.
pub proof fn lemma_entries_sorted_is_sorted(s: Seq<EntryModel>)
    ensures
        is_entries_sorted(entries_sorted(s)),
    decreases s.len(),
{
    if s.len() > 0 {
        lemma_entries_sorted_is_sorted(s.drop_last());
        lemma_insert_entry_keeps_sorted(entries_sorted(s.drop_last()), s.last());
    }
}

proof fn lemma_insert_entry_at(s: Seq<EntryModel>, x: EntryModel, j: int)
    requires
        0 <= j <= s.len(),
        forall|k: int| 0 <= k < j ==> entry_le(#[trigger] s[k], x),
        j < s.len() ==> !entry_le(s[j], x),
    ensures
        insert_entry(s, x) == s.insert(j, x),
    decreases s.len(),
{
    if s.len() == 0 {
        assert(insert_entry(s, x) =~= s.insert(0, x));
    } else if j == 0 {
        assert(!entry_le(s[0], x));
        assert(insert_entry(s, x) =~= s.insert(0, x));
    } else {
        assert(entry_le(s[0], x));
        let rest = s.drop_first();
        assert(forall|k: int| 0 <= k < j - 1 ==> entry_le(#[trigger] rest[k], x)) by {
            assert(forall|k: int| 0 <= k < j - 1 ==> rest[k] == s[k + 1]);
        }
        lemma_insert_entry_at(rest, x, j - 1);
        assert(seq![s[0]] + rest.insert(j - 1, x) =~= s.insert(j, x));
    }
}

/// Whether `a` orders no later than `b` in the listing.
fn entry_le_exec(a: &DirEntry, b: &DirEntry) -> (r: bool)
    ensures
        r == entry_le(a@, b@),
{
    if a.is_dir != b.is_dir {
        a.is_dir
    } else {
        str_lex_le(a.name.as_str(), b.name.as_str())
    }
}

/// Where `x` belongs among the already sorted entries of `v`.
fn entry_insert_pos(v: &Vec<DirEntry>, x: &DirEntry) -> (j: usize)
    ensures
        j <= v@.len(),
        forall|k: int| 0 <= k < j ==> entry_le(#[trigger] v.deep_view()[k], x@),
        j < v@.len() ==> !entry_le(v.deep_view()[j as int], x@),
{
    for i in 0..v.len()
        invariant
            forall|k: int| 0 <= k < i ==> entry_le(#[trigger] v.deep_view()[k], x@),
    {
        if !entry_le_exec(&v[i], x) {
            return i;
        }
    }
    v.len()
}

/// Arranges a freshly read listing: hidden entries are dropped unless
/// `show_hidden` asks for them, then directories order before files and
/// each group orders by name, stably.
pub fn arrange_listing(raw: &Vec<DirEntry>, show_hidden: bool) -> (r: Vec<DirEntry>)
    ensures
        r.deep_view() == entries_sorted(visible_entries(raw.deep_view(), show_hidden)),
{
    let mut kept: Vec<DirEntry> = Vec::new();
    if show_hidden {
        kept = crate::filter::clone_entries(raw);
    } else {
        proof {
            reveal_with_fuel(Seq::<_>::filter, 1);
            assert(unhidden(raw.deep_view().take(0)) =~= Seq::<EntryModel>::empty());
        }
        for i in 0..raw.len()
            invariant
                kept@.len() <= i,
                kept.deep_view() =~= unhidden(raw.deep_view().take(i as int)),
        {
            let ghost e = raw.deep_view()[i as int];
            proof {
                reveal_with_fuel(Seq::<_>::filter, 1);
                assert(raw.deep_view().take(i + 1).drop_last() =~= raw.deep_view().take(i as int));
                assert(raw.deep_view().take(i + 1).last() == e);
                assert(e.name == raw@[i as int].name@);
            }
            let name = &raw[i].name;
            let hide = name.as_str().unicode_len() > 0 && name.as_str().get_char(0) == '.';
            if !hide {
                proof {
                    assert(!is_hidden(e));
                }
                let c = raw[i].clone();
                let ghost pre = kept@;
                let ghost pre_dv = kept.deep_view();
                kept.push(c);
                proof {
                    assert forall|j: int|
                        0 <= j < kept@.len() implies kept.deep_view()[j] == pre_dv.push(e)[j] by {
                        assert(kept.deep_view()[j] == kept@[j].deep_view());
                        if j < pre.len() {
                            assert(kept@[j] == pre[j]);
                            assert(pre_dv[j] == pre[j].deep_view());
                        } else {
                            assert(kept@[j] == c);
                        }
                    }
                    assert(kept.deep_view() =~= pre_dv.push(e));
                    assert(kept.deep_view() =~= unhidden(raw.deep_view().take(i + 1)));
                }
            } else {
                proof {
                    assert(is_hidden(e));
                    assert(kept.deep_view() =~= unhidden(raw.deep_view().take(i + 1)));
                }
            }
        }
        proof {
            assert(raw.deep_view().take(raw@.len() as int) =~= raw.deep_view());
        }
    }
    let ghost vis = visible_entries(raw.deep_view(), show_hidden);
    proof {
        assert(kept.deep_view() == vis);
    }
    let mut out: Vec<DirEntry> = Vec::new();
    for i in 0..kept.len()
        invariant
            vis == kept.deep_view(),
            out@.len() == i,
            out.deep_view() =~= entries_sorted(vis.take(i as int)),
    {
        let pos = entry_insert_pos(&out, &kept[i]);
        let x = kept[i].clone();
        let ghost pre = out@;
        let ghost pre_dv = out.deep_view();
        out.insert(pos, x);
        proof {
            assert(x@ == vis[i as int]);
            lemma_insert_entry_at(pre_dv, x@, pos as int);
            lemma_insert_entry_len(pre_dv, x@);
            assert(out@ == pre.insert(pos as int, x));
            assert forall|j: int|
                0 <= j < out@.len() implies out.deep_view()[j] == insert_entry(pre_dv, x@)[j] by {
                assert(out.deep_view()[j] == out@[j].deep_view());
                if j < pos {
                    assert(out@[j] == pre[j]);
                    assert(pre_dv[j] == pre[j].deep_view());
                } else if j == pos {
                    assert(out@[j] == x);
                } else {
                    assert(out@[j] == pre[j - 1]);
                    assert(pre_dv[j - 1] == pre[j - 1].deep_view());
                }
            }
            assert(out.deep_view() =~= insert_entry(pre_dv, x@));
            assert(vis.take(i + 1).drop_last() =~= vis.take(i as int));
            assert(vis.take(i + 1).last() == vis[i as int]);
        }
    }
    proof {
        assert(vis.take(kept@.len() as int) =~= vis);
    }
    out
}

} // verus!
