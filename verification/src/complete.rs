//! Tab completion for a command-line buffer: the trailing token is completed
//! against the names in the current directory, and repeated invocations cycle
//! through the sorted candidates.

use vstd::prelude::*;
use vstd::string::*;

use crate::model::{DirEntry, EntryModel};
use crate::text::{after_last, chars_vec, find_cut_after_last, is_prefix_of, lex_le, str_eq,
    str_lex_le, vec_is_prefix};

verus! {

/// The completion target of `input`: the token after the last space, or all
/// of `input` when it holds no space.
pub open spec fn completion_word(input: Seq<char>) -> Seq<char> {
    after_last(input, ' ')
}

/// The fixed text before the completion target, trailing space included.
pub open spec fn completion_prefix(input: Seq<char>) -> Seq<char> {
    input.take(input.len() - completion_word(input).len())
}

/// Splits the buffer into the fixed prefix and the trailing token to
/// complete.
pub fn extract_word_to_complete(input: &str) -> (r: (String, String))
    ensures
        r.0@ == completion_prefix(input@),
        r.1@ == completion_word(input@),
        r.0@ + r.1@ == input@,
{
    let v = chars_vec(input);
    let cut = find_cut_after_last(&v, ' ');
    let prefix = String::from_str(input.substring_char(0, cut));
    let word = String::from_str(input.substring_char(cut, v.len()));
    proof {
        assert(input@.subrange(0, cut as int) =~= completion_prefix(input@));
        assert(completion_prefix(input@) + completion_word(input@) =~= input@);
    }
    (prefix, word)
}

/// A candidate as it is written into the buffer: directory names get a
/// trailing separator.
pub open spec fn decorated_name(e: EntryModel) -> Seq<char> {
    if e.is_dir {
        e.name + "/"@
    } else {
        e.name
    }
}

/// The candidates for `word` among `entries`: every entry but the synthetic
/// parent whose name starts with `word`, decorated, in listing order.
pub open spec fn completion_matches(word: Seq<char>, entries: Seq<EntryModel>) -> Seq<Seq<char>>
    decreases entries.len(),
{
    if entries.len() == 0 {
        Seq::empty()
    } else {
        let rest = completion_matches(word, entries.drop_last());
        let e = entries.last();
        if is_prefix_of(word, e.name) && e.name != ".."@ {
            rest.push(decorated_name(e))
        } else {
            rest
        }
    }
}

/// `x` inserted into `s` after every element that does not come after it:
/// one step of a stable insertion sort.
pub open spec fn insert_lex(s: Seq<Seq<char>>, x: Seq<char>) -> Seq<Seq<char>>
    decreases s.len(),
{
    if s.len() == 0 {
        seq![x]
    } else if lex_le(s[0], x) {
        seq![s[0]] + insert_lex(s.drop_first(), x)
    } else {
        seq![x] + s
    }
}

/// `s` rearranged into lexicographic order by stable insertion.
pub open spec fn lex_sorted(s: Seq<Seq<char>>) -> Seq<Seq<char>>
    decreases s.len(),
{
    if s.len() == 0 {
        s
    } else {
        insert_lex(lex_sorted(s.drop_last()), s.last())
    }
}

pub proof fn lemma_insert_lex_len(s: Seq<Seq<char>>, x: Seq<char>)
    ensures
        insert_lex(s, x).len() == s.len() + 1,
    decreases s.len(),
{
    if s.len() > 0 && lex_le(s[0], x) {
        lemma_insert_lex_len(s.drop_first(), x);
    }
}

pub proof fn lemma_lex_sorted_len(s: Seq<Seq<char>>)
    ensures
        lex_sorted(s).len() == s.len(),
    decreases s.len(),
{
    if s.len() > 0 {
        lemma_lex_sorted_len(s.drop_last());
        lemma_insert_lex_len(lex_sorted(s.drop_last()), s.last());
    }
}

/// Lexicographic order is total.
pub proof fn lemma_lex_le_total(a: Seq<char>, b: Seq<char>)
    ensures
        lex_le(a, b) || lex_le(b, a),
    decreases a.len(),
{
    if a.len() > 0 && b.len() > 0 {
        if a[0] == b[0] {
            lemma_lex_le_total(a.drop_first(), b.drop_first());
        } else {
            if (a[0] as u32) == (b[0] as u32) {
                vstd::utf8::char_u32_cast(a[0], a[0] as u32);
                vstd::utf8::char_u32_cast(b[0], b[0] as u32);
            }
            assert((a[0] as u32) != (b[0] as u32));
        }
    }
}

/// Neighbouring elements are in order.
pub open spec fn is_lex_sorted(s: Seq<Seq<char>>) -> bool {
    forall|i: int| 0 <= i < s.len() - 1 ==> lex_le(#[trigger] s[i], s[i + 1])
}

proof fn lemma_insert_lex_head(s: Seq<Seq<char>>, x: Seq<char>)
    ensures
        insert_lex(s, x).len() == s.len() + 1,
        insert_lex(s, x)[0] == if s.len() > 0 && lex_le(s[0], x) {
            s[0]
        } else {
            x
        },
{
    lemma_insert_lex_len(s, x);
}

proof fn lemma_insert_lex_keeps_sorted(s: Seq<Seq<char>>, x: Seq<char>)
    requires
        is_lex_sorted(s),
    ensures
        is_lex_sorted(insert_lex(s, x)),
    decreases s.len(),
{
    lemma_insert_lex_len(s, x);
    if s.len() == 0 {
    } else if lex_le(s[0], x) {
        let rest = s.drop_first();
        assert forall|i: int| 0 <= i < rest.len() - 1 implies lex_le(
            #[trigger] rest[i],
            rest[i + 1],
        ) by {
            assert(rest[i] == s[i + 1]);
            assert(rest[i + 1] == s[i + 2]);
        }
        lemma_insert_lex_keeps_sorted(rest, x);
        lemma_insert_lex_head(rest, x);
        let r = seq![s[0]] + insert_lex(rest, x);
        assert forall|i: int| 0 <= i < r.len() - 1 implies lex_le(#[trigger] r[i], r[i + 1]) by {
            if i == 0 {
                if rest.len() > 0 && lex_le(rest[0], x) {
                    assert(r[1] == rest[0]);
                    assert(lex_le(s[0], s[1]));
                } else {
                    assert(r[1] == x);
                }
            } else {
                assert(r[i] == insert_lex(rest, x)[i - 1]);
                assert(r[i + 1] == insert_lex(rest, x)[i]);
            }
        }
    } else {
        lemma_lex_le_total(s[0], x);
        let r = seq![x] + s;
        assert forall|i: int| 0 <= i < r.len() - 1 implies lex_le(#[trigger] r[i], r[i + 1]) by {
            if i == 0 {
                assert(r[1] == s[0]);
            } else {
                assert(r[i] == s[i - 1]);
                assert(r[i + 1] == s[i]);
            }
        }
    }
}

/// The candidate list a multi-match completion caches is sorted.
pub proof fn lemma_lex_sorted_is_sorted(s: Seq<Seq<char>>)
    ensures
        is_lex_sorted(lex_sorted(s)),
    decreases s.len(),
{
    if s.len() > 0 {
        lemma_lex_sorted_is_sorted(s.drop_last());
        lemma_insert_lex_keeps_sorted(lex_sorted(s.drop_last()), s.last());
    }
}

proof fn lemma_insert_lex_at(s: Seq<Seq<char>>, x: Seq<char>, j: int)
    requires
        0 <= j <= s.len(),
        forall|k: int| 0 <= k < j ==> lex_le(#[trigger] s[k], x),
        j < s.len() ==> !lex_le(s[j], x),
    ensures
        insert_lex(s, x) == s.insert(j, x),
    decreases s.len(),
{
    if s.len() == 0 {
        assert(insert_lex(s, x) =~= s.insert(0, x));
    } else if j == 0 {
        assert(!lex_le(s[0], x));
        assert(insert_lex(s, x) =~= s.insert(0, x));
    } else {
        assert(lex_le(s[0], x));
        let rest = s.drop_first();
        assert(forall|k: int| 0 <= k < j - 1 ==> lex_le(#[trigger] rest[k], x)) by {
            assert(forall|k: int| 0 <= k < j - 1 ==> rest[k] == s[k + 1]);
        }
        lemma_insert_lex_at(rest, x, j - 1);
        assert(seq![s[0]] + rest.insert(j - 1, x) =~= s.insert(j, x));
    }
}

/// Where `x` belongs in the sorted candidate list `v`.
fn lex_insert_pos(v: &Vec<String>, x: &str) -> (j: usize)
    ensures
        j <= v@.len(),
        forall|k: int| 0 <= k < j ==> lex_le(#[trigger] v.deep_view()[k], x@),
        j < v@.len() ==> !lex_le(v.deep_view()[j as int], x@),
{
    for i in 0..v.len()
        invariant
            forall|k: int| 0 <= k < i ==> lex_le(#[trigger] v.deep_view()[k], x@),
    {
        if !str_lex_le(v[i].as_str(), x) {
            return i;
        }
    }
    v.len()
}

/// Sorts candidate names lexicographically, stably.
fn lex_sort(v: &Vec<String>) -> (r: Vec<String>)
    ensures
        r.deep_view() == lex_sorted(v.deep_view()),
{
    let mut out: Vec<String> = Vec::new();
    for i in 0..v.len()
        invariant
            out@.len() == i,
            out.deep_view() =~= lex_sorted(v.deep_view().take(i as int)),
    {
        let pos = lex_insert_pos(&out, v[i].as_str());
        let x = v[i].clone();
        let ghost pre = out@;
        let ghost pre_dv = out.deep_view();
        out.insert(pos, x);
        proof {
            lemma_insert_lex_at(pre_dv, x@, pos as int);
            lemma_insert_lex_len(pre_dv, x@);
            assert(out@ == pre.insert(pos as int, x));
            assert forall|j: int|
                0 <= j < out@.len() implies out.deep_view()[j] == insert_lex(pre_dv, x@)[j] by {
                assert(out.deep_view()[j] == out@[j].deep_view());
                if j < pos {
                    assert(out@[j] == pre[j]);
                    assert(pre_dv[j] == pre[j].deep_view());
                } else if j == pos {
                    assert(out@[j] == x);
                } else {
                    assert(out@[j] == pre[j - 1]);
                    assert(pre_dv[j - 1] == pre[j - 1].deep_view());
                }
            }
            assert(out.deep_view() =~= insert_lex(pre_dv, x@));
            assert(v.deep_view().take(i + 1).drop_last() =~= v.deep_view().take(i as int));
            assert(v.deep_view().take(i + 1).last() == v.deep_view()[i as int]);
        }
    }
    proof {
        assert(v.deep_view().take(v@.len() as int) =~= v.deep_view());
    }
    out
}

/// How one completion invocation ended.
#[derive(Debug, Clone, Copy, PartialEq, Eq, Structural)]
pub enum CompletionOutcome {
    /// The buffer holds no token to complete.
    NoTarget,
    /// No entry starts with the token; the buffer stands as it was.
    NoMatches,
    /// Exactly one entry matched and was written into the buffer.
    Completed,
    /// Several entries matched; the buffer holds the candidate at
    /// `position` out of `total`.
    Cycled { position: usize, total: usize },
}

/// The cached candidate set and cursor used while cycling through
/// completions.  Any buffer edit outside the completion action must go
/// through [`TabCompletionCycler::reset`].
pub struct TabCompletionCycler {
    pub candidates: Vec<String>,
    pub index: usize,
}

impl TabCompletionCycler {
    /// The cursor points at a cached candidate whenever any are cached.
    pub open spec fn well_formed(&self) -> bool {
        self.candidates@.len() == 0 || self.index < self.candidates@.len()
    }

    /// A cycler with nothing cached.
    pub fn new() -> (r: Self)
        ensures
            r.well_formed(),
            r.candidates@.len() == 0,
            r.index == 0,
    {
        TabCompletionCycler { candidates: Vec::new(), index: 0 }
    }

    /// Drops the cached candidates, as any other edit to the buffer
    /// requires.
    pub fn reset(&mut self)
        ensures
            final(self).well_formed(),
            final(self).candidates@.len() == 0,
            final(self).index == 0,
    {
        self.candidates.clear();
        self.index = 0;
    }

    /// One press of Tab over `buffer`, completing against `entries`.
    ///
    /// With nothing cached, the trailing token is matched against the entry
    /// names: no token or no match leaves the buffer as it is; one match
    /// writes it into the buffer outright; several matches cache the sorted
    /// candidate list and write the first one.  With a cache active, the
    /// cursor advances cyclically and the buffer takes the next candidate.
    /// Returns the new buffer and what happened.
    pub fn tab_complete(&mut self, buffer: &str, entries: &Vec<DirEntry>) -> (r: (
        String,
        CompletionOutcome,
    ))
        requires
            old(self).well_formed(),
        ensures
            final(self).well_formed(),
            ({
                let word = completion_word(buffer@);
                let prefix = completion_prefix(buffer@);
                let matches = lex_sorted(completion_matches(word, entries.deep_view()));
                let fresh = final(self).candidates@.len() == 0;
                if old(self).candidates@.len() == 0 {
                    if word.len() == 0 {
                        r.1 == CompletionOutcome::NoTarget && r.0@ == buffer@ && fresh
                    } else if matches.len() == 0 {
                        r.1 == CompletionOutcome::NoMatches && r.0@ == buffer@ && fresh
                    } else if matches.len() == 1 {
                        r.1 == CompletionOutcome::Completed && r.0@ == prefix + matches[0] && fresh
                    } else {
                        let total = matches.len() as usize;
                        let cached = final(self).candidates.deep_view();
                        r.1 == (CompletionOutcome::Cycled { position: 0, total }) && r.0@ == prefix
                            + matches[0] && cached == matches && final(self).index == 0
                    }
                } else {
                    let n = old(self).candidates@.len();
                    let ni = ((old(self).index + 1) % (n as int)) as int;
                    let pos = ni as usize;
                    let total = n as usize;
                    r.1 == (CompletionOutcome::Cycled { position: pos, total }) && r.0@ == prefix
                        + old(self).candidates.deep_view()[ni] && final(self).candidates.deep_view()
                        == old(self).candidates.deep_view() && final(self).index == ni
                }
            }),
    {
        if self.candidates.len() == 0 {
            let (prefix, word) = extract_word_to_complete(buffer);
            if word.as_str().unicode_len() == 0 {
                return (String::from_str(buffer), CompletionOutcome::NoTarget);
            }
            let wv = chars_vec(word.as_str());
            let mut found: Vec<String> = Vec::new();
            for i in 0..entries.len()
                invariant
                    wv@ == completion_word(buffer@),
                    found@.len() == completion_matches(wv@, entries.deep_view().take(i as int)).len(),
                    found.deep_view() =~= completion_matches(
                        wv@,
                        entries.deep_view().take(i as int),
                    ),
            {
                let ghost le = entries.deep_view()[i as int];
                proof {
                    assert(entries.deep_view().take(i + 1).drop_last() =~= entries.deep_view().take(
                        i as int,
                    ));
                    assert(entries.deep_view().take(i + 1).last() == le);
                }
                let nv = chars_vec(entries[i].name.as_str());
                if vec_is_prefix(&wv, &nv) && !str_eq(entries[i].name.as_str(), "..") {
                    let mut cand = entries[i].name.clone();
                    if entries[i].is_dir {
                        cand.append("/");
                    }
                    proof {
                        assert(cand@ == decorated_name(le));
                    }
                    let ghost pre = found@;
                    let ghost pre_dv = found.deep_view();
                    found.push(cand);
                    proof {
                        assert forall|j: int|
                            0 <= j < found@.len() implies found.deep_view()[j] == pre_dv.push(
                            decorated_name(le),
                        )[j] by {
                            assert(found.deep_view()[j] == found@[j].deep_view());
                            if j < pre.len() {
                                assert(found@[j] == pre[j]);
                                assert(pre_dv[j] == pre[j].deep_view());
                            }
                        }
                        assert(found.deep_view() =~= pre_dv.push(decorated_name(le)));
                        assert(found.deep_view() =~= completion_matches(
                            wv@,
                            entries.deep_view().take(i + 1),
                        ));
                    }
                } else {
                    proof {
                        assert(found.deep_view() =~= completion_matches(
                            wv@,
                            entries.deep_view().take(i + 1),
                        ));
                    }
                }
            }
            proof {
                assert(entries.deep_view().take(entries@.len() as int) =~= entries.deep_view());
                lemma_lex_sorted_len(found.deep_view());
            }
            let sorted = lex_sort(&found);
            if sorted.len() == 0 {
                return (String::from_str(buffer), CompletionOutcome::NoMatches);
            }
            if sorted.len() == 1 {
                let mut out = prefix;
                out.append(sorted[0].as_str());
                return (out, CompletionOutcome::Completed);
            }
            let total = sorted.len();
            self.candidates = sorted;
            self.index = 0;
            let mut out = prefix;
            out.append(self.candidates[0].as_str());
            (out, CompletionOutcome::Cycled { position: 0, total })
        } else {
            let n = self.candidates.len();
            self.index = (self.index + 1) % n;
            let (prefix, _) = extract_word_to_complete(buffer);
            let mut out = prefix;
            out.append(self.candidates[self.index].as_str());
            (out, CompletionOutcome::Cycled { position: self.index, total: n })
        }
    }
}

} // verus!
