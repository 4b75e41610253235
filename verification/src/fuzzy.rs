//! The fuzzy scorer: how well one candidate string matches one query.
//!
//! The score is a function of the two strings alone.  In priority order:
//! equality scores 100, a prefix match 90, a substring match 70, and a
//! subsequence match 40 plus bonuses, capped at 65; anything else scores 0.
//! All comparisons go over the Unicode lowercase forms of both strings.

use vstd::prelude::*;
use vstd::string::*;

use crate::text::{
    chars_vec, contains_seq, is_prefix_of, is_space, is_space_char, lower_of, str_eq, to_lower,
    vec_contains, vec_is_prefix,
};

verus! {

/// One left-to-right scan of `t`, consuming characters of `q` in order,
/// starting with `q[qi]`; `prev` says whether the character right before `t`
/// was consumed.  Yields how far into `q` the scan got and five bonus points
/// for every consumed character that directly follows the previous one.
pub open spec fn subseq_scan(q: Seq<char>, t: Seq<char>, qi: int, prev: bool) -> (int, int)
    decreases t.len(),
{
    if t.len() == 0 {
        (qi, 0)
    } else if qi < q.len() && t[0] == q[qi] {
        let r = subseq_scan(q, t.drop_first(), qi + 1, true);
        (r.0, r.1 + if prev {
            5int
        } else {
            0int
        })
    } else {
        subseq_scan(q, t.drop_first(), qi, false)
    }
}

pub proof fn lemma_subseq_scan_bounds(q: Seq<char>, t: Seq<char>, qi: int, prev: bool)
    requires
        0 <= qi <= q.len(),
    ensures
        qi <= subseq_scan(q, t, qi, prev).0 <= q.len(),
        subseq_scan(q, t, qi, prev).1 >= 0,
    decreases t.len(),
{
    if t.len() == 0 {
    } else if qi < q.len() && t[0] == q[qi] {
        lemma_subseq_scan_bounds(q, t.drop_first(), qi + 1, true);
    } else {
        lemma_subseq_scan_bounds(q, t.drop_first(), qi, false);
    }
}

/// Some white-space-delimited word of `t` begins with the character `c`.
pub open spec fn word_boundary_match(t: Seq<char>, c: char) -> bool {
    exists|i: int|
        0 <= i < t.len() && #[trigger] t[i] == c && !is_space_char(c) && (i == 0 || is_space_char(
            t[i - 1],
        ))
}

/// The score of a text against a query, both already lowercased.
pub open spec fn score_value(ql: Seq<char>, tl: Seq<char>) -> int {
    if tl == ql {
        100
    } else if is_prefix_of(ql, tl) {
        90
    } else if contains_seq(tl, ql) {
        70
    } else {
        let r = subseq_scan(ql, tl, 0, false);
        if r.0 == ql.len() {
            let boundary = if ql.len() > 0 && word_boundary_match(tl, ql[0]) {
                10int
            } else {
                0int
            };
            let base = 40 + r.1 + boundary;
            if base <= 65 {
                base
            } else {
                65
            }
        } else {
            0
        }
    }
}

/// The fuzzy match quality of `text` against `query`: the score of their
/// Unicode lowercase forms.
pub open spec fn fuzzy_score_of(query: Seq<char>, text: Seq<char>) -> int {
    score_value(lower_of(query), lower_of(text))
}

/// A fuzzy score always lies between 0 and 100.
pub proof fn lemma_score_range(ql: Seq<char>, tl: Seq<char>)
    ensures
        0 <= score_value(ql, tl) <= 100,
{
    if tl == ql {
    } else if is_prefix_of(ql, tl) {
    } else if contains_seq(tl, ql) {
    } else {
        lemma_subseq_scan_bounds(ql, tl, 0, false);
    }
}

/// A non-empty string matched against itself scores exactly 100, and it does
/// so case-insensitively: both sides are lowercased before the comparison.
pub proof fn lemma_score_self(x: Seq<char>)
    ensures
        fuzzy_score_of(x, x) == 100,
{
}

fn has_word_boundary(t: &Vec<char>, c: char) -> (r: bool)
    ensures
        r == word_boundary_match(t@, c),
{
    if is_space(c) {
        return false;
    }
    for i in 0..t.len()
        invariant
            !is_space_char(c),
            forall|j: int|
                0 <= j < i ==> !(#[trigger] t@[j] == c && (j == 0 || is_space_char(t@[j - 1]))),
    {
        if t[i] == c && (i == 0 || is_space(t[i - 1])) {
            return true;
        }
    }
    false
}

/// Scores `text` against `query`, case-insensitively.
///
/// Exact equality scores 100; `text` starting with `query` scores 90; `text`
/// containing `query` scores 70.  Otherwise, if the characters of `query`
/// occur in `text` in order, the score starts at 40, takes 5 points for each
/// consecutively matched pair, 10 more when some word of `text` begins with
/// the first query character, and is capped at 65.  No subsequence match
/// scores 0.
pub fn fuzzy_score(query: &str, text: &str) -> (r: u32)
    ensures
        r == fuzzy_score_of(query@, text@),
        r <= 100,
{
    proof {
        lemma_score_range(lower_of(query@), lower_of(text@));
    }
    let ql = to_lower(query);
    let tl = to_lower(text);
    if str_eq(tl.as_str(), ql.as_str()) {
        return 100;
    }
    let qv = chars_vec(ql.as_str());
    let tv = chars_vec(tl.as_str());
    if vec_is_prefix(&qv, &tv) {
        return 90;
    }
    if vec_contains(&tv, &qv) {
        return 70;
    }
    let ghost q = lower_of(query@);
    let ghost t = lower_of(text@);
    let ghost total = subseq_scan(q, t, 0, false);
    let mut qi: usize = 0;
    let mut bonus: u32 = 0;
    let ghost mut gbonus: int = 0;
    let mut prev: bool = false;
    proof {
        assert(t.skip(0) =~= t);
    }
    for i in 0..tv.len()
        invariant
            qv@ == q,
            tv@ == t,
            qi <= qv.len(),
            total == subseq_scan(q, t, 0, false),
            total.0 == subseq_scan(q, t.skip(i as int), qi as int, prev).0,
            total.1 == gbonus + subseq_scan(q, t.skip(i as int), qi as int, prev).1,
            gbonus >= 0,
            (gbonus == bonus && bonus <= 25) || (gbonus >= 26 && 26 <= bonus <= 30),
    {
        let c = tv[i];
        proof {
            assert(t.skip(i as int)[0] == t[i as int]);
            assert(t.skip(i as int).drop_first() =~= t.skip(i + 1));
        }
        if qi < qv.len() && c == qv[qi] {
            if prev {
                if bonus <= 25 {
                    bonus = bonus + 5;
                }
                proof {
                    gbonus = gbonus + 5;
                }
            }
            qi = qi + 1;
            prev = true;
        } else {
            prev = false;
        }
    }
    proof {
        assert(t.skip(tv@.len() as int) =~= Seq::<char>::empty());
    }
    if qi == qv.len() {
        let boundary: u32 = if qv.len() > 0 && has_word_boundary(&tv, qv[0]) {
            10
        } else {
            0
        };
        let base = 40 + bonus + boundary;
        if base <= 65 {
            base
        } else {
            65
        }
    } else {
        0
    }
}

} // verus!
