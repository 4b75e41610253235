//! Command-line preparation: splitting an input line into program and
//! arguments, and cleaning the placeholders out of a desktop entry's
//! command before it is launched.

use vstd::prelude::*;
use vstd::string::*;

use crate::model::push_model;
use crate::text::{chars_vec, is_space, is_space_char, lemma_trim_end, lemma_trim_start,
    string_from_chars, trim_end_of, trim_start_of, trimmed};

verus! {

/// The white-space-delimited words of the text still to be read, given the
/// characters `cur` already read of the current word: what
/// `str::split_whitespace` yields.
pub open spec fn words_from(s: Seq<char>, cur: Seq<char>) -> Seq<Seq<char>>
    decreases s.len(),
{
    if s.len() == 0 {
        if cur.len() == 0 {
            Seq::empty()
        } else {
            seq![cur]
        }
    } else if is_space_char(s[0]) {
        if cur.len() == 0 {
            words_from(s.drop_first(), Seq::empty())
        } else {
            seq![cur] + words_from(s.drop_first(), Seq::empty())
        }
    } else {
        words_from(s.drop_first(), cur.push(s[0]))
    }
}

/// The white-space-delimited words of `s`.
pub open spec fn words_of(s: Seq<char>) -> Seq<Seq<char>> {
    words_from(s, Seq::empty())
}

/// The words of `v`, each as its own string.
pub fn split_words(v: &Vec<char>) -> (r: Vec<String>)
    ensures
        r.deep_view() == words_of(v@),
{
    let n = v.len();
    let mut out: Vec<String> = Vec::new();
    let mut cur: Vec<char> = Vec::new();
    proof {
        assert(v@.skip(0) =~= v@);
        assert(out.deep_view() =~= Seq::<Seq<char>>::empty());
        assert(Seq::<Seq<char>>::empty() + words_from(v@, cur@) =~= words_from(v@, cur@));
    }
    for i in 0..n
        invariant
            n == v@.len(),
            words_of(v@) == out.deep_view() + words_from(v@.skip(i as int), cur@),
    {
        let c = v[i];
        proof {
            assert(v@.skip(i as int)[0] == v@[i as int]);
            assert(v@.skip(i as int).drop_first() =~= v@.skip(i + 1));
        }
        if is_space(c) {
            if cur.len() > 0 {
                let w = string_from_chars(&cur);
                let ghost word = cur@;
                push_model(&mut out, w);
                cur = Vec::new();
                proof {
                    assert(out.deep_view() =~= out.deep_view().drop_last() + seq![word]);
                    assert((out.deep_view().drop_last() + seq![word]) + words_from(
                        v@.skip(i + 1),
                        Seq::empty(),
                    ) =~= out.deep_view().drop_last() + (seq![word] + words_from(
                        v@.skip(i + 1),
                        Seq::empty(),
                    )));
                }
            } else {
                proof {
                    assert(cur@ =~= Seq::<char>::empty());
                }
            }
        } else {
            cur.push(c);
        }
    }
    proof {
        assert(v@.skip(n as int) =~= Seq::<char>::empty());
    }
    if cur.len() > 0 {
        let w = string_from_chars(&cur);
        let ghost word = cur@;
        push_model(&mut out, w);
        proof {
            assert(words_from(Seq::<char>::empty(), word) =~= seq![word]);
            assert(out.deep_view() =~= out.deep_view().drop_last() + seq![word]);
        }
    } else {
        proof {
            assert(words_from(Seq::<char>::empty(), cur@) =~= Seq::<Seq<char>>::empty());
            assert(out.deep_view() + Seq::<Seq<char>>::empty() =~= out.deep_view());
        }
    }
    out
}

/// Splits an input line into the program and its arguments, as running it
/// requires: the first white-space-delimited word and the rest.  A line with
/// no words yields nothing to run.
pub fn parse_command_line(input: &str) -> (r: Option<(String, Vec<String>)>)
    ensures
        ({
            let ws = words_of(input@);
            if ws.len() == 0 {
                r is None
            } else {
                r matches Some(pa) && pa.0@ == ws[0] && pa.1.deep_view() == ws.drop_first()
            }
        }),
{
    let v = chars_vec(input);
    let mut words = split_words(&v);
    if words.len() == 0 {
        return None;
    }
    let ghost pre = words@;
    let ghost pre_dv = words.deep_view();
    let program = words.remove(0);
    proof {
        let ws = words_of(input@);
        assert(program@ == pre_dv[0]);
        assert forall|j: int|
            0 <= j < words@.len() implies words.deep_view()[j] == ws.drop_first()[j] by {
            assert(words.deep_view()[j] == words@[j].deep_view());
            assert(words@[j] == pre[j + 1]);
            assert(pre_dv[j + 1] == pre[j + 1].deep_view());
        }
        assert(words.deep_view() =~= ws.drop_first());
    }
    Some((program, words))
}

/// `s` with every non-overlapping occurrence of the two-character pattern
/// `a b` removed, scanning left to right: what `str::replace` leaves when
/// the replacement is empty.
pub open spec fn strip_pat(s: Seq<char>, a: char, b: char) -> Seq<char>
    decreases s.len(),
{
    if s.len() < 2 {
        s
    } else if s[0] == a && s[1] == b {
        strip_pat(s.skip(2), a, b)
    } else {
        seq![s[0]] + strip_pat(s.drop_first(), a, b)
    }
}

/// Removes every `a b` pair from `v`, left to right.
fn strip_placeholder(v: &Vec<char>, a: char, b: char) -> (r: Vec<char>)
    ensures
        r@ == strip_pat(v@, a, b),
{
    let n = v.len();
    let mut out: Vec<char> = Vec::new();
    let mut i: usize = 0;
    proof {
        assert(v@.skip(0) =~= v@);
        assert(Seq::<char>::empty() + strip_pat(v@, a, b) =~= strip_pat(v@, a, b));
    }
    while i < n
        invariant
            n == v@.len(),
            i <= n,
            strip_pat(v@, a, b) == out@ + strip_pat(v@.skip(i as int), a, b),
        decreases n - i,
    {
        proof {
            assert(v@.skip(i as int)[0] == v@[i as int]);
            assert(v@.skip(i as int).drop_first() =~= v@.skip(i + 1));
        }
        if i + 1 < n && v[i] == a && v[i + 1] == b {
            proof {
                assert(v@.skip(i as int)[1] == v@[i + 1]);
                assert(v@.skip(i as int).skip(2) =~= v@.skip(i + 2));
            }
            i = i + 2;
        } else {
            out.push(v[i]);
            proof {
                if i + 1 < n {
                    assert(out@ + strip_pat(v@.skip(i + 1), a, b) =~= out@.drop_last() + (seq![
                        v@[i as int] ] + strip_pat(v@.skip(i + 1), a, b)));
                } else {
                    assert(v@.skip(i as int) =~= seq![v@[i as int]]);
                    assert(v@.skip(i + 1) =~= Seq::<char>::empty());
                    assert(out@ + strip_pat(v@.skip(i + 1), a, b) =~= out@);
                }
            }
            i = i + 1;
        }
    }
    proof {
        assert(v@.skip(n as int) =~= Seq::<char>::empty());
        assert(out@ + Seq::<char>::empty() =~= out@);
    }
    out
}

/// `s` with every placeholder `%X` of the list removed, one placeholder
/// after the other.
pub open spec fn strip_all(s: Seq<char>, pats: Seq<char>) -> Seq<char>
    decreases pats.len(),
{
    if pats.len() == 0 {
        s
    } else {
        strip_all(strip_pat(s, '%', pats[0]), pats.drop_first())
    }
}

/// The desktop-entry field codes a launcher does not fill in: the
/// placeholder letters of `%f %F %u %U %d %D %n %N %i %c %k`.
pub open spec fn placeholder_letters() -> Seq<char> {
    "fFuUdDnNick"@
}

/// A desktop entry's command with every placeholder removed and the ends
/// trimmed: the text actually handed to the shell.
pub open spec fn cleaned_exec(s: Seq<char>) -> Seq<char> {
    trimmed(strip_all(s, placeholder_letters()))
}

fn trim_chars(v: &Vec<char>) -> (r: Vec<char>)
    ensures
        r@ == trimmed(v@),
{
    let n = v.len();
    let mut a: usize = 0;
    while a < n && is_space(v[a])
        invariant
            n == v@.len(),
            a <= n,
            forall|j: int| 0 <= j < a ==> is_space_char(v@[j]),
        decreases n - a,
    {
        a = a + 1;
    }
    proof {
        lemma_trim_start(v@, a as int);
    }
    if a == n {
        proof {
            assert(trim_start_of(v@) =~= Seq::<char>::empty());
            assert(trimmed(v@) =~= Seq::<char>::empty());
        }
        return Vec::new();
    }
    let mut b: usize = n;
    while b > a && is_space(v[b - 1])
        invariant
            n == v@.len(),
            a <= b <= n,
            forall|j: int| b <= j < n ==> is_space_char(v@[j]),
        decreases b,
    {
        b = b - 1;
    }
    proof {
        assert(!is_space_char(v@[a as int]));
        assert(b > a);
        let m = trim_start_of(v@);
        assert(m == v@.subrange(a as int, n as int));
        assert(forall|j: int| b - a <= j < m.len() ==> is_space_char(m[j]));
        lemma_trim_end(m, b - a);
        assert(m.subrange(0, b - a) =~= v@.subrange(a as int, b as int));
    }
    let mut out: Vec<char> = Vec::new();
    let mut i: usize = a;
    while i < b
        invariant
            a <= i <= b <= n,
            n == v@.len(),
            out@ =~= v@.subrange(a as int, i as int),
        decreases b - i,
    {
        out.push(v[i]);
        proof {
            assert(out@ =~= v@.subrange(a as int, i + 1));
        }
        i = i + 1;
    }
    proof {
        assert(out@ =~= v@.subrange(a as int, b as int));
    }
    out
}

/// What launching a desktop entry runs: the command with its placeholders
/// cleaned out, split into program and arguments.  An entry whose command
/// cleans down to nothing yields no program to run.
pub fn parse_exec_command(exec_field: &str) -> (r: Option<(String, String, Vec<String>)>)
    ensures
        ({
            let cleaned = cleaned_exec(exec_field@);
            let ws = words_of(cleaned);
            if ws.len() == 0 {
                r is None
            } else {
                r matches Some(t) && t.0@ == cleaned && t.1@ == ws[0] && t.2.deep_view()
                    == ws.drop_first()
            }
        }),
{
    let v = chars_vec(exec_field);
    let pats = chars_vec("fFuUdDnNick");
    proof {
        assert(pats@ == placeholder_letters());
    }
    let mut cur = v;
    let ghost s0 = exec_field@;
    proof {
        assert(placeholder_letters().skip(0) =~= placeholder_letters());
    }
    for i in 0..pats.len()
        invariant
            pats@ == placeholder_letters(),
            strip_all(s0, placeholder_letters()) == strip_all(
                cur@,
                placeholder_letters().skip(i as int),
            ),
    {
        proof {
            assert(placeholder_letters().skip(i as int)[0] == placeholder_letters()[i as int]);
            assert(placeholder_letters().skip(i as int).drop_first() =~= placeholder_letters().skip(
                i + 1,
            ));
        }
        cur = strip_placeholder(&cur, '%', pats[i]);
    }
    proof {
        assert(placeholder_letters().skip(placeholder_letters().len() as int) =~= Seq::<
            char,
        >::empty());
    }
    let cleaned_v = trim_chars(&cur);
    let cleaned = string_from_chars(&cleaned_v);
    let mut words = split_words(&cleaned_v);
    if words.len() == 0 {
        return None;
    }
    let ghost pre = words@;
    let ghost pre_dv = words.deep_view();
    let program = words.remove(0);
    proof {
        let ws = words_of(cleaned_exec(exec_field@));
        assert(program@ == pre_dv[0]);
        assert forall|j: int|
            0 <= j < words@.len() implies words.deep_view()[j] == ws.drop_first()[j] by {
            assert(words.deep_view()[j] == words@[j].deep_view());
            assert(words@[j] == pre[j + 1]);
            assert(pre_dv[j + 1] == pre[j + 1].deep_view());
        }
        assert(words.deep_view() =~= ws.drop_first());
    }
    Some((cleaned, program, words))
}

} // verus!
