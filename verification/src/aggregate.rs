//! The search aggregator: one query in, one ordered result list out.
//!
//! The first character of a non-empty query picks the branch: `:` wraps the
//! trimmed remainder in a single command result, `@` and `/` hand the
//! trimmed remainder to the external content or name search, and anything
//! else runs the fuzzy search over applications, recent accesses and the
//! current listing.  Fuzzy results merge in that fixed source order, are
//! stable-sorted by descending score, and are capped at 20 entries.

use vstd::prelude::*;
use vstd::string::*;

use crate::fuzzy::{fuzzy_score, fuzzy_score_of};
use crate::model::{push_model, truncate_models, AppModel, DesktopApp, DirEntry, EntryModel,
    RecentAccess, RecentModel};
use crate::search::{application_result_model, command_result_model, file_name_of,
    file_result_model, path_file_name, recent_result_model, ResultModel, SearchResult};
use crate::text::{chars_vec, drop_leading, strip_leading_then_trim, trimmed};

verus! {

/// What one query asks for: finished results, or an external search for the
/// caller to run.
pub enum SearchAction {
    /// The ranked results, ready to show.
    Results(Vec<SearchResult>),
    /// Hand this pattern to the external content search.
    ContentSearch(String),
    /// Hand this pattern to the external name search.
    NameSearch(String),
}

/// The application results of a fuzzy search, in application order: a name
/// match at its score, else a description match above 30 at half its score.
pub open spec fn app_results_of(q: Seq<char>, apps: Seq<AppModel>) -> Seq<ResultModel>
    decreases apps.len(),
{
    if apps.len() == 0 {
        Seq::empty()
    } else {
        let rest = app_results_of(q, apps.drop_last());
        let a = apps.last();
        let s = fuzzy_score_of(q, a.name);
        if s > 0 {
            rest.push(application_result_model(a, s as u32))
        } else {
            match a.description {
                Some(d) => {
                    let ds = fuzzy_score_of(q, d);
                    if ds > 30 {
                        rest.push(application_result_model(a, (ds / 2) as u32))
                    } else {
                        rest
                    }
                },
                None => rest,
            }
        }
    }
}

/// The recent-access results of a fuzzy search, in recency order: matches of
/// the path's file name, with a flat bonus of 10 on the score.
pub open spec fn recent_results_of(q: Seq<char>, rs: Seq<RecentModel>) -> Seq<ResultModel>
    decreases rs.len(),
{
    if rs.len() == 0 {
        Seq::empty()
    } else {
        let rest = recent_results_of(q, rs.drop_last());
        let m = rs.last();
        let s = fuzzy_score_of(q, file_name_of(m.path));
        if s > 0 {
            rest.push(recent_result_model(m, (s + 10) as u32))
        } else {
            rest
        }
    }
}

/// The listing results of a fuzzy search, in listing order; the synthetic
/// parent entry never matches.
pub open spec fn listing_results_of(q: Seq<char>, es: Seq<EntryModel>) -> Seq<ResultModel>
    decreases es.len(),
{
    if es.len() == 0 {
        Seq::empty()
    } else {
        let rest = listing_results_of(q, es.drop_last());
        let e = es.last();
        if e.name == ".."@ {
            rest
        } else {
            let s = fuzzy_score_of(q, e.name);
            if s > 0 {
                rest.push(file_result_model(e, s as u32))
            } else {
                rest
            }
        }
    }
}

/// All fuzzy matches of one query, in the fixed source order: applications,
/// then recent accesses, then the current listing.
pub open spec fn fuzzy_results_of(
    q: Seq<char>,
    apps: Seq<AppModel>,
    recents: Seq<RecentModel>,
    files: Seq<EntryModel>,
) -> Seq<ResultModel> {
    app_results_of(q, apps) + recent_results_of(q, recents) + listing_results_of(q, files)
}

/// The results of `s` that carry exactly the score `v`, in their order.
pub open spec fn score_filter(s: Seq<ResultModel>, v: int) -> Seq<ResultModel> {
    s.filter(|r: ResultModel| r.score == v)
}

/// The results of `s` with scores from `v` down to 0, grouped by descending
/// score, each group in the order of `s`.
pub open spec fn ranked_from(s: Seq<ResultModel>, v: int) -> Seq<ResultModel>
    decreases v + 1,
{
    if v < 0 {
        Seq::empty()
    } else {
        score_filter(s, v) + ranked_from(s, v - 1)
    }
}

/// `s` stable-sorted by descending score: equal scores keep the order of
/// `s`, which is the fixed source order of the merge.
pub open spec fn ranked_of(s: Seq<ResultModel>) -> Seq<ResultModel> {
    ranked_from(s, 110)
}

/// Scores never increase along the sequence.
pub open spec fn scores_non_increasing(s: Seq<ResultModel>) -> bool {
    forall|i: int, j: int| 0 <= i <= j < s.len() ==> #[trigger] s[i].score >= #[trigger] s[j].score
}

proof fn lemma_score_filter_elems(s: Seq<ResultModel>, v: int)
    ensures
        forall|i: int| 0 <= i < score_filter(s, v).len() ==> #[trigger] score_filter(s, v)[i].score
            == v,
    decreases s.len(),
{
    reveal_with_fuel(Seq::<_>::filter, 1);
    if s.len() > 0 {
        lemma_score_filter_elems(s.drop_last(), v);
        assert(score_filter(s.drop_last(), v) == s.drop_last().filter(
            |r: ResultModel| r.score == v,
        ));
    }
}

/// Ranked results come sorted: every score is at most `v`, and scores never
/// increase along the sequence.
proof fn lemma_ranked_from_sorted(s: Seq<ResultModel>, v: int)
    ensures
        forall|i: int| 0 <= i < ranked_from(s, v).len() ==> #[trigger] ranked_from(s, v)[i].score
            <= v,
        scores_non_increasing(ranked_from(s, v)),
    decreases v + 1,
{
    if v >= 0 {
        lemma_ranked_from_sorted(s, v - 1);
        lemma_score_filter_elems(s, v);
        let f = score_filter(s, v);
        let rest = ranked_from(s, v - 1);
        let r = ranked_from(s, v);
        assert(r == f + rest);
        assert forall|i: int| 0 <= i < r.len() implies #[trigger] r[i].score <= v by {
            if i < f.len() {
                assert(r[i] == f[i]);
            } else {
                assert(r[i] == rest[i - f.len()]);
            }
        }
        assert forall|i: int, j: int| 0 <= i <= j < r.len() implies #[trigger] r[i].score
            >= #[trigger] r[j].score by {
            if i < f.len() {
                assert(r[i] == f[i]);
            } else {
                assert(r[i] == rest[i - f.len()]);
            }
            if j < f.len() {
                assert(r[j] == f[j]);
            } else {
                assert(r[j] == rest[j - f.len()]);
            }
        }
    }
}

/// The ranked list is sorted by descending score.
pub proof fn lemma_ranked_sorted(s: Seq<ResultModel>)
    ensures
        scores_non_increasing(ranked_of(s)),
{
    lemma_ranked_from_sorted(s, 110);
}

proof fn lemma_ranked_from_push(s: Seq<ResultModel>, x: ResultModel, v: int)
    ensures
        ranked_from(s.push(x), v).len() == ranked_from(s, v).len() + if x.score <= v {
            1int
        } else {
            0int
        },
    decreases v + 1,
{
    if v >= 0 {
        lemma_ranked_from_push(s, x, v - 1);
        reveal_with_fuel(Seq::<_>::filter, 1);
        assert(s.push(x).drop_last() =~= s);
        assert(s.push(x).last() == x);
        assert(score_filter(s.push(x), v) == if x.score == v {
            score_filter(s, v).push(x)
        } else {
            score_filter(s, v)
        });
    }
}

/// Ranking loses nothing: every merged match with a score in range appears
/// in the ranked list, which therefore has the same length.
pub proof fn lemma_ranked_preserves_count(s: Seq<ResultModel>)
    requires
        forall|i: int| 0 <= i < s.len() ==> #[trigger] s[i].score <= 110,
    ensures
        ranked_of(s).len() == s.len(),
    decreases s.len(),
{
    if s.len() == 0 {
        reveal_with_fuel(Seq::<_>::filter, 1);
        lemma_ranked_from_empty(s, 110);
    } else {
        let d = s.drop_last();
        assert(forall|i: int| 0 <= i < d.len() ==> #[trigger] d[i].score <= 110) by {
            assert(forall|i: int| 0 <= i < d.len() ==> d[i] == s[i]);
        }
        lemma_ranked_preserves_count(d);
        lemma_ranked_from_push(d, s.last(), 110);
        assert(d.push(s.last()) =~= s);
    }
}

proof fn lemma_ranked_from_empty(s: Seq<ResultModel>, v: int)
    requires
        s.len() == 0,
    ensures
        ranked_from(s, v).len() == 0,
    decreases v + 1,
{
    if v >= 0 {
        lemma_ranked_from_empty(s, v - 1);
        reveal_with_fuel(Seq::<_>::filter, 1);
        assert(score_filter(s, v).len() == 0);
    }
}

/// Stable-sorts results by descending score: one pass per score value, from
/// 110 down, keeps equal scores in input order.
fn rank_results(input: Vec<SearchResult>) -> (r: Vec<SearchResult>)
    requires
        forall|i: int| 0 <= i < input@.len() ==> #[trigger] input.deep_view()[i].score <= 110,
    ensures
        r.deep_view() == ranked_of(input.deep_view()),
{
    let ghost s = input.deep_view();
    let mut out: Vec<SearchResult> = Vec::new();
    proof {
        assert(out.deep_view() + ranked_from(s, 110) =~= ranked_of(s));
    }
    for k in 0..111usize
        invariant
            s == input.deep_view(),
            forall|i: int| 0 <= i < input@.len() ==> #[trigger] input.deep_view()[i].score <= 110,
            ranked_of(s) =~= out.deep_view() + ranked_from(s, 110 - k),
    {
        let v: usize = 110 - k;
        let ghost base = out.deep_view();
        proof {
            reveal_with_fuel(Seq::<_>::filter, 1);
            assert(score_filter(s.take(0), v as int) =~= Seq::<ResultModel>::empty());
            assert(base + score_filter(s.take(0), v as int) =~= base);
        }
        for j in 0..input.len()
            invariant
                s == input.deep_view(),
                v == 110 - k,
                base + score_filter(s.take(j as int), v as int) =~= out.deep_view(),
        {
            proof {
                reveal_with_fuel(Seq::<_>::filter, 1);
                assert(s.take(j + 1).drop_last() =~= s.take(j as int));
                assert(s.take(j + 1).last() == s[j as int]);
            }
            if input[j].score == v as u32 {
                let e = input[j].clone();
                push_model(&mut out, e);
                proof {
                    assert(score_filter(s.take(j + 1), v as int) =~= score_filter(
                        s.take(j as int),
                        v as int,
                    ).push(s[j as int]));
                    assert(base + score_filter(s.take(j + 1), v as int) =~= out.deep_view());
                }
            } else {
                proof {
                    assert(s[j as int] == input.deep_view()[j as int]);
                    assert(s[j as int].score != v as int);
                    assert(score_filter(s.take(j + 1), v as int) =~= score_filter(
                        s.take(j as int),
                        v as int,
                    ));
                    assert(base + score_filter(s.take(j + 1), v as int) =~= out.deep_view());
                }
            }
        }
        proof {
            assert(s.take(input@.len() as int) =~= s);
            assert(ranked_from(s, v as int) == score_filter(s, v as int) + ranked_from(
                s,
                v as int - 1,
            ));
            assert(base + ranked_from(s, v as int) =~= out.deep_view() + ranked_from(
                s,
                v as int - 1,
            ));
            assert(ranked_of(s) =~= out.deep_view() + ranked_from(s, 110 - (k + 1)));
        }
    }
    proof {
        assert(ranked_from(s, -1) =~= Seq::<ResultModel>::empty());
        assert(out.deep_view() =~= ranked_of(s));
    }
    out
}

/// Searches every source for one query and returns what the caller must do.
///
/// An empty query yields no results.  A query starting with `:` yields one
/// command result wrapping the trimmed remainder, or nothing when that is
/// empty.  A leading `@` or `/` asks for an external content or name search
/// over the trimmed remainder, or yields nothing when that is empty.  Any
/// other query is scored fuzzily against every application name (falling
/// back to its description at half score when above 30), every recent
/// access's file name (with a bonus of 10) and every listing entry except
/// the synthetic parent; matches merge in that order, are stable-sorted by
/// descending score and are capped at 20.  Every result list comes capped
/// at 20 with scores non-increasing.
pub fn search_all(
    query: &str,
    files: &Vec<DirEntry>,
    recent: &Vec<RecentAccess>,
    apps: &Vec<DesktopApp>,
) -> (r: SearchAction)
    ensures
        query@.len() == 0 ==> (r matches SearchAction::Results(v) && v@.len() == 0),
        query@.len() > 0 && query@[0] == ':' ==> (r matches SearchAction::Results(v) && ({
            let cmd = trimmed(drop_leading(query@, ':'));
            if cmd.len() == 0 {
                v@.len() == 0
            } else {
                v.deep_view() =~= seq![command_result_model(cmd)]
            }
        })),
        query@.len() > 0 && query@[0] == '@' ==> ({
            let pat = trimmed(drop_leading(query@, '@'));
            if pat.len() == 0 {
                r matches SearchAction::Results(v) && v@.len() == 0
            } else {
                r matches SearchAction::ContentSearch(p) && p@ == pat
            }
        }),
        query@.len() > 0 && query@[0] == '/' ==> ({
            let pat = trimmed(drop_leading(query@, '/'));
            if pat.len() == 0 {
                r matches SearchAction::Results(v) && v@.len() == 0
            } else {
                r matches SearchAction::NameSearch(p) && p@ == pat
            }
        }),
        query@.len() > 0 && query@[0] != ':' && query@[0] != '@' && query@[0] != '/' ==> (
        r matches SearchAction::Results(v) && ({
            let rk = ranked_of(
                fuzzy_results_of(query@, apps.deep_view(), recent.deep_view(), files.deep_view()),
            );
            v.deep_view() == if rk.len() <= 20 {
                rk
            } else {
                rk.take(20)
            }
        })),
        r matches SearchAction::Results(v) ==> v@.len() <= 20 && scores_non_increasing(
            v.deep_view(),
        ),
{
    let qv = chars_vec(query);
    if qv.len() == 0 {
        return SearchAction::Results(Vec::new());
    }
    let c0 = qv[0];
    if c0 == ':' {
        let cmd = strip_leading_then_trim(query, ':');
        if cmd.as_str().unicode_len() == 0 {
            return SearchAction::Results(Vec::new());
        }
        let mut v: Vec<SearchResult> = Vec::new();
        push_model(&mut v, SearchResult::command(cmd.as_str()));
        proof {
            assert(v.deep_view() =~= seq![command_result_model(trimmed(drop_leading(query@, ':')))]);
        }
        return SearchAction::Results(v);
    }
    if c0 == '@' {
        let pat = strip_leading_then_trim(query, '@');
        if pat.as_str().unicode_len() == 0 {
            return SearchAction::Results(Vec::new());
        }
        return SearchAction::ContentSearch(pat);
    }
    if c0 == '/' {
        let pat = strip_leading_then_trim(query, '/');
        if pat.as_str().unicode_len() == 0 {
            return SearchAction::Results(Vec::new());
        }
        return SearchAction::NameSearch(pat);
    }

    let ghost q = query@;
    let mut merged: Vec<SearchResult> = Vec::new();

    for i in 0..apps.len()
        invariant
            q == query@,
            merged.deep_view() =~= app_results_of(q, apps.deep_view().take(i as int)),
            forall|t: int| 0 <= t < merged@.len() ==> #[trigger] merged.deep_view()[t].score <= 110,
    {
        let ghost a = apps.deep_view()[i as int];
        proof {
            assert(apps.deep_view().take(i + 1).drop_last() =~= apps.deep_view().take(i as int));
            assert(apps.deep_view().take(i + 1).last() == a);
            assert(a == apps@[i as int]@);
            assert(a.name == apps@[i as int].name@);
        }
        let s = fuzzy_score(query, apps[i].name.as_str());
        if s > 0 {
            push_model(&mut merged, SearchResult::application(&apps[i], s));
            proof {
                assert(merged.deep_view() =~= app_results_of(q, apps.deep_view().take(i + 1)));
            }
        } else {
            match &apps[i].description {
                Some(d) => {
                    let ds = fuzzy_score(query, d.as_str());
                    if ds > 30 {
                        push_model(&mut merged, SearchResult::application(&apps[i], ds / 2));
                        proof {
                            assert(a.description matches Some(dm) && dm == d@);
                            assert(merged.deep_view() =~= app_results_of(
                                q,
                                apps.deep_view().take(i + 1),
                            ));
                        }
                    } else {
                        proof {
                            assert(a.description matches Some(dm) && dm == d@);
                            assert(merged.deep_view() =~= app_results_of(
                                q,
                                apps.deep_view().take(i + 1),
                            ));
                        }
                    }
                },
                None => {
                    proof {
                        assert(a.description is None);
                        assert(merged.deep_view() =~= app_results_of(
                            q,
                            apps.deep_view().take(i + 1),
                        ));
                    }
                },
            }
        }
    }
    proof {
        assert(apps.deep_view().take(apps@.len() as int) =~= apps.deep_view());
    }
    let ghost from_apps = merged.deep_view();

    for i in 0..recent.len()
        invariant
            q == query@,
            from_apps == app_results_of(q, apps.deep_view()),
            merged.deep_view() =~= from_apps + recent_results_of(
                q,
                recent.deep_view().take(i as int),
            ),
            forall|t: int| 0 <= t < merged@.len() ==> #[trigger] merged.deep_view()[t].score <= 110,
    {
        let ghost m = recent.deep_view()[i as int];
        proof {
            assert(recent.deep_view().take(i + 1).drop_last() =~= recent.deep_view().take(
                i as int,
            ));
            assert(recent.deep_view().take(i + 1).last() == m);
            assert(m == recent@[i as int]@);
            assert(m.path == recent@[i as int].path@);
        }
        let name = path_file_name(recent[i].path.as_str());
        let s = fuzzy_score(query, name.as_str());
        if s > 0 {
            push_model(&mut merged, SearchResult::recent_file(&recent[i], s + 10));
            proof {
                assert(merged.deep_view() =~= from_apps + recent_results_of(
                    q,
                    recent.deep_view().take(i + 1),
                ));
            }
        } else {
            proof {
                assert(merged.deep_view() =~= from_apps + recent_results_of(
                    q,
                    recent.deep_view().take(i + 1),
                ));
            }
        }
    }
    proof {
        assert(recent.deep_view().take(recent@.len() as int) =~= recent.deep_view());
    }
    let ghost from_recents = merged.deep_view();

    for i in 0..files.len()
        invariant
            q == query@,
            from_recents == app_results_of(q, apps.deep_view()) + recent_results_of(
                q,
                recent.deep_view(),
            ),
            merged.deep_view() =~= from_recents + listing_results_of(
                q,
                files.deep_view().take(i as int),
            ),
            forall|t: int| 0 <= t < merged@.len() ==> #[trigger] merged.deep_view()[t].score <= 110,
    {
        let ghost e = files.deep_view()[i as int];
        proof {
            assert(files.deep_view().take(i + 1).drop_last() =~= files.deep_view().take(i as int));
            assert(files.deep_view().take(i + 1).last() == e);
            assert(e == files@[i as int]@);
            assert(e.name == files@[i as int].name@);
        }
        if crate::text::str_eq(files[i].name.as_str(), "..") {
            proof {
                assert(e.name == ".."@);
                assert(merged.deep_view() =~= from_recents + listing_results_of(
                    q,
                    files.deep_view().take(i + 1),
                ));
            }
        } else {
            let s = fuzzy_score(query, files[i].name.as_str());
            if s > 0 {
                push_model(&mut merged, SearchResult::file(&files[i], s));
                proof {
                    assert(merged.deep_view() =~= from_recents + listing_results_of(
                        q,
                        files.deep_view().take(i + 1),
                    ));
                }
            } else {
                proof {
                    assert(merged.deep_view() =~= from_recents + listing_results_of(
                        q,
                        files.deep_view().take(i + 1),
                    ));
                }
            }
        }
    }
    proof {
        assert(files.deep_view().take(files@.len() as int) =~= files.deep_view());
        assert(merged.deep_view() =~= fuzzy_results_of(
            q,
            apps.deep_view(),
            recent.deep_view(),
            files.deep_view(),
        ));
    }

    let mut ranked = rank_results(merged);
    proof {
        lemma_ranked_sorted(
            fuzzy_results_of(q, apps.deep_view(), recent.deep_view(), files.deep_view()),
        );
    }
    truncate_models(&mut ranked, 20);
    proof {
        let rk = ranked_of(
            fuzzy_results_of(q, apps.deep_view(), recent.deep_view(), files.deep_view()),
        );
        assert forall|i: int, j: int|
            0 <= i <= j < ranked.deep_view().len() implies #[trigger] ranked.deep_view()[i].score
            >= #[trigger] ranked.deep_view()[j].score by {
            if rk.len() <= 20 {
                assert(ranked.deep_view()[i] == rk[i]);
                assert(ranked.deep_view()[j] == rk[j]);
            } else {
                assert(ranked.deep_view()[i] == rk.take(20)[i]);
                assert(ranked.deep_view()[j] == rk.take(20)[j]);
            }
        }
    }
    SearchAction::Results(ranked)
}

} // verus!
