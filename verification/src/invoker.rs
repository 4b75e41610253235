//! The external-tool side of search: the exact command lines handed to the
//! content and name search tools, and the parsers for their output.
//!
//! Each pipeline has a primary tool and a fallback.  Spawning the process is
//! the caller's task; the functions here only build argument lists from the
//! configuration and turn captured standard output into results.  A tool
//! failure never surfaces as an error: it only shortens the result list.

use vstd::prelude::*;
use vstd::string::*;

use crate::model::{append_models, push_model};
use crate::search::{file_icon_of, file_name_of, get_file_icon, grep_result_model, path_file_name,
    KindModel, ResultModel, SearchResult, SearchResultKind};
use crate::search_config::{fd_exclude_of, find_exclude_of, grep_exclude_of, rg_exclude_of,
    SearchConfig};
use crate::text::{chars_vec, find_first, first_at, lines_of, parse_u32, parse_u32_of, split_lines,
    trim, trimmed};

verus! {

/// One ready-to-spawn tool invocation: the program name and its arguments.
pub struct ToolInvocation {
    pub program: String,
    pub args: Vec<String>,
}

/// The primary content-search invocation: ripgrep, case-insensitive, line
/// numbers on, at most 20 matches per file, the configured directories
/// excluded, searching for `pattern` under the current directory.
pub fn content_search_command(pattern: &str, config: &SearchConfig) -> (r: ToolInvocation)
    ensures
        r.program@ == "rg"@,
        r.args.deep_view() =~= seq!["-n"@, "-i"@, "--max-count"@, "20"@] + rg_exclude_of(
            config.exclude_dirs.deep_view(),
        ) + seq![pattern@, "."@],
{
    let mut args: Vec<String> = Vec::new();
    push_model(&mut args, String::from_str("-n"));
    push_model(&mut args, String::from_str("-i"));
    push_model(&mut args, String::from_str("--max-count"));
    push_model(&mut args, String::from_str("20"));
    append_models(&mut args, config.rg_exclude_args());
    push_model(&mut args, String::from_str(pattern));
    push_model(&mut args, String::from_str("."));
    ToolInvocation { program: String::from_str("rg"), args }
}

/// The fallback content-search invocation: recursive case-insensitive grep
/// with line numbers, the configured directories excluded.
pub fn content_search_fallback(pattern: &str, config: &SearchConfig) -> (r: ToolInvocation)
    ensures
        r.program@ == "grep"@,
        r.args.deep_view() =~= seq!["-r"@, "-n"@, "-i"@] + grep_exclude_of(
            config.exclude_dirs.deep_view(),
        ) + seq![pattern@, "."@],
{
    let mut args: Vec<String> = Vec::new();
    push_model(&mut args, String::from_str("-r"));
    push_model(&mut args, String::from_str("-n"));
    push_model(&mut args, String::from_str("-i"));
    append_models(&mut args, config.grep_exclude_args());
    push_model(&mut args, String::from_str(pattern));
    push_model(&mut args, String::from_str("."));
    ToolInvocation { program: String::from_str("grep"), args }
}

/// The primary name-search invocation: fd, case-insensitive, bounded to 20
/// results, the configured directories excluded.
pub fn name_search_command(pattern: &str, config: &SearchConfig) -> (r: ToolInvocation)
    ensures
        r.program@ == "fd"@,
        r.args.deep_view() =~= seq!["-i"@, "--max-results"@, "20"@] + fd_exclude_of(
            config.exclude_dirs.deep_view(),
        ) + seq![pattern@],
{
    let mut args: Vec<String> = Vec::new();
    push_model(&mut args, String::from_str("-i"));
    push_model(&mut args, String::from_str("--max-results"));
    push_model(&mut args, String::from_str("20"));
    append_models(&mut args, config.fd_exclude_args());
    push_model(&mut args, String::from_str(pattern));
    ToolInvocation { program: String::from_str("fd"), args }
}

/// The fallback name-search invocation: a directory walk with find, bounded
/// to depth 5, the configured directories pruned, matching `*pattern*`
/// case-insensitively.
pub fn name_search_fallback(pattern: &str, config: &SearchConfig) -> (r: ToolInvocation)
    ensures
        r.program@ == "find"@,
        r.args.deep_view() =~= seq!["."@, "-maxdepth"@, "5"@] + find_exclude_of(
            config.exclude_dirs.deep_view(),
        ) + seq!["-iname"@, "*"@ + pattern@ + "*"@],
{
    let mut args: Vec<String> = Vec::new();
    push_model(&mut args, String::from_str("."));
    push_model(&mut args, String::from_str("-maxdepth"));
    push_model(&mut args, String::from_str("5"));
    append_models(&mut args, config.find_exclude_args());
    push_model(&mut args, String::from_str("-iname"));
    let mut pat = String::from_str("*");
    pat.append(pattern);
    pat.append("*");
    push_model(&mut args, pat);
    ToolInvocation { program: String::from_str("find"), args }
}

/// The three fields of a content-search output line, split on its first two
/// colons; a line with fewer than two colons has no parse.
pub open spec fn grep_split(l: Seq<char>) -> Option<(Seq<char>, Seq<char>, Seq<char>)> {
    let i1 = first_at(l, ':');
    if i1 == l.len() {
        None
    } else {
        let rest = l.subrange(i1 + 1, l.len() as int);
        let i2 = first_at(rest, ':');
        if i2 == rest.len() {
            None
        } else {
            Some(
                (
                    l.subrange(0, i1),
                    rest.subrange(0, i2),
                    rest.subrange(i2 + 1, rest.len() as int),
                ),
            )
        }
    }
}

/// The result one output line yields: `path:line:content` with a line number
/// that parses as an unsigned integer; any other line is dropped.
pub open spec fn parse_grep_line(l: Seq<char>) -> Option<ResultModel> {
    match grep_split(l) {
        None => None,
        Some(parts) => match parse_u32_of(parts.1) {
            Some(n) => Some(grep_result_model(parts.0, n, parts.2)),
            None => None,
        },
    }
}

/// The results of the given output lines, in order, unparsable lines
/// dropped.
pub open spec fn grep_results_of(ls: Seq<Seq<char>>) -> Seq<ResultModel>
    decreases ls.len(),
{
    if ls.len() == 0 {
        Seq::empty()
    } else {
        let rest = grep_results_of(ls.drop_last());
        match parse_grep_line(ls.last()) {
            Some(r) => rest.push(r),
            None => rest,
        }
    }
}

pub proof fn lemma_grep_results_len(ls: Seq<Seq<char>>)
    ensures
        grep_results_of(ls).len() <= ls.len(),
    decreases ls.len(),
{
    if ls.len() > 0 {
        lemma_grep_results_len(ls.drop_last());
    }
}

/// Every content-search result carries the fixed score 30.
pub proof fn lemma_grep_results_score(ls: Seq<Seq<char>>)
    ensures
        forall|i: int| 0 <= i < grep_results_of(ls).len() ==> grep_results_of(ls)[i].score == 30,
    decreases ls.len(),
{
    if ls.len() > 0 {
        lemma_grep_results_len(ls.drop_last());
        lemma_grep_results_score(ls.drop_last());
    }
}

/// The first `n` of the given lines, or all of them when there are fewer.
pub open spec fn first_lines(ls: Seq<Seq<char>>, n: int) -> Seq<Seq<char>> {
    if ls.len() <= n {
        ls
    } else {
        ls.take(n)
    }
}

/// What a content search's captured output yields: the results of its first
/// 15 lines.
pub open spec fn content_results_of(out: Seq<char>) -> Seq<ResultModel> {
    grep_results_of(first_lines(lines_of(out), 15))
}

/// Parses captured content-search output.  At most the first 15 lines are
/// read; a line is `path:line:content`, split on its first two colons, and
/// is dropped when a field is missing or the line number does not parse.
pub fn parse_content_search_output(stdout: &str) -> (r: Vec<SearchResult>)
    ensures
        r.deep_view() == content_results_of(stdout@),
        r@.len() <= 15,
        forall|i: int| 0 <= i < r@.len() ==> r.deep_view()[i].score == 30,
{
    let lines = split_lines(stdout);
    let n = if lines.len() <= 15 {
        lines.len()
    } else {
        15
    };
    let ghost ls = first_lines(lines_of(stdout@), 15);
    proof {
        if lines.deep_view().len() > 15 {
            assert(ls =~= lines.deep_view().take(15));
        }
        assert(ls.len() == n);
    }
    let mut out: Vec<SearchResult> = Vec::new();
    for i in 0..n
        invariant
            n <= lines@.len(),
            n == ls.len(),
            forall|j: int| 0 <= j < n ==> ls[j] == lines.deep_view()[j],
            out@.len() <= i,
            out.deep_view() =~= grep_results_of(ls.take(i as int)),
    {
        let ghost l = ls[i as int];
        proof {
            assert(ls.take(i + 1).drop_last() =~= ls.take(i as int));
            assert(ls.take(i + 1).last() == l);
            assert(lines.deep_view()[i as int] == lines@[i as int]@);
        }
        let line = &lines[i];
        let v = chars_vec(line.as_str());
        proof {
            assert(l == v@);
            crate::text::lemma_first_at(l, ':');
        }
        let i1 = find_first(&v, ':');
        let mut parsed = false;
        if i1 < v.len() {
            let rest = line.as_str().substring_char(i1 + 1, v.len());
            let rv = chars_vec(rest);
            proof {
                crate::text::lemma_first_at(rv@, ':');
            }
            let i2 = find_first(&rv, ':');
            if i2 < rv.len() {
                let path = String::from_str(line.as_str().substring_char(0, i1));
                let num = rest.substring_char(0, i2);
                let content = String::from_str(rest.substring_char(i2 + 1, rv.len()));
                match parse_u32(num) {
                    Some(line_no) => {
                        let res = SearchResult::grep_result(path, line_no, content);
                        push_model(&mut out, res);
                        parsed = true;
                        proof {
                            assert(parse_grep_line(l) is Some);
                            assert(out.deep_view() =~= grep_results_of(ls.take(i + 1)));
                        }
                    },
                    None => {
                        proof {
                            assert(parse_grep_line(l) is None);
                        }
                    },
                }
            } else {
                proof {
                    assert(grep_split(l) is None);
                }
            }
        } else {
            proof {
                assert(grep_split(l) is None);
            }
        }
        proof {
            if !parsed {
                assert(parse_grep_line(l) is None);
                assert(out.deep_view() =~= grep_results_of(ls.take(i + 1)));
            }
        }
    }
    proof {
        assert(ls.take(n as int) =~= ls);
        lemma_grep_results_len(ls);
        lemma_grep_results_score(ls);
    }
    out
}

/// The trimmed forms of the given lines, in order.
pub open spec fn trimmed_all(ls: Seq<Seq<char>>) -> Seq<Seq<char>>
    decreases ls.len(),
{
    if ls.len() == 0 {
        Seq::empty()
    } else {
        trimmed_all(ls.drop_last()).push(trimmed(ls.last()))
    }
}

/// The candidate paths a name search's captured output yields: its first 15
/// lines, each trimmed.  The caller checks each against the file system and
/// keeps the ones that exist.
pub open spec fn name_candidates_of(out: Seq<char>) -> Seq<Seq<char>> {
    trimmed_all(first_lines(lines_of(out), 15))
}

pub proof fn lemma_trimmed_all_len(ls: Seq<Seq<char>>)
    ensures
        trimmed_all(ls).len() == ls.len(),
    decreases ls.len(),
{
    if ls.len() > 0 {
        lemma_trimmed_all_len(ls.drop_last());
    }
}

/// Parses captured name-search output into candidate paths: at most the
/// first 15 lines, each trimmed.
pub fn name_search_candidates(stdout: &str) -> (r: Vec<String>)
    ensures
        r.deep_view() == name_candidates_of(stdout@),
        r@.len() <= 15,
{
    let lines = split_lines(stdout);
    let n = if lines.len() <= 15 {
        lines.len()
    } else {
        15
    };
    let ghost ls = first_lines(lines_of(stdout@), 15);
    proof {
        if lines.deep_view().len() > 15 {
            assert(ls =~= lines.deep_view().take(15));
        }
        assert(ls.len() == n);
    }
    let mut out: Vec<String> = Vec::new();
    for i in 0..n
        invariant
            n <= lines@.len(),
            n == ls.len(),
            forall|j: int| 0 <= j < n ==> ls[j] == lines.deep_view()[j],
            out@.len() == i,
            out.deep_view() =~= trimmed_all(ls.take(i as int)),
    {
        proof {
            assert(ls.take(i + 1).drop_last() =~= ls.take(i as int));
            assert(ls.take(i + 1).last() == ls[i as int]);
            assert(lines.deep_view()[i as int] == lines@[i as int]@);
        }
        let t = trim(lines[i].as_str());
        push_model(&mut out, t);
        proof {
            assert(out.deep_view() =~= trimmed_all(ls.take(i + 1)));
        }
    }
    proof {
        assert(ls.take(n as int) =~= ls);
        lemma_trimmed_all_len(ls);
    }
    out
}

/// The mathematical content of a verified candidate path.
pub ghost struct FoundModel {
    pub path: Seq<char>,
    pub is_dir: bool,
}

/// A name-search candidate that the caller has checked on disk: the trimmed
/// path and whether it names a directory.
pub struct FoundPath {
    pub path: String,
    pub is_dir: bool,
}

impl View for FoundPath {
    type V = FoundModel;

    open spec fn view(&self) -> FoundModel {
        FoundModel { path: self.path@, is_dir: self.is_dir }
    }
}

impl DeepView for FoundPath {
    type V = FoundModel;

    open spec fn deep_view(&self) -> FoundModel {
        self.view()
    }
}

/// The result one verified candidate path yields: named by the path's file
/// name, with the directory or extension icon, at the fixed score 50.
pub open spec fn found_result_model(f: FoundModel) -> ResultModel {
    ResultModel {
        name: file_name_of(f.path),
        description: f.path,
        icon: if f.is_dir {
            "📁"@
        } else {
            file_icon_of(file_name_of(f.path))
        },
        score: 50,
        kind: KindModel::File(f.path),
    }
}

/// The results of the verified candidate paths, in order.
pub open spec fn name_results_of(fs: Seq<FoundModel>) -> Seq<ResultModel>
    decreases fs.len(),
{
    if fs.len() == 0 {
        Seq::empty()
    } else {
        name_results_of(fs.drop_last()).push(found_result_model(fs.last()))
    }
}

/// Every name-search result carries the fixed score 50.
pub proof fn lemma_name_results_score(fs: Seq<FoundModel>)
    ensures
        name_results_of(fs).len() == fs.len(),
        forall|i: int| 0 <= i < fs.len() ==> name_results_of(fs)[i].score == 50,
    decreases fs.len(),
{
    if fs.len() > 0 {
        lemma_name_results_score(fs.drop_last());
    }
}

/// Builds the results for the candidate paths that exist on disk, one each,
/// in order, at the fixed score 50.
pub fn name_search_results(found: &Vec<FoundPath>) -> (r: Vec<SearchResult>)
    ensures
        r.deep_view() == name_results_of(found.deep_view()),
        r@.len() == found@.len(),
        forall|i: int| 0 <= i < r@.len() ==> r.deep_view()[i].score == 50,
{
    let mut out: Vec<SearchResult> = Vec::new();
    for i in 0..found.len()
        invariant
            out@.len() == i,
            out.deep_view() =~= name_results_of(found.deep_view().take(i as int)),
    {
        let ghost f = found.deep_view()[i as int];
        proof {
            assert(found.deep_view().take(i + 1).drop_last() =~= found.deep_view().take(i as int));
            assert(found.deep_view().take(i + 1).last() == f);
        }
        let name = path_file_name(found[i].path.as_str());
        let icon = if found[i].is_dir {
            String::from_str("📁")
        } else {
            get_file_icon(name.as_str())
        };
        let res = SearchResult {
            name,
            description: found[i].path.clone(),
            kind: SearchResultKind::File(found[i].path.clone()),
            icon,
            score: 50,
        };
        proof {
            assert(res@ == found_result_model(f));
        }
        push_model(&mut out, res);
        proof {
            assert(out.deep_view() =~= name_results_of(found.deep_view().take(i + 1)));
        }
    }
    proof {
        assert(found.deep_view().take(found@.len() as int) =~= found.deep_view());
        lemma_name_results_score(found.deep_view());
    }
    out
}

} // verus!
