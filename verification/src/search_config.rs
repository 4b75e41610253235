//! The search configuration: directory names that the external content and
//! name searches must skip, and the per-tool argument lists built from them.

use vstd::prelude::*;
use vstd::string::*;

verus! {

/// Directory names excluded from external content and name searches.
/// Persistence of this list belongs to the caller; the functions here only
/// read it.
pub struct SearchConfig {
    pub exclude_dirs: Vec<String>,
}

/// The ripgrep exclusion arguments: a `--glob` / `!<dir>/**` pair per
/// excluded directory.
pub open spec fn rg_exclude_of(dirs: Seq<Seq<char>>) -> Seq<Seq<char>>
    decreases dirs.len(),
{
    if dirs.len() == 0 {
        Seq::empty()
    } else {
        rg_exclude_of(dirs.drop_last()) + seq!["--glob"@, "!"@ + dirs.last() + "/**"@]
    }
}

/// The fd exclusion arguments: an `--exclude` / `<dir>` pair per excluded
/// directory.
pub open spec fn fd_exclude_of(dirs: Seq<Seq<char>>) -> Seq<Seq<char>>
    decreases dirs.len(),
{
    if dirs.len() == 0 {
        Seq::empty()
    } else {
        fd_exclude_of(dirs.drop_last()) + seq!["--exclude"@, dirs.last()]
    }
}

/// The grep exclusion arguments: one `--exclude-dir=<dir>` per excluded
/// directory.
pub open spec fn grep_exclude_of(dirs: Seq<Seq<char>>) -> Seq<Seq<char>>
    decreases dirs.len(),
{
    if dirs.len() == 0 {
        Seq::empty()
    } else {
        grep_exclude_of(dirs.drop_last()) + seq!["--exclude-dir="@ + dirs.last()]
    }
}

/// The find exclusion arguments: a `-not` / `-path` / `*<dir>*` triple per
/// excluded directory.
pub open spec fn find_exclude_of(dirs: Seq<Seq<char>>) -> Seq<Seq<char>>
    decreases dirs.len(),
{
    if dirs.len() == 0 {
        Seq::empty()
    } else {
        find_exclude_of(dirs.drop_last()) + seq!["-not"@, "-path"@, "*"@ + dirs.last() + "*"@]
    }
}

impl SearchConfig {
    /// The ripgrep form of the exclusion list.
    pub fn rg_exclude_args(&self) -> (r: Vec<String>)
        ensures
            r.deep_view() == rg_exclude_of(self.exclude_dirs.deep_view()),
    {
        let ghost dirs = self.exclude_dirs.deep_view();
        let mut out: Vec<String> = Vec::new();
        for i in 0..self.exclude_dirs.len()
            invariant
                dirs == self.exclude_dirs.deep_view(),
                out.deep_view() =~= rg_exclude_of(dirs.take(i as int)),
        {
            out.push(String::from_str("--glob"));
            let mut pat = String::from_str("!");
            pat.append(self.exclude_dirs[i].as_str());
            pat.append("/**");
            out.push(pat);
            proof {
                assert(dirs.take(i + 1).drop_last() =~= dirs.take(i as int));
                assert(dirs.take(i + 1).last() == dirs[i as int]);
                assert(out.deep_view() =~= rg_exclude_of(dirs.take(i + 1)));
            }
        }
        proof {
            assert(dirs.take(self.exclude_dirs@.len() as int) =~= dirs);
        }
        out
    }

    /// The fd form of the exclusion list.
    pub fn fd_exclude_args(&self) -> (r: Vec<String>)
        ensures
            r.deep_view() == fd_exclude_of(self.exclude_dirs.deep_view()),
    {
        let ghost dirs = self.exclude_dirs.deep_view();
        let mut out: Vec<String> = Vec::new();
        for i in 0..self.exclude_dirs.len()
            invariant
                dirs == self.exclude_dirs.deep_view(),
                out.deep_view() =~= fd_exclude_of(dirs.take(i as int)),
        {
            out.push(String::from_str("--exclude"));
            out.push(self.exclude_dirs[i].clone());
            proof {
                assert(dirs.take(i + 1).drop_last() =~= dirs.take(i as int));
                assert(dirs.take(i + 1).last() == dirs[i as int]);
                assert(out.deep_view() =~= fd_exclude_of(dirs.take(i + 1)));
            }
        }
        proof {
            assert(dirs.take(self.exclude_dirs@.len() as int) =~= dirs);
        }
        out
    }

    /// The grep form of the exclusion list.
    pub fn grep_exclude_args(&self) -> (r: Vec<String>)
        ensures
            r.deep_view() == grep_exclude_of(self.exclude_dirs.deep_view()),
    {
        let ghost dirs = self.exclude_dirs.deep_view();
        let mut out: Vec<String> = Vec::new();
        for i in 0..self.exclude_dirs.len()
            invariant
                dirs == self.exclude_dirs.deep_view(),
                out.deep_view() =~= grep_exclude_of(dirs.take(i as int)),
        {
            let mut arg = String::from_str("--exclude-dir=");
            arg.append(self.exclude_dirs[i].as_str());
            out.push(arg);
            proof {
                assert(dirs.take(i + 1).drop_last() =~= dirs.take(i as int));
                assert(dirs.take(i + 1).last() == dirs[i as int]);
                assert(out.deep_view() =~= grep_exclude_of(dirs.take(i + 1)));
            }
        }
        proof {
            assert(dirs.take(self.exclude_dirs@.len() as int) =~= dirs);
        }
        out
    }

    /// The find form of the exclusion list.
    pub fn find_exclude_args(&self) -> (r: Vec<String>)
        ensures
            r.deep_view() == find_exclude_of(self.exclude_dirs.deep_view()),
    {
        let ghost dirs = self.exclude_dirs.deep_view();
        let mut out: Vec<String> = Vec::new();
        for i in 0..self.exclude_dirs.len()
            invariant
                dirs == self.exclude_dirs.deep_view(),
                out.deep_view() =~= find_exclude_of(dirs.take(i as int)),
        {
            out.push(String::from_str("-not"));
            out.push(String::from_str("-path"));
            let mut pat = String::from_str("*");
            pat.append(self.exclude_dirs[i].as_str());
            pat.append("*");
            out.push(pat);
            proof {
                assert(dirs.take(i + 1).drop_last() =~= dirs.take(i as int));
                assert(dirs.take(i + 1).last() == dirs[i as int]);
                assert(out.deep_view() =~= find_exclude_of(dirs.take(i + 1)));
            }
        }
        proof {
            assert(dirs.take(self.exclude_dirs@.len() as int) =~= dirs);
        }
        out
    }
}

impl Default for SearchConfig {
    /// The stock exclusion list: the usual dependency, build and cache
    /// directories.
    fn default() -> (res: Self)
        ensures
            res.exclude_dirs.deep_view() =~= seq![
                "node_modules"@,
                ".next"@,
                ".git"@,
                "target"@,
                "dist"@,
                "build"@,
                "__pycache__"@,
                ".venv"@,
                "venv"@,
                ".cache"@,
            ],
    {
        let mut dirs: Vec<String> = Vec::new();
        dirs.push(String::from_str("node_modules"));
        dirs.push(String::from_str(".next"));
        dirs.push(String::from_str(".git"));
        dirs.push(String::from_str("target"));
        dirs.push(String::from_str("dist"));
        dirs.push(String::from_str("build"));
        dirs.push(String::from_str("__pycache__"));
        dirs.push(String::from_str(".venv"));
        dirs.push(String::from_str("venv"));
        dirs.push(String::from_str(".cache"));
        SearchConfig { exclude_dirs: dirs }
    }
}

} // verus!
