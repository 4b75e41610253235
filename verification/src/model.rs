//! The plain data that the search components work over: directory entries,
//! discovered applications and recently accessed paths.
//!
//! Paths are carried as strings and timestamps as seconds, so that every
//! field is a value the verifier can reason about; the layers that talk to
//! the file system and the access store convert at the boundary.

use vstd::prelude::*;

verus! {

/// The mathematical content of a directory entry.
pub ghost struct EntryModel {
    pub path: Seq<char>,
    pub name: Seq<char>,
    pub is_dir: bool,
    pub size: u64,
    pub modified: Option<i64>,
}

/// One entry of a directory listing.  The synthetic parent entry carries the
/// name `..`, size 0 and no modification time.
pub struct DirEntry {
    pub path: String,
    pub name: String,
    pub is_dir: bool,
    pub size: u64,
    pub modified: Option<i64>,
}

impl View for DirEntry {
    type V = EntryModel;

    open spec fn view(&self) -> EntryModel {
        EntryModel {
            path: self.path@,
            name: self.name@,
            is_dir: self.is_dir,
            size: self.size,
            modified: self.modified,
        }
    }
}

impl DeepView for DirEntry {
    type V = EntryModel;

    open spec fn deep_view(&self) -> EntryModel {
        self.view()
    }
}

impl Clone for DirEntry {
    fn clone(&self) -> (res: Self)
        ensures
            res@ == self@,
    {
        DirEntry {
            path: self.path.clone(),
            name: self.name.clone(),
            is_dir: self.is_dir,
            size: self.size,
            modified: self.modified,
        }
    }
}

/// The mathematical content of a discovered application.
pub ghost struct AppModel {
    pub name: Seq<char>,
    pub exec_cmd: Seq<char>,
    pub icon: Option<Seq<char>>,
    pub description: Option<Seq<char>>,
    pub categories: Seq<Seq<char>>,
    pub keywords: Seq<Seq<char>>,
    pub terminal: bool,
    pub path: Seq<char>,
}

/// An installed application, as read from its desktop entry.
pub struct DesktopApp {
    pub name: String,
    pub exec_cmd: String,
    pub icon: Option<String>,
    pub description: Option<String>,
    pub categories: Vec<String>,
    pub keywords: Vec<String>,
    pub terminal: bool,
    pub path: String,
}

impl View for DesktopApp {
    type V = AppModel;

    open spec fn view(&self) -> AppModel {
        AppModel {
            name: self.name@,
            exec_cmd: self.exec_cmd@,
            icon: match self.icon {
                Some(ref s) => Some(s@),
                None => None,
            },
            description: match self.description {
                Some(ref s) => Some(s@),
                None => None,
            },
            categories: self.categories.deep_view(),
            keywords: self.keywords.deep_view(),
            terminal: self.terminal,
            path: self.path@,
        }
    }
}

impl DeepView for DesktopApp {
    type V = AppModel;

    open spec fn deep_view(&self) -> AppModel {
        self.view()
    }
}

fn clone_opt_string(s: &Option<String>) -> (res: Option<String>)
    ensures
        res == *s,
{
    match s {
        Some(v) => Some(v.clone()),
        None => None,
    }
}

fn clone_string_vec(v: &Vec<String>) -> (res: Vec<String>)
    ensures
        res@ == v@,
{
    let mut out: Vec<String> = Vec::new();
    for i in 0..v.len()
        invariant
            out@ =~= v@.take(i as int),
    {
        out.push(v[i].clone());
        proof {
            assert(out@ =~= v@.take(i + 1));
        }
    }
    proof {
        assert(v@.take(v@.len() as int) =~= v@);
    }
    out
}

impl Clone for DesktopApp {
    fn clone(&self) -> (res: Self)
        ensures
            res@ == self@,
            res.categories@ == self.categories@,
            res.keywords@ == self.keywords@,
    {
        DesktopApp {
            name: self.name.clone(),
            exec_cmd: self.exec_cmd.clone(),
            icon: clone_opt_string(&self.icon),
            description: clone_opt_string(&self.description),
            categories: clone_string_vec(&self.categories),
            keywords: clone_string_vec(&self.keywords),
            terminal: self.terminal,
            path: self.path.clone(),
        }
    }
}

/// The mathematical content of a recently accessed path.
pub ghost struct RecentModel {
    pub path: Seq<char>,
    pub last_accessed: i64,
    pub access_count: i32,
    pub is_dir: bool,
}

/// A recently accessed path, as the persistent access store reports it:
/// the path, the access time in seconds, and how often it was opened.
/// Whether the path names a directory is recorded by the layer that loads
/// the entry, so that icon selection needs no file-system call here.
pub struct RecentAccess {
    pub path: String,
    pub last_accessed: i64,
    pub access_count: i32,
    pub is_dir: bool,
}

impl View for RecentAccess {
    type V = RecentModel;

    open spec fn view(&self) -> RecentModel {
        RecentModel {
            path: self.path@,
            last_accessed: self.last_accessed,
            access_count: self.access_count,
            is_dir: self.is_dir,
        }
    }
}

impl DeepView for RecentAccess {
    type V = RecentModel;

    open spec fn deep_view(&self) -> RecentModel {
        self.view()
    }
}

impl Clone for RecentAccess {
    fn clone(&self) -> (res: Self)
        ensures
            res@ == self@,
    {
        RecentAccess {
            path: self.path.clone(),
            last_accessed: self.last_accessed,
            access_count: self.access_count,
            is_dir: self.is_dir,
        }
    }
}

/// Pushes `x` and tracks the change at the model level.
pub fn push_model<T: DeepView>(dst: &mut Vec<T>, x: T)
    ensures
        final(dst)@.len() == old(dst)@.len() + 1,
        final(dst).deep_view() == old(dst).deep_view().push(x.deep_view()),
{
    let ghost pre = dst@;
    let ghost pre_dv = dst.deep_view();
    let ghost x_dv = x.deep_view();
    dst.push(x);
    proof {
        assert forall|j: int|
            0 <= j < dst@.len() implies dst.deep_view()[j] == pre_dv.push(x_dv)[j] by {
            assert(dst.deep_view()[j] == dst@[j].deep_view());
            if j < pre.len() {
                assert(dst@[j] == pre[j]);
                assert(pre_dv[j] == pre[j].deep_view());
            }
        }
        assert(dst.deep_view() =~= pre_dv.push(x_dv));
    }
}

/// Moves the elements of `src` onto the end of `dst` and tracks the change
/// at the model level.
pub fn append_models<T: DeepView>(dst: &mut Vec<T>, src: Vec<T>)
    ensures
        final(dst).deep_view() == old(dst).deep_view() + src.deep_view(),
{
    let ghost pre = dst@;
    let ghost pre_dv = dst.deep_view();
    let ghost src_v = src@;
    let ghost src_dv = src.deep_view();
    let mut s = src;
    dst.append(&mut s);
    proof {
        assert forall|j: int|
            0 <= j < dst@.len() implies dst.deep_view()[j] == (pre_dv + src_dv)[j] by {
            assert(dst.deep_view()[j] == dst@[j].deep_view());
            if j < pre.len() {
                assert(dst@[j] == pre[j]);
                assert(pre_dv[j] == pre[j].deep_view());
            } else {
                assert(dst@[j] == src_v[j - pre.len()]);
                assert(src_dv[j - pre.len()] == src_v[j - pre.len()].deep_view());
            }
        }
        assert(dst.deep_view() =~= pre_dv + src_dv);
    }
}

/// Caps `dst` at its first `n` elements and tracks the change at the model
/// level.
pub fn truncate_models<T: DeepView>(dst: &mut Vec<T>, n: usize)
    ensures
        final(dst).deep_view() == if old(dst)@.len() <= n {
            old(dst).deep_view()
        } else {
            old(dst).deep_view().take(n as int)
        },
{
    let ghost pre = dst@;
    let ghost pre_dv = dst.deep_view();
    if dst.len() > n {
        dst.truncate(n);
        proof {
            assert forall|j: int|
                0 <= j < dst@.len() implies dst.deep_view()[j] == pre_dv.take(n as int)[j] by {
                assert(dst.deep_view()[j] == dst@[j].deep_view());
                assert(dst@[j] == pre[j]);
                assert(pre_dv[j] == pre[j].deep_view());
            }
            assert(dst.deep_view() =~= pre_dv.take(n as int));
        }
    }
}

} // verus!
