//! Unified search results: one record shape for every source the launcher
//! searches, and the constructors that build it.

use vstd::prelude::*;
use vstd::string::*;

use crate::model::{AppModel, DesktopApp, DirEntry, EntryModel, RecentAccess, RecentModel};
use crate::text::{
    after_last, chars_vec, dec_digits, find_cut_after_last, lower_of, str_eq, to_lower, trim,
    trimmed, u32_to_string,
};

verus! {

/// The display name of a path: what follows the last `/`, or the whole path
/// when it has no `/`.
pub open spec fn file_name_of(path: Seq<char>) -> Seq<char> {
    after_last(path, '/')
}

/// `s` clipped to its first `n` characters.
pub open spec fn clipped(s: Seq<char>, n: int) -> Seq<char> {
    if s.len() <= n {
        s
    } else {
        s.take(n)
    }
}

/// The icon for a file extension, already lowercased.
pub open spec fn icon_for_ext(e: Seq<char>) -> Seq<char> {
    if e == "png"@ || e == "jpg"@ || e == "jpeg"@ || e == "gif"@ || e == "bmp"@ || e == "svg"@
        || e == "webp"@ || e == "ico"@ || e == "tiff"@ {
        "🖼️"@
    } else if e == "mp4"@ || e == "avi"@ || e == "mkv"@ || e == "mov"@ || e == "wmv"@
        || e == "flv"@ || e == "webm"@ || e == "m4v"@ || e == "mpeg"@ || e == "mpg"@ {
        "🎬"@
    } else if e == "mp3"@ || e == "wav"@ || e == "flac"@ || e == "aac"@ || e == "ogg"@
        || e == "wma"@ || e == "m4a"@ || e == "opus"@ {
        "🎵"@
    } else if e == "pdf"@ || e == "doc"@ || e == "docx"@ || e == "txt"@ || e == "rtf"@
        || e == "odt"@ {
        "📝"@
    } else if e == "xls"@ || e == "xlsx"@ || e == "csv"@ || e == "ods"@ || e == "ppt"@
        || e == "pptx"@ || e == "odp"@ {
        "📊"@
    } else if e == "zip"@ || e == "tar"@ || e == "gz"@ || e == "bz2"@ || e == "7z"@ || e == "rar"@
        || e == "xz"@ || e == "tgz"@ {
        "📦"@
    } else if e == "rs"@ || e == "py"@ || e == "js"@ || e == "ts"@ || e == "java"@ || e == "c"@
        || e == "cpp"@ || e == "h"@ || e == "hpp"@ || e == "go"@ || e == "rb"@ || e == "php"@
        || e == "tsx"@ || e == "jsx"@ {
        "💻"@
    } else if e == "html"@ || e == "css"@ || e == "json"@ || e == "xml"@ || e == "yaml"@
        || e == "yml"@ || e == "toml"@ {
        "📋"@
    } else if e == "exe"@ || e == "bin"@ || e == "sh"@ || e == "bat"@ || e == "cmd"@ {
        "⚙️"@
    } else {
        "📄"@
    }
}

/// The icon of a plain file, chosen by the lowercased text after the last
/// dot of its name; a name without a dot is looked up whole.
pub open spec fn file_icon_of(name: Seq<char>) -> Seq<char> {
    icon_for_ext(lower_of(after_last(name, '.')))
}

/// The glyph shown for a file, by its extension.
pub fn get_file_icon(name: &str) -> (r: String)
    ensures
        r@ == file_icon_of(name@),
{
    let v = chars_vec(name);
    let cut = find_cut_after_last(&v, '.');
    let ext_raw = name.substring_char(cut, v.len());
    let ext = to_lower(ext_raw);
    let e = ext.as_str();
    let icon: &'static str = if str_eq(e, "png") || str_eq(e, "jpg") || str_eq(e, "jpeg") || str_eq(
        e,
        "gif",
    ) || str_eq(e, "bmp") || str_eq(e, "svg") || str_eq(e, "webp") || str_eq(e, "ico") || str_eq(
        e,
        "tiff",
    ) {
        "🖼️"
    } else if str_eq(e, "mp4") || str_eq(e, "avi") || str_eq(e, "mkv") || str_eq(e, "mov")
        || str_eq(e, "wmv") || str_eq(e, "flv") || str_eq(e, "webm") || str_eq(e, "m4v") || str_eq(
        e,
        "mpeg",
    ) || str_eq(e, "mpg") {
        "🎬"
    } else if str_eq(e, "mp3") || str_eq(e, "wav") || str_eq(e, "flac") || str_eq(e, "aac")
        || str_eq(e, "ogg") || str_eq(e, "wma") || str_eq(e, "m4a") || str_eq(e, "opus") {
        "🎵"
    } else if str_eq(e, "pdf") || str_eq(e, "doc") || str_eq(e, "docx") || str_eq(e, "txt")
        || str_eq(e, "rtf") || str_eq(e, "odt") {
        "📝"
    } else if str_eq(e, "xls") || str_eq(e, "xlsx") || str_eq(e, "csv") || str_eq(e, "ods")
        || str_eq(e, "ppt") || str_eq(e, "pptx") || str_eq(e, "odp") {
        "📊"
    } else if str_eq(e, "zip") || str_eq(e, "tar") || str_eq(e, "gz") || str_eq(e, "bz2") || str_eq(
        e,
        "7z",
    ) || str_eq(e, "rar") || str_eq(e, "xz") || str_eq(e, "tgz") {
        "📦"
    } else if str_eq(e, "rs") || str_eq(e, "py") || str_eq(e, "js") || str_eq(e, "ts") || str_eq(
        e,
        "java",
    ) || str_eq(e, "c") || str_eq(e, "cpp") || str_eq(e, "h") || str_eq(e, "hpp") || str_eq(e, "go")
        || str_eq(e, "rb") || str_eq(e, "php") || str_eq(e, "tsx") || str_eq(e, "jsx") {
        "💻"
    } else if str_eq(e, "html") || str_eq(e, "css") || str_eq(e, "json") || str_eq(e, "xml")
        || str_eq(e, "yaml") || str_eq(e, "yml") || str_eq(e, "toml") {
        "📋"
    } else if str_eq(e, "exe") || str_eq(e, "bin") || str_eq(e, "sh") || str_eq(e, "bat") || str_eq(
        e,
        "cmd",
    ) {
        "⚙️"
    } else {
        "📄"
    };
    String::from_str(icon)
}

/// The mathematical content of a search result's kind.
pub ghost enum KindModel {
    File(Seq<char>),
    RecentFile(Seq<char>),
    Application(AppModel),
    Command(Seq<char>),
    GrepResult { path: Seq<char>, line: u32, content: Seq<char> },
}

/// Which source produced a search result, with the payload needed to act
/// on it.  The set is closed: exactly these five shapes exist.
pub enum SearchResultKind {
    File(String),
    RecentFile(String),
    Application(DesktopApp),
    Command(String),
    GrepResult { path: String, line: u32, content: String },
}

impl View for SearchResultKind {
    type V = KindModel;

    open spec fn view(&self) -> KindModel {
        match self {
            SearchResultKind::File(p) => KindModel::File(p@),
            SearchResultKind::RecentFile(p) => KindModel::RecentFile(p@),
            SearchResultKind::Application(a) => KindModel::Application(a@),
            SearchResultKind::Command(c) => KindModel::Command(c@),
            SearchResultKind::GrepResult { path, line, content } => KindModel::GrepResult {
                path: path@,
                line: *line,
                content: content@,
            },
        }
    }
}

impl Clone for SearchResultKind {
    fn clone(&self) -> (res: Self)
        ensures
            res@ == self@,
    {
        match self {
            SearchResultKind::File(p) => SearchResultKind::File(p.clone()),
            SearchResultKind::RecentFile(p) => SearchResultKind::RecentFile(p.clone()),
            SearchResultKind::Application(a) => SearchResultKind::Application(a.clone()),
            SearchResultKind::Command(c) => SearchResultKind::Command(c.clone()),
            SearchResultKind::GrepResult { path, line, content } => SearchResultKind::GrepResult {
                path: path.clone(),
                line: *line,
                content: content.clone(),
            },
        }
    }
}

/// The mathematical content of a search result.
pub ghost struct ResultModel {
    pub name: Seq<char>,
    pub description: Seq<char>,
    pub icon: Seq<char>,
    pub score: u32,
    pub kind: KindModel,
}

/// One ranked search result: a display name, secondary text, an icon, an
/// unsigned score (higher ranks earlier), and the kind it came from.
pub struct SearchResult {
    pub name: String,
    pub description: String,
    pub kind: SearchResultKind,
    pub icon: String,
    pub score: u32,
}

impl View for SearchResult {
    type V = ResultModel;

    open spec fn view(&self) -> ResultModel {
        ResultModel {
            name: self.name@,
            description: self.description@,
            icon: self.icon@,
            score: self.score,
            kind: self.kind@,
        }
    }
}

impl DeepView for SearchResult {
    type V = ResultModel;

    open spec fn deep_view(&self) -> ResultModel {
        self.view()
    }
}

impl Clone for SearchResult {
    fn clone(&self) -> (res: Self)
        ensures
            res@ == self@,
    {
        SearchResult {
            name: self.name.clone(),
            description: self.description.clone(),
            kind: self.kind.clone(),
            icon: self.icon.clone(),
            score: self.score,
        }
    }
}

/// A result for an entry of the current listing: named and described by the
/// entry, carrying the given score.
pub open spec fn file_result_model(e: EntryModel, score: u32) -> ResultModel {
    ResultModel {
        name: e.name,
        description: e.path,
        icon: if e.is_dir {
            "📁"@
        } else {
            file_icon_of(e.name)
        },
        score: score,
        kind: KindModel::File(e.path),
    }
}

/// A result for a recently accessed path: named by the path's file name and
/// marked as recent in its description.
pub open spec fn recent_result_model(m: RecentModel, score: u32) -> ResultModel {
    ResultModel {
        name: file_name_of(m.path),
        description: "Recent • "@ + m.path,
        icon: if m.is_dir {
            "📁"@
        } else {
            file_icon_of(file_name_of(m.path))
        },
        score: score,
        kind: KindModel::RecentFile(m.path),
    }
}

/// A result for an application: named by the application, described by its
/// comment when it has one.
pub open spec fn application_result_model(a: AppModel, score: u32) -> ResultModel {
    ResultModel {
        name: a.name,
        description: match a.description {
            Some(d) => d,
            None => "Application"@,
        },
        icon: "🚀"@,
        score: score,
        kind: KindModel::Application(a),
    }
}

/// A result offering to run `cmd` as a shell command, at the fixed low
/// priority 10.
pub open spec fn command_result_model(cmd: Seq<char>) -> ResultModel {
    ResultModel {
        name: "Run: "@ + cmd,
        description: "Execute shell command"@,
        icon: "⚡"@,
        score: 10,
        kind: KindModel::Command(cmd),
    }
}

/// A result for one content-search match: `name:line`, with the matched
/// text trimmed and clipped to 80 characters, at the fixed score 30.
pub open spec fn grep_result_model(path: Seq<char>, line: u32, content: Seq<char>) -> ResultModel {
    ResultModel {
        name: file_name_of(path) + ":"@ + dec_digits(line as nat),
        description: clipped(trimmed(content), 80),
        icon: "🔎"@,
        score: 30,
        kind: KindModel::GrepResult { path, line, content },
    }
}

/// The file name of `path`: the text after its last `/`.
pub fn path_file_name(path: &str) -> (r: String)
    ensures
        r@ == file_name_of(path@),
{
    let v = chars_vec(path);
    let cut = find_cut_after_last(&v, '/');
    String::from_str(path.substring_char(cut, v.len()))
}

impl SearchResult {
    /// The result for a listing entry, at the given score.
    pub fn file(entry: &DirEntry, score: u32) -> (r: Self)
        ensures
            r@ == file_result_model(entry@, score),
    {
        let icon = if entry.is_dir {
            String::from_str("📁")
        } else {
            get_file_icon(entry.name.as_str())
        };
        SearchResult {
            name: entry.name.clone(),
            description: entry.path.clone(),
            kind: SearchResultKind::File(entry.path.clone()),
            icon,
            score,
        }
    }

    /// The result for a recently accessed path, at the given score.
    pub fn recent_file(recent: &RecentAccess, score: u32) -> (r: Self)
        ensures
            r@ == recent_result_model(recent@, score),
    {
        let name = path_file_name(recent.path.as_str());
        let icon = if recent.is_dir {
            String::from_str("📁")
        } else {
            get_file_icon(name.as_str())
        };
        let mut description = String::from_str("Recent • ");
        description.append(recent.path.as_str());
        SearchResult {
            name,
            description,
            kind: SearchResultKind::RecentFile(recent.path.clone()),
            icon,
            score,
        }
    }

    /// The result for an application, at the given score.
    pub fn application(app: &DesktopApp, score: u32) -> (r: Self)
        ensures
            r@ == application_result_model(app@, score),
    {
        let description = match &app.description {
            Some(d) => d.clone(),
            None => String::from_str("Application"),
        };
        SearchResult {
            name: app.name.clone(),
            description,
            kind: SearchResultKind::Application(app.clone()),
            icon: String::from_str("🚀"),
            score,
        }
    }

    /// The result offering to run `cmd` as a shell command.
    pub fn command(cmd: &str) -> (r: Self)
        ensures
            r@ == command_result_model(cmd@),
    {
        let mut name = String::from_str("Run: ");
        name.append(cmd);
        SearchResult {
            name,
            description: String::from_str("Execute shell command"),
            kind: SearchResultKind::Command(String::from_str(cmd)),
            icon: String::from_str("⚡"),
            score: 10,
        }
    }

    /// The result for one parsed content-search match.
    pub fn grep_result(path: String, line: u32, content: String) -> (r: Self)
        ensures
            r@ == grep_result_model(path@, line, content@),
    {
        let mut name = path_file_name(path.as_str());
        name.append(":");
        let digits = u32_to_string(line);
        name.append(digits.as_str());
        let tr = trim(content.as_str());
        let tr_len = tr.as_str().unicode_len();
        let end = if tr_len <= 80 {
            tr_len
        } else {
            80
        };
        let description = String::from_str(tr.as_str().substring_char(0, end));
        proof {
            if trimmed(content@).len() <= 80 {
                assert(tr@.subrange(0, end as int) =~= trimmed(content@));
            } else {
                assert(tr@.subrange(0, end as int) =~= trimmed(content@).take(80));
            }
        }
        SearchResult {
            name,
            description,
            kind: SearchResultKind::GrepResult { path, line, content },
            icon: String::from_str("🔎"),
            score: 30,
        }
    }
}

} // verus!
