//! The request dispatcher's decisions: redirecting directories without a
//! trailing slash, choosing the handler for a resolved path, conditional
//! GET, the POST target, the misreported sizes of streamed responses, and
//! the fixed error pages.  The caller probes the filesystem and spawns
//! processes; every decision is taken here.

use vstd::prelude::*;

verus! {

use vstd::string::StrSliceExecFns;
use vstd::string::StringExecFns;
use crate::strutil::str_eq;
use crate::strutil::trim_spec;
use crate::strutil::trim;
use crate::strutil::split_spec;
use crate::strutil::split_on_char;
use crate::strutil::parse_usize_spec;
use crate::strutil::parse_usize;
use crate::paths::last_component;
use crate::paths::path_ends_with_component;
use crate::paths::join_component;
use crate::paths::transclude_enabled_spec;
use crate::paths::is_transclude_enabled;
use crate::kvmap::KvMap;
use crate::kvmap::StrSet;
use crate::outside::http_date_of;
use crate::outside::http_date_string;

/// The fixed page sent with `404 Not Found`.
pub const ERROR_404: &'static str = "<!DOCTYPE html>\n<html lang=\"en\">\n    <head>\n        <meta charset=\"UTF-8\"/>\n        <title>Nothing</title>\n    </head>\n    <body>\n<h1>The page you are looking for does not exist.</h1>\n    </body>\n</html>";

/// The fixed page sent with `500 Internal Server Error`.
pub const ERROR_500: &'static str = "<!DOCTYPE html>\n<html lang=\"en\">\n    <head>\n        <meta charset=\"UTF-8\"/>\n        <title>Error</title>\n    </head>\n    <body>\n<h1>The file you requested exists, but could not be served to you due to some error.</h1>\n    </body>\n</html>";

/// The fixed page sent with `503 Service Unavailable`.
pub const ERROR_503: &'static str = "<!DOCTYPE html>\n<html lang=\"en\">\n    <head>\n        <meta charset=\"UTF-8\"/>\n        <title>Server Busy</title>\n    </head>\n    <body>\n<h1>Server too busy to serve response. Sorry.</h1>\n    </body>\n</html>";

/// A POST body, after the codec has interpreted the content type.  The raw
/// stream of a multipart body stays with the caller.
pub enum FormData {
    /// URL-encoded key-value pairs.
    KeyVal(KvMap),
    /// A plain-text body.
    Text(String),
    /// A multipart body: the caller pipes the connection to the child.
    Stream,
}

/// One parsed request.
pub enum Request {
    /// A GET with its query and headers.
    Get(KvMap, KvMap),
    /// A POST with its headers and interpreted body, if any.
    Post(KvMap, Option<FormData>),
}

/// Whether a directory request must be redirected to its slash form: the
/// resolved path is a directory and the request path has no trailing slash.
pub open spec fn needs_redirect_spec(is_dir: bool, url_path: Seq<char>) -> bool {
    is_dir && !(url_path.len() > 0 && url_path[url_path.len() - 1] == '/')
}

/// Decides the directory redirect.
pub fn needs_redirect(is_dir: bool, url_path: &str) -> (r: bool)
    ensures
        r == needs_redirect_spec(is_dir, url_path@),
{
    if !is_dir {
        return false;
    }
    let len: usize = url_path.unicode_len();
    if len == 0 {
        return true;
    }
    url_path.get_char(len - 1) != '/'
}

/// The Location value of a directory redirect: the configured upstream
/// prefix, the request path, and a trailing slash.
pub fn redirect_location(upstream: &str, url_path: &str) -> (r: String)
    ensures
        r@ == "Location: "@ + upstream@ + url_path@ + seq!['/'],
{
    let mut out: String = "Location: ".to_owned();
    out.append(upstream);
    out.append(url_path);
    out.append("/");
    proof {
        reveal_strlit("/");
        assert(out@ =~= "Location: "@ + upstream@ + url_path@ + seq!['/']);
    }
    out
}

/// What the caller found out about a resolved path and its index files.
pub struct PathProbe {
    /// The resolved path exists.
    pub exists: bool,
    /// The resolved path is a directory.
    pub is_dir: bool,
    /// `<path>/index_executable` exists and is a regular file (only
    /// meaningful when the path is a directory).
    pub index_exec_is_file: bool,
    /// `<path>/index.html` exists and is a regular file (only meaningful
    /// when the path is a directory).
    pub index_html_is_file: bool,
}

/// The file a GET of a directory actually serves: `index_executable` wins,
/// then `index.html`, then the directory itself.
pub open spec fn effective_get_path(p: Seq<char>, probe: PathProbe) -> Seq<char> {
    if probe.is_dir && probe.index_exec_is_file {
        p + seq!['/'] + "index_executable"@
    } else if probe.is_dir && probe.index_html_is_file {
        p + seq!['/'] + "index.html"@
    } else {
        p
    }
}

/// Whether the effective path exists at all.
pub open spec fn effective_exists(probe: PathProbe) -> bool {
    probe.is_dir || probe.exists
}

/// How a GET is handled.
pub enum GetPlan {
    /// The target is missing, or is a name never served directly.
    NotFound,
    /// Serve a directory listing.  `people` selects the `/home` special
    /// case: the `People` header and the caller's users-only entry filter.
    Autoindex { people: bool, page_size: usize, page_number: usize },
    /// Spawn the directory's GET handler and stream its output.
    RunIndexExecutable { exec_path: String },
    /// Serve a file through the transcluding reader.
    ServeFile { file_path: String },
}

/// The page size a query asks for: `n`, default zero (everything).
pub open spec fn page_size_of(query: Map<Seq<char>, Seq<char>>) -> int {
    if query.contains_key("n"@) && parse_usize_spec(query["n"@]) is Some {
        parse_usize_spec(query["n"@]).unwrap()
    } else {
        0
    }
}

/// The zero-based page number a query asks for: `p`, one-based, default 1;
/// a `p` of zero stays at the first page.
pub open spec fn page_number_of(query: Map<Seq<char>, Seq<char>>) -> int {
    let p = if query.contains_key("p"@) && parse_usize_spec(query["p"@]) is Some {
        parse_usize_spec(query["p"@]).unwrap()
    } else {
        1
    };
    if p == 0 {
        0
    } else {
        p - 1
    }
}

fn query_usize(query: &KvMap, key: &str, default: usize) -> (r: usize)
    ensures
        r as int == (if query@.contains_key(key@) && parse_usize_spec(query@[key@]) is Some {
            parse_usize_spec(query@[key@]).unwrap()
        } else {
            default as int
        }),
{
    match query.get(key) {
        Some(v) => {
            match parse_usize(v.as_str()) {
                Some(n) => n,
                None => default,
            }
        },
        None => default,
    }
}

/// Chooses the GET handler for a resolved path, as the probe describes it.
pub fn plan_get(file_path: &str, probe: PathProbe, query: &KvMap) -> (r: GetPlan)
    ensures
        ({
            let eff = effective_get_path(file_path@, probe);
            match r {
                GetPlan::NotFound => !effective_exists(probe) || last_component(eff)
                    == "form_executable"@ || last_component(eff) == "allowed_variables"@,
                GetPlan::Autoindex { people, page_size, page_number } => {
                    &&& effective_exists(probe)
                    &&& probe.is_dir && !probe.index_exec_is_file && !probe.index_html_is_file
                    &&& last_component(eff) != "form_executable"@
                    &&& last_component(eff) != "allowed_variables"@
                    &&& people == (file_path@ == "/home"@)
                    &&& page_size as int == page_size_of(query@)
                    &&& page_number as int == page_number_of(query@)
                },
                GetPlan::RunIndexExecutable { exec_path } => {
                    &&& effective_exists(probe)
                    &&& exec_path@ == eff
                    &&& last_component(eff) == "index_executable"@
                    &&& !(probe.is_dir && !probe.index_exec_is_file && !probe.index_html_is_file)
                },
                GetPlan::ServeFile { file_path: fp } => {
                    &&& effective_exists(probe)
                    &&& fp@ == eff
                    &&& last_component(eff) != "form_executable"@
                    &&& last_component(eff) != "allowed_variables"@
                    &&& last_component(eff) != "index_executable"@
                    &&& !(probe.is_dir && !probe.index_exec_is_file && !probe.index_html_is_file)
                },
            }
        }),
{
    let effective: String = if probe.is_dir && probe.index_exec_is_file {
        join_component(file_path, "index_executable")
    } else if probe.is_dir && probe.index_html_is_file {
        join_component(file_path, "index.html")
    } else {
        file_path.to_owned()
    };
    let present = probe.is_dir || probe.exists;
    let is_form = path_ends_with_component(effective.as_str(), "form_executable");
    let is_vars = path_ends_with_component(effective.as_str(), "allowed_variables");
    if !present || is_form || is_vars {
        proof {
            reveal_strlit("form_executable");
            reveal_strlit("allowed_variables");
        }
        return GetPlan::NotFound;
    }
    proof {
        reveal_strlit("form_executable");
        reveal_strlit("allowed_variables");
    }
    if probe.is_dir && !probe.index_exec_is_file && !probe.index_html_is_file {
        let people = str_eq(file_path, "/home");
        let page_size = query_usize(query, "n", 0);
        let p = query_usize(query, "p", 1);
        let page_number = if p == 0 {
            0
        } else {
            p - 1
        };
        return GetPlan::Autoindex { people, page_size, page_number };
    }
    if path_ends_with_component(effective.as_str(), "index_executable") {
        proof {
            reveal_strlit("index_executable");
        }
        return GetPlan::RunIndexExecutable { exec_path: effective };
    }
    proof {
        reveal_strlit("index_executable");
    }
    GetPlan::ServeFile { file_path: effective }
}

/// The executable a POST targets: the path itself when it already names
/// `form_executable`, else that name inside it.
pub open spec fn post_exec_path_spec(p: Seq<char>) -> Seq<char> {
    if last_component(p) == "form_executable"@ {
        p
    } else {
        p + seq!['/'] + "form_executable"@
    }
}

/// Appends `form_executable` to the resolved path unless it already names
/// it.  The caller serves 404 unless the result is an existing regular
/// file, and otherwise spawns it.
pub fn post_exec_path(file_path: &str) -> (r: String)
    ensures
        r@ == post_exec_path_spec(file_path@),
{
    if path_ends_with_component(file_path, "form_executable") {
        proof {
            reveal_strlit("form_executable");
        }
        file_path.to_owned()
    } else {
        proof {
            reveal_strlit("form_executable");
        }
        join_component(file_path, "form_executable")
    }
}

/// The whitelist read from an `allowed_variables` file: one name per line,
/// trimmed.
pub open spec fn allowed_vars_spec(content: Seq<char>) -> Set<Seq<char>> {
    lines_to_set(split_spec(content, '\n'))
}

/// The set of trimmed lines.
pub open spec fn lines_to_set(lines: Seq<Seq<char>>) -> Set<Seq<char>>
    decreases lines.len(),
{
    if lines.len() == 0 {
        Set::<Seq<char>>::empty()
    } else {
        lines_to_set(lines.drop_last()).insert(trim_spec(lines.last()))
    }
}

/// Reads the allowed variable names out of an `allowed_variables` file's
/// contents.
pub fn get_allowed_variables(content: &str) -> (r: StrSet)
    ensures
        r@ == allowed_vars_spec(content@),
{
    let lines = split_on_char(content, '\n');
    let ghost dv = lines.deep_view();
    let mut out = StrSet::new();
    let mut i: usize = 0;
    proof {
        assert(dv.subrange(0, 0) =~= Seq::<Seq<char>>::empty());
    }
    while i < lines.len()
        invariant
            0 <= i <= lines@.len(),
            dv == lines.deep_view(),
            dv.len() == lines@.len(),
            forall|j: int| 0 <= j < dv.len() ==> dv[j] == (#[trigger] lines@[j])@,
            out@ == lines_to_set(dv.subrange(0, i as int)),
        decreases lines@.len() - i,
    {
        let t = trim(lines[i].as_str()).to_owned();
        out.insert(t);
        i = i + 1;
        proof {
            let cur = dv.subrange(0, i as int);
            assert(cur.drop_last() =~= dv.subrange(0, i - 1));
            assert(cur.last() == dv[i - 1]);
        }
    }
    proof {
        assert(dv.subrange(0, dv.len() as int) =~= dv);
    }
    out
}

/// How a GET of a plain file proceeds.
pub enum FileServePlan {
    /// The client's `if-modified-since` matches the file's date exactly:
    /// `304 Not Modified`, empty body.
    NotModified,
    /// Serve the file with these response headers.
    Serve { response_headers: Vec<String> },
}

/// Decides the conditional GET and builds the file response headers.  The
/// `if-modified-since` check is string equality against the server's own
/// date rendering, as the protocol quirkily demands here.
pub fn serve_file_plan(headers: &KvMap, mtime_secs: u64) -> (r: FileServePlan)
    requires
        mtime_secs < 253402300800,
    ensures
        match r {
            FileServePlan::NotModified => headers@.contains_key("if-modified-since"@)
                && headers@["if-modified-since"@] == http_date_of(mtime_secs),
            FileServePlan::Serve { response_headers } => (!headers@.contains_key(
                "if-modified-since"@,
            ) || headers@["if-modified-since"@] != http_date_of(mtime_secs))
                && response_headers.deep_view() == seq![
                ("Last-Modified: "@ + http_date_of(mtime_secs)),
                "Cache-Control: max-age=30"@,
            ],
        },
{
    let date = http_date_string(mtime_secs);
    match headers.get("if-modified-since") {
        Some(v) => {
            if str_eq(v.as_str(), date.as_str()) {
                return FileServePlan::NotModified;
            }
        },
        None => {},
    }
    let mut hs: Vec<String> = Vec::new();
    let mut lm: String = "Last-Modified: ".to_owned();
    lm.append(date.as_str());
    hs.push(lm);
    hs.push("Cache-Control: max-age=30".to_owned());
    proof {
        assert(hs.deep_view() =~= seq![
            ("Last-Modified: "@ + http_date_of(mtime_secs)),
            "Cache-Control: max-age=30"@,
        ]);
    }
    FileServePlan::Serve { response_headers: hs }
}

/// The headers of an autoindex response.
pub fn autoindex_headers() -> (r: Vec<String>)
    ensures
        r.deep_view() == seq!["Cache-Control: max-age=30"@],
{
    let mut hs: Vec<String> = Vec::new();
    hs.push("Cache-Control: max-age=30".to_owned());
    proof {
        assert(hs.deep_view() =~= seq!["Cache-Control: max-age=30"@]);
    }
    hs
}

/// The headers of a streamed executable response.
pub fn executable_headers() -> (r: Vec<String>)
    ensures
        r.deep_view() == seq!["Cache-Control: no-cache"@],
{
    let mut hs: Vec<String> = Vec::new();
    hs.push("Cache-Control: no-cache".to_owned());
    proof {
        assert(hs.deep_view() =~= seq!["Cache-Control: no-cache"@]);
    }
    hs
}

/// The `Content-Length` a file response reports: the true size for a plain
/// file, and the maximum representable size when transclusion is enabled,
/// since the expanded length cannot be known without a full traversal.
pub fn reported_size(file_path: &str, file_size: u64) -> (r: u64)
    ensures
        r == (if transclude_enabled_spec(file_path@) {
            u64::MAX
        } else {
            file_size
        }),
{
    if is_transclude_enabled(file_path) {
        u64::MAX
    } else {
        file_size
    }
}

} // verus!
