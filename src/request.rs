//! The request handler's decisions: which of index page, Markdown, static
//! file, directory TOC, not-found or error a request leads to, and what the
//! textual responses hold. Reading files and streaming them is the caller's.

use vstd::prelude::*;
use crate::error::{AppError, IoKind, error_detail, error_prefix};
use crate::resolve::{EntryKind, Lookup, is_within, last_segment, relative_of, relative_path, file_name};
use crate::text::{has_suffix, ends_with_str, push_str, str_eq, to_owned_string};

verus! {

/// Where a request goes.
#[derive(Clone, Debug, PartialEq, Eq)]
pub enum Action {
    /// The root's `index.html`, verbatim.
    ServeIndexFile,
    /// A Markdown file rendered into the page template.
    ServeMarkdown { path: String, rel: String },
    /// A file streamed as it is.
    ServeStatic { path: String },
    /// A directory's TOC with its label.
    ServeToc { dir: String, label: String },
    /// The configured 404 page, else plain text.
    NotFound,
    /// A refusal or failure with its status and message.
    Fail { status: u16, message: String },
}

/// Status for an I/O failure: not found 404, permission denied 403, else 500.
pub open spec fn io_status(kind: IoKind) -> u16 {
    match kind {
        IoKind::NotFound => 404,
        IoKind::PermissionDenied => 403,
        _ => 500,
    }
}

/// The lookup resolved to the content root itself.
pub open spec fn is_root_lookup(root: Seq<char>, lookup: Lookup) -> bool {
    lookup matches Lookup::Found(p, _) && p@ == root
}

/// `p` without trailing `/`.
pub open spec fn without_trailing_slashes(p: Seq<char>) -> Seq<char>
    decreases p.len(),
{
    if p.len() > 0 && p.last() == '/' {
        without_trailing_slashes(p.drop_last())
    } else {
        p
    }
}

/// The request's file name (its last non-empty segment) ends in `.md` after
/// a non-empty stem.
pub open spec fn is_markdown_name(request: Seq<char>) -> bool {
    let name = last_segment(without_trailing_slashes(request));
    name.len() > 3 && has_suffix(name, ".md"@)
}

/// A request's route, texts aside.
pub enum Route {
    IndexFile,
    Markdown(Seq<char>),
    Static(Seq<char>),
    Toc(Seq<char>),
    Missing,
    Status(u16),
}

/// The route an action takes.
pub open spec fn route_of(a: Action) -> Route {
    match a {
        Action::ServeIndexFile => Route::IndexFile,
        Action::ServeMarkdown { path, .. } => Route::Markdown(path@),
        Action::ServeStatic { path } => Route::Static(path@),
        Action::ServeToc { dir, .. } => Route::Toc(dir@),
        Action::NotFound => Route::Missing,
        Action::Fail { status, .. } => Route::Status(status),
    }
}

/// The route of a request, given whether the root holds `index.html` and how
/// the request resolved.
pub open spec fn decide(request: Seq<char>, root: Seq<char>, index_exists: bool, lookup: Lookup) -> Route {
    if is_root_lookup(root, lookup) && index_exists {
        Route::IndexFile
    } else {
        match lookup {
            Lookup::Missing => Route::Missing,
            Lookup::Failed(kind, _) => Route::Status(io_status(kind)),
            Lookup::Found(p, kind) => if !is_within(p@, root) {
                Route::Status(403)
            } else if is_markdown_name(request) {
                Route::Markdown(p@)
            } else {
                match kind {
                    EntryKind::File => Route::Static(p@),
                    EntryKind::Directory => Route::Toc(p@),
                    EntryKind::Other => Route::Status(500),
                }
            },
        }
    }
}

fn trailing_slashes_removed(request: &str) -> (r: &str)
    ensures
        r@ == without_trailing_slashes(request@),
{
    let n = request.unicode_len();
    let mut end: usize = n;
    assert(request@.subrange(0, n as int) =~= request@);
    while end > 0 && request.get_char(end - 1) == '/'
        invariant
            n == request@.len(),
            end <= n,
            without_trailing_slashes(request@) == without_trailing_slashes(request@.subrange(0, end as int)),
        decreases end,
    {
        assert(request@.subrange(0, end as int).drop_last() =~= request@.subrange(0, end - 1));
        end = end - 1;
    }
    request.substring_char(0, end)
}

/// Whether a request names a Markdown file.
pub fn is_markdown_request(request: &str) -> (r: bool)
    ensures
        r == is_markdown_name(request@),
{
    let name = file_name(trailing_slashes_removed(request));
    name.as_str().unicode_len() > 3 && ends_with_str(name.as_str(), ".md")
}

/// Decides what a request leads to: the index page when the request
/// resolves to the root itself and the root holds `index.html`; a missing target 404; an I/O failure by kind;
/// a target outside the root 403, logged by the caller; `.md` requests are
/// rendered, files streamed, directories listed with their path as label
/// (`index` for the root), and anything else is a 500.
pub fn classify(request: &str, root: &str, index_exists: bool, lookup: &Lookup) -> (r: Action)
    ensures
        route_of(r) == decide(request@, root@, index_exists, *lookup),
        r matches Action::ServeMarkdown { path, rel } ==> rel@ == relative_of(path@, root@),
        r matches Action::ServeToc { dir, label } ==> label@ == if dir@ == root@ {
            "index"@
        } else {
            relative_of(dir@, root@)
        },
        r matches Action::Fail { status, message } ==> match *lookup {
            Lookup::Failed(_, m) => message == m,
            Lookup::Found(p, _) => if !is_within(p@, root@) {
                message@ == "path traversal attacks are not allowed"@
            } else {
                message@ == relative_of(p@, root@) + ": not file and dir"@
            },
            Lookup::Missing => false,
        },
{
    let at_root = match lookup {
        Lookup::Found(p, _) => str_eq(p.as_str(), root),
        _ => false,
    };
    if at_root && index_exists {
        return Action::ServeIndexFile;
    }
    match lookup {
        Lookup::Missing => Action::NotFound,
        Lookup::Failed(kind, msg) => {
            let status: u16 = match kind {
                IoKind::NotFound => 404,
                IoKind::PermissionDenied => 403,
                _ => 500,
            };
            Action::Fail { status, message: msg.clone() }
        },
        Lookup::Found(p, kind) => {
            if !crate::resolve::within_root(p.as_str(), root) {
                return Action::Fail {
                    status: 403,
                    message: to_owned_string("path traversal attacks are not allowed"),
                };
            }
            if is_markdown_request(request) {
                return Action::ServeMarkdown { path: p.clone(), rel: relative_path(p.as_str(), root) };
            }
            match kind {
                EntryKind::File => Action::ServeStatic { path: p.clone() },
                EntryKind::Directory => {
                    let label = if str_eq(p.as_str(), root) {
                        to_owned_string("index")
                    } else {
                        relative_path(p.as_str(), root)
                    };
                    Action::ServeToc { dir: p.clone(), label }
                },
                EntryKind::Other => {
                    let mut message = relative_path(p.as_str(), root);
                    push_str(&mut message, ": not file and dir");
                    Action::Fail { status: 500, message }
                },
            }
        },
    }
}

/// The caller's directive for a Markdown page: `path:<relative path>`.
pub fn markdown_directives(rel: &str) -> (r: Vec<String>)
    ensures
        r@.len() == 1,
        r@[0]@ == "path:"@ + rel@,
{
    let mut d = to_owned_string("path:");
    push_str(&mut d, rel);
    let mut v: Vec<String> = Vec::new();
    v.push(d);
    v
}

/// The caller's directive for a TOC page: `path:toc:<label>`.
pub fn toc_directives(label: &str) -> (r: Vec<String>)
    ensures
        r@.len() == 1,
        r@[0]@ == "path:toc:"@ + label@,
{
    let mut d = to_owned_string("path:toc:");
    push_str(&mut d, label);
    let mut v: Vec<String> = Vec::new();
    v.push(d);
    v
}

/// Status and body of a rendered page: 200 with the HTML, or 500 with the
/// error's message as plain text.
pub fn page_response(result: Result<String, AppError>) -> (r: (u16, String))
    ensures
        match result {
            Ok(html) => r.0 == 200 && r.1 == html,
            Err(e) => r.0 == 500 && r.1@ == error_prefix(e) + error_detail(e),
        },
{
    match result {
        Ok(html) => (200, html),
        Err(e) => (500, e.to_string()),
    }
}

/// Body of the plain-text 404 response.
pub fn not_found_body() -> (r: String)
    ensures
        r@ == "404 Not Found"@,
{
    to_owned_string("404 Not Found")
}

/// Names of the server's own files: still served when present under the
/// root, but every access is logged at error level.
pub open spec fn is_internal_name(name: Seq<char>) -> bool {
    name == "cofg.yaml"@ || name == ".gitignore"@ || name == "Cargo.toml"@
}

/// Whether a request reaches one of the server's own files.
pub fn is_internal_file(rel: &str) -> (r: bool)
    ensures
        r == is_internal_name(last_segment(rel@)),
{
    let name = file_name(rel);
    str_eq(name.as_str(), "cofg.yaml") || str_eq(name.as_str(), ".gitignore") || str_eq(name.as_str(), "Cargo.toml")
}

} // verus!
