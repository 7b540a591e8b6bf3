//! The file API's records and the logic behind its endpoints: metadata of one
//! path, a sorted directory listing, and an existence probe.

use vstd::prelude::*;
use crate::resolve::{
    EntryKind, Lookup, ValidationError, base_check, is_within, last_segment, relative_of,
    validate_and_resolve_any_path, within_root, relative_path, file_name,
};
use crate::text::{seq_lt, lemma_seq_lt_irreflexive, lemma_seq_lt_transitive, str_less, to_owned_string};

verus! {

/// Metadata of one file or directory.
#[derive(Clone, Debug, PartialEq, Eq)]
pub struct FileInfo {
    /// File name
    pub name: String,
    /// Path relative to the content root
    pub path: String,
    /// Size in bytes; none for directories
    pub size: Option<u64>,
    /// Last modification, in seconds since the Unix epoch
    pub modified: Option<i64>,
    pub is_directory: bool,
    pub is_file: bool,
}

/// A directory's entries.
#[derive(Clone, Debug, PartialEq, Eq)]
pub struct DirectoryListing {
    /// Directory path relative to the content root
    pub path: String,
    pub entries: Vec<FileInfo>,
}

/// Kind of an existing path.
#[derive(Clone, Copy, Debug, PartialEq, Eq)]
pub enum PathType {
    File,
    Directory,
    Other,
}

impl PathType {
    /// `file`, `directory` or `other`.
    pub fn as_str(&self) -> (r: &'static str)
        ensures
            r@ == match *self {
                PathType::File => "file"@,
                PathType::Directory => "directory"@,
                PathType::Other => "other"@,
            },
    {
        match self {
            PathType::File => "file",
            PathType::Directory => "directory",
            PathType::Other => "other",
        }
    }
}

/// Answer of the existence probe.
#[derive(Clone, Debug, PartialEq, Eq)]
pub struct ExistsResponse {
    pub exists: bool,
    pub path_type: Option<PathType>,
}

/// File-system metadata as read by the caller.
#[derive(Clone, Copy, Debug, PartialEq, Eq)]
pub struct Metadata {
    pub is_file: bool,
    pub is_dir: bool,
    pub len: u64,
    pub modified: Option<i64>,
}

/// One entry of a directory as read by the caller: its name, its absolute
/// path, and its metadata.
#[derive(Clone, Debug, PartialEq, Eq)]
pub struct RawEntry {
    pub name: String,
    pub path: String,
    pub meta: Metadata,
}

impl ValidationError {
    /// HTTP status and body for a refused path.
    pub fn into_response(&self) -> (r: (u16, String))
        ensures
            r.0 == match *self {
                ValidationError::Empty => 400u16,
                ValidationError::Traversal(_) => 403,
                ValidationError::NotFound => 404,
                ValidationError::NotFile => 400,
                ValidationError::NotDirectory => 400,
                ValidationError::IoError(_) => 400,
            },
            r.1@ == match *self {
                ValidationError::Empty => "empty path"@,
                ValidationError::Traversal(_) => "path traversal attacks are not allowed"@,
                ValidationError::NotFound => "path not exist"@,
                ValidationError::NotFile => "not a file"@,
                ValidationError::NotDirectory => "not a directory"@,
                ValidationError::IoError(e) => crate::error::error_prefix(e) + crate::error::error_detail(e),
            },
    {
        match self {
            ValidationError::Empty => (400, to_owned_string("empty path")),
            ValidationError::Traversal(_) => (403, to_owned_string("path traversal attacks are not allowed")),
            ValidationError::NotFound => (404, to_owned_string("path not exist")),
            ValidationError::NotFile => (400, to_owned_string("not a file")),
            ValidationError::NotDirectory => (400, to_owned_string("not a directory")),
            ValidationError::IoError(e) => (400, e.to_string()),
        }
    }
}

/// The record describing the canonical path `resolved` below `root`.
pub open spec fn info_of(resolved: Seq<char>, root: Seq<char>, meta: Metadata) -> (Seq<char>, Seq<char>, Option<u64>, Option<i64>, bool, bool) {
    (
        last_segment(resolved),
        relative_of(resolved, root),
        if meta.is_file { Some(meta.len) } else { None },
        meta.modified,
        meta.is_dir,
        meta.is_file,
    )
}

pub open spec fn info_view(f: FileInfo) -> (Seq<char>, Seq<char>, Option<u64>, Option<i64>, bool, bool) {
    (f.name@, f.path@, f.size, f.modified, f.is_directory, f.is_file)
}

/// Metadata record of a resolved path: name, path relative to the root, the
/// size for files only, and the modification time.
pub fn file_info(resolved: &str, root: &str, meta: &Metadata) -> (r: FileInfo)
    ensures
        info_view(r) == info_of(resolved@, root@, *meta),
{
    FileInfo {
        name: file_name(resolved),
        path: relative_path(resolved, root),
        size: if meta.is_file {
            Some(meta.len)
        } else {
            None
        },
        modified: meta.modified,
        is_directory: meta.is_dir,
        is_file: meta.is_file,
    }
}

/// Answer of the existence probe for a request path: a missing target is a
/// plain `exists: false`, other refusals are errors.
pub fn check_exists(path: &str, root: &str, lookup: &Lookup) -> (r: Result<ExistsResponse, ValidationError>)
    ensures
        match base_check(path@, root@, *lookup) {
            Err(ValidationError::NotFound) => r == Ok::<ExistsResponse, ValidationError>(
                ExistsResponse { exists: false, path_type: None },
            ),
            Err(e) => r == Err::<ExistsResponse, ValidationError>(e),
            Ok(_) => r matches Ok(resp) && resp.exists && resp.path_type == Some(
                match *lookup {
                    Lookup::Found(_, EntryKind::File) => PathType::File,
                    Lookup::Found(_, EntryKind::Directory) => PathType::Directory,
                    _ => PathType::Other,
                },
            ),
        },
{
    match validate_and_resolve_any_path(path, root, lookup) {
        Err(ValidationError::NotFound) => Ok(ExistsResponse { exists: false, path_type: None }),
        Err(e) => Err(e),
        Ok(_) => {
            let path_type = match lookup {
                Lookup::Found(_, EntryKind::File) => PathType::File,
                Lookup::Found(_, EntryKind::Directory) => PathType::Directory,
                _ => PathType::Other,
            };
            Ok(ExistsResponse { exists: true, path_type: Some(path_type) })
        },
    }
}

// ----- sorting a listing -----

/// What `str::to_lowercase` returns for `s`.
pub uninterp spec fn lower_of(s: Seq<char>) -> Seq<char>;

/// Relies on `str::to_lowercase`: the lower-case form, which depends on the
/// characters alone.
#[verifier::external_body]
fn to_lowercase(s: &str) -> (r: String)
    ensures
        r@ == lower_of(s@),
{
    s.to_lowercase()
}

/// Listing order: directories first, then by lower-cased name.
pub open spec fn entry_lt(a: FileInfo, b: FileInfo) -> bool {
    (a.is_directory && !b.is_directory) || (a.is_directory == b.is_directory && seq_lt(
        lower_of(a.name@),
        lower_of(b.name@),
    ))
}

pub open spec fn listing_sorted(s: Seq<FileInfo>) -> bool {
    forall|i: int, j: int| 0 <= i < j < s.len() ==> !entry_lt(s[j], s[i])
}

proof fn lemma_entry_lt_transitive(a: FileInfo, b: FileInfo, c: FileInfo)
    requires
        entry_lt(a, b),
        entry_lt(b, c),
    ensures
        entry_lt(a, c),
{
    if a.is_directory == b.is_directory && b.is_directory == c.is_directory {
        lemma_seq_lt_transitive(lower_of(a.name@), lower_of(b.name@), lower_of(c.name@));
    }
}

proof fn lemma_entry_lt_irreflexive(a: FileInfo)
    ensures
        !entry_lt(a, a),
{
    lemma_seq_lt_irreflexive(lower_of(a.name@));
}

fn entry_less(a: &FileInfo, b: &FileInfo) -> (r: bool)
    ensures
        r == entry_lt(*a, *b),
{
    if a.is_directory != b.is_directory {
        return a.is_directory;
    }
    let la = to_lowercase(a.name.as_str());
    let lb = to_lowercase(b.name.as_str());
    str_less(la.as_str(), lb.as_str())
}

/// Sorts a listing, directories first and then by lower-cased name; entries
/// that compare equal keep their order.
pub fn sort_entries(entries: Vec<FileInfo>) -> (r: Vec<FileInfo>)
    ensures
        listing_sorted(r@),
        r@.to_multiset() == entries@.to_multiset(),
{
    let mut out: Vec<FileInfo> = Vec::new();
    let mut rest = entries;
    let ghost input = rest@;
    let total: usize = rest.len();
    let ghost n = input.len();
    let mut i: usize = 0;
    proof {
        vstd::seq_lib::to_multiset_len(input.subrange(0, 0));
        vstd::seq_lib::to_multiset_len(out@);
        vstd::multiset::lemma_multiset_empty_len(input.subrange(0, 0).to_multiset());
        vstd::multiset::lemma_multiset_empty_len(out@.to_multiset());
    }
    assert(input.subrange(0, 0).to_multiset() =~= out@.to_multiset());
    assert(input.subrange(0, n as int) =~= input);
    while rest.len() > 0
        invariant
            i <= n,
            n == input.len(),
            n == total,
            rest@ == input.subrange(i as int, n as int),
            listing_sorted(out@),
            out@.to_multiset() == input.subrange(0, i as int).to_multiset(),
        decreases rest@.len(),
    {
        let x = rest.remove(0);
        assert(x == input[i as int]);
        assert(rest@ =~= input.subrange(i + 1, n as int));
        let mut p: usize = 0;
        while p < out.len()
            invariant
                p <= out@.len(),
                forall|k: int| 0 <= k < p ==> !entry_lt(x, #[trigger] out@[k]),
            ensures
                p <= out@.len(),
                forall|k: int| 0 <= k < p ==> !entry_lt(x, #[trigger] out@[k]),
                p < out@.len() ==> entry_lt(x, out@[p as int]),
            decreases out@.len() - p,
        {
            if entry_less(&x, &out[p]) {
                break;
            }
            p = p + 1;
        }
        let ghost before = out@;
        out.insert(p, x);
        proof {
            let w = out@;
            assert(w =~= before.insert(p as int, x));
            assert forall|a: int, b: int| 0 <= a < b < w.len() implies !entry_lt(w[b], w[a]) by {
                if b < p {
                    assert(w[a] == before[a] && w[b] == before[b]);
                } else if b == p {
                    assert(w[a] == before[a] && w[b] == x);
                } else if a < p {
                    assert(w[a] == before[a] && w[b] == before[b - 1]);
                } else if a == p {
                    assert(w[a] == x && w[b] == before[b - 1]);
                    if entry_lt(before[b - 1], x) {
                        lemma_entry_lt_transitive(before[b - 1], x, before[p as int]);
                        if b - 1 == p {
                            lemma_entry_lt_irreflexive(before[p as int]);
                        }
                    }
                } else {
                    assert(w[a] == before[a - 1] && w[b] == before[b - 1]);
                }
            }
            vstd::seq_lib::to_multiset_insert(before, p as int, x);
            vstd::seq_lib::to_multiset_build(input.subrange(0, i as int), x);
            assert(input.subrange(0, i + 1) =~= input.subrange(0, i as int).push(x));
        }
        i = i + 1;
    }
    assert(i == n);
    assert(input.subrange(0, n as int) =~= input);
    out
}

} // verus!

verus! {

/// The record a raw entry contributes when it lies within the root.
pub open spec fn raw_info(e: RawEntry, root: Seq<char>) -> (Seq<char>, Seq<char>, Option<u64>, Option<i64>, bool, bool) {
    (
        e.name@,
        relative_of(e.path@, root),
        if e.meta.is_file { Some(e.meta.len) } else { None },
        e.meta.modified,
        e.meta.is_dir,
        e.meta.is_file,
    )
}

/// Records of the entries that lie within the root, in the given order;
/// entries outside it are skipped.
pub open spec fn listed(raw: Seq<RawEntry>, root: Seq<char>) -> Seq<(Seq<char>, Seq<char>, Option<u64>, Option<i64>, bool, bool)>
    decreases raw.len(),
{
    if raw.len() == 0 {
        Seq::empty()
    } else if is_within(raw.last().path@, root) {
        listed(raw.drop_last(), root).push(raw_info(raw.last(), root))
    } else {
        listed(raw.drop_last(), root)
    }
}

/// Listing of the directory `dir` (a canonical path below `root`) from the
/// entries read from it: entries outside the root are skipped, the rest are
/// sorted directories first and then by lower-cased name.
pub fn list_directory(dir: &str, root: &str, raw: Vec<RawEntry>) -> (r: DirectoryListing)
    ensures
        r.path@ == relative_of(dir@, root@),
        listing_sorted(r.entries@),
        exists|u: Seq<FileInfo>|
            #[trigger] u.to_multiset() == r.entries@.to_multiset() && u.map_values(|f: FileInfo| info_view(f))
                == listed(raw@, root@),
{
    let mut infos: Vec<FileInfo> = Vec::new();
    let mut i: usize = 0;
    while i < raw.len()
        invariant
            i <= raw@.len(),
            infos@.map_values(|f: FileInfo| info_view(f)) == listed(raw@.subrange(0, i as int), root@),
        decreases raw@.len() - i,
    {
        let e = &raw[i];
        let ghost pre = raw@.subrange(0, i as int);
        assert(raw@.subrange(0, i + 1).drop_last() =~= pre);
        if within_root(e.path.as_str(), root) {
            let info = FileInfo {
                name: to_owned_string(e.name.as_str()),
                path: relative_path(e.path.as_str(), root),
                size: if e.meta.is_file {
                    Some(e.meta.len)
                } else {
                    None
                },
                modified: e.meta.modified,
                is_directory: e.meta.is_dir,
                is_file: e.meta.is_file,
            };
            let ghost before = infos@;
            infos.push(info);
            assert(infos@.map_values(|f: FileInfo| info_view(f)) =~= before.map_values(|f: FileInfo| info_view(f)).push(info_view(info)));
        }
        i = i + 1;
    }
    assert(raw@.subrange(0, raw@.len() as int) =~= raw@);
    let ghost unsorted = infos@;
    let entries = sort_entries(infos);
    DirectoryListing { path: relative_path(dir, root), entries }
}

} // verus!
