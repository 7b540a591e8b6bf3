//! Confining request paths to the content root.
//!
//! Canonicalizing a path reads the file system, so the caller performs it and
//! hands over the outcome as a [`Lookup`]; the decisions are made here.

use vstd::prelude::*;
use crate::error::{AppError, IoKind};
use crate::text::{has_prefix, starts_with_str, trim, trimmed, to_owned_string};

verus! {

/// What kind of file-system object a resolved path names.
#[derive(Clone, Copy, Debug, PartialEq, Eq)]
pub enum EntryKind {
    File,
    Directory,
    Other,
}

/// Outcome of canonicalizing `root` joined with a request path: the
/// canonical path and its kind, a missing target, or another I/O failure.
#[derive(Clone, Debug, PartialEq, Eq)]
pub enum Lookup {
    Found(String, EntryKind),
    Missing,
    Failed(IoKind, String),
}

/// Why a request path was refused.
#[derive(Clone, Debug, PartialEq, Eq)]
pub enum ValidationError {
    Empty,
    Traversal(String),
    NotFound,
    NotFile,
    NotDirectory,
    IoError(AppError),
}

/// `p` is `root` or lies below it, component-wise (`/srv/public2` is not
/// below `/srv/public`).
pub open spec fn is_within(p: Seq<char>, root: Seq<char>) -> bool {
    p == root || (root.len() > 0 && p.len() > root.len() && has_prefix(p, root) && (root.last() == '/'
        || p[root.len() as int] == '/'))
}

/// Whether the canonical path `p` lies within the canonical root.
pub fn within_root(p: &str, root: &str) -> (r: bool)
    ensures
        r == is_within(p@, root@),
{
    let lp = p.unicode_len();
    let lr = root.unicode_len();
    if lp == lr {
        let same = starts_with_str(p, root);
        assert(same ==> p@ =~= root@);
        assert(p@ == root@ ==> p@.subrange(0, lr as int) =~= root@);
        return same;
    }
    if lr == 0 || lp < lr {
        assert(p@ != root@);
        return false;
    }
    if !starts_with_str(p, root) {
        return false;
    }
    root.get_char(lr - 1) == '/' || p.get_char(lr) == '/'
}

/// The outcome of the shared checks: a blank request, then the lookup, then
/// confinement to the root.
pub open spec fn base_check(path: Seq<char>, root: Seq<char>, lookup: Lookup) -> Result<Seq<char>, ValidationError> {
    if trimmed(path).len() == 0 {
        Err(ValidationError::Empty)
    } else {
        match lookup {
            Lookup::Missing => Err(ValidationError::NotFound),
            Lookup::Failed(kind, msg) => Err(ValidationError::IoError(AppError::Io(kind, msg))),
            Lookup::Found(p, _) => if is_within(p@, root) {
                Ok(p@)
            } else {
                Err(ValidationError::Traversal(p))
            },
        }
    }
}

pub open spec fn result_view(r: Result<String, ValidationError>) -> Result<Seq<char>, ValidationError> {
    match r {
        Ok(p) => Ok(p@),
        Err(e) => Err(e),
    }
}

/// Validates a request path against the content root. A blank path is
/// `Empty`; a missing target `NotFound`; any other I/O failure `IoError`; a
/// canonical target outside the root `Traversal`, so nothing outside the root
/// is ever handed back.
pub fn validate_path_base(path: &str, root: &str, lookup: &Lookup) -> (r: Result<String, ValidationError>)
    ensures
        result_view(r) == base_check(path@, root@, *lookup),
{
    if trim(path).unicode_len() == 0 {
        return Err(ValidationError::Empty);
    }
    match lookup {
        Lookup::Missing => Err(ValidationError::NotFound),
        Lookup::Failed(kind, msg) => Err(ValidationError::IoError(AppError::Io(*kind, msg.clone()))),
        Lookup::Found(p, _) => {
            if within_root(p.as_str(), root) {
                Ok(p.clone())
            } else {
                Err(ValidationError::Traversal(p.clone()))
            }
        },
    }
}

/// Like [`validate_path_base`], and the target must be a regular file.
pub fn validate_and_resolve_path(path: &str, root: &str, lookup: &Lookup) -> (r: Result<String, ValidationError>)
    ensures
        result_view(r) == match base_check(path@, root@, *lookup) {
            Ok(p) => if lookup matches Lookup::Found(_, EntryKind::File) {
                Ok(p)
            } else {
                Err(ValidationError::NotFile)
            },
            Err(e) => Err(e),
        },
{
    let resolved = validate_path_base(path, root, lookup)?;
    match lookup {
        Lookup::Found(_, EntryKind::File) => Ok(resolved),
        _ => Err(ValidationError::NotFile),
    }
}

/// Like [`validate_path_base`]: any kind of target is accepted.
pub fn validate_and_resolve_any_path(path: &str, root: &str, lookup: &Lookup) -> (r: Result<String, ValidationError>)
    ensures
        result_view(r) == base_check(path@, root@, *lookup),
{
    validate_path_base(path, root, lookup)
}

/// Like [`validate_path_base`], and the target must be a directory.
pub fn validate_and_resolve_directory_path(path: &str, root: &str, lookup: &Lookup) -> (r: Result<String, ValidationError>)
    ensures
        result_view(r) == match base_check(path@, root@, *lookup) {
            Ok(p) => if lookup matches Lookup::Found(_, EntryKind::Directory) {
                Ok(p)
            } else {
                Err(ValidationError::NotDirectory)
            },
            Err(e) => Err(e),
        },
{
    let resolved = validate_path_base(path, root, lookup)?;
    match lookup {
        Lookup::Found(_, EntryKind::Directory) => Ok(resolved),
        _ => Err(ValidationError::NotDirectory),
    }
}

/// `p` relative to `root`: empty for the root itself, the part after the
/// separator for a path below it, and `p` unchanged otherwise.
pub open spec fn relative_of(p: Seq<char>, root: Seq<char>) -> Seq<char> {
    if p == root {
        Seq::empty()
    } else if is_within(p, root) {
        if root.last() == '/' {
            p.subrange(root.len() as int, p.len() as int)
        } else {
            p.subrange(root.len() as int + 1, p.len() as int)
        }
    } else {
        p
    }
}

/// Strips the root from a canonical path.
pub fn relative_path(p: &str, root: &str) -> (r: String)
    ensures
        r@ == relative_of(p@, root@),
{
    if !within_root(p, root) {
        return to_owned_string(p);
    }
    let lp = p.unicode_len();
    let lr = root.unicode_len();
    if lp == lr {
        return String::new();
    }
    let start = if root.get_char(lr - 1) == '/' {
        lr
    } else {
        lr + 1
    };
    to_owned_string(p.substring_char(start, lp))
}

/// The last component of a path: what follows the final `/`.
pub open spec fn last_segment(p: Seq<char>) -> Seq<char>
    decreases p.len(),
{
    if p.len() == 0 || p.last() == '/' {
        Seq::empty()
    } else {
        last_segment(p.drop_last()).push(p.last())
    }
}

/// The file name of a canonical path (empty for the root directory).
pub fn file_name(p: &str) -> (r: String)
    ensures
        r@ == last_segment(p@),
{
    let n = p.unicode_len();
    let mut start: usize = n;
    assert(p@.subrange(0, n as int) =~= p@);
    assert(p@.subrange(n as int, n as int) =~= Seq::<char>::empty());
    assert(last_segment(p@) + Seq::<char>::empty() =~= last_segment(p@));
    while start > 0 && p.get_char(start - 1) != '/'
        invariant
            n == p@.len(),
            start <= n,
            last_segment(p@) == last_segment(p@.subrange(0, start as int)) + p@.subrange(start as int, n as int),
        decreases start,
    {
        let ghost pre = p@.subrange(0, start as int);
        assert(pre.drop_last() =~= p@.subrange(0, start - 1));
        assert(p@.subrange(start - 1, n as int) =~= seq![pre.last()] + p@.subrange(start as int, n as int));
        assert(last_segment(pre) == last_segment(pre.drop_last()).push(pre.last()));
        assert(last_segment(pre.drop_last()).push(pre.last()) + p@.subrange(start as int, n as int)
            =~= last_segment(pre.drop_last()) + p@.subrange(start - 1, n as int));
        start = start - 1;
    }
    assert(p@.subrange(0, n as int) =~= p@);
    assert(last_segment(p@.subrange(0, start as int)) =~= Seq::<char>::empty());
    assert(Seq::<char>::empty() + p@.subrange(start as int, n as int) =~= p@.subrange(start as int, n as int));
    to_owned_string(p.substring_char(start, n))
}

} // verus!
