//! The guard: protected-location checks.
//!
//! The checks are stated over canonical path strings; the caller resolves
//! symlinks and reads the home directory, handing the results in as plain
//! values, so the decision itself is deterministic.

use vstd::prelude::*;
use crate::config::spec_opt_str;
use crate::text::last_index_of;
use crate::text::str_eq;

verus! {

/// A direct child of the filesystem root: `/name` with no further separator.
pub open spec fn spec_is_top_level(path: Seq<char>) -> bool {
    path.len() >= 2 && path[0] == '/' && forall|j: int| 1 <= j < path.len() ==> path[j] != '/'
}

/// A canonical path is protected when it is the filesystem root, the user's
/// home directory, or a top-level directory (a direct child of the root).
pub open spec fn spec_is_protected(path: Seq<char>, home: Option<Seq<char>>) -> bool {
    ||| path == "/"@
    ||| (home is Some && path == home->0)
    ||| spec_is_top_level(path)
}

/// Checks whether a path is a protected directory that must not be moved:
/// the root, the home directory, or a top-level directory. Subdirectories of
/// top-level directories are not protected.
///
/// `path` and `home` are expected in canonical form (no trailing separator);
/// the caller canonicalizes where possible and passes the literal path
/// otherwise.
pub fn is_protected_directory(path: &str, home: Option<&str>) -> (r: bool)
    ensures
        r == spec_is_protected(path@, spec_opt_str(home)),
{
    if str_eq(path, "/") {
        return true;
    }
    match home {
        Some(h) => {
            if str_eq(path, h) {
                return true;
            }
        },
        None => {},
    }
    let n = path.unicode_len();
    if n >= 2 {
        match last_index_of(path, '/') {
            Some(i) => {
                if i == 0 {
                    return true;
                }
            },
            None => {},
        }
    }
    false
}

/// Compares two canonicalization outcomes, conservatively: paths count as
/// equal only when both canonicalized and the canonical forms agree. A path
/// that could not be resolved is never equal to anything, since its real
/// location is unknown.
pub fn paths_equal(a: Option<&String>, b: Option<&String>) -> (r: bool)
    ensures
        r == (a is Some && b is Some && a->0@ == b->0@),
{
    match (a, b) {
        (Some(x), Some(y)) => str_eq(x.as_str(), y.as_str()),
        _ => false,
    }
}

} // verus!
