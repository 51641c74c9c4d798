//! The path planner: the base folder path, per-bucket destination
//! directories, per-item destination paths, bucket-directory recognition, and
//! deterministic unique-name search against a snapshot of occupied paths.

use vstd::prelude::*;
use crate::config::BucketConfig;
use crate::config::BucketDef;
use crate::paths::file_name_of;
use crate::paths::generate_unique_name;
use crate::paths::has_file_name;
use crate::paths::join_seq;
use crate::paths::lemma_join_file_name;
use crate::paths::lemma_suffix_start_at;
use crate::paths::lemma_suffix_start_bounds;
use crate::paths::name_start;
use crate::paths::path_file_name;
use crate::paths::path_join;
use crate::paths::unique_name_seq;
use crate::text::last_index_of;
use crate::text::str_eq;

verus! {

/// Errors that abort planning for safety or data-loss reasons.
#[derive(Debug)]
pub enum PlanError {
    /// The source is a protected directory and dangerous operations were not
    /// allowed; carries the path.
    ProtectedDirectory(String),
    /// The destination exists and renaming is disabled; carries the
    /// destination and the source.
    Conflict(String, String),
    /// Every numbered rename candidate was taken; carries the last candidate
    /// tried.
    RenameExhausted(String),
}

/// Computes the base folder path inside the target directory.
pub fn refile_base_path(target_dir: &str, bucket_config: &BucketConfig) -> (r: String)
    ensures
        r@ == join_seq(target_dir@, bucket_config.base_folder@),
{
    path_join(target_dir, bucket_config.base_folder.as_str())
}

/// Computes the destination directory for a bucket:
/// `target_dir/base_folder/bucket_name`.
pub fn bucket_dest_dir(target_dir: &str, bucket: &BucketDef, bucket_config: &BucketConfig) -> (r:
    String)
    ensures
        r@ == join_seq(join_seq(target_dir@, bucket_config.base_folder@), bucket.name@),
{
    let base = refile_base_path(target_dir, bucket_config);
    path_join(base.as_str(), bucket.name.as_str())
}

/// The destination for `source` in a bucket: the bucket directory joined with
/// the source's final path component.
pub open spec fn spec_dest_path(
    source: Seq<char>,
    target: Seq<char>,
    bucket_name: Seq<char>,
    base_folder: Seq<char>,
) -> Seq<char> {
    join_seq(join_seq(join_seq(target, base_folder), bucket_name), file_name_of(source))
}

/// Computes the full destination path for `source` in the given bucket, or
/// `None` when the source has no final path component.
pub fn compute_dest_path(
    source: &str,
    target_dir: &str,
    bucket: &BucketDef,
    bucket_config: &BucketConfig,
) -> (r: Option<String>)
    ensures
        match r {
            Some(d) => has_file_name(source@) && d@ == spec_dest_path(
                source@,
                target_dir@,
                bucket.name@,
                bucket_config.base_folder@,
            ),
            None => !has_file_name(source@),
        },
{
    match path_file_name(source) {
        Some(nm) => {
            let dir = bucket_dest_dir(target_dir, bucket, bucket_config);
            Some(path_join(dir.as_str(), nm.as_str()))
        },
        None => None,
    }
}

/// Round-trip: the destination's final component is exactly the source's file
/// name, for any source that has one.
pub proof fn lemma_dest_path_round_trip(
    source: Seq<char>,
    target: Seq<char>,
    bucket_name: Seq<char>,
    base_folder: Seq<char>,
)
    requires
        has_file_name(source),
    ensures
        has_file_name(spec_dest_path(source, target, bucket_name, base_folder)),
        file_name_of(spec_dest_path(source, target, bucket_name, base_folder)) == file_name_of(
            source,
        ),
{
    lemma_suffix_start_bounds(source, '/');
    let nm = file_name_of(source);
    assert(forall|j: int|
        0 <= j < nm.len() ==> nm[j] == source[name_start(source) + j] && nm[j] != '/');
    lemma_join_file_name(join_seq(join_seq(target, base_folder), bucket_name), nm);
}

/// Replanning stability: an item sitting at its computed destination computes
/// that same path as its destination again, so an unchanged classification
/// plans no further move.
pub proof fn lemma_dest_path_stable(
    source: Seq<char>,
    target: Seq<char>,
    bucket_name: Seq<char>,
    base_folder: Seq<char>,
)
    requires
        has_file_name(source),
    ensures
        spec_dest_path(
            spec_dest_path(source, target, bucket_name, base_folder),
            target,
            bucket_name,
            base_folder,
        ) == spec_dest_path(source, target, bucket_name, base_folder),
{
    lemma_dest_path_round_trip(source, target, bucket_name, base_folder);
}

/// A path names a bucket directory when its parent's final component is the
/// base folder and its own final component is a configured bucket name.
pub open spec fn spec_is_bucket_dir(path: Seq<char>, c: BucketConfig) -> bool {
    let ns = name_start(path);
    &&& has_file_name(path)
    &&& ns > 0
    &&& has_file_name(path.subrange(0, ns - 1))
    &&& file_name_of(path.subrange(0, ns - 1)) == c.base_folder@
    &&& exists|i: int|
        0 <= i < c.buckets@.len() && c.buckets@[i].name@ == file_name_of(path)
}

/// Checks whether `path` is a bucket directory of this configuration: its
/// parent directory is named like the base folder and its own name is one of
/// the configured bucket names.
pub fn is_bucket_dir(path: &str, bucket_config: &BucketConfig) -> (r: bool)
    ensures
        r == spec_is_bucket_dir(path@, *bucket_config),
{
    let n = path.unicode_len();
    match last_index_of(path, '/') {
        None => {
            proof {
                lemma_suffix_start_at(path@, '/', 0);
            }
            false
        },
        Some(sl) => {
            proof {
                lemma_suffix_start_at(path@, '/', (sl + 1) as nat);
            }
            if sl + 1 == n {
                return false;
            }
            let dir_name = path.substring_char(sl + 1, n);
            let parent = path.substring_char(0, sl);
            match path_file_name(parent) {
                None => false,
                Some(pn) => {
                    if !str_eq(pn.as_str(), bucket_config.base_folder.as_str()) {
                        return false;
                    }
                    let m = bucket_config.buckets.len();
                    let mut i: usize = 0;
                    while i < m
                        invariant
                            i <= m,
                            m == bucket_config.buckets@.len(),
                            dir_name@ == file_name_of(path@),
                            has_file_name(path@),
                            name_start(path@) > 0,
                            has_file_name(path@.subrange(0, name_start(path@) - 1)),
                            file_name_of(path@.subrange(0, name_start(path@) - 1))
                                == bucket_config.base_folder@,
                            forall|j: int|
                                0 <= j < i ==> bucket_config.buckets@[j].name@ != dir_name@,
                        decreases m - i,
                    {
                        if str_eq(bucket_config.buckets[i].name.as_str(), dir_name) {
                            return true;
                        }
                        i = i + 1;
                    }
                    false
                },
            }
        },
    }
}

/// Whether the snapshot of occupied paths contains `p`.
pub open spec fn occupied_contains(occ: Seq<String>, p: Seq<char>) -> bool {
    exists|i: int| 0 <= i < occ.len() && occ[i]@ == p
}

/// Checks whether the snapshot of occupied paths contains `p`.
pub fn contains_path(occupied: &Vec<String>, p: &str) -> (r: bool)
    ensures
        r == occupied_contains(occupied@, p@),
{
    let m = occupied.len();
    let mut i: usize = 0;
    while i < m
        invariant
            i <= m,
            m == occupied@.len(),
            forall|j: int| 0 <= j < i ==> occupied@[j]@ != p@,
        decreases m - i,
    {
        if str_eq(occupied[i].as_str(), p) {
            return true;
        }
        i = i + 1;
    }
    false
}

/// Finds an unoccupied destination path, given a point-in-time snapshot of
/// the occupied paths.
///
/// A base path not in the snapshot is returned unchanged. Otherwise numbered
/// variants `base (1)`, `base (2)`, ... are tried in order up to suffix 9999;
/// the first free one wins, and when all are taken the search fails naming
/// the last candidate tried.
pub fn find_unique_dest(base: &str, occupied: &Vec<String>) -> (r: Result<String, PlanError>)
    requires
        has_file_name(base@),
    ensures
        !occupied_contains(occupied@, base@) ==> (r matches Ok(p) && p@ == base@),
        r matches Ok(p) ==> !occupied_contains(occupied@, p@),
        r matches Ok(p) ==> (p@ == base@ || (occupied_contains(occupied@, base@)
            && exists|k: nat|
            1 <= k <= 9999 && p@ == unique_name_seq(base@, k) && (forall|j: nat|
                1 <= j < k ==> occupied_contains(occupied@, unique_name_seq(base@, j))))),
        r is Err <==> (occupied_contains(occupied@, base@) && forall|j: nat|
            1 <= j <= 9999 ==> occupied_contains(occupied@, unique_name_seq(base@, j))),
        r matches Err(e) ==> (e matches PlanError::RenameExhausted(last) && last@
            == unique_name_seq(base@, 9999)),
{
    if !contains_path(occupied, base) {
        return Ok(String::from_str(base));
    }
    let mut k: usize = 1;
    while k < 10000
        invariant
            1 <= k <= 10000,
            has_file_name(base@),
            occupied_contains(occupied@, base@),
            forall|j: nat| 1 <= j < k ==> occupied_contains(occupied@, unique_name_seq(base@, j)),
        decreases 10000 - k,
    {
        let candidate = generate_unique_name(base, k);
        if !contains_path(occupied, candidate.as_str()) {
            return Ok(candidate);
        }
        k = k + 1;
    }
    let last = generate_unique_name(base, 9999);
    Err(PlanError::RenameExhausted(last))
}

} // verus!
