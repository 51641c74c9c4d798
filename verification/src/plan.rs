//! The action planner: per-item decisions, computed from plain facts that the
//! caller observed on the filesystem.
//!
//! Planning runs in two stages around the caller's observations. The first
//! stage applies the guard, reads the item's age and computes its destination;
//! the second resolves that destination against what currently exists there.

use vstd::prelude::*;
use crate::classify::pick_bucket;
use crate::classify::pick_index;
use crate::classify::spec_age_days;
use crate::config::BucketConfig;
use crate::paths::has_file_name;
use crate::paths::unique_name_seq;
use crate::planner::compute_dest_path;
use crate::planner::find_unique_dest;
use crate::planner::contains_path;
use crate::planner::occupied_contains;
use crate::planner::spec_dest_path;
use crate::planner::PlanError;
use crate::text::str_eq;

verus! {

/// The caller-supplied options that steer planning.
#[derive(Debug, Clone, Copy)]
pub struct PlanOptions {
    /// Report actions without performing them (the executor's concern; carried
    /// here so one value describes a whole run).
    pub dry_run: bool,
    /// Resolve destination conflicts by numbered renaming instead of failing.
    pub allow_rename: bool,
    /// Permit planning moves of protected directories.
    pub allow_dangerous_directories: bool,
}

/// Why an item was skipped rather than moved.
#[derive(Debug, PartialEq, Eq, Structural, Clone, Copy)]
pub enum SkipReason {
    /// The item's age could not be read from its metadata.
    CannotGetAge,
    /// The item's path has no final name component.
    NoFileName,
}

/// A planned decision for one item: move it, or skip it with a reason. An
/// item already in its correct bucket produces no action at all.
#[derive(Debug)]
pub enum FileAction {
    Move { from: String, to: String },
    Skip { path: String, reason: SkipReason },
}

/// The facts the caller observed about one item before planning: whether the
/// guard flagged its canonical form as protected, and its age in seconds,
/// when its metadata could be read.
#[derive(Debug, Clone, Copy)]
pub struct ItemFacts {
    pub protected: bool,
    pub age_secs: Option<u64>,
}

/// The first planning stage's outcome: either a decision already, or the
/// computed destination path the caller must now probe.
#[derive(Debug)]
pub enum PlanStep {
    Decided(FileAction),
    Probe(String),
}

/// Plans the first stage for one item.
///
/// A protected item stops the run unless dangerous operations are allowed;
/// unreadable metadata or a path without a file name degrade to a per-item
/// skip; otherwise the item is classified by age and its destination is
/// handed back for probing.
pub fn plan_action(
    path: &str,
    target_dir: &str,
    options: &PlanOptions,
    bucket_config: &BucketConfig,
    facts: &ItemFacts,
) -> (r: Result<PlanStep, PlanError>)
    requires
        bucket_config.buckets@.len() > 0,
    ensures
        ({
            let guard_stop = facts.protected && !options.allow_dangerous_directories;
            match r {
                Err(e) => guard_stop && (e matches PlanError::ProtectedDirectory(p) && p@
                    == path@),
                Ok(PlanStep::Decided(a)) => !guard_stop && (a matches FileAction::Skip {
                    path: sp,
                    reason,
                } && sp@ == path@ && ((facts.age_secs is None && reason is CannotGetAge) || (
                facts.age_secs is Some && !has_file_name(path@) && reason is NoFileName))),
                Ok(PlanStep::Probe(d)) => !guard_stop && facts.age_secs is Some
                    && has_file_name(path@) && d@ == spec_dest_path(
                    path@,
                    target_dir@,
                    bucket_config.buckets@[pick_index(
                        bucket_config.buckets@,
                        spec_age_days(facts.age_secs->0),
                    )].name@,
                    bucket_config.base_folder@,
                ),
            }
        }),
{
    if facts.protected && !options.allow_dangerous_directories {
        return Err(PlanError::ProtectedDirectory(String::from_str(path)));
    }
    let age_secs: u64 = match facts.age_secs {
        Some(a) => a,
        None => {
            return Ok(
                PlanStep::Decided(
                    FileAction::Skip {
                        path: String::from_str(path),
                        reason: SkipReason::CannotGetAge,
                    },
                ),
            );
        },
    };
    let bucket = pick_bucket(age_secs, bucket_config);
    match compute_dest_path(path, target_dir, bucket, bucket_config) {
        Some(dest) => Ok(PlanStep::Probe(dest)),
        None => Ok(
            PlanStep::Decided(
                FileAction::Skip { path: String::from_str(path), reason: SkipReason::NoFileName },
            ),
        ),
    }
}

/// Resolves a probed destination against live observations: whether source
/// and destination canonicalize to the same location, and a snapshot of the
/// occupied paths in the destination directory.
///
/// An item already at its destination — its path literally equal to the
/// destination, or the two observed to canonicalize alike — needs no action,
/// which is what makes an immediately repeated run plan zero further moves.
/// A free destination is taken as is. An occupied one is renamed when
/// renaming is allowed, and otherwise stops the run as a conflict.
pub fn resolve_destination(
    source: &str,
    dest: &str,
    allow_rename: bool,
    same_location: bool,
    occupied: &Vec<String>,
) -> (r: Result<Option<FileAction>, PlanError>)
    requires
        has_file_name(dest@),
    ensures
        ({
            let in_place = same_location || source@ == dest@;
            &&& (in_place ==> r matches Ok(None))
            &&& (!in_place && !occupied_contains(occupied@, dest@) ==> r is Ok)
            &&& (!in_place && occupied_contains(occupied@, dest@) && !allow_rename ==> r is Err)
            &&& (!in_place && occupied_contains(occupied@, dest@) && allow_rename ==> (r is Err
                <==> forall|j: nat|
                1 <= j <= 9999 ==> occupied_contains(occupied@, unique_name_seq(dest@, j))))
            &&& match r {
                Ok(opt) => match opt {
                    None => in_place,
                    Some(a) => !in_place && (a matches FileAction::Move { from, to } && from@
                        == source@ && !occupied_contains(occupied@, to@) && (if !occupied_contains(
                        occupied@,
                        dest@,
                    ) {
                        to@ == dest@
                    } else {
                        allow_rename && exists|k: nat|
                            1 <= k <= 9999 && to@ == unique_name_seq(dest@, k) && (forall|j: nat|
                                1 <= j < k ==> occupied_contains(
                                    occupied@,
                                    unique_name_seq(dest@, j),
                                ))
                    })),
                },
                Err(e) => !in_place && occupied_contains(occupied@, dest@) && ((e
                    matches PlanError::Conflict(d, s) && !allow_rename && d@ == dest@ && s@
                    == source@) || (e matches PlanError::RenameExhausted(last) && allow_rename
                    && last@ == unique_name_seq(dest@, 9999))),
            }
        }),
{
    if same_location {
        return Ok(None);
    }
    if str_eq(source, dest) {
        return Ok(None);
    }
    if !contains_path(occupied, dest) {
        return Ok(
            Some(
                FileAction::Move { from: String::from_str(source), to: String::from_str(dest) },
            ),
        );
    }
    if !allow_rename {
        return Err(PlanError::Conflict(String::from_str(dest), String::from_str(source)));
    }
    match find_unique_dest(dest, occupied) {
        Ok(t) => Ok(Some(FileAction::Move { from: String::from_str(source), to: t })),
        Err(e) => Err(e),
    }
}

/// The reported outcome of executing one move, from which filesystem steps
/// succeeded. The copy-succeeded-but-remove-failed state is distinct because
/// the data then exists in both places, and a caller must warn rather than
/// claim plain success or plain failure.
#[derive(Debug, PartialEq, Eq, Structural, Clone, Copy)]
pub enum MoveOutcome {
    /// The atomic rename succeeded.
    Renamed,
    /// The fallback copy and the removal of the source both succeeded.
    CopiedAndRemoved,
    /// The copy succeeded but the source could not be removed: both the
    /// source and the destination now hold the data.
    CopiedSourceRemains,
    /// The copy failed; the source is untouched.
    CopyFailed,
}

/// Classifies the outcome of one move from the caller's step results: whether
/// the rename succeeded, whether the fallback copy succeeded (when one was
/// attempted), and whether removing the source succeeded (when removal was
/// attempted).
pub fn move_outcome(rename_ok: bool, copy_ok: Option<bool>, remove_ok: Option<bool>) -> (r:
    MoveOutcome)
    requires
        rename_ok <==> copy_ok is None,
        copy_ok == Some(true) <==> remove_ok is Some,
    ensures
        r is Renamed <==> rename_ok,
        r is CopiedAndRemoved <==> (!rename_ok && copy_ok == Some(true) && remove_ok == Some(
            true,
        )),
        r is CopiedSourceRemains <==> (!rename_ok && copy_ok == Some(true) && remove_ok == Some(
            false,
        )),
        r is CopyFailed <==> (!rename_ok && copy_ok == Some(false)),
{
    if rename_ok {
        MoveOutcome::Renamed
    } else {
        match copy_ok {
            Some(true) => {
                match remove_ok {
                    Some(true) => MoveOutcome::CopiedAndRemoved,
                    _ => MoveOutcome::CopiedSourceRemains,
                }
            },
            _ => MoveOutcome::CopyFailed,
        }
    }
}

} // verus!
