//! The scanner's decision rule.
//!
//! The scanner lists the source directory and treats every child as a
//! candidate item, except the base folder itself: that is expanded one level,
//! where bucket directories are expanded once more (their children become
//! candidates, so previously bucketed items are re-evaluated on every run)
//! and stray entries are candidates themselves. The directory walking is the
//! caller's; the decision for each entry is made here.

use vstd::prelude::*;
use crate::config::BucketConfig;
use crate::planner::is_bucket_dir;
use crate::planner::spec_is_bucket_dir;
use crate::text::str_eq;

verus! {

/// How the scanner treats one directory entry.
#[derive(Debug, PartialEq, Eq, Structural, Clone, Copy)]
pub enum ScanDecision {
    /// The base folder itself: expand it instead of treating it as an item.
    ExpandBase,
    /// A bucket directory directly under the base folder: its children
    /// become candidate items.
    ExpandBucket,
    /// A candidate item.
    Item,
}

/// Decides how the scanner treats one entry. At the top level of the source
/// directory only the base folder is expanded; directly under the base
/// folder, bucket directories are expanded one level and everything else —
/// stray files and directories alike — is a candidate item.
pub fn scan_decision(
    path: &str,
    refile_base: &str,
    under_base: bool,
    is_dir: bool,
    bucket_config: &BucketConfig,
) -> (r: ScanDecision)
    ensures
        r is ExpandBase <==> (!under_base && path@ == refile_base@),
        r is ExpandBucket <==> (under_base && is_dir && spec_is_bucket_dir(
            path@,
            *bucket_config,
        )),
        r is Item <==> !(!under_base && path@ == refile_base@) && !(under_base && is_dir
            && spec_is_bucket_dir(path@, *bucket_config)),
{
    if !under_base {
        if str_eq(path, refile_base) {
            ScanDecision::ExpandBase
        } else {
            ScanDecision::Item
        }
    } else {
        if is_dir && is_bucket_dir(path, bucket_config) {
            ScanDecision::ExpandBucket
        } else {
            ScanDecision::Item
        }
    }
}

} // verus!
