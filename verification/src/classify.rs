//! The classifier: maps an item's age to a bucket.
//!
//! Buckets are searched in configuration order; the first bucket whose age
//! limit admits the item (or the first catch-all) wins, and an age exactly at
//! a limit still belongs to that bucket. If no bucket admits the age the last
//! bucket is a defensive fallback.

use vstd::prelude::*;
use crate::config::BucketConfig;
use crate::config::BucketDef;

verus! {

/// The index of the bucket that `age_days` classifies into: the first bucket
/// that accepts it, or the last bucket when none does.
pub open spec fn pick_index(bs: Seq<BucketDef>, age_days: nat) -> int
    decreases bs.len(),
{
    if bs.len() <= 1 {
        0
    } else if bs[0].accepts(age_days) {
        0
    } else {
        1 + pick_index(bs.subrange(1, bs.len() as int), age_days)
    }
}

pub proof fn lemma_pick_index_bounds(bs: Seq<BucketDef>, age_days: nat)
    requires
        bs.len() > 0,
    ensures
        0 <= pick_index(bs, age_days) < bs.len(),
    decreases bs.len(),
{
    if bs.len() > 1 && !bs[0].accepts(age_days) {
        lemma_pick_index_bounds(bs.subrange(1, bs.len() as int), age_days);
    }
}

/// `pick_index` lands on `i` exactly when nothing before `i` accepts the age
/// and either `i` accepts it or `i` is the final fallback.
pub proof fn lemma_pick_index_at(bs: Seq<BucketDef>, age_days: nat, i: int)
    requires
        0 <= i < bs.len(),
        forall|j: int| 0 <= j < i ==> !bs[j].accepts(age_days),
        bs[i].accepts(age_days) || i == bs.len() - 1,
    ensures
        pick_index(bs, age_days) == i,
    decreases bs.len(),
{
    if bs.len() > 1 && !bs[0].accepts(age_days) {
        let t = bs.subrange(1, bs.len() as int);
        assert(forall|j: int| 0 <= j < t.len() ==> t[j] == bs[j + 1]);
        lemma_pick_index_at(t, age_days, i - 1);
    }
}

/// Seconds per day: ages in seconds are converted to whole days by truncating
/// division.
pub open spec fn spec_age_days(age_secs: u64) -> nat {
    (age_secs / 86400) as nat
}

/// Determines which bucket an item belongs to based on its age.
///
/// The age is given in seconds and truncated to whole days. Buckets are tried
/// in configuration order; the first whose `max_age_days` is at least the age
/// in days (or the first catch-all) is returned, with the last bucket as a
/// fallback when none matches.
pub fn pick_bucket(age_secs: u64, bucket_config: &BucketConfig) -> (r: &BucketDef)
    requires
        bucket_config.buckets@.len() > 0,
    ensures
        *r == bucket_config.buckets@[pick_index(bucket_config.buckets@, spec_age_days(age_secs))],
{
    let age_days = age_secs / (24 * 3600);
    let ghost bs = bucket_config.buckets@;
    let ghost a = spec_age_days(age_secs);
    let m = bucket_config.buckets.len();
    let mut i: usize = 0;
    while i < m
        invariant
            0 <= i <= m,
            m == bs.len(),
            m > 0,
            bs == bucket_config.buckets@,
            a == age_days as nat,
            a == spec_age_days(age_secs),
            forall|j: int| 0 <= j < i ==> !bs[j].accepts(a),
        decreases m - i,
    {
        let bucket = &bucket_config.buckets[i];
        match bucket.max_age_days {
            Some(max_days) => {
                if age_days <= max_days {
                    proof {
                        lemma_pick_index_at(bs, a, i as int);
                    }
                    return bucket;
                }
            },
            None => {
                proof {
                    lemma_pick_index_at(bs, a, i as int);
                }
                return bucket;
            },
        }
        i = i + 1;
    }
    proof {
        lemma_pick_index_at(bs, a, m - 1);
    }
    &bucket_config.buckets[m - 1]
}

/// Classification is monotonic in age: for any bucket list, an older item
/// never classifies into an earlier bucket than a younger one.
pub proof fn lemma_pick_index_monotonic(bs: Seq<BucketDef>, a1: nat, a2: nat)
    requires
        bs.len() > 0,
        a1 <= a2,
    ensures
        pick_index(bs, a1) <= pick_index(bs, a2),
    decreases bs.len(),
{
    if bs.len() > 1 {
        if bs[0].accepts(a2) {
            match bs[0].max_age_days {
                Some(m) => {
                    assert(bs[0].accepts(a1));
                },
                None => {
                },
            }
        } else {
            if bs[0].accepts(a1) {
                lemma_pick_index_bounds(bs.subrange(1, bs.len() as int), a2);
            } else {
                lemma_pick_index_monotonic(bs.subrange(1, bs.len() as int), a1, a2);
            }
        }
    }
}

/// The boundary law: when every bucket before position `i` has a defined age
/// limit and limits ascend strictly, an age exactly equal to bucket `i`'s
/// limit classifies into bucket `i`, not a later one.
pub proof fn lemma_pick_index_boundary(bs: Seq<BucketDef>, i: int, d: u64)
    requires
        0 <= i < bs.len(),
        bs[i].max_age_days == Some(d),
        forall|j: int| 0 <= j < i ==> bs[j].max_age_days is Some,
        forall|j: int, k: int|
            0 <= j < k < bs.len() && bs[j].max_age_days is Some && bs[k].max_age_days is Some
                ==> bs[j].max_age_days->0 < bs[k].max_age_days->0,
    ensures
        pick_index(bs, d as nat) == i,
{
    assert forall|j: int| 0 <= j < i implies !bs[j].accepts(d as nat) by {
        assert(bs[j].max_age_days->0 < d);
    }
    assert(bs[i].accepts(d as nat));
    lemma_pick_index_at(bs, d as nat, i);
}

} // verus!
