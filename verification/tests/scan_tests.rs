use refile::config::BucketConfig;
use refile::scan::scan_decision;
use refile::scan::ScanDecision;

fn default_config() -> BucketConfig {
    BucketConfig::default()
}

#[test]
fn test_scan_decision_top_level() {
    let config = default_config();
    let base = "/s/refile";

    // The base folder itself is expanded; everything else is an item.
    assert_eq!(
        scan_decision("/s/refile", base, false, true, &config),
        ScanDecision::ExpandBase
    );
    assert_eq!(
        scan_decision("/s/notes.txt", base, false, false, &config),
        ScanDecision::Item
    );
    assert_eq!(
        scan_decision("/s/project", base, false, true, &config),
        ScanDecision::Item
    );
}

#[test]
fn test_scan_decision_under_base() {
    let config = default_config();
    let base = "/s/refile";

    // Bucket directories are expanded one level further.
    assert_eq!(
        scan_decision("/s/refile/last-week", base, true, true, &config),
        ScanDecision::ExpandBucket
    );
    assert_eq!(
        scan_decision("/s/refile/old-stuff", base, true, true, &config),
        ScanDecision::ExpandBucket
    );

    // Stray entries directly under the base folder are items: a file named
    // like a bucket, a renamed directory, or anything else.
    assert_eq!(
        scan_decision("/s/refile/last-week", base, true, false, &config),
        ScanDecision::Item
    );
    assert_eq!(
        scan_decision("/s/refile/misplaced.txt", base, true, false, &config),
        ScanDecision::Item
    );
    assert_eq!(
        scan_decision("/s/refile/renamed-bucket", base, true, true, &config),
        ScanDecision::Item
    );
}

#[test]
fn test_scan_decision_bucket_lookalike_at_top_level() {
    // A directory that merely looks like a bucket path is an ordinary item
    // at the top level of the source directory.
    let config = default_config();
    assert_eq!(
        scan_decision("/s/refile/last-week", "/s/refile/refile", false, true, &config),
        ScanDecision::Item
    );
}
