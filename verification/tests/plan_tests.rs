use refile::config::BucketConfig;
use refile::guard::is_protected_directory;
use refile::guard::paths_equal;
use refile::plan::move_outcome;
use refile::plan::plan_action;
use refile::plan::resolve_destination;
use refile::plan::FileAction;
use refile::plan::ItemFacts;
use refile::plan::MoveOutcome;
use refile::plan::PlanOptions;
use refile::plan::PlanStep;
use refile::plan::SkipReason;
use refile::planner::PlanError;

const SECONDS_PER_DAY: u64 = 24 * 3600;

fn default_config() -> BucketConfig {
    BucketConfig::default()
}

fn options(allow_rename: bool, allow_dangerous: bool) -> PlanOptions {
    PlanOptions {
        dry_run: false,
        allow_rename,
        allow_dangerous_directories: allow_dangerous,
    }
}

fn facts_for(path: &str, age_days: u64) -> ItemFacts {
    ItemFacts {
        protected: is_protected_directory(path, None),
        age_secs: Some(age_days * SECONDS_PER_DAY),
    }
}

#[test]
fn test_is_protected_directory_root() {
    // Root directory should be protected
    assert!(is_protected_directory("/", None));
}

#[test]
fn test_is_protected_directory_home() {
    // Home directory should be protected when the home path is known
    assert!(is_protected_directory("/home/user", Some("/home/user")));
    assert!(!is_protected_directory("/home/user/downloads", Some("/home/user")));
}

#[test]
fn test_is_protected_directory_top_level() {
    // Top-level directories (direct children of root) should be protected
    assert!(is_protected_directory("/tmp", None));
    assert!(is_protected_directory("/var", None));
    assert!(is_protected_directory("/usr", None));
    assert!(is_protected_directory("/etc", None));
}

#[test]
fn test_is_protected_directory_subdirs_not_protected() {
    // Subdirectories of top-level dirs should NOT be protected
    assert!(!is_protected_directory("/tmp/random", None));
    assert!(!is_protected_directory("/var/log", None));
    assert!(!is_protected_directory("/usr/local", None));
}

#[test]
fn test_paths_equal_same_path() {
    let path = "/tmp/test.txt".to_string();
    assert!(paths_equal(Some(&path), Some(&path)));
}

#[test]
fn test_paths_equal_different_paths() {
    let a = "/tmp/test1.txt".to_string();
    let b = "/tmp/test2.txt".to_string();
    assert!(!paths_equal(Some(&a), Some(&b)));
}

#[test]
fn test_paths_equal_nonexistent() {
    // A path whose canonical form is unknown is never equal to anything,
    // not even to the same literal path.
    let a = "/nonexistent/path1".to_string();
    assert!(!paths_equal(None, None));
    assert!(!paths_equal(Some(&a), None));
    assert!(!paths_equal(None, Some(&a)));
}

#[test]
fn test_plan_action_rejects_protected_dir_by_default() {
    // Protected directories are rejected when allow_dangerous_directories is false
    let bucket_config = default_config();
    let opts = options(false, false);
    let facts = facts_for("/tmp", 0);
    assert!(facts.protected);

    let result = plan_action("/tmp", "/tmp", &opts, &bucket_config, &facts);
    assert!(result.is_err());
    assert!(matches!(result, Err(PlanError::ProtectedDirectory(_))));
}

#[test]
fn test_plan_action_allows_protected_dir_with_flag() {
    // Protected directories are allowed when allow_dangerous_directories is true
    let bucket_config = default_config();
    let opts = options(false, true);
    let facts = facts_for("/tmp", 0);

    let result = plan_action("/tmp", "/tmp", &opts, &bucket_config, &facts);
    assert!(
        !matches!(result, Err(PlanError::ProtectedDirectory(_))),
        "Should not reject protected directory when allow_dangerous_directories is true"
    );
}

#[test]
fn test_plan_action_allows_nonprotected_dirs_regardless_of_flag() {
    let bucket_config = default_config();
    let non_protected = "/tmp/test/some-dir";
    let target = "/tmp/test";

    for allow_dangerous in [false, true] {
        let opts = options(false, allow_dangerous);
        let facts = facts_for(non_protected, 0);
        assert!(!facts.protected);
        let result = plan_action(non_protected, target, &opts, &bucket_config, &facts);
        assert!(
            !matches!(result, Err(PlanError::ProtectedDirectory(_))),
            "Non-protected directory should not be rejected"
        );
    }
}

#[test]
fn test_plan_action_skips_item_without_age() {
    let bucket_config = default_config();
    let opts = options(false, false);
    let facts = ItemFacts {
        protected: false,
        age_secs: None,
    };
    match plan_action("/s/thing", "/s", &opts, &bucket_config, &facts).unwrap() {
        PlanStep::Decided(FileAction::Skip { path, reason }) => {
            assert_eq!(path, "/s/thing");
            assert_eq!(reason, SkipReason::CannotGetAge);
        }
        other => panic!("expected a skip, got {other:?}"),
    }
}

#[test]
fn test_plan_action_skips_item_without_file_name() {
    let bucket_config = default_config();
    let opts = options(false, true);
    let facts = ItemFacts {
        protected: true,
        age_secs: Some(0),
    };
    match plan_action("/", "/t", &opts, &bucket_config, &facts).unwrap() {
        PlanStep::Decided(FileAction::Skip { path, reason }) => {
            assert_eq!(path, "/");
            assert_eq!(reason, SkipReason::NoFileName);
        }
        other => panic!("expected a skip, got {other:?}"),
    }
}

#[test]
fn test_plan_action_computes_destination_by_age() {
    let bucket_config = default_config();
    let opts = options(false, false);

    // A 100-day-old directory is planned into old-stuff as a single unit.
    let facts = facts_for("/s/old_project", 100);
    match plan_action("/s/old_project", "/s", &opts, &bucket_config, &facts).unwrap() {
        PlanStep::Probe(dest) => assert_eq!(dest, "/s/refile/old-stuff/old_project"),
        other => panic!("expected a destination, got {other:?}"),
    }

    // A 3-day-old file goes to last-week.
    let facts = facts_for("/s/recent.txt", 3);
    match plan_action("/s/recent.txt", "/s", &opts, &bucket_config, &facts).unwrap() {
        PlanStep::Probe(dest) => assert_eq!(dest, "/s/refile/last-week/recent.txt"),
        other => panic!("expected a destination, got {other:?}"),
    }
}

#[test]
fn test_resolve_destination_moves_to_free_destination() {
    let occupied: Vec<String> = vec![];
    let r = resolve_destination(
        "/s/file.txt",
        "/s/refile/last-week/file.txt",
        false,
        false,
        &occupied,
    )
    .unwrap();
    match r {
        Some(FileAction::Move { from, to }) => {
            assert_eq!(from, "/s/file.txt");
            assert_eq!(to, "/s/refile/last-week/file.txt");
        }
        other => panic!("expected a move, got {other:?}"),
    }
}

#[test]
fn test_resolve_destination_already_in_place() {
    // An item at its own destination plans no action at all.
    let occupied = vec!["/s/refile/last-week/file.txt".to_string()];
    let r = resolve_destination(
        "/s/refile/last-week/file.txt",
        "/s/refile/last-week/file.txt",
        false,
        true,
        &occupied,
    )
    .unwrap();
    assert!(r.is_none());
}

#[test]
fn test_resolve_destination_conflict_without_rename_fails() {
    // Destination occupied, renaming disabled: the run stops with a conflict.
    let occupied = vec!["/s/refile/last-week/file.txt".to_string()];
    let r = resolve_destination(
        "/s/file.txt",
        "/s/refile/last-week/file.txt",
        false,
        false,
        &occupied,
    );
    match r {
        Err(PlanError::Conflict(dest, source)) => {
            assert_eq!(dest, "/s/refile/last-week/file.txt");
            assert_eq!(source, "/s/file.txt");
        }
        other => panic!("expected a conflict, got {other:?}"),
    }
}

#[test]
fn test_resolve_destination_renames_on_conflict() {
    // Two files collide on file.txt: the first kept file.txt, the second
    // becomes file (1).txt.
    let occupied = vec!["/s/refile/last-week/file.txt".to_string()];
    let r = resolve_destination(
        "/s/file.txt",
        "/s/refile/last-week/file.txt",
        true,
        false,
        &occupied,
    )
    .unwrap();
    match r {
        Some(FileAction::Move { from, to }) => {
            assert_eq!(from, "/s/file.txt");
            assert_eq!(to, "/s/refile/last-week/file (1).txt");
        }
        other => panic!("expected a move, got {other:?}"),
    }
}

#[test]
fn test_replanning_a_moved_item_is_stable() {
    // After a move, replanning the item at its destination (same age)
    // computes the identical destination: a second run plans nothing new.
    let bucket_config = default_config();
    let opts = options(false, false);

    let source = "/s/recent.txt";
    let facts = facts_for(source, 3);
    let dest = match plan_action(source, "/s", &opts, &bucket_config, &facts).unwrap() {
        PlanStep::Probe(d) => d,
        other => panic!("expected a destination, got {other:?}"),
    };

    let facts2 = facts_for(&dest, 3);
    let dest2 = match plan_action(&dest, "/s", &opts, &bucket_config, &facts2).unwrap() {
        PlanStep::Probe(d) => d,
        other => panic!("expected a destination, got {other:?}"),
    };
    assert_eq!(dest2, dest);

    // With source and destination identical, no action is planned — even
    // without the caller vouching that they canonicalize alike.
    let occupied = vec![dest.clone()];
    let r = resolve_destination(&dest, &dest2, false, false, &occupied).unwrap();
    assert!(r.is_none());
    let r = resolve_destination(&dest, &dest2, false, true, &occupied).unwrap();
    assert!(r.is_none());
}

#[test]
fn test_aged_item_is_replanned_to_older_bucket() {
    // An item that aged from 3 to 50 days moves from last-week to last-months.
    let bucket_config = default_config();
    let opts = options(false, false);

    let in_last_week = "/s/refile/last-week/file.txt";
    let facts = facts_for(in_last_week, 50);
    match plan_action(in_last_week, "/s", &opts, &bucket_config, &facts).unwrap() {
        PlanStep::Probe(dest) => assert_eq!(dest, "/s/refile/last-months/file.txt"),
        other => panic!("expected a destination, got {other:?}"),
    }
}

#[test]
fn test_move_outcome_classification() {
    assert_eq!(move_outcome(true, None, None), MoveOutcome::Renamed);
    assert_eq!(
        move_outcome(false, Some(true), Some(true)),
        MoveOutcome::CopiedAndRemoved
    );
    assert_eq!(
        move_outcome(false, Some(true), Some(false)),
        MoveOutcome::CopiedSourceRemains
    );
    assert_eq!(move_outcome(false, Some(false), None), MoveOutcome::CopyFailed);
}
