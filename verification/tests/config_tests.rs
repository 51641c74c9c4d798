use refile::config::BucketConfig;
use refile::config::BucketDef;
use refile::config::ConfigError;
use refile::config::DefaultConfig;
use refile::config::RefileConfigFile;
use refile::config::RuleConfig;
use refile::config::expand_tilde;
use refile::config::parse_buckets_spec;
use refile::config::resolve_bucket_config;

#[test]
fn test_default_config() {
    let config = BucketConfig::default();
    assert_eq!(config.base_folder, "refile");
    assert_eq!(config.buckets.len(), 4);
    assert!(config.validate().is_ok());
}

#[test]
fn test_validate_no_buckets() {
    let config = BucketConfig {
        base_folder: "test".to_string(),
        buckets: vec![],
    };
    assert!(config.validate().is_err());
}

#[test]
fn test_validate_no_catchall() {
    let config = BucketConfig {
        base_folder: "test".to_string(),
        buckets: vec![
            BucketDef {
                name: "bucket1".to_string(),
                max_age_days: Some(7),
            },
            BucketDef {
                name: "bucket2".to_string(),
                max_age_days: Some(14),
            },
        ],
    };
    assert!(config.validate().is_err());
}

#[test]
fn test_validate_ages_not_ascending() {
    let config = BucketConfig {
        base_folder: "test".to_string(),
        buckets: vec![
            BucketDef {
                name: "bucket1".to_string(),
                max_age_days: Some(14),
            },
            BucketDef {
                name: "bucket2".to_string(),
                max_age_days: Some(7),
            },
            BucketDef {
                name: "bucket3".to_string(),
                max_age_days: None,
            },
        ],
    };
    assert!(config.validate().is_err());
}

#[test]
fn test_validate_invalid_bucket_name() {
    let config = BucketConfig {
        base_folder: "test".to_string(),
        buckets: vec![
            BucketDef {
                name: "bucket/invalid".to_string(),
                max_age_days: Some(7),
            },
            BucketDef {
                name: "old".to_string(),
                max_age_days: None,
            },
        ],
    };
    assert!(config.validate().is_err());
}

#[test]
fn test_validate_error_variants() {
    let empty = BucketConfig {
        base_folder: "test".to_string(),
        buckets: vec![],
    };
    assert!(matches!(empty.validate(), Err(ConfigError::InvalidConfig(_))));

    let no_catchall = BucketConfig {
        base_folder: "test".to_string(),
        buckets: vec![BucketDef {
            name: "a".to_string(),
            max_age_days: Some(1),
        }],
    };
    assert!(matches!(
        no_catchall.validate(),
        Err(ConfigError::InvalidConfig(_))
    ));

    let bad_name = BucketConfig {
        base_folder: "test".to_string(),
        buckets: vec![
            BucketDef {
                name: "a\\b".to_string(),
                max_age_days: Some(1),
            },
            BucketDef {
                name: "old".to_string(),
                max_age_days: None,
            },
        ],
    };
    match bad_name.validate() {
        Err(ConfigError::InvalidBucketName(name, _)) => assert_eq!(name, "a\\b"),
        other => panic!("expected InvalidBucketName, got {other:?}"),
    }

    let not_ascending = BucketConfig {
        base_folder: "test".to_string(),
        buckets: vec![
            BucketDef {
                name: "a".to_string(),
                max_age_days: Some(7),
            },
            BucketDef {
                name: "b".to_string(),
                max_age_days: Some(7),
            },
            BucketDef {
                name: "old".to_string(),
                max_age_days: None,
            },
        ],
    };
    assert!(matches!(
        not_ascending.validate(),
        Err(ConfigError::InvalidConfig(_))
    ));
}

#[test]
fn test_parse_buckets_spec() {
    let spec = "today=1,week=7,old=null";
    let buckets = parse_buckets_spec(spec).unwrap();

    assert_eq!(buckets.len(), 3);
    assert_eq!(buckets[0].name, "today");
    assert_eq!(buckets[0].max_age_days, Some(1));
    assert_eq!(buckets[1].name, "week");
    assert_eq!(buckets[1].max_age_days, Some(7));
    assert_eq!(buckets[2].name, "old");
    assert_eq!(buckets[2].max_age_days, None);
}

#[test]
fn test_parse_buckets_spec_with_spaces() {
    let spec = " today = 1 , week = 7 , old = null ";
    let buckets = parse_buckets_spec(spec).unwrap();
    assert_eq!(buckets.len(), 3);
}

#[test]
fn test_parse_buckets_spec_invalid() {
    assert!(parse_buckets_spec("invalid").is_err());
    assert!(parse_buckets_spec("name=abc").is_err());
    assert!(parse_buckets_spec("").is_err());
}

#[test]
fn test_parse_buckets_spec_plus_sign() {
    // A leading plus sign on the day count is accepted, as integer parsing
    // normally accepts it.
    let buckets = parse_buckets_spec("a=+7,old=null").unwrap();
    assert_eq!(buckets[0].max_age_days, Some(7));
}

#[test]
fn test_parse_buckets_spec_error_variant() {
    assert!(matches!(
        parse_buckets_spec("invalid"),
        Err(ConfigError::InvalidBucketSpec(_))
    ));
    assert!(matches!(
        parse_buckets_spec("week=77777777777777777777777"),
        Err(ConfigError::InvalidBucketSpec(_))
    ));
}

#[test]
fn test_expand_tilde() {
    let path = expand_tilde("~/test/path", Some("/home/someone"));
    assert!(path.contains("test/path"));
    assert!(!path.contains('~'));
    assert_eq!(path, "/home/someone/test/path");

    let path = expand_tilde("/absolute/path", Some("/home/someone"));
    assert_eq!(path, "/absolute/path");

    let path = expand_tilde("~/test/path", None);
    assert_eq!(path, "~/test/path");
}

#[test]
fn test_resolve_bucket_config_built_in_default() {
    let config = resolve_bucket_config("/some/dir", None, None, None).unwrap();
    assert_eq!(config.base_folder, "refile");
    assert_eq!(config.buckets.len(), 4);
    assert_eq!(config.buckets[0].name, "last-week");
    assert_eq!(config.buckets[3].name, "old-stuff");
}

#[test]
fn test_resolve_bucket_config_file_default_section() {
    let file = RefileConfigFile {
        default: Some(DefaultConfig {
            base_folder: "sorted".to_string(),
            buckets: vec![
                BucketDef {
                    name: "fresh".to_string(),
                    max_age_days: Some(2),
                },
                BucketDef {
                    name: "stale".to_string(),
                    max_age_days: None,
                },
            ],
        }),
        rules: vec![],
    };
    let config = resolve_bucket_config("/some/dir", Some(&file), None, None).unwrap();
    assert_eq!(config.base_folder, "sorted");
    assert_eq!(config.buckets.len(), 2);
    assert_eq!(config.buckets[0].name, "fresh");
}

#[test]
fn test_resolve_bucket_config_rule_wins() {
    let file = RefileConfigFile {
        default: Some(DefaultConfig {
            base_folder: "sorted".to_string(),
            buckets: vec![BucketDef {
                name: "stale".to_string(),
                max_age_days: None,
            }],
        }),
        rules: vec![RuleConfig {
            path: "/watched/dir".to_string(),
            base_folder: Some("archive".to_string()),
            buckets: vec![
                BucketDef {
                    name: "new".to_string(),
                    max_age_days: Some(5),
                },
                BucketDef {
                    name: "old".to_string(),
                    max_age_days: None,
                },
            ],
        }],
    };
    let config = resolve_bucket_config("/watched/dir", Some(&file), None, None).unwrap();
    assert_eq!(config.base_folder, "archive");
    assert_eq!(config.buckets.len(), 2);
    assert_eq!(config.buckets[0].name, "new");

    let other = resolve_bucket_config("/other/dir", Some(&file), None, None).unwrap();
    assert_eq!(other.base_folder, "sorted");
    assert_eq!(other.buckets.len(), 1);
}

#[test]
fn test_resolve_bucket_config_cli_overrides() {
    let config =
        resolve_bucket_config("/some/dir", None, Some("boxes"), Some("day=1,rest=null")).unwrap();
    assert_eq!(config.base_folder, "boxes");
    assert_eq!(config.buckets.len(), 2);
    assert_eq!(config.buckets[0].name, "day");
    assert_eq!(config.buckets[0].max_age_days, Some(1));
    assert_eq!(config.buckets[1].max_age_days, None);
}

#[test]
fn test_resolve_bucket_config_rejects_invalid_override() {
    assert!(resolve_bucket_config("/some/dir", None, None, Some("a=1,b=2")).is_err());
    assert!(resolve_bucket_config("/some/dir", None, None, Some("nonsense")).is_err());
}
