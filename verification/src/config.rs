//! Bucket configuration: bucket definitions, validation, and resolution of the
//! effective configuration from built-in defaults, configuration-file data and
//! caller overrides.

use vstd::prelude::*;
use crate::paths::join_seq;
use crate::paths::path_join;
use crate::text::first_index_of;
use crate::text::index_of;
use crate::text::lemma_first_index_at;
use crate::text::parse_u64;
use crate::text::parses_as_u64;
use crate::text::split_on_char;
use crate::text::split_str;
use crate::text::str_eq;
use crate::text::trim;
use crate::text::trim_spec;
use crate::text::u64_numeral_val;

verus! {

/// Errors arising from bucket configuration handling.
#[derive(Debug)]
pub enum ConfigError {
    /// Invalid configuration structure or values.
    InvalidConfig(String),
    /// Configuration file parsing error.
    ParseError(String),
    /// Invalid bucket specification string; carries the offending piece.
    InvalidBucketSpec(String),
    /// Invalid bucket name; carries the name and the reason.
    InvalidBucketName(String, String),
    /// Missing required configuration element.
    MissingConfig(String),
}

/// One destination category: a directory name and an optional maximum age in
/// whole days. `max_age_days == None` marks a catch-all bucket with no upper
/// bound on age.
#[derive(Debug, Clone)]
pub struct BucketDef {
    pub name: String,
    pub max_age_days: Option<u64>,
}

impl BucketDef {
    /// True when this bucket accepts an item aged `age_days`.
    pub open spec fn accepts(self, age_days: nat) -> bool {
        match self.max_age_days {
            Option::Some(m) => age_days <= m,
            Option::None => true,
        }
    }
}

/// The name and age limit of a bucket, as plain mathematical values.
pub open spec fn bucket_models(bs: Seq<BucketDef>) -> Seq<(Seq<char>, Option<u64>)> {
    bs.map_values(|b: BucketDef| (b.name@, b.max_age_days))
}

/// A bucket name must be non-empty and contain no path separator.
pub open spec fn valid_bucket_name(name: Seq<char>) -> bool {
    name.len() > 0 && forall|j: int| 0 <= j < name.len() ==> name[j] != '/' && name[j] != '\\'
}

/// The full bucket configuration: the base folder that holds all bucket
/// directories, and the buckets in ascending-age search order.
#[derive(Debug, Clone)]
pub struct BucketConfig {
    pub base_folder: String,
    pub buckets: Vec<BucketDef>,
}

impl BucketConfig {
    /// Some bucket has no age limit.
    pub open spec fn has_catch_all(self) -> bool {
        exists|i: int| 0 <= i < self.buckets@.len() && self.buckets@[i].max_age_days is None
    }

    /// Every bucket name is non-empty and free of path separators.
    pub open spec fn names_valid(self) -> bool {
        forall|i: int|
            0 <= i < self.buckets@.len() ==> valid_bucket_name(self.buckets@[i].name@)
    }

    /// Defined age limits, in sequence order, are strictly ascending.
    pub open spec fn ages_ascending(self) -> bool {
        forall|j: int, k: int|
            0 <= j < k < self.buckets@.len() && self.buckets@[j].max_age_days is Some
                && self.buckets@[k].max_age_days is Some ==> self.buckets@[j].max_age_days->0
                < self.buckets@[k].max_age_days->0
    }

    /// The invariant `validate` establishes: at least one bucket, at least one
    /// catch-all, valid names, strictly ascending age limits.
    pub open spec fn well_formed(self) -> bool {
        &&& self.buckets@.len() > 0
        &&& self.has_catch_all()
        &&& self.names_valid()
        &&& self.ages_ascending()
    }
}

fn bucket_name_ok(name: &String) -> (b: bool)
    ensures
        b == valid_bucket_name(name@),
{
    let s = name.as_str();
    let n = s.unicode_len();
    if n == 0 {
        return false;
    }
    let mut i: usize = 0;
    while i < n
        invariant
            i <= n,
            n == name@.len(),
            s@ == name@,
            forall|j: int| 0 <= j < i ==> name@[j] != '/' && name@[j] != '\\',
        decreases n - i,
    {
        let c = s.get_char(i);
        if c == '/' || c == '\\' {
            return false;
        }
        i = i + 1;
    }
    true
}

impl BucketConfig {
    /// Validates the bucket configuration.
    ///
    /// Succeeds exactly on well-formed configurations; otherwise reports, in
    /// this order: no buckets at all, no catch-all bucket, an invalid bucket
    /// name (carrying that name), or age limits out of ascending order.
    pub fn validate(&self) -> (r: Result<(), ConfigError>)
        ensures
            r is Ok <==> self.well_formed(),
            self.buckets@.len() == 0 ==> r matches Err(ConfigError::InvalidConfig(_)),
            self.buckets@.len() > 0 && !self.has_catch_all() ==> r matches Err(
                ConfigError::InvalidConfig(_),
            ),
            self.buckets@.len() > 0 && self.has_catch_all() && !self.names_valid() ==> r matches Err(
                ConfigError::InvalidBucketName(_, _),
            ),
            self.buckets@.len() > 0 && self.has_catch_all() && self.names_valid()
                && !self.ages_ascending() ==> r matches Err(ConfigError::InvalidConfig(_)),
            r matches Err(ConfigError::InvalidBucketName(n, _)) ==> !valid_bucket_name(n@)
                && exists|i: int|
                0 <= i < self.buckets@.len() && self.buckets@[i].name@ == n@,
    {
        let ghost bs = self.buckets@;
        let m = self.buckets.len();
        if m == 0 {
            return Err(
                ConfigError::InvalidConfig(
                    String::from_str("at least one bucket must be defined"),
                ),
            );
        }
        let mut has_catch = false;
        let mut i: usize = 0;
        while i < m
            invariant
                i <= m,
                m == bs.len(),
                bs == self.buckets@,
                has_catch == exists|j: int| 0 <= j < i && bs[j].max_age_days is None,
            decreases m - i,
        {
            if self.buckets[i].max_age_days.is_none() {
                has_catch = true;
            }
            i = i + 1;
        }
        if !has_catch {
            return Err(
                ConfigError::InvalidConfig(
                    String::from_str("at least one bucket must have no age limit"),
                ),
            );
        }
        let mut i: usize = 0;
        while i < m
            invariant
                i <= m,
                m == bs.len(),
                m > 0,
                bs == self.buckets@,
                self.has_catch_all(),
                forall|j: int| 0 <= j < i ==> valid_bucket_name(bs[j].name@),
            decreases m - i,
        {
            if !bucket_name_ok(&self.buckets[i].name) {
                return Err(
                    ConfigError::InvalidBucketName(
                        self.buckets[i].name.clone(),
                        String::from_str("names must be non-empty without / or \\"),
                    ),
                );
            }
            i = i + 1;
        }
        let mut prev: Option<u64> = None;
        let mut i: usize = 0;
        while i < m
            invariant
                i <= m,
                m == bs.len(),
                m > 0,
                bs == self.buckets@,
                self.has_catch_all(),
                self.names_valid(),
                forall|j: int, k: int|
                    0 <= j < k < i && bs[j].max_age_days is Some && bs[k].max_age_days is Some
                        ==> bs[j].max_age_days->0 < bs[k].max_age_days->0,
                prev is Some ==> exists|j: int|
                    0 <= j < i && bs[j].max_age_days == Some(prev->0),
                prev is Some ==> forall|j: int|
                    0 <= j < i && bs[j].max_age_days is Some ==> bs[j].max_age_days->0 <= prev->0,
                prev is None ==> forall|j: int| 0 <= j < i ==> bs[j].max_age_days is None,
            decreases m - i,
        {
            match self.buckets[i].max_age_days {
                Some(age) => {
                    match prev {
                        Some(p) => {
                            if age <= p {
                                proof {
                                    let j = choose|j: int|
                                        0 <= j < i && bs[j].max_age_days == Some(p);
                                    assert(!self.ages_ascending()) by {
                                        assert(bs[j].max_age_days is Some
                                            && bs[i as int].max_age_days is Some
                                            && !(bs[j].max_age_days->0
                                            < bs[i as int].max_age_days->0));
                                    }
                                }
                                return Err(
                                    ConfigError::InvalidConfig(
                                        String::from_str(
                                            "bucket ages must be in ascending order",
                                        ),
                                    ),
                                );
                            }
                        },
                        None => {},
                    }
                    prev = Some(age);
                },
                None => {},
            }
            i = i + 1;
        }
        Ok(())
    }
}

impl Default for BucketConfig {
    /// The built-in default configuration: base folder `refile` with buckets
    /// `last-week` (7 days), `current-month` (28), `last-months` (92) and the
    /// catch-all `old-stuff`.
    fn default() -> (r: Self)
        ensures
            r.base_folder@ == "refile"@,
            bucket_models(r.buckets@) == default_bucket_models(),
    {
        let mut buckets: Vec<BucketDef> = Vec::new();
        buckets.push(
            BucketDef { name: String::from_str("last-week"), max_age_days: Some(7) },
        );
        buckets.push(
            BucketDef { name: String::from_str("current-month"), max_age_days: Some(28) },
        );
        buckets.push(
            BucketDef { name: String::from_str("last-months"), max_age_days: Some(92) },
        );
        buckets.push(BucketDef { name: String::from_str("old-stuff"), max_age_days: None });
        let r = BucketConfig { base_folder: String::from_str("refile"), buckets };
        proof {
            assert(bucket_models(r.buckets@) =~= default_bucket_models());
        }
        r
    }
}

/// The models of the built-in default buckets.
pub open spec fn default_bucket_models() -> Seq<(Seq<char>, Option<u64>)> {
    seq![
        ("last-week"@, Some(7u64)),
        ("current-month"@, Some(28u64)),
        ("last-months"@, Some(92u64)),
        ("old-stuff"@, Option::<u64>::None),
    ]
}

// ---------------------------------------------------------------------------
// Bucket specification strings ("name1=days1,name2=days2,name3=null")
// ---------------------------------------------------------------------------

/// A piece of a bucket specification that holds only whitespace and is skipped.
pub open spec fn part_blank(p: Seq<char>) -> bool {
    trim_spec(p).len() == 0
}

/// The parse of one `name=age` piece: the trimmed name and the age, where the
/// age is either the word `null` (no limit) or a decimal `u64`. `None` when
/// the piece has no `=` or a bad age.
pub open spec fn part_parse(p: Seq<char>) -> Option<(Seq<char>, Option<u64>)> {
    let t = trim_spec(p);
    let j = first_index_of(t, '=') as int;
    if j == t.len() {
        None
    } else {
        let name = trim_spec(t.subrange(0, j));
        let age = trim_spec(t.subrange(j + 1, t.len() as int));
        if age == "null"@ {
            Some((name, None))
        } else if parses_as_u64(age) {
            Some((name, Some(u64_numeral_val(age) as u64)))
        } else {
            None
        }
    }
}

/// The bucket models read off a sequence of pieces, blank pieces skipped.
pub open spec fn spec_parsed_buckets(parts: Seq<Seq<char>>) -> Seq<(Seq<char>, Option<u64>)>
    decreases parts.len(),
{
    if parts.len() == 0 {
        Seq::empty()
    } else if part_blank(parts.last()) {
        spec_parsed_buckets(parts.drop_last())
    } else {
        spec_parsed_buckets(parts.drop_last()).push(part_parse(parts.last())->0)
    }
}

/// A bucket specification string is accepted when every comma-separated piece
/// is blank or parses, and at least one piece is not blank.
pub open spec fn buckets_spec_ok(s: Seq<char>) -> bool {
    let parts = split_on_char(s, ',');
    &&& forall|i: int|
        0 <= i < parts.len() ==> part_blank(parts[i]) || part_parse(parts[i]) is Some
    &&& exists|i: int| 0 <= i < parts.len() && !part_blank(parts[i])
}

/// Parses a bucket specification string: comma-separated `name=age` pieces
/// where `age` is a day count or `null` for a catch-all, as in
/// `today=1,week=7,old=null`. Whitespace around pieces, names and ages is
/// ignored; empty pieces are skipped; an entirely empty specification is
/// rejected.
pub fn parse_buckets_spec(spec_str: &str) -> (r: Result<Vec<BucketDef>, ConfigError>)
    ensures
        r is Ok <==> buckets_spec_ok(spec_str@),
        r matches Ok(bs) ==> bucket_models(bs@) == spec_parsed_buckets(
            split_on_char(spec_str@, ','),
        ),
        r is Err ==> r matches Err(ConfigError::InvalidBucketSpec(_)),
{
    let parts = split_str(spec_str, ',');
    let ghost pviews = parts@.map_values(|t: String| t@);
    let mut buckets: Vec<BucketDef> = Vec::new();
    let mut i: usize = 0;
    proof {
        assert(spec_parsed_buckets(pviews.subrange(0, 0)) =~= bucket_models(buckets@));
    }
    while i < parts.len()
        invariant
            i <= parts@.len(),
            pviews == parts@.map_values(|t: String| t@),
            pviews == split_on_char(spec_str@, ','),
            forall|j: int| 0 <= j < i ==> part_blank(pviews[j]) || part_parse(pviews[j]) is Some,
            bucket_models(buckets@) == spec_parsed_buckets(pviews.subrange(0, i as int)),
            buckets@.len() > 0 <==> exists|j: int| 0 <= j < i && !part_blank(pviews[j]),
        decreases parts@.len() - i,
    {
        let ghost prefix = pviews.subrange(0, i as int);
        let ghost prefix2 = pviews.subrange(0, i + 1);
        proof {
            assert(prefix2.drop_last() =~= prefix);
            assert(prefix2.last() == pviews[i as int]);
        }
        let part = &parts[i];
        let t = trim(part.as_str());
        let tn = t.unicode_len();
        if tn > 0 {
            match index_of(t, '=') {
                None => {
                    proof {
                        lemma_first_index_at(t@, '=', t@.len());
                    }
                    return Err(ConfigError::InvalidBucketSpec(String::from_str(t)));
                },
                Some(eq_pos) => {
                    proof {
                        lemma_first_index_at(t@, '=', eq_pos as nat);
                    }
                    let name = trim(t.substring_char(0, eq_pos));
                    let age_str = trim(t.substring_char(eq_pos + 1, tn));
                    let max_age: Option<u64>;
                    if str_eq(age_str, "null") {
                        max_age = None;
                    } else {
                        match parse_u64(age_str) {
                            Some(v) => {
                                max_age = Some(v);
                            },
                            None => {
                                return Err(
                                    ConfigError::InvalidBucketSpec(String::from_str(age_str)),
                                );
                            },
                        }
                    }
                    let ghost old_models = bucket_models(buckets@);
                    buckets.push(
                        BucketDef { name: String::from_str(name), max_age_days: max_age },
                    );
                    proof {
                        assert(part_parse(pviews[i as int]) == Some((name@, max_age)));
                        assert(bucket_models(buckets@) =~= old_models.push((name@, max_age)));
                    }
                },
            }
        }
        i = i + 1;
    }
    proof {
        assert(pviews.subrange(0, pviews.len() as int) =~= pviews);
    }
    if buckets.len() == 0 {
        return Err(
            ConfigError::InvalidBucketSpec(String::from_str("bucket spec cannot be empty")),
        );
    }
    Ok(buckets)
}

// ---------------------------------------------------------------------------
// Configuration-file data and resolution
// ---------------------------------------------------------------------------

/// The default section of a configuration file: a base folder and buckets.
#[derive(Debug)]
pub struct DefaultConfig {
    pub base_folder: String,
    pub buckets: Vec<BucketDef>,
}

/// A per-directory rule: buckets (and optionally a base folder) that apply
/// when the source directory equals `path`. Paths are compared literally; the
/// caller resolves `~` and symlinks before building the rule.
#[derive(Debug)]
pub struct RuleConfig {
    pub path: String,
    pub base_folder: Option<String>,
    pub buckets: Vec<BucketDef>,
}

/// Configuration-file contents, reduced to plain values by the caller.
#[derive(Debug)]
pub struct RefileConfigFile {
    pub default: Option<DefaultConfig>,
    pub rules: Vec<RuleConfig>,
}

/// The first rule whose path equals the source directory, if any.
pub open spec fn spec_matched_rule(rules: Seq<RuleConfig>, source: Seq<char>) -> Option<
    RuleConfig,
>
    decreases rules.len(),
{
    if rules.len() == 0 {
        None
    } else if rules[0].path@ == source {
        Some(rules[0])
    } else {
        spec_matched_rule(rules.subrange(1, rules.len() as int), source)
    }
}

proof fn lemma_matched_rule_at(rules: Seq<RuleConfig>, source: Seq<char>, i: int)
    requires
        0 <= i <= rules.len(),
        forall|j: int| 0 <= j < i ==> rules[j].path@ != source,
        i < rules.len() ==> rules[i].path@ == source,
    ensures
        i < rules.len() ==> spec_matched_rule(rules, source) == Some(rules[i]),
        i == rules.len() ==> spec_matched_rule(rules, source) is None,
    decreases rules.len(),
{
    if rules.len() > 0 && rules[0].path@ != source {
        let t = rules.subrange(1, rules.len() as int);
        assert(forall|j: int| 0 <= j < t.len() ==> t[j] == rules[j + 1]);
        lemma_matched_rule_at(t, source, i - 1);
    }
}

/// Finds the first rule whose path equals the source directory.
pub fn find_matching_rule<'a>(source_dir: &str, rules: &'a Vec<RuleConfig>) -> (r: Option<
    &'a RuleConfig,
>)
    ensures
        match r {
            Some(rl) => spec_matched_rule(rules@, source_dir@) == Some(*rl),
            None => spec_matched_rule(rules@, source_dir@) is None,
        },
{
    let m = rules.len();
    let mut i: usize = 0;
    while i < m
        invariant
            i <= m,
            m == rules@.len(),
            forall|j: int| 0 <= j < i ==> rules@[j].path@ != source_dir@,
        decreases m - i,
    {
        if str_eq(source_dir, rules[i].path.as_str()) {
            proof {
                lemma_matched_rule_at(rules@, source_dir@, i as int);
            }
            return Some(&rules[i]);
        }
        i = i + 1;
    }
    proof {
        lemma_matched_rule_at(rules@, source_dir@, m as int);
    }
    None
}

/// A leading `~/` expanded to the home directory, when one is known.
pub open spec fn spec_expand_tilde(path: Seq<char>, home: Option<Seq<char>>) -> Seq<char> {
    if path.len() >= 2 && path[0] == '~' && path[1] == '/' && home is Some {
        join_seq(home->0, path.subrange(2, path.len() as int))
    } else {
        path
    }
}

/// Expands a leading `~/` to the given home directory; every other path is
/// returned unchanged.
pub fn expand_tilde(path: &str, home: Option<&str>) -> (r: String)
    ensures
        r@ == spec_expand_tilde(path@, spec_opt_str(home)),
{
    let n = path.unicode_len();
    if n >= 2 && path.get_char(0) == '~' && path.get_char(1) == '/' {
        match home {
            Some(h) => {
                return path_join(h, path.substring_char(2, n));
            },
            None => {},
        }
    }
    String::from_str(path)
}

pub open spec fn spec_opt_file(o: Option<&RefileConfigFile>) -> Option<RefileConfigFile> {
    match o {
        Some(f) => Some(*f),
        None => None,
    }
}

pub open spec fn spec_opt_str(o: Option<&str>) -> Option<Seq<char>> {
    match o {
        Some(s) => Some(s@),
        None => None,
    }
}

/// The base folder in effect: a caller override wins, then a matching rule
/// that names one, then the file's default section, then the built-in name.
pub open spec fn spec_effective_base(
    source: Seq<char>,
    file: Option<RefileConfigFile>,
    base_override: Option<Seq<char>>,
) -> Seq<char> {
    if base_override is Some {
        base_override->0
    } else if file is Some && spec_matched_rule(file->0.rules@, source) is Some
        && spec_matched_rule(file->0.rules@, source)->0.base_folder is Some {
        spec_matched_rule(file->0.rules@, source)->0.base_folder->0@
    } else if file is Some && file->0.default is Some {
        file->0.default->0.base_folder@
    } else {
        "refile"@
    }
}

/// The bucket list supplied by configuration data: a matching rule wins, then
/// the file's default section, then the built-in buckets.
pub open spec fn spec_file_buckets(source: Seq<char>, file: Option<RefileConfigFile>) -> Seq<
    (Seq<char>, Option<u64>),
> {
    if file is Some && spec_matched_rule(file->0.rules@, source) is Some {
        bucket_models(spec_matched_rule(file->0.rules@, source)->0.buckets@)
    } else if file is Some && file->0.default is Some {
        bucket_models(file->0.default->0.buckets@)
    } else {
        default_bucket_models()
    }
}

/// The bucket list in effect: a caller override string, when given, replaces
/// everything the configuration data supplied.
pub open spec fn spec_effective_buckets(
    source: Seq<char>,
    file: Option<RefileConfigFile>,
    buckets_override: Option<Seq<char>>,
) -> Seq<(Seq<char>, Option<u64>)> {
    match buckets_override {
        Some(s) => spec_parsed_buckets(split_on_char(s, ',')),
        None => spec_file_buckets(source, file),
    }
}

/// Well-formedness of a bucket list stated over its models.
pub open spec fn models_well_formed(ms: Seq<(Seq<char>, Option<u64>)>) -> bool {
    &&& ms.len() > 0
    &&& exists|i: int| 0 <= i < ms.len() && ms[i].1 is None
    &&& forall|i: int| 0 <= i < ms.len() ==> valid_bucket_name(ms[i].0)
    &&& forall|j: int, k: int|
        0 <= j < k < ms.len() && ms[j].1 is Some && ms[k].1 is Some ==> ms[j].1->0 < ms[k].1->0
}

pub proof fn lemma_models_well_formed(c: BucketConfig)
    ensures
        models_well_formed(bucket_models(c.buckets@)) <==> c.well_formed(),
{
    let bs = c.buckets@;
    let ms = bucket_models(bs);
    assert(forall|i: int| 0 <= i < ms.len() ==> ms[i] == (bs[i].name@, bs[i].max_age_days));
    if c.well_formed() {
        let w = choose|i: int| 0 <= i < bs.len() && bs[i].max_age_days is None;
        assert(ms[w].1 is None);
        assert(models_well_formed(ms));
    }
    if models_well_formed(ms) {
        let w = choose|i: int| 0 <= i < ms.len() && ms[i].1 is None;
        assert(bs[w].max_age_days is None);
        assert forall|i: int| 0 <= i < bs.len() implies valid_bucket_name(
            #[trigger] bs[i].name@,
        ) by {
            assert(valid_bucket_name(ms[i].0));
        }
        assert forall|j: int, k: int|
            0 <= j < k < bs.len() && bs[j].max_age_days is Some && bs[k].max_age_days is Some
                implies bs[j].max_age_days->0 < bs[k].max_age_days->0 by {
            assert(ms[j].1 is Some && ms[k].1 is Some);
            assert(ms[j].1->0 < ms[k].1->0);
        }
        assert(c.well_formed());
    }
}

fn clone_buckets(bs: &Vec<BucketDef>) -> (r: Vec<BucketDef>)
    ensures
        r@ == bs@,
{
    let mut r: Vec<BucketDef> = Vec::new();
    let mut i: usize = 0;
    while i < bs.len()
        invariant
            i <= bs@.len(),
            r@ == bs@.subrange(0, i as int),
        decreases bs@.len() - i,
    {
        let b = BucketDef { name: bs[i].name.clone(), max_age_days: bs[i].max_age_days };
        r.push(b);
        proof {
            assert(r@ =~= bs@.subrange(0, i + 1));
        }
        i = i + 1;
    }
    proof {
        assert(bs@.subrange(0, bs@.len() as int) =~= bs@);
    }
    r
}

/// Resolves the bucket configuration for a source directory.
///
/// Precedence, highest first: caller overrides, a configuration-file rule
/// matching the source directory, the file's default section, the built-in
/// default. The result is validated; it is returned exactly when a bucket
/// override (if given) parses and the composed configuration is well-formed.
pub fn resolve_bucket_config(
    source_dir: &str,
    config_file: Option<&RefileConfigFile>,
    base_folder_override: Option<&str>,
    buckets_override: Option<&str>,
) -> (r: Result<BucketConfig, ConfigError>)
    ensures
        r is Ok <==> ((match spec_opt_str(buckets_override) {
            Some(s) => buckets_spec_ok(s),
            None => true,
        }) && models_well_formed(
            spec_effective_buckets(
                source_dir@,
                spec_opt_file(config_file),
                spec_opt_str(buckets_override),
            ),
        )),
        r matches Ok(c) ==> {
            &&& c.well_formed()
            &&& c.base_folder@ == spec_effective_base(
                source_dir@,
                spec_opt_file(config_file),
                spec_opt_str(base_folder_override),
            )
            &&& bucket_models(c.buckets@) == spec_effective_buckets(
                source_dir@,
                spec_opt_file(config_file),
                spec_opt_str(buckets_override),
            )
        },
{
    let ghost file = spec_opt_file(config_file);
    let ghost bov = spec_opt_str(buckets_override);
    let mut config = BucketConfig::default();
    match config_file {
        Some(f) => {
            match &f.default {
                Some(d) => {
                    config.base_folder = d.base_folder.clone();
                    config.buckets = clone_buckets(&d.buckets);
                },
                None => {},
            }
            match find_matching_rule(source_dir, &f.rules) {
                Some(rl) => {
                    match &rl.base_folder {
                        Some(b) => {
                            config.base_folder = b.clone();
                        },
                        None => {},
                    }
                    config.buckets = clone_buckets(&rl.buckets);
                },
                None => {},
            }
        },
        None => {},
    }
    match base_folder_override {
        Some(b) => {
            config.base_folder = String::from_str(b);
        },
        None => {},
    }
    match buckets_override {
        Some(s) => {
            match parse_buckets_spec(s) {
                Ok(bs) => {
                    config.buckets = bs;
                },
                Err(e) => {
                    return Err(e);
                },
            }
        },
        None => {},
    }
    proof {
        assert(bucket_models(config.buckets@) == spec_effective_buckets(
            source_dir@,
            file,
            bov,
        ));
        lemma_models_well_formed(config);
    }
    match config.validate() {
        Ok(()) => Ok(config),
        Err(e) => Err(e),
    }
}

} // verus!
