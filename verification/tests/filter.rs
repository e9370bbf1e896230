use novault::error::VaultError;
use novault::filter::{compile_rules, decision_for, ignore_lines, read_rules, strip_root, FilterDecision, NovFilter, RulesFile};

fn rules(default_policy: Option<&str>, lists: &[(&str, &[&str])]) -> RulesFile {
    RulesFile {
        default_policy: default_policy.map(|s| s.to_string()),
        rules: lists
            .iter()
            .map(|(name, patterns)| (name.to_string(), patterns.iter().map(|p| p.to_string()).collect()))
            .collect(),
    }
}

#[test]
fn delete_wins_over_unsecured_wins_over_ignored() {
    for default in [
        FilterDecision::Encrypt,
        FilterDecision::IgnoreAndEncrypt,
        FilterDecision::Delete,
        FilterDecision::Unsecure,
    ] {
        assert_eq!(decision_for(true, true, true, default), FilterDecision::Delete);
        assert_eq!(decision_for(true, false, false, default), FilterDecision::Delete);
        assert_eq!(decision_for(false, true, true, default), FilterDecision::Unsecure);
        assert_eq!(decision_for(false, true, false, default), FilterDecision::Unsecure);
        assert_eq!(decision_for(false, false, true, default), default);
        assert_eq!(decision_for(false, false, false, default), FilterDecision::Encrypt);
    }
}

#[test]
fn the_default_policy_is_ignore_and_encrypt() {
    assert_eq!(FilterDecision::default(), FilterDecision::IgnoreAndEncrypt);
    assert_eq!(FilterDecision::from_str("Unsecure"), Ok(FilterDecision::Unsecure));
    assert_eq!(FilterDecision::from_str("Encrypt"), Ok(FilterDecision::Encrypt));
    assert_eq!(FilterDecision::from_str("Delete"), Ok(FilterDecision::Delete));
    assert_eq!(FilterDecision::from_str("IgnoreAndEncrypt"), Ok(FilterDecision::IgnoreAndEncrypt));
    assert_eq!(FilterDecision::from_str("encrypt"), Err(VaultError::ConfigError));
}

#[test]
fn paths_are_taken_relative_to_the_root() {
    assert_eq!(strip_root("/v/a/b.txt", "/v"), Some("a/b.txt".to_string()));
    assert_eq!(strip_root("/v/a/b.txt", "/v/"), Some("a/b.txt".to_string()));
    assert_eq!(strip_root("/v", "/v"), Some(String::new()));
    assert_eq!(strip_root("a/b", ""), Some("a/b".to_string()));
    assert_eq!(strip_root("/vault/a", "/v"), None);
    assert_eq!(strip_root("/w/a", "/v"), None);
    assert_eq!(strip_root("/", "/v"), None);
}

#[test]
fn rule_driven_decisions() {
    let config = rules(Some("IgnoreAndEncrypt"), &[("unsecured", &["public/**"]), ("delete", &["*.tmp"])]);
    let filter = NovFilter::from_root("/v", Some("target/\n*.log\n"), Some(&config)).unwrap();
    assert_eq!(filter.check_decision("/v/notes.txt", false), Ok(FilterDecision::Encrypt));
    assert_eq!(filter.check_decision("/v/scratch.tmp", false), Ok(FilterDecision::Delete));
    assert_eq!(filter.check_decision("/v/deep/down/scratch.tmp", false), Ok(FilterDecision::Delete));
    assert_eq!(filter.check_decision("/v/public/index.html", false), Ok(FilterDecision::Unsecure));
    assert_eq!(filter.check_decision("/v/public/a/b/c.css", false), Ok(FilterDecision::Unsecure));
    assert_eq!(filter.check_decision("/v/public", true), Ok(FilterDecision::Encrypt));
    assert_eq!(filter.check_decision("/v/public/old.tmp", false), Ok(FilterDecision::Delete));
    assert_eq!(filter.check_decision("/v/build.log", false), Ok(FilterDecision::IgnoreAndEncrypt));
    assert_eq!(filter.check_decision("/v/target", true), Ok(FilterDecision::IgnoreAndEncrypt));
    assert_eq!(filter.check_decision("/v/target", false), Ok(FilterDecision::Encrypt));
    assert_eq!(filter.check_decision("/elsewhere/notes.txt", false), Err(VaultError::IoError));
}

#[test]
fn the_default_policy_decides_for_ignored_paths() {
    for (name, decision) in [
        ("Encrypt", FilterDecision::Encrypt),
        ("Delete", FilterDecision::Delete),
        ("Unsecure", FilterDecision::Unsecure),
        ("IgnoreAndEncrypt", FilterDecision::IgnoreAndEncrypt),
    ] {
        let config = rules(Some(name), &[("unsecured", &[]), ("delete", &[])]);
        let filter = NovFilter::from_root("/v", Some("*.log\n"), Some(&config)).unwrap();
        assert_eq!(filter.check_decision("/v/a.log", false), Ok(decision));
        assert_eq!(filter.check_decision("/v/a.txt", false), Ok(FilterDecision::Encrypt));
    }
}

#[test]
fn without_files_everything_is_encrypted() {
    let filter = NovFilter::from_root("/v", None, None).unwrap();
    assert_eq!(filter.check_decision("/v/a.tmp", false), Ok(FilterDecision::Encrypt));
    assert_eq!(filter.check_decision("/v/public/x", false), Ok(FilterDecision::Encrypt));
}

#[test]
fn a_missing_policy_name_means_the_default() {
    let config = rules(None, &[]);
    let filter = NovFilter::from_root("/v", Some("*.log"), Some(&config)).unwrap();
    assert_eq!(filter.check_decision("/v/a.log", false), Ok(FilterDecision::IgnoreAndEncrypt));
}

#[test]
fn an_unknown_policy_is_a_configuration_error() {
    let config = rules(Some("Shred"), &[]);
    assert!(matches!(NovFilter::from_root("/v", None, Some(&config)), Err(VaultError::ConfigError)));
    assert!(matches!(read_rules(Some(&config)), Err(VaultError::ConfigError)));
}

#[test]
fn a_pattern_that_cannot_be_read_is_a_configuration_error_in_the_rules_file() {
    let config = rules(None, &[("delete", &["*.tmp", "a[z-a]"])]);
    assert!(matches!(read_rules(Some(&config)), Err(VaultError::ConfigError)));
    assert!(read_rules(Some(&rules(None, &[("delete", &["*.tmp"])]))).is_ok());
    assert!(read_rules(None).is_ok());
}

#[test]
fn a_pattern_that_cannot_be_read_is_passed_over_in_the_ignore_file() {
    let filter = NovFilter::from_root("/v", Some("a[z-a]\n*.log\n"), None).unwrap();
    assert_eq!(filter.check_decision("/v/x.log", false), Ok(FilterDecision::IgnoreAndEncrypt));
    let lines = vec!["a[z-a]".to_string(), "*.log".to_string()];
    assert!(compile_rules(&lines, false).is_ok());
    assert!(matches!(compile_rules(&lines, true), Err(VaultError::ConfigError)));
}

#[test]
fn negated_patterns_take_a_path_back() {
    let filter = NovFilter::from_root("/v", Some("*.log\n!keep.log\n# a comment\n\n"), None).unwrap();
    assert_eq!(filter.check_decision("/v/a.log", false), Ok(FilterDecision::IgnoreAndEncrypt));
    assert_eq!(filter.check_decision("/v/keep.log", false), Ok(FilterDecision::Encrypt));
}

#[test]
fn an_unknown_rule_list_is_a_configuration_error() {
    let config = rules(None, &[("archive", &["*.zip"]), ("delete", &["*.tmp"])]);
    assert!(matches!(NovFilter::from_root("/v", None, Some(&config)), Err(VaultError::ConfigError)));
    assert!(matches!(read_rules(Some(&config)), Err(VaultError::ConfigError)));
    let config = rules(None, &[("delete", &["*.tmp"]), ("unsecured", &[])]);
    assert!(read_rules(Some(&config)).is_ok());
}

#[test]
fn a_byte_order_mark_at_the_start_of_the_ignore_file_is_dropped() {
    assert_eq!(ignore_lines("\u{feff}*.log\n\u{feff}x\n"), vec!["*.log", "\u{feff}x"]);
    assert_eq!(ignore_lines("\u{feff}\u{feff}a"), vec!["a"]);
    assert_eq!(ignore_lines(""), Vec::<String>::new());
    let filter = NovFilter::from_root("/v", Some("\u{feff}*.log\n"), None).unwrap();
    assert_eq!(filter.check_decision("/v/a.log", false), Ok(FilterDecision::IgnoreAndEncrypt));
}
