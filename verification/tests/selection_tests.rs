use evm_bench::selection::{
    dedup_first_seen, determine_evms, split_selector, trim, BackendRegistry, ConfigurationError,
};

fn registry(ids: &[&str]) -> BackendRegistry {
    BackendRegistry::new(ids.iter().map(|s| s.to_string()).collect())
}

#[test]
fn trim_removes_surrounding_whitespace() {
    assert_eq!(trim("  revm \t"), "revm");
    assert_eq!(trim("revm"), "revm");
    assert_eq!(trim("   "), "");
    assert_eq!(trim(" a b "), "a b");
}

#[test]
fn split_keeps_empty_pieces() {
    assert_eq!(split_selector("a,,b"), vec!["a", "", "b"]);
    assert_eq!(split_selector("revm"), vec!["revm"]);
    assert_eq!(split_selector(""), vec![""]);
}

#[test]
fn dedup_preserves_first_seen_order() {
    let input = vec!["revm".to_string(), "revm".to_string(), "ethrex".to_string()];
    assert_eq!(dedup_first_seen(input), vec!["revm", "ethrex"]);
}

#[test]
fn dedup_keeps_distinct_order() {
    let input = vec![
        "b".to_string(),
        "a".to_string(),
        "b".to_string(),
        "c".to_string(),
        "a".to_string(),
    ];
    assert_eq!(dedup_first_seen(input), vec!["b", "a", "c"]);
}

#[test]
fn list_selector_dedups_and_trims() {
    let reg = registry(&["revm", "ethrex"]);
    let ids = determine_evms(None, Some("revm, revm ,ethrex".to_string()), false, &reg).unwrap();
    assert_eq!(ids, vec!["revm", "ethrex"]);
}

#[test]
fn all_selector_lists_registry_in_priority_order() {
    let reg = registry(&["revm", "geth", "guillotine"]);
    let ids = determine_evms(None, None, true, &reg).unwrap();
    assert_eq!(ids, vec!["revm", "geth", "guillotine"]);
}

#[test]
fn all_selector_with_empty_registry_fails() {
    let reg = registry(&[]);
    assert_eq!(
        determine_evms(None, None, true, &reg).unwrap_err(),
        ConfigurationError::NoBackends
    );
}

#[test]
fn single_selector_resolves() {
    let reg = registry(&["revm", "ethrex"]);
    let ids = determine_evms(Some("ethrex".to_string()), None, false, &reg).unwrap();
    assert_eq!(ids, vec!["ethrex"]);
}

#[test]
fn unknown_single_backend_is_named() {
    let reg = registry(&["revm"]);
    let err = determine_evms(Some("nonexistent".to_string()), None, false, &reg).unwrap_err();
    assert_eq!(err, ConfigurationError::UnknownBackend("nonexistent".to_string()));
    assert_eq!(err.message(), "unknown backend: nonexistent");
}

#[test]
fn unknown_backend_in_list_is_named() {
    let reg = registry(&["revm"]);
    let err =
        determine_evms(None, Some("revm,bogus,revm".to_string()), false, &reg).unwrap_err();
    assert_eq!(err, ConfigurationError::UnknownBackend("bogus".to_string()));
}

#[test]
fn default_selector_is_the_compiled_in_backend() {
    let reg = registry(&["revm", "ethrex"]);
    let ids = determine_evms(None, None, false, &reg).unwrap();
    assert_eq!(ids, vec!["revm"]);
}

#[test]
fn registry_answers_availability() {
    let reg = registry(&["revm"]);
    assert!(reg.is_available("revm"));
    assert!(!reg.is_available("geth"));
    assert_eq!(reg.list_all(), vec!["revm"]);
}
