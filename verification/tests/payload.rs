use cql_stress_settings::payload::ParsePayload;
use cql_stress_settings::text::{decimal_text, join_slices, join_strings};

#[test]
fn inserting_replaces_the_parameters() {
    let mut payload = ParsePayload::new();
    assert!(payload.is_empty());
    payload.insert("-node".to_string(), vec!["a"]);
    payload.insert("-rate".to_string(), vec![]);
    payload.insert("-node".to_string(), vec!["b", "c"]);
    assert!(payload.contains_key("-node"));
    assert!(!payload.contains_key("-mode"));
    assert_eq!(payload.remove("-node"), Some(vec!["b", "c"]));
    assert_eq!(payload.remove("-node"), None);
    assert!(!payload.is_empty());
    assert_eq!(payload.remove("-rate"), Some(vec![]));
    assert!(payload.is_empty());
}

#[test]
fn parameters_are_added_at_the_end() {
    let mut payload = ParsePayload::new();
    payload.insert("read".to_string(), vec!["n=1"]);
    payload.insert("-log".to_string(), vec![]);
    payload.push_param("read", "cl=ONE");
    assert_eq!(payload.lines(), ["read n=1 cl=ONE", "-log "]);
    assert_eq!(payload.remove("read"), Some(vec!["n=1", "cl=ONE"]));
}

#[test]
fn texts_are_joined() {
    let parts = vec!["a".to_string(), "".to_string(), "b".to_string()];
    assert_eq!(join_strings(&parts, ", "), "a, , b");
    assert_eq!(join_strings(&vec![], ", "), "");
    assert_eq!(join_slices(&vec!["x", "y"], "\n"), "x\ny");
}

#[test]
fn numbers_are_written_in_decimal() {
    for n in [0, 7, 9, 10, 42, 100, 1_000_000, u64::MAX] {
        assert_eq!(decimal_text(n), n.to_string());
    }
}
