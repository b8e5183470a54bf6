//! The merge engine on concrete sets.

use xmp::merge::{contains_str, merge_values, same_strset};

fn strs(v: &[&str]) -> Vec<String> {
    v.iter().map(|s| s.to_string()).collect()
}

fn as_set(v: &[String]) -> std::collections::BTreeSet<String> {
    v.iter().cloned().collect()
}

#[test]
fn union_semantics() {
    // existing {"A","B"}, patch {"B","C"}
    let existing = strs(&["A", "B"]);
    let patch = strs(&["B", "C"]);
    let unioned = merge_values(&existing, &patch, false);
    assert_eq!(as_set(&unioned), as_set(&strs(&["A", "B", "C"])));
    let overwritten = merge_values(&existing, &patch, true);
    assert_eq!(as_set(&overwritten), as_set(&strs(&["B", "C"])));
}

#[test]
fn merge_is_idempotent_in_the_patch() {
    let existing = strs(&["A", "B"]);
    let patch = strs(&["B", "C"]);
    let once = merge_values(&existing, &patch, false);
    let twice = merge_values(&once, &patch, false);
    assert_eq!(as_set(&once), as_set(&twice));
}

#[test]
fn merge_deduplicates() {
    let out = merge_values(&strs(&["A", "A"]), &strs(&["A", "B", "B"]), false);
    assert_eq!(out.len(), 2);
    assert_eq!(as_set(&out), as_set(&strs(&["A", "B"])));
}

#[test]
fn set_equality_ignores_order_and_duplicates() {
    assert!(same_strset(&strs(&["A", "B"]), &strs(&["B", "A", "A"])));
    assert!(!same_strset(&strs(&["A"]), &strs(&["A", "B"])));
    assert!(contains_str(&strs(&["x", "y"]), "y"));
    assert!(!contains_str(&strs(&["x", "y"]), "z"));
}
