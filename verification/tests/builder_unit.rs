//! Unit scenarios of the prompt builder.

use agent_context_builder::ContextBuilder;

#[test]
fn single_section() {
    let p = ContextBuilder::new()
        .section("role", "You are helpful.")
        .build();
    assert_eq!(p, "You are helpful.");
}

#[test]
fn two_sections_joined() {
    let p = ContextBuilder::new()
        .section("a", "First.")
        .section("b", "Second.")
        .build();
    assert!(p.contains("First."));
    assert!(p.contains("Second."));
}

#[test]
fn default_separator_double_newline() {
    let p = ContextBuilder::new()
        .section("a", "A")
        .section("b", "B")
        .build();
    assert_eq!(p, "A\n\nB");
}

#[test]
fn custom_separator() {
    let p = ContextBuilder::new()
        .separator(" | ")
        .section("a", "A")
        .section("b", "B")
        .build();
    assert_eq!(p, "A | B");
}

#[test]
fn replace_existing_section() {
    let builder = ContextBuilder::new()
        .section("role", "Old")
        .section("role", "New");
    assert_eq!(builder.get("role"), Some("New"));
    assert_eq!(builder.len(), 1);
}

#[test]
fn replace_preserves_priority() {
    // `section` must not reset a priority set earlier.
    let b = ContextBuilder::new()
        .section_with_priority("role", "Old", 5)
        .section("role", "New");
    let p = b.clone().section_with_priority("other", "Other", 0).build();
    // role has priority 5 so it renders before the priority-0 section.
    assert!(p.find("New").unwrap() < p.find("Other").unwrap());
    assert_eq!(b.get("role"), Some("New"));
}

#[test]
fn disable_omits_section() {
    let p = ContextBuilder::new()
        .section("a", "Show")
        .section("b", "Hide")
        .disable("b")
        .build();
    assert!(p.contains("Show"));
    assert!(!p.contains("Hide"));
}

#[test]
fn enable_restores_section() {
    let p = ContextBuilder::new()
        .section("a", "Content")
        .disable("a")
        .enable("a")
        .build();
    assert!(p.contains("Content"));
}

#[test]
fn is_enabled_reports_state() {
    let b = ContextBuilder::new().section("a", "x").disable("a");
    assert!(!b.is_enabled("a"));
    assert!(!b.is_enabled("missing"));
    let b = b.enable("a");
    assert!(b.is_enabled("a"));
}

#[test]
fn remove_deletes_section() {
    let b = ContextBuilder::new()
        .section("a", "keep")
        .section("b", "gone")
        .remove("b");
    assert!(!b.has("b"));
    assert!(b.has("a"));
}

#[test]
fn clear_removes_everything() {
    let b = ContextBuilder::new()
        .section("a", "1")
        .section("b", "2")
        .clear();
    assert!(b.is_empty());
    assert_eq!(b.build(), "");
}

#[test]
fn priority_ordering() {
    let p = ContextBuilder::new()
        .section_with_priority("low", "LOW", 1)
        .section_with_priority("high", "HIGH", 10)
        .build();
    let high_pos = p.find("HIGH").unwrap();
    let low_pos = p.find("LOW").unwrap();
    assert!(high_pos < low_pos);
}

#[test]
fn set_priority_reorders() {
    let p = ContextBuilder::new()
        .section("a", "AAA")
        .section("b", "BBB")
        .set_priority("b", 100)
        .build();
    assert!(p.find("BBB").unwrap() < p.find("AAA").unwrap());
}

#[test]
fn equal_priority_keeps_insertion_order() {
    let p = ContextBuilder::new()
        .section_with_priority("first", "1", 5)
        .section_with_priority("second", "2", 5)
        .section_with_priority("third", "3", 5)
        .build();
    assert_eq!(p, "1\n\n2\n\n3");
}

#[test]
fn has_section() {
    let b = ContextBuilder::new().section("x", "v");
    assert!(b.has("x"));
    assert!(!b.has("y"));
}

#[test]
fn section_names_listed_in_priority_order() {
    let b = ContextBuilder::new()
        .section_with_priority("a", "", 1)
        .section_with_priority("b", "", 9);
    assert_eq!(b.section_names(), vec!["b", "a"]);
}

#[test]
fn enabled_names_excludes_disabled() {
    let b = ContextBuilder::new()
        .section("a", "")
        .section("b", "")
        .disable("a");
    assert_eq!(b.enabled_names(), vec!["b"]);
    assert_eq!(b.section_names().len(), 2);
}

#[test]
fn enabled_count() {
    let b = ContextBuilder::new()
        .section("a", "")
        .section("b", "")
        .disable("b");
    assert_eq!(b.enabled_count(), 1);
}

#[test]
fn len_and_is_empty() {
    let b = ContextBuilder::new();
    assert!(b.is_empty());
    assert_eq!(b.len(), 0);
    let b = b.section("a", "x");
    assert!(!b.is_empty());
    assert_eq!(b.len(), 1);
}

#[test]
fn empty_builder_empty_string() {
    assert_eq!(ContextBuilder::new().build(), "");
}

#[test]
fn all_disabled_builds_empty() {
    let p = ContextBuilder::new().section("a", "x").disable("a").build();
    assert_eq!(p, "");
}

#[test]
fn no_duplicates_in_normal_use() {
    let b = ContextBuilder::new().section("a", "1").section("b", "2");
    assert!(b.duplicate_names().is_empty());
}
