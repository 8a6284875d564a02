//! The builder's laws and edge cases, checked on concrete values.

use agent_context_builder::ContextBuilder;

#[test]
fn section_then_get_reads_back() {
    let b = ContextBuilder::new().section("role", "first");
    assert_eq!(b.get("role"), Some("first"));
    let b = b.section_with_priority("role", "second", 3);
    assert_eq!(b.get("role"), Some("second"));
    assert_eq!(b.get("absent"), None);
}

#[test]
fn section_on_existing_name_keeps_count_priority_and_flag() {
    let b = ContextBuilder::new()
        .section_with_priority("low", "L", 1)
        .section_with_priority("high", "H", 7)
        .disable("high")
        .section("high", "H2");
    assert_eq!(b.len(), 2);
    assert!(!b.is_enabled("high"));
    assert_eq!(b.section_names(), vec!["high", "low"]);
    assert_eq!(b.get("high"), Some("H2"));
}

#[test]
fn section_with_priority_on_existing_name_keeps_flag() {
    let b = ContextBuilder::new()
        .section("a", "A")
        .section("b", "B")
        .disable("a")
        .section_with_priority("a", "A2", 9);
    assert!(!b.is_enabled("a"));
    assert_eq!(b.section_names(), vec!["a", "b"]);
    assert_eq!(b.build(), "B");
}

#[test]
fn writing_one_section_leaves_the_others() {
    let b = ContextBuilder::new()
        .section("a", "A")
        .section("b", "B")
        .section("a", "A2");
    assert_eq!(b.get("b"), Some("B"));
    assert_eq!(b.get("a"), Some("A2"));
}

#[test]
fn disable_keeps_content_and_enable_restores_output() {
    let b = ContextBuilder::new()
        .separator("/")
        .section("a", "A")
        .section("b", "B");
    let before = b.build();
    let b = b.disable("a");
    assert_eq!(b.get("a"), Some("A"));
    assert_eq!(b.build(), "B");
    let b = b.enable("a");
    assert_eq!(b.build(), before);
    assert_eq!(before, "A/B");
}

#[test]
fn toggles_on_absent_sections_change_nothing() {
    let b = ContextBuilder::new()
        .section("a", "A")
        .disable("zzz")
        .enable("zzz")
        .set_priority("zzz", 4)
        .remove("zzz");
    assert_eq!(b.len(), 1);
    assert_eq!(b.build(), "A");
    assert!(!b.has("zzz"));
}

#[test]
fn remove_deletes_only_that_name() {
    let b = ContextBuilder::new()
        .section("a", "A")
        .section("b", "B")
        .section("c", "C")
        .remove("b");
    assert!(!b.has("b"));
    assert!(b.has("a"));
    assert!(b.has("c"));
    assert_eq!(b.len(), 2);
    assert_eq!(b.build(), "A\n\nC");
}

#[test]
fn clear_keeps_the_separator() {
    let b = ContextBuilder::new()
        .separator("+")
        .section("a", "A")
        .clear()
        .section("x", "X")
        .section("y", "Y");
    assert_eq!(b.build(), "X+Y");
}

#[test]
fn render_order_by_priority_then_insertion() {
    let b = ContextBuilder::new()
        .section_with_priority("m1", "m1", 0)
        .section_with_priority("lo", "lo", -5)
        .section_with_priority("hi1", "hi1", 8)
        .section_with_priority("m2", "m2", 0)
        .section_with_priority("hi2", "hi2", 8)
        .section_with_priority("top", "top", 20);
    assert_eq!(
        b.section_names(),
        vec!["top", "hi1", "hi2", "m1", "m2", "lo"]
    );
    assert_eq!(b.separator(",").build(), "top,hi1,hi2,m1,m2,lo");
}

#[test]
fn extreme_priorities_order_correctly() {
    let b = ContextBuilder::new()
        .section_with_priority("min", "min", i32::MIN)
        .section_with_priority("max", "max", i32::MAX)
        .section("zero", "zero");
    assert_eq!(b.section_names(), vec!["max", "zero", "min"]);
}

#[test]
fn set_priority_moves_a_section_back() {
    let b = ContextBuilder::new()
        .section("a", "A")
        .section("b", "B")
        .set_priority("a", -1);
    assert_eq!(b.section_names(), vec!["b", "a"]);
}

#[test]
fn enabled_count_matches_enabled_names() {
    let b = ContextBuilder::new()
        .section("a", "")
        .section("b", "")
        .section_with_priority("c", "", 3)
        .disable("b");
    assert_eq!(b.enabled_count(), b.enabled_names().len());
    assert_eq!(b.enabled_names(), vec!["c", "a"]);
    assert!(b.is_enabled("a"));
    assert!(!b.is_enabled("b"));
    assert!(b.is_enabled("c"));
}

#[test]
fn nothing_enabled_renders_empty_whatever_the_separator() {
    let b = ContextBuilder::new()
        .separator("###")
        .section("a", "A")
        .section("b", "B")
        .disable("a")
        .disable("b");
    assert_eq!(b.build(), "");
    assert_eq!(b.enabled_count(), 0);
    assert!(b.enabled_names().is_empty());
    assert_eq!(b.section_names().len(), 2);
}

#[test]
fn single_enabled_section_renders_without_separator() {
    let b = ContextBuilder::new()
        .separator("###")
        .section("a", "A")
        .section("b", "B")
        .disable("a");
    assert_eq!(b.build(), "B");
}

#[test]
fn empty_contents_still_get_separators() {
    let b = ContextBuilder::new()
        .separator("|")
        .section("a", "")
        .section("b", "")
        .section("c", "x");
    assert_eq!(b.build(), "||x");
}

#[test]
fn default_builder_matches_new() {
    let b = ContextBuilder::default().section("a", "A").section("b", "B");
    assert!(b.is_empty() == false);
    assert_eq!(b.build(), "A\n\nB");
    assert!(ContextBuilder::default().is_empty());
}

#[test]
fn clone_is_independent_and_equal() {
    let a = ContextBuilder::new().section("a", "A").separator("-");
    let b = a.clone().section("b", "B");
    assert_eq!(a.build(), "A");
    assert_eq!(b.build(), "A-B");
    assert_eq!(a.clone().build(), a.build());
}

#[test]
fn names_stay_unique_after_many_operations() {
    let b = ContextBuilder::new()
        .section("a", "1")
        .section_with_priority("a", "2", 4)
        .section("b", "3")
        .remove("a")
        .section("a", "4")
        .section("b", "5");
    assert!(b.duplicate_names().is_empty());
    assert_eq!(b.len(), 2);
    assert_eq!(b.section_names(), vec!["b", "a"]);
}

#[test]
fn unicode_names_and_contents() {
    let b = ContextBuilder::new()
        .section("rôle", "Ünïcödé ✓")
        .section("règles", "Ça va");
    assert_eq!(b.get("rôle"), Some("Ünïcödé ✓"));
    assert_eq!(b.build(), "Ünïcödé ✓\n\nÇa va");
}
