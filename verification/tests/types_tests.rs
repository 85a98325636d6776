use sortable_table::error::Error;
use sortable_table::keys::KeyValue;
use sortable_table::text::{str_contains, str_eq};
use sortable_table::types::{ColumnBuilder, TableOrder};

#[test]
fn rotate_steps() {
    assert_eq!(TableOrder::Unordered.rotate(), TableOrder::Ascending);
    assert_eq!(TableOrder::Ascending.rotate(), TableOrder::Descending);
    assert_eq!(TableOrder::Descending.rotate(), TableOrder::Unordered);
}

#[test]
fn rotate_has_period_three() {
    for o in [TableOrder::Unordered, TableOrder::Ascending, TableOrder::Descending] {
        assert_eq!(o.rotate().rotate().rotate(), o);
    }
}

#[test]
fn order_default_is_unordered() {
    assert_eq!(TableOrder::default(), TableOrder::Unordered);
}

#[test]
fn builder_defaults() {
    let c = ColumnBuilder::new("age").build();
    assert_eq!(c.name, "age");
    assert_eq!(c.short_name, None);
    assert_eq!(c.data_property, None);
    assert!(!c.orderable);
    assert!(c.header_classes.is_empty());
}

#[test]
fn builder_sets_every_field() {
    let c = ColumnBuilder::new("age")
        .short_name("Age")
        .data_property("age_years")
        .orderable(true)
        .header_class("th-narrow")
        .header_class("th-right")
        .build();
    assert_eq!(c.name, "age");
    assert_eq!(c.short_name.as_deref(), Some("Age"));
    assert_eq!(c.data_property.as_deref(), Some("age_years"));
    assert!(c.orderable);
    assert_eq!(c.header_classes, vec!["th-narrow".to_string(), "th-right".to_string()]);
}

#[test]
fn display_name_prefers_short_name() {
    let with_short = ColumnBuilder::new("description").short_name("Desc").build();
    assert_eq!(with_short.display_name(), "Desc");
    let without = ColumnBuilder::new("description").build();
    assert_eq!(without.display_name(), "description");
}

#[test]
fn field_key_prefers_data_property() {
    let with_prop = ColumnBuilder::new("age").data_property("age_years").build();
    assert_eq!(with_prop.field_key(), "age_years");
    let without = ColumnBuilder::new("age").build();
    assert_eq!(without.field_key(), "age");
}

#[test]
fn key_order_within_tags() {
    assert!(KeyValue::Bool(false).le(&KeyValue::Bool(true)));
    assert!(!KeyValue::Bool(true).le(&KeyValue::Bool(false)));
    assert!(KeyValue::Int(-4).le(&KeyValue::Int(7)));
    assert!(!KeyValue::Int(7).le(&KeyValue::Int(-4)));
    assert!(KeyValue::Int(5).le(&KeyValue::Int(5)));
    assert!(KeyValue::Text("abc".to_string()).le(&KeyValue::Text("abd".to_string())));
    assert!(!KeyValue::Text("abd".to_string()).le(&KeyValue::Text("abc".to_string())));
    assert!(KeyValue::Text("ab".to_string()).le(&KeyValue::Text("abc".to_string())));
    assert!(!KeyValue::Text("abc".to_string()).le(&KeyValue::Text("ab".to_string())));
}

#[test]
fn key_order_across_tags() {
    assert!(KeyValue::Bool(true).le(&KeyValue::Int(-100)));
    assert!(!KeyValue::Int(-100).le(&KeyValue::Bool(true)));
    assert!(KeyValue::Int(100).le(&KeyValue::Text(String::new())));
    assert!(!KeyValue::Text(String::new()).le(&KeyValue::Int(100)));
}

#[test]
fn error_descriptions() {
    let invalid = Error::InvalidFieldName("age".to_string());
    assert_eq!(invalid.description(), "Invalid field name given.");
    let non_renderable = Error::NonRenderableField("age".to_string());
    assert_eq!(non_renderable.description(), "Field has no HTML representation defined.");
}

#[test]
fn contains_finds_substrings() {
    assert!(str_contains("a quick brown fox", "brown"));
    assert!(str_contains("a quick brown fox", "a quick brown fox"));
    assert!(str_contains("a quick brown fox", ""));
    assert!(str_contains("", ""));
    assert!(!str_contains("a quick brown fox", "browner"));
    assert!(!str_contains("fox", "a quick"));
    assert!(!str_contains("", "a"));
}

#[test]
fn string_equality_is_exact() {
    assert!(str_eq("task-1", "task-1"));
    assert!(!str_eq("task-1", "task-2"));
    assert!(!str_eq("task", "task-1"));
    assert!(str_eq("", ""));
}

#[test]
fn error_messages_name_the_field() {
    let invalid = Error::InvalidFieldName("age".to_string());
    assert_eq!(invalid.message(), "Invalid field name given: 'age'.");
    let non_renderable = Error::NonRenderableField("age".to_string());
    assert_eq!(
        non_renderable.message(),
        "Could not render field 'age' for which no HTML representation is defined."
    );
}
