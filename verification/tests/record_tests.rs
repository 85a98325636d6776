use sortable_table::error::Error;
use sortable_table::keys::KeyValue;
use sortable_table::record::Record;
use sortable_table::table::TableData;

fn task(rank: u64, id: i64, name: &str, status: &str) -> Record {
    Record::new(rank)
        .with_value("id", KeyValue::Int(id))
        .with_cell("id", name)
        .with_cell("status", status)
}

#[test]
fn field_value_found() {
    let r = task(1, 7, "task-7", "open");
    match r.get_field_as_value("id") {
        Ok(KeyValue::Int(v)) => assert_eq!(v, 7),
        other => panic!("unexpected lookup result: {:?}", other),
    }
}

#[test]
fn field_value_missing_is_invalid_field_name() {
    let r = task(1, 7, "task-7", "open");
    match r.get_field_as_value("status") {
        Err(Error::InvalidFieldName(f)) => assert_eq!(f, "status"),
        other => panic!("unexpected lookup result: {:?}", other),
    }
}

#[test]
fn field_html_found() {
    let r = task(1, 7, "task-7", "open");
    assert_eq!(r.get_field_as_html("status").unwrap(), "open");
    assert_eq!(r.get_field_as_html("id").unwrap(), "task-7");
}

#[test]
fn field_html_missing_is_non_renderable() {
    let r = Record::new(1).with_cell("id", "task-7");
    match r.get_field_as_html("status") {
        Err(Error::NonRenderableField(f)) => assert_eq!(f, "status"),
        other => panic!("unexpected lookup result: {:?}", other),
    }
}

#[test]
fn first_entry_of_a_name_wins() {
    let r = Record::new(1).with_cell("id", "first").with_cell("id", "second");
    assert_eq!(r.get_field_as_html("id").unwrap(), "first");
}

#[test]
fn absent_search_matches_every_row() {
    let rows = [
        task(1, 1, "task-1", "open"),
        task(2, 2, "task-2", "done"),
        Record::new(3),
    ];
    for r in &rows {
        assert!(r.matches_search(None));
    }
}

#[test]
fn search_matches_by_substring_of_a_cell() {
    let r = task(1, 7, "task-7", "open");
    assert!(r.matches_search(Some("ask-7".to_string())));
    assert!(r.matches_search(Some("open".to_string())));
    assert!(r.matches_search(Some("".to_string())));
    assert!(!r.matches_search(Some("closed".to_string())));
    assert!(!r.matches_search(Some("OPEN".to_string())));
}

#[test]
fn natural_order_is_by_rank() {
    let a = task(1, 9, "task-9", "open");
    let b = task(2, 3, "task-3", "open");
    assert!(a.le(&b));
    assert!(!b.le(&a));
    assert!(a.le(&a));
}
