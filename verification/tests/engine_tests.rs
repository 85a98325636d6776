use sortable_table::error::Error;
use sortable_table::keys::KeyValue;
use sortable_table::record::Record;
use sortable_table::table::Table;
use sortable_table::types::{ColumnBuilder, TableOptions, TableOrder};

fn task(rank: u64, id: i64, name: &str) -> Record {
    Record::new(rank).with_value("id", KeyValue::Int(id)).with_cell("id", name)
}

fn id_table() -> Table<Record> {
    let columns = vec![ColumnBuilder::new("id").data_property("id").orderable(true).build()];
    let rows = vec![task(3, 3, "task-3"), task(1, 1, "task-1"), task(2, 2, "task-2")];
    Table::new(columns, rows)
}

fn ids(t: &Table<Record>) -> Vec<String> {
    t.data.iter().map(|r| r.cells[0].1.clone()).collect()
}

#[test]
fn new_table_starts_unordered() {
    let t = id_table();
    assert_eq!(t.state.order, vec![TableOrder::Unordered]);
    assert_eq!(ids(&t), vec!["task-3", "task-1", "task-2"]);
}

#[test]
fn toggle_cycles_through_orders() {
    let mut t = id_table();

    assert_eq!(t.toggle_sort(0).unwrap(), true);
    assert_eq!(t.state.order, vec![TableOrder::Ascending]);
    assert_eq!(ids(&t), vec!["task-1", "task-2", "task-3"]);

    assert_eq!(t.toggle_sort(0).unwrap(), true);
    assert_eq!(t.state.order, vec![TableOrder::Descending]);
    assert_eq!(ids(&t), vec!["task-3", "task-2", "task-1"]);

    assert_eq!(t.toggle_sort(0).unwrap(), true);
    assert_eq!(t.state.order, vec![TableOrder::Unordered]);
    assert_eq!(ids(&t), vec!["task-1", "task-2", "task-3"]);
}

#[test]
fn unordered_falls_back_to_natural_order_not_input_order() {
    let columns = vec![ColumnBuilder::new("id").data_property("id").orderable(true).build()];
    // Natural order (by rank) differs from both input and key order.
    let rows = vec![task(2, 3, "task-3"), task(3, 1, "task-1"), task(1, 2, "task-2")];
    let mut t = Table::new(columns, rows);
    t.toggle_sort(0).unwrap();
    t.toggle_sort(0).unwrap();
    t.toggle_sort(0).unwrap();
    assert_eq!(t.state.order, vec![TableOrder::Unordered]);
    assert_eq!(ids(&t), vec!["task-2", "task-3", "task-1"]);
}

#[test]
fn descending_reverses_ascending_for_distinct_keys() {
    let mut t = id_table();
    t.toggle_sort(0).unwrap();
    let ascending = ids(&t);
    t.toggle_sort(0).unwrap();
    let descending = ids(&t);
    let mut reversed = ascending.clone();
    reversed.reverse();
    assert_eq!(descending, reversed);
}

#[test]
fn sort_is_stable_for_tied_keys() {
    let columns = vec![ColumnBuilder::new("group").data_property("group").orderable(true).build()];
    let rows = vec![
        Record::new(1).with_value("group", KeyValue::Int(2)).with_cell("group", "b1"),
        Record::new(2).with_value("group", KeyValue::Int(1)).with_cell("group", "a1"),
        Record::new(3).with_value("group", KeyValue::Int(2)).with_cell("group", "b2"),
        Record::new(4).with_value("group", KeyValue::Int(1)).with_cell("group", "a2"),
    ];
    let mut t = Table::new(columns, rows);
    t.toggle_sort(0).unwrap();
    // Tied keys keep their pre-sort relative order.
    assert_eq!(ids(&t), vec!["a1", "a2", "b1", "b2"]);
    t.toggle_sort(0).unwrap();
    // The descending pass is stable too: ties stay in the order the
    // ascending pass left them in.
    assert_eq!(ids(&t), vec!["b1", "b2", "a1", "a2"]);
}

#[test]
fn toggle_resets_every_other_column() {
    let columns = vec![
        ColumnBuilder::new("id").data_property("id").orderable(true).build(),
        ColumnBuilder::new("name").data_property("name").orderable(true).build(),
    ];
    let rows = vec![
        Record::new(1)
            .with_value("id", KeyValue::Int(2))
            .with_value("name", KeyValue::Text("beta".to_string()))
            .with_cell("id", "task-2"),
        Record::new(2)
            .with_value("id", KeyValue::Int(1))
            .with_value("name", KeyValue::Text("alpha".to_string()))
            .with_cell("id", "task-1"),
    ];
    let mut t = Table::new(columns, rows);
    t.toggle_sort(0).unwrap();
    t.toggle_sort(0).unwrap();
    assert_eq!(t.state.order, vec![TableOrder::Descending, TableOrder::Unordered]);
    t.toggle_sort(1).unwrap();
    assert_eq!(t.state.order, vec![TableOrder::Unordered, TableOrder::Ascending]);
}

#[test]
fn non_orderable_click_is_a_no_op() {
    let columns = vec![ColumnBuilder::new("id").data_property("id").build()];
    let rows = vec![task(3, 3, "task-3"), task(1, 1, "task-1")];
    let mut t = Table::new(columns, rows);
    assert_eq!(t.toggle_sort(0).unwrap(), false);
    assert_eq!(t.state.order, vec![TableOrder::Unordered]);
    assert_eq!(ids(&t), vec!["task-3", "task-1"]);
}

#[test]
fn out_of_range_click_is_a_no_op() {
    let mut t = id_table();
    assert_eq!(t.toggle_sort(5).unwrap(), false);
    assert_eq!(t.state.order, vec![TableOrder::Unordered]);
    assert_eq!(ids(&t), vec!["task-3", "task-1", "task-2"]);
}

#[test]
fn toggle_without_data_property_updates_state_only() {
    let columns = vec![ColumnBuilder::new("id").orderable(true).build()];
    let rows = vec![task(3, 3, "task-3"), task(1, 1, "task-1")];
    let mut t = Table::new(columns, rows);
    assert_eq!(t.toggle_sort(0).unwrap(), true);
    assert_eq!(t.state.order, vec![TableOrder::Ascending]);
    assert_eq!(ids(&t), vec!["task-3", "task-1"]);
}

#[test]
fn missing_sort_key_fails_and_changes_nothing() {
    let columns = vec![ColumnBuilder::new("id").data_property("id").orderable(true).build()];
    let rows = vec![task(3, 3, "task-3"), Record::new(1).with_cell("id", "task-x")];
    let mut t = Table::new(columns, rows);
    match t.toggle_sort(0) {
        Err(Error::InvalidFieldName(f)) => assert_eq!(f, "id"),
        other => panic!("unexpected toggle result: {:?}", other),
    }
    assert_eq!(t.state.order, vec![TableOrder::Unordered]);
    assert_eq!(ids(&t), vec!["task-3", "task-x"]);
}

#[test]
fn replacing_columns_resets_state() {
    let mut t = id_table();
    t.toggle_sort(0).unwrap();
    let new_columns = vec![
        ColumnBuilder::new("id").build(),
        ColumnBuilder::new("status").build(),
    ];
    t.set_columns(new_columns);
    assert_eq!(t.state.order, vec![TableOrder::Unordered, TableOrder::Unordered]);
    assert_eq!(t.data.len(), 3);
}

#[test]
fn replacing_rows_resets_state() {
    let mut t = id_table();
    t.toggle_sort(0).unwrap();
    t.set_data(vec![task(9, 9, "task-9")]);
    assert_eq!(t.state.order, vec![TableOrder::Unordered]);
    assert_eq!(ids(&t), vec!["task-9"]);
}

#[test]
fn is_orderable_reads_the_global_option() {
    let mut t = id_table();
    assert!(!t.is_orderable());
    let mut options = TableOptions::default();
    options.orderable = true;
    t.set_options(options);
    assert!(t.is_orderable());
}
