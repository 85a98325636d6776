use sortable_table::keys::KeyValue;
use sortable_table::record::Record;
use sortable_table::table::Table;
use sortable_table::types::{ColumnBuilder, TableOptions, TableOrder};

fn two_column_table() -> Table<Record> {
    let columns = vec![
        ColumnBuilder::new("id").data_property("id").orderable(true).short_name("Id").build(),
        ColumnBuilder::new("status").build(),
    ];
    let rows = vec![
        Record::new(1)
            .with_value("id", KeyValue::Int(1))
            .with_cell("id", "task-1")
            .with_cell("status", "open"),
        Record::new(2)
            .with_value("id", KeyValue::Int(2))
            .with_cell("id", "task-2")
            .with_cell("status", "done"),
    ];
    Table::new(columns, rows)
}

#[test]
fn body_renders_every_row_without_a_search() {
    let t = two_column_table();
    let body = t.body_rows(&None);
    assert_eq!(
        body,
        vec![
            vec!["task-1".to_string(), "open".to_string()],
            vec!["task-2".to_string(), "done".to_string()],
        ]
    );
}

#[test]
fn body_filters_rows_by_search() {
    let t = two_column_table();
    let body = t.body_rows(&Some("done".to_string()));
    assert_eq!(body, vec![vec!["task-2".to_string(), "done".to_string()]]);
    let empty = t.body_rows(&Some("overdue".to_string()));
    assert!(empty.is_empty());
}

#[test]
fn filtering_never_mutates_the_rows() {
    let t = two_column_table();
    let _ = t.body_rows(&Some("done".to_string()));
    assert_eq!(t.data.len(), 2);
    assert_eq!(t.data[0].cells[0].1, "task-1");
}

#[test]
fn missing_cell_is_omitted_others_render() {
    let columns = vec![
        ColumnBuilder::new("id").build(),
        ColumnBuilder::new("status").build(),
    ];
    let rows = vec![
        Record::new(1).with_cell("id", "task-1").with_cell("status", "open"),
        Record::new(2).with_cell("id", "task-2"),
    ];
    let t = Table::new(columns, rows);
    let body = t.body_rows(&None);
    // The row lacking "status" loses only that cell; every other cell and
    // row renders normally.
    assert_eq!(
        body,
        vec![
            vec!["task-1".to_string(), "open".to_string()],
            vec!["task-2".to_string()],
        ]
    );
}

#[test]
fn sort_and_filter_compose() {
    let columns = vec![ColumnBuilder::new("id").data_property("id").orderable(true).build()];
    let rows = vec![
        Record::new(1).with_value("id", KeyValue::Int(3)).with_cell("id", "task-3"),
        Record::new(2).with_value("id", KeyValue::Int(1)).with_cell("id", "task-1"),
        Record::new(3).with_value("id", KeyValue::Int(13)).with_cell("id", "task-13"),
    ];
    let mut t = Table::new(columns, rows);
    t.toggle_sort(0).unwrap();
    let body = t.body_rows(&Some("task-1".to_string()));
    // The sort fixed the order first; the filter then kept the matches.
    assert_eq!(body, vec![vec!["task-1".to_string()], vec!["task-13".to_string()]]);
}

#[test]
fn header_cells_carry_text_order_and_classes() {
    let columns = vec![
        ColumnBuilder::new("id")
            .data_property("id")
            .orderable(true)
            .short_name("Id")
            .header_class("th-id")
            .build(),
        ColumnBuilder::new("status").build(),
    ];
    let rows = vec![Record::new(1).with_value("id", KeyValue::Int(1)).with_cell("id", "task-1")];
    let mut t = Table::new(columns, rows);
    let options = TableOptions {
        unordered_class: Some("sort-none".to_string()),
        ascending_class: Some("sort-up".to_string()),
        descending_class: Some("sort-down".to_string()),
        orderable_classes: vec!["sort".to_string()],
        orderable: true,
    };
    t.set_options(options);
    t.toggle_sort(0).unwrap();

    let cells = t.header_cells();
    assert_eq!(cells.len(), 2);

    assert_eq!(cells[0].text, "Id");
    assert!(cells[0].orderable);
    assert_eq!(cells[0].order, TableOrder::Ascending);
    assert_eq!(cells[0].header_classes, vec!["th-id".to_string()]);
    assert_eq!(cells[0].marker_classes, vec!["sort".to_string(), "sort-up".to_string()]);

    assert_eq!(cells[1].text, "status");
    assert!(!cells[1].orderable);
    assert_eq!(cells[1].order, TableOrder::Unordered);
    assert!(cells[1].header_classes.is_empty());
    assert!(cells[1].marker_classes.is_empty());
}

#[test]
fn header_marker_absent_without_options() {
    let t = two_column_table();
    let cells = t.header_cells();
    assert!(cells[0].marker_classes.is_empty());
    assert_eq!(cells[0].text, "Id");
    assert_eq!(cells[1].text, "status");
}

#[test]
fn row_cells_resolve_by_field_key() {
    let t = two_column_table();
    let cells = t.row_cells(&t.data[0]);
    assert_eq!(cells, vec!["task-1".to_string(), "open".to_string()]);
}
