use sheet_search::cell::{CellValue, Numeral};
use sheet_search::reader::{
    add_new_names, names_contain, read_excel_file, read_headers, read_record, read_sheet, RawSheet,
};
use sheet_search::row::Row;

fn grid(rows: &[&[&str]]) -> Vec<Vec<String>> {
    rows.iter().map(|r| r.iter().map(|c| c.to_string()).collect()).collect()
}

fn sheet(name: &str, rows: &[&[&str]]) -> RawSheet {
    RawSheet { name: name.to_string(), cells: Some(grid(rows)) }
}

fn keys(row: &Row) -> Vec<String> {
    (0..row.len()).map(|i| row.key_at(i).clone()).collect()
}

#[test]
fn blank_header_gets_placeholder() {
    let headers = read_headers(&vec!["Name".to_string(), "".to_string(), "ID".to_string()]);
    assert_eq!(headers, vec!["Name", "EMPTY", "ID"]);
}

#[test]
fn record_maps_headers_to_typed_cells() {
    let headers = vec!["Name".to_string(), "ID".to_string(), "Note".to_string()];
    let cells = vec!["Bob".to_string(), "67".to_string(), "".to_string()];
    let record = read_record(&headers, &cells);
    assert_eq!(keys(&record), vec!["Name", "ID", "Note"]);
    assert_eq!(record.get("Name"), Some(&CellValue::Text("Bob".to_string())));
    assert_eq!(record.get("ID"), Some(&CellValue::Number(Numeral::parse("67").unwrap())));
    assert_eq!(record.get("Note"), Some(&CellValue::Null));
}

#[test]
fn cells_beyond_the_headers_are_left_out() {
    let headers = vec!["A".to_string()];
    let cells = vec!["1".to_string(), "2".to_string()];
    let record = read_record(&headers, &cells);
    assert_eq!(keys(&record), vec!["A"]);
}

#[test]
fn repeated_header_keeps_first_place_and_last_value() {
    let headers = vec!["A".to_string(), "B".to_string(), "A".to_string()];
    let cells = vec!["x".to_string(), "y".to_string(), "z".to_string()];
    let record = read_record(&headers, &cells);
    assert_eq!(keys(&record), vec!["A", "B"]);
    assert_eq!(record.get("A"), Some(&CellValue::Text("z".to_string())));
}

#[test]
fn two_row_sheet_keeps_identifier_and_reads_number() {
    let sheets = vec![sheet("People", &[&["Name", "ID"], &["Alice", "0012345"], &["Bob", "67"]])];
    let (data, order) = read_excel_file(&sheets);
    assert_eq!(order, vec!["Name", "ID"]);
    assert_eq!(data.len(), 1);
    assert_eq!(data[0].name, "People");
    assert_eq!(data[0].rows.len(), 2);
    assert_eq!(data[0].rows[0].get("ID"), Some(&CellValue::Text("0012345".to_string())));
    assert_eq!(data[0].rows[1].get("ID"), Some(&CellValue::Number(Numeral::parse("67").unwrap())));
}

#[test]
fn unreadable_and_empty_sheets_are_skipped() {
    let sheets = vec![
        RawSheet { name: "broken".to_string(), cells: None },
        sheet("no rows", &[]),
        sheet("header only", &[&["A", "B"]]),
        sheet("no columns", &[&[], &[]]),
        sheet("good", &[&["A"], &["1"]]),
    ];
    let (data, order) = read_excel_file(&sheets);
    assert_eq!(data.len(), 1);
    assert_eq!(data[0].name, "good");
    assert_eq!(order, vec!["A"]);
}

#[test]
fn field_order_is_first_seen_union_over_sheets() {
    let sheets = vec![
        sheet("one", &[&["B", "A"], &["1", "2"]]),
        sheet("skipped", &[&["Z"]]),
        sheet("two", &[&["A", "C", "", "B"], &["1", "2", "3", "4"]]),
    ];
    let (data, order) = read_excel_file(&sheets);
    assert_eq!(data.len(), 2);
    assert_eq!(order, vec!["B", "A", "C", "EMPTY"]);
}

#[test]
fn workbook_without_sheets_reads_as_nothing() {
    let (data, order) = read_excel_file(&vec![]);
    assert!(data.is_empty());
    assert!(order.is_empty());
}

#[test]
fn read_sheet_of_missing_cells_is_empty() {
    assert!(read_sheet(&None).is_empty());
    assert_eq!(read_sheet(&Some(grid(&[&["A"], &["x"], &["y"]]))).len(), 2);
}

#[test]
fn names_are_added_once() {
    let mut seen = vec!["a".to_string()];
    add_new_names(&mut seen, &vec!["b".to_string(), "a".to_string(), "b".to_string(), "c".to_string()]);
    assert_eq!(seen, vec!["a", "b", "c"]);
    assert!(names_contain(&seen, "c"));
    assert!(!names_contain(&seen, "d"));
}

#[test]
fn signed_number_of_fifteen_digits_is_read_as_number() {
    let sheets = vec![sheet("S", &[&["V"], &["-123456789012345"], &["-1234567890123456"]])];
    let (data, _) = read_excel_file(&sheets);
    assert_eq!(data[0].rows.len(), 2);
    assert_eq!(
        data[0].rows[0].get("V"),
        Some(&CellValue::Number(Numeral::parse("-123456789012345").unwrap()))
    );
    assert_eq!(data[0].rows[1].get("V"), Some(&CellValue::Text("-1234567890123456".to_string())));
}
