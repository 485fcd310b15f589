use sheet_search::cell::{CellValue, Numeral};
use sheet_search::json::{row_to_json, write_object};
use sheet_search::row::{
    build_search_text, clean_row_data, find_suspicious_escapes, stringify_value, Row,
};

fn text(s: &str) -> CellValue {
    CellValue::Text(s.to_string())
}

fn number(s: &str) -> CellValue {
    CellValue::Number(Numeral::parse(s).unwrap())
}

fn keys(row: &Row) -> Vec<String> {
    (0..row.len()).map(|i| row.key_at(i).clone()).collect()
}

#[test]
fn insert_appends_new_keys_in_order() {
    let mut row = Row::new();
    assert!(row.is_empty());
    row.insert("b".to_string(), text("1"));
    row.insert("a".to_string(), text("2"));
    assert_eq!(row.len(), 2);
    assert_eq!(keys(&row), vec!["b", "a"]);
    assert_eq!(row.get("a"), Some(&text("2")));
    assert_eq!(row.get("c"), None);
    assert_eq!(row.find("b"), Some(0));
}

#[test]
fn insert_replaces_value_of_present_key_in_place() {
    let mut row = Row::new();
    row.insert("k".to_string(), text("old"));
    row.insert("other".to_string(), CellValue::Null);
    row.insert("k".to_string(), text("new"));
    assert_eq!(row.len(), 2);
    assert_eq!(keys(&row), vec!["k", "other"]);
    assert_eq!(row.value_at(0), &text("new"));
}

#[test]
fn clean_row_data_cleans_keys_and_text_values() {
    let mut row = Row::new();
    row.insert(" Name\u{feff} ".to_string(), text("  Alice\u{0} "));
    row.insert("ID".to_string(), number("67"));
    row.insert("Flag".to_string(), CellValue::Bool(true));
    row.insert("None".to_string(), CellValue::Null);
    clean_row_data(&mut row);
    assert_eq!(keys(&row), vec!["Name", "ID", "Flag", "None"]);
    assert_eq!(row.get("Name"), Some(&text("Alice")));
    assert_eq!(row.get("ID"), Some(&number("67")));
    assert_eq!(row.get("Flag"), Some(&CellValue::Bool(true)));
    assert_eq!(row.get("None"), Some(&CellValue::Null));
}

#[test]
fn clean_row_data_drops_fields_whose_key_becomes_empty() {
    let mut row = Row::new();
    row.insert("\u{200b} ".to_string(), text("lost"));
    row.insert("kept".to_string(), text("v"));
    clean_row_data(&mut row);
    assert_eq!(keys(&row), vec!["kept"]);
}

#[test]
fn clean_row_data_merges_keys_that_clean_to_the_same() {
    let mut row = Row::new();
    row.insert("a".to_string(), text("first"));
    row.insert("b".to_string(), text("middle"));
    row.insert(" a ".to_string(), text("last"));
    clean_row_data(&mut row);
    assert_eq!(keys(&row), vec!["a", "b"]);
    assert_eq!(row.get("a"), Some(&text("last")));
}

#[test]
fn value_texts() {
    assert_eq!(stringify_value(&CellValue::Null), "");
    assert_eq!(stringify_value(&CellValue::Bool(true)), "true");
    assert_eq!(stringify_value(&CellValue::Bool(false)), "false");
    assert_eq!(stringify_value(&number("123.45")), "123.45");
    assert_eq!(stringify_value(&text("x y")), "x y");
}

#[test]
fn search_text_joins_value_texts_by_single_spaces() {
    let mut row = Row::new();
    row.insert("Name".to_string(), text("Alice"));
    row.insert("ID".to_string(), text("0012345"));
    row.insert("Age".to_string(), number("30"));
    row.insert("Ok".to_string(), CellValue::Bool(false));
    assert_eq!(build_search_text(&row), "Alice 0012345 30 false");
    assert_eq!(build_search_text(&Row::new()), "");
}

#[test]
fn search_text_keeps_a_place_for_null() {
    let mut row = Row::new();
    row.insert("a".to_string(), text("x"));
    row.insert("b".to_string(), CellValue::Null);
    row.insert("c".to_string(), text("y"));
    assert_eq!(build_search_text(&row), "x  y");
}

#[test]
fn large_integers_are_written_without_exponent() {
    let big = Numeral::parse("1000000000000000000").unwrap();
    assert_eq!(stringify_value(&CellValue::Number(big)), "1000000000000000000");
}

#[test]
fn suspicious_fields_are_listed_in_order() {
    let mut row = Row::new();
    row.insert("fine".to_string(), text("plain"));
    row.insert("esc".to_string(), text("a\\u0041"));
    row.insert("num".to_string(), number("5"));
    row.insert("nul".to_string(), text("a\u{0}b"));
    row.insert("slash".to_string(), text("a\\nb"));
    let found = find_suspicious_escapes(&row);
    assert_eq!(
        found,
        vec![
            ("esc".to_string(), "a\\u0041".to_string()),
            ("nul".to_string(), "a\u{0}b".to_string())
        ]
    );
}

#[test]
fn row_json_keeps_column_order_and_types() {
    let mut row = Row::new();
    row.insert("Name".to_string(), text("Alice"));
    row.insert("ID".to_string(), text("0012345"));
    assert_eq!(row_to_json(&row), r#"{"Name":"Alice","ID":"0012345"}"#);
    let mut second = Row::new();
    second.insert("Name".to_string(), text("Bob"));
    second.insert("ID".to_string(), number("67"));
    assert_eq!(row_to_json(&second), r#"{"Name":"Bob","ID":67}"#);
}

#[test]
fn row_json_escapes_strings() {
    let mut row = Row::new();
    row.insert("q\"k".to_string(), text("line\nbreak \\ \"quoted\" \u{1}"));
    row.insert("n".to_string(), CellValue::Null);
    row.insert("b".to_string(), CellValue::Bool(true));
    let json = row_to_json(&row);
    assert_eq!(json, "{\"q\\\"k\":\"line\\nbreak \\\\ \\\"quoted\\\" \\u0001\",\"n\":null,\"b\":true}");
    let parsed: serde_json::Value = serde_json::from_str(&json).unwrap();
    assert_eq!(parsed["q\"k"], serde_json::Value::String("line\nbreak \\ \"quoted\" \u{1}".to_string()));
    assert_eq!(parsed["n"], serde_json::Value::Null);
    assert_eq!(parsed["b"], serde_json::Value::Bool(true));
}

#[test]
fn empty_row_is_empty_object() {
    assert_eq!(row_to_json(&Row::new()), "{}");
    assert_eq!(write_object(&vec![]), "{}");
    assert_eq!(write_object(&vec!["\"a\":1".to_string(), "\"b\":2".to_string()]), "{\"a\":1,\"b\":2}");
}
