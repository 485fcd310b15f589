use calamine::Reader;
use sheet_search::cell::{CellValue, Numeral};
use sheet_search::columns::{add_keys, add_name, order_columns, order_of, TextOrder};
use sheet_search::export::{
    build_export_plan, number_to_text, sanitize_sheet_name, time_to_text, write_row_cells,
    ExportError, SheetPlan,
};
use sheet_search::naming::{distinct_names, fold_name, number_name};
use sheet_search::record::{DataRow, FileRecord};
use sheet_search::row::Row;
use sheet_search::workbook::{
    check_all_fit, check_sheet_fits, export_search_results, finish_export, render_workbook,
};

fn file_with_order(id: i32, name: &str, order: Option<&[&str]>) -> FileRecord {
    FileRecord {
        id,
        file_path: format!("/data/{}/{}", id, name),
        file_name: name.to_string(),
        file_size: 1,
        file_hash: "h".to_string(),
        field_order: order.map(|names| names.iter().map(|s| s.to_string()).collect()),
        created_at: 0,
        updated_at: 0,
    }
}

fn file(id: i32, name: &str) -> FileRecord {
    file_with_order(id, name, None)
}

fn strings(names: &[&str]) -> Vec<String> {
    names.iter().map(|s| s.to_string()).collect()
}

fn row_of(fields: &[(&str, CellValue)]) -> Row {
    let mut row = Row::new();
    for (k, v) in fields {
        row.insert(k.to_string(), v.clone());
    }
    row
}

fn text(s: &str) -> CellValue {
    CellValue::Text(s.to_string())
}

fn chars(s: &str) -> Vec<char> {
    s.chars().collect()
}

fn read_back(bytes: Vec<u8>) -> Vec<(String, Vec<Vec<String>>)> {
    let mut book = calamine::open_workbook_auto_from_rs(std::io::Cursor::new(bytes)).unwrap();
    let names = book.sheet_names();
    names
        .into_iter()
        .map(|name| {
            let range = book.worksheet_range(&name).unwrap();
            let rows = range.rows().map(|r| r.iter().map(|c| c.to_string()).collect()).collect();
            (name, rows)
        })
        .collect()
}

const TIME: i64 = 1_662_921_288_000_000;

#[test]
fn sheet_name_is_stripped_and_truncated() {
    let name = "2024/03:quarterly-sales-report-for-europe"; // 41 characters
    assert_eq!(name.chars().count(), 41);
    let long = &name[..40];
    assert_eq!(long.chars().count(), 40);
    let sheet = sanitize_sheet_name(long);
    assert_eq!(sheet, "202403quarterly-sales-report...");
    assert_eq!(sheet.chars().count(), 31);
    assert!(!sheet.contains('/') && !sheet.contains(':'));
}

#[test]
fn sheet_name_edge_cases() {
    assert_eq!(sanitize_sheet_name("report.xlsx"), "report.xlsx");
    assert_eq!(sanitize_sheet_name("a\\b/c?d*e[f]g:h"), "abcdefgh");
    assert_eq!(sanitize_sheet_name(""), "Sheet1");
    assert_eq!(sanitize_sheet_name("[]:*?/\\"), "Sheet1");
    let exactly = "a".repeat(31);
    assert_eq!(sanitize_sheet_name(&exactly), exactly);
    let over = "b".repeat(32);
    assert_eq!(sanitize_sheet_name(&over), format!("{}...", "b".repeat(28)));
    let wide = "数".repeat(40);
    assert_eq!(sanitize_sheet_name(&wide), format!("{}...", "数".repeat(28)));
    let stripped_to_fit = format!("{}{}", "c".repeat(31), "////");
    assert_eq!(sanitize_sheet_name(&stripped_to_fit), "c".repeat(31));
}

#[test]
fn numbers_are_written_in_decimal() {
    assert_eq!(number_to_text(0), "0");
    assert_eq!(number_to_text(7), "7");
    assert_eq!(number_to_text(10), "10");
    assert_eq!(number_to_text(1048576), "1048576");
    assert_eq!(number_to_text(-42), "-42");
    assert_eq!(number_to_text(i32::MAX), "2147483647");
    assert_eq!(number_to_text(i32::MIN), "-2147483648");
}

#[test]
fn import_time_is_written_in_utc() {
    assert_eq!(time_to_text(TIME), "2022-09-11 18:34:48");
    assert_eq!(time_to_text(0), "1970-01-01 00:00:00");
    assert_eq!(time_to_text(-2_208_936_075_000_000), "1900-01-01 14:38:45");
    assert_eq!(time_to_text(999_999), "1970-01-01 00:00:00");
    assert_eq!(time_to_text(i64::MAX), "");
}

#[test]
fn texts_are_ordered_by_code_point() {
    assert_eq!(order_of(&chars("a"), &chars("b")), TextOrder::Before);
    assert_eq!(order_of(&chars("b"), &chars("a")), TextOrder::After);
    assert_eq!(order_of(&chars("ab"), &chars("ab")), TextOrder::Same);
    assert_eq!(order_of(&chars("a"), &chars("ab")), TextOrder::Before);
    assert_eq!(order_of(&chars(""), &chars("")), TextOrder::Same);
    assert_eq!(order_of(&chars("Z"), &chars("a")), TextOrder::Before);
    assert_eq!(order_of(&chars("z"), &chars("行号")), TextOrder::Before);
    for (a, b) in [("x", "y"), ("abc", "abd"), ("", "q"), ("导入时间", "行号"), ("a", "A")] {
        let expected = match a.cmp(b) {
            std::cmp::Ordering::Less => TextOrder::Before,
            std::cmp::Ordering::Equal => TextOrder::Same,
            std::cmp::Ordering::Greater => TextOrder::After,
        };
        assert_eq!(order_of(&chars(a), &chars(b)), expected, "{} {}", a, b);
    }
}

#[test]
fn keys_are_a_sorted_set() {
    let mut names: Vec<String> = Vec::new();
    add_name(&mut names, "Name");
    add_name(&mut names, "ID");
    add_name(&mut names, "Name");
    add_name(&mut names, "行号");
    assert_eq!(names, vec!["ID", "Name", "行号"]);
    add_keys(&mut names, &row_of(&[("zeta", CellValue::Null), ("Alpha", CellValue::Null)]));
    assert_eq!(names, vec!["Alpha", "ID", "Name", "zeta", "行号"]);
    let expected: Vec<String> = ["Alpha", "ID", "Name", "zeta", "行号"]
        .iter()
        .map(|s| s.to_string())
        .collect::<std::collections::BTreeSet<String>>()
        .into_iter()
        .collect();
    assert_eq!(names, expected);
}

#[test]
fn columns_follow_the_field_order() {
    let keys = strings(&["Age", "ID", "Name", "Zip"]);
    assert_eq!(
        order_columns(&strings(&["Name", "ID", "Age", "Zip"]), &keys),
        vec!["Name", "ID", "Age", "Zip", "行号", "导入时间"]
    );
    // Names of the field order that are no key are left out; keys that the
    // field order does not hold follow in ascending order.
    assert_eq!(
        order_columns(&strings(&["Zip", "Gone", "ID"]), &keys),
        vec!["Zip", "ID", "Age", "Name", "行号", "导入时间"]
    );
    // Without a field order the keys stand in ascending order.
    assert_eq!(order_columns(&vec![], &keys), vec!["Age", "ID", "Name", "Zip", "行号", "导入时间"]);
    // A name stands once, and the fixed columns stand last whatever the keys are.
    assert_eq!(
        order_columns(&strings(&["ID", "行号", "ID"]), &strings(&["ID", "导入时间", "行号"])),
        vec!["ID", "行号", "导入时间"]
    );
    assert_eq!(order_columns(&strings(&["a"]), &vec![]), vec!["行号", "导入时间"]);
}

#[test]
fn sheets_keep_their_names_where_they_can() {
    assert_eq!(distinct_names(&strings(&["a.xlsx", "b.xlsx"])), vec!["a.xlsx", "b.xlsx"]);
    assert_eq!(distinct_names(&strings(&["a)"])), vec!["a)"]);
    assert_eq!(distinct_names(&strings(&["report (2)", "x (1)"])), vec!["report (2)", "x (1)"]);
    assert_eq!(distinct_names(&strings(&[""])), vec![""]);
    assert_eq!(distinct_names(&vec![]), Vec::<String>::new());
}

#[test]
fn taken_names_get_the_first_free_number() {
    assert_eq!(
        distinct_names(&strings(&["a.xlsx", "b.xlsx", "a.xlsx"])),
        vec!["a.xlsx", "b.xlsx", "a.xlsx (2)"]
    );
    assert_eq!(
        distinct_names(&strings(&["Report", "REPORT", "report (2)", "x"])),
        vec!["Report", "REPORT (2)", "report (2) (2)", "x"]
    );
    assert_eq!(distinct_names(&strings(&["x", "x (2)", "X"])), vec!["x", "x (2)", "X (3)"]);
    assert_eq!(distinct_names(&strings(&["x (2)", "x", "x"])), vec!["x (2)", "x", "x (3)"]);
    let long = "abcdefghijklmnopqrstuvwxyzabcde";
    assert_eq!(long.chars().count(), 31);
    let names = distinct_names(&strings(&[long, long]));
    assert_eq!(names, vec![long, "abcdefghijklmnopqrstuvwxyza (2)"]);
    assert!(names.iter().all(|n| n.chars().count() == 31));
    let many = distinct_names(&vec!["s".to_string(); 12]);
    assert_eq!(many[0], "s");
    assert_eq!(many[1], "s (2)");
    assert_eq!(many[9], "s (10)");
    assert_eq!(many[11], "s (12)");
}

#[test]
fn names_are_compared_without_the_case_of_plain_letters() {
    assert_eq!(fold_name("AbC xyz [Z] @`{"), "abc xyz [z] @`{");
    assert_eq!(fold_name("ÄB é"), "Äb é");
    assert_eq!(fold_name(""), "");
    // Names that differ in the case of other letters are left as they are;
    // the writer refuses a workbook that holds both.
    assert_eq!(distinct_names(&strings(&["ÄB", "äb"])), vec!["ÄB", "äb"]);
    let plan = |name: &str| SheetPlan {
        name: name.to_string(),
        columns: vec!["a".to_string()],
        rows: vec![],
    };
    assert!(matches!(render_workbook(&vec![plan("ÄB"), plan("äb")]), Err(ExportError::Workbook(_))));
}

#[test]
fn numbered_names_are_cut_to_fit() {
    assert_eq!(number_name("a", 2), "a (2)");
    assert_eq!(number_name("", 10), " (10)");
    assert_eq!(number_name("abcdefghijklmnopqrstuvwxyzabcde", 123), "abcdefghijklmnopqrstuvwxy (123)");
    let widest = number_name("abcdefghijklmnopqrstuvwxyzabcde", u128::MAX);
    assert!(widest.ends_with(" (340282366920938463463374607431768211455)"));
    assert_eq!(number_name("abcdefghijklmnopqrstuvwxyzabcde", u64::MAX as u128).chars().count(), 31);
}

#[test]
fn files_of_the_same_name_get_sheets_of_their_own() {
    let files = vec![file(1, "list.xlsx"), file(2, "List.xlsx"), file(3, "other.xlsx")];
    let rows = vec![
        DataRow::new(Some(1), 1, "A".to_string(), 1, row_of(&[("k", text("kw one"))]), 300),
        DataRow::new(Some(2), 2, "A".to_string(), 1, row_of(&[("k", text("kw two"))]), 200),
        DataRow::new(Some(3), 3, "A".to_string(), 1, row_of(&[("k", text("kw three"))]), 100),
    ];
    let plans = build_export_plan(&rows, &files, "kw").unwrap();
    let names: Vec<&str> = plans.iter().map(|p| p.name.as_str()).collect();
    assert_eq!(names, vec!["list.xlsx", "List.xlsx (2)", "other.xlsx"]);
    let sheets = read_back(export_search_results(&rows, &files, "kw").unwrap());
    assert_eq!(sheets.len(), 3);
    assert_eq!(sheets[0].0, "list.xlsx");
    assert_eq!(sheets[1].0, "List.xlsx (2)");
    assert_eq!(sheets[1].1[1][0], "kw two");
}

#[test]
fn cells_follow_the_columns() {
    let data = row_of(&[
        ("Name", text("Bob")),
        ("ID", CellValue::Number(Numeral::parse("67").unwrap())),
        ("Ok", CellValue::Bool(true)),
        ("Gap", CellValue::Null),
    ]);
    let row = DataRow::new(Some(1), 1, "S".to_string(), 12, data, TIME);
    let columns: Vec<String> =
        ["Gap", "ID", "Missing", "Name", "Ok", "导入时间", "行号"].iter().map(|s| s.to_string()).collect();
    assert_eq!(
        write_row_cells(&row, &columns),
        vec!["", "67", "", "Bob", "true", "2022-09-11 18:34:48", "12"]
    );
}

#[test]
fn synthetic_columns_win_over_keys_of_the_same_name() {
    let data = row_of(&[("行号", text("from data"))]);
    let row = DataRow::new(Some(1), 1, "S".to_string(), 5, data, TIME);
    assert_eq!(write_row_cells(&row, &vec!["行号".to_string()]), vec!["5"]);
}

#[test]
fn export_without_keywords_is_refused() {
    let rows = vec![DataRow::new(Some(1), 1, "S".to_string(), 1, row_of(&[("a", text("x"))]), 0)];
    let files = vec![file(1, "f.xlsx")];
    assert_eq!(build_export_plan(&rows, &files, ""), Err(ExportError::EmptyQuery));
    assert_eq!(build_export_plan(&rows, &files, " \t"), Err(ExportError::EmptyQuery));
    assert_eq!(export_search_results(&rows, &files, "  "), Err(ExportError::EmptyQuery));
}

#[test]
fn export_without_matches_is_refused() {
    let rows = vec![DataRow::new(Some(1), 1, "S".to_string(), 1, row_of(&[("a", text("x"))]), 0)];
    let files = vec![file(1, "f.xlsx")];
    assert_eq!(build_export_plan(&rows, &files, "zzz"), Err(ExportError::NoMatches));
    assert_eq!(export_search_results(&rows, &files, "zzz"), Err(ExportError::NoMatches));
    assert_eq!(export_search_results(&vec![], &vec![], "x"), Err(ExportError::NoMatches));
}

fn sample() -> (Vec<DataRow>, Vec<FileRecord>) {
    let files = vec![
        file_with_order(1, "people/2024.xlsx", Some(&["Name", "ID", "Age"])),
        file(2, "stock.xlsx"),
    ];
    let rows = vec![
        DataRow::new(Some(1), 1, "A".to_string(), 1, row_of(&[("Name", text("kw Alice")), ("ID", text("0012345"))]), 100),
        DataRow::new(Some(2), 2, "B".to_string(), 1, row_of(&[("Item", text("kw bolt")), ("Qty", CellValue::Number(Numeral::parse("12").unwrap()))]), 300),
        DataRow::new(Some(3), 1, "A".to_string(), 2, row_of(&[("Name", text("kw Bob")), ("Age", CellValue::Number(Numeral::parse("41").unwrap()))]), 200),
        DataRow::new(Some(4), 9, "C".to_string(), 1, row_of(&[("Name", text("kw orphan"))]), 400),
        DataRow::new(Some(5), 2, "B".to_string(), 2, row_of(&[("Item", text("nut"))]), 500),
    ];
    (rows, files)
}

#[test]
fn plan_groups_matches_by_owning_file_in_result_order() {
    let (rows, files) = sample();
    let plans = build_export_plan(&rows, &files, "kw").unwrap();
    assert_eq!(plans.len(), 2);
    assert_eq!(plans[0].name, "stock.xlsx");
    assert_eq!(plans[0].columns, vec!["Item", "Qty", "行号", "导入时间"]);
    assert_eq!(plans[0].rows, vec![vec!["kw bolt", "12", "1", "1970-01-01 00:00:00"]]);
    assert_eq!(plans[1].name, "people2024.xlsx");
    assert_eq!(plans[1].columns, vec!["Name", "ID", "Age", "行号", "导入时间"]);
    assert_eq!(
        plans[1].rows,
        vec![
            vec!["kw Bob", "", "41", "2", "1970-01-01 00:00:00"],
            vec!["kw Alice", "0012345", "", "1", "1970-01-01 00:00:00"],
        ]
    );
}

#[test]
fn exported_workbook_holds_the_plan() {
    let (rows, files) = sample();
    let plans = build_export_plan(&rows, &files, "kw").unwrap();
    let bytes = export_search_results(&rows, &files, "kw").unwrap();
    assert_eq!(&bytes[..2], b"PK");
    let sheets = read_back(bytes);
    assert_eq!(sheets.len(), plans.len());
    for (sheet, plan) in sheets.iter().zip(plans.iter()) {
        assert_eq!(sheet.0, plan.name);
        assert_eq!(sheet.1[0], plan.columns);
        assert_eq!(&sheet.1[1..], &plan.rows[..]);
    }
}

#[test]
fn writer_errors_are_reported_as_such() {
    let plan = |name: &str| SheetPlan {
        name: name.to_string(),
        columns: vec!["a".to_string()],
        rows: vec![vec!["1".to_string()]],
    };
    assert!(matches!(render_workbook(&vec![plan("same"), plan("SAME")]), Err(ExportError::Workbook(_))));
    assert!(matches!(render_workbook(&vec![plan("bad/name")]), Err(ExportError::Workbook(_))));
    assert!(matches!(render_workbook(&vec![plan("'quoted'")]), Err(ExportError::Workbook(_))));
    assert!(render_workbook(&vec![plan("good")]).is_ok());
    assert!(render_workbook(&vec![]).is_ok());
}

#[test]
fn sheets_that_cannot_be_numbered_are_too_large() {
    let wide = SheetPlan {
        name: "wide".to_string(),
        columns: vec![String::new(); 65537],
        rows: vec![],
    };
    assert!(!check_sheet_fits(&wide));
    assert!(!check_all_fit(&vec![wide.clone()]));
    assert_eq!(render_workbook(&vec![wide]), Err(ExportError::TooLarge));
    let ragged = SheetPlan {
        name: "ragged".to_string(),
        columns: vec!["a".to_string()],
        rows: vec![vec![String::new(); 65537]],
    };
    assert_eq!(render_workbook(&vec![ragged]), Err(ExportError::TooLarge));
    let fine = SheetPlan { name: "fine".to_string(), columns: vec![String::new(); 16], rows: vec![] };
    assert!(check_sheet_fits(&fine));
}

#[test]
fn finish_export_maps_the_writer_answer() {
    assert_eq!(finish_export(Ok(vec![1, 2])), Ok(vec![1, 2]));
    assert_eq!(
        finish_export(Err("boom".to_string())),
        Err(ExportError::Workbook("boom".to_string()))
    );
}

#[test]
fn field_order_is_matched_by_cleaned_names() {
    let files = vec![file_with_order(1, "f.xlsx", Some(&[" b\u{200B} ", "a", "gone", "b"]))];
    let rows = vec![DataRow::new(
        Some(1),
        1,
        "S".to_string(),
        1,
        row_of(&[("a", text("kw")), ("c", text("y")), ("b", text("x"))]),
        0,
    )];
    let plans = build_export_plan(&rows, &files, "kw").unwrap();
    assert_eq!(plans[0].columns, vec!["b", "a", "c", "行号", "导入时间"]);
    assert_eq!(plans[0].rows, vec![vec!["x", "kw", "y", "1", "1970-01-01 00:00:00"]]);
}

fn plan_with(name: &str, columns: Vec<String>, rows: Vec<Vec<String>>) -> SheetPlan {
    SheetPlan { name: name.to_string(), columns, rows }
}

#[test]
fn writer_refuses_names_that_no_sheet_can_have() {
    for name in ["", "'x", "x'", "a:b", "a*b", "a?b", "a[b", "a]b", "a\\b", "a/b",
                 "abcdefghijklmnopqrstuvwxyzabcdef"] {
        let r = render_workbook(&vec![plan_with(name, vec!["a".to_string()], vec![])]);
        assert!(matches!(r, Err(ExportError::Workbook(_))), "{:?}", name);
    }
    for name in ["x", "a'b", "a) (1)", "abcdefghijklmnopqrstuvwxyzabcde", "行号"] {
        let r = render_workbook(&vec![plan_with(name, vec!["a".to_string()], vec![])]);
        assert!(r.is_ok(), "{:?}", name);
    }
}

#[test]
fn writer_refuses_cells_beyond_its_limits() {
    let long = "x".repeat(32_767);
    assert!(render_workbook(&vec![plan_with("s", vec![long.clone()], vec![vec![long.clone()]])]).is_ok());
    let too_long = "x".repeat(32_768);
    assert!(matches!(
        render_workbook(&vec![plan_with("s", vec!["a".to_string()], vec![vec![too_long.clone()]])]),
        Err(ExportError::Workbook(_))
    ));
    assert!(matches!(
        render_workbook(&vec![plan_with("s", vec![too_long], vec![])]),
        Err(ExportError::Workbook(_))
    ));
    assert!(render_workbook(&vec![plan_with("s", vec![String::new(); 16_384], vec![])]).is_ok());
    assert!(matches!(
        render_workbook(&vec![plan_with("s", vec![String::new(); 16_385], vec![])]),
        Err(ExportError::Workbook(_))
    ));
    assert!(matches!(
        render_workbook(&vec![plan_with("s", vec![], vec![vec![String::new(); 16_385]])]),
        Err(ExportError::Workbook(_))
    ));
}

#[test]
fn writer_refuses_rows_beyond_its_limit() {
    let mut rows: Vec<Vec<String>> = vec![Vec::new(); 1_048_574];
    rows.push(vec!["last".to_string()]);
    let sheets = read_back(render_workbook(&vec![plan_with("s", vec!["a".to_string()], rows.clone())]).unwrap());
    assert_eq!(sheets[0].1.len(), 1_048_576);
    assert_eq!(sheets[0].1[1_048_575], vec!["last"]);
    rows.insert(0, Vec::new());
    assert!(matches!(
        render_workbook(&vec![plan_with("s", vec!["a".to_string()], rows)]),
        Err(ExportError::Workbook(_))
    ));
}

#[test]
fn single_sheet_is_named_after_its_file() {
    for name in ["a)", "report (2).xlsx", "x (1)"] {
        let files = vec![file(1, name)];
        let rows = vec![DataRow::new(Some(1), 1, "S".to_string(), 1, row_of(&[("k", text("kw"))]), 0)];
        let plans = build_export_plan(&rows, &files, "kw").unwrap();
        assert_eq!(plans[0].name, sanitize_sheet_name(name));
        let sheets = read_back(export_search_results(&rows, &files, "kw").unwrap());
        assert_eq!(sheets[0].0, name);
    }
}
