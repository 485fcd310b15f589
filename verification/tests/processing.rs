use calamine::Reader;
use sheet_search::cell::{CellValue, Numeral};
use sheet_search::json::row_to_json;
use sheet_search::models::ImportStats;
use sheet_search::processor::ExcelProcessor;
use sheet_search::reader::RawSheet;
use sheet_search::record::prepare_rows;
use sheet_search::row::Row;
use sheet_search::scanner::InputError;
use sheet_search::search::PreparedQuery;
use sheet_search::store::{copy_file_record, ImportError, SourceFile, Store};

fn sheet(name: &str, rows: &[&[&str]]) -> RawSheet {
    RawSheet {
        name: name.to_string(),
        cells: Some(rows.iter().map(|r| r.iter().map(|c| c.to_string()).collect()).collect()),
    }
}

fn source(path: &str, content: &[u8], sheets: Vec<RawSheet>) -> SourceFile {
    let name = path.rsplit('/').next().unwrap().to_string();
    SourceFile { path: path.to_string(), name, content: Some(content.to_vec()), sheets: Some(sheets) }
}

fn people() -> SourceFile {
    source(
        "/data/people.xlsx",
        b"people v1",
        vec![sheet("People", &[&["Name", "ID"], &["Alice", "0012345"], &["Bob", "67"]])],
    )
}

fn stats(success: i64, failed: i64, total: i64, skipped: i64) -> ImportStats {
    ImportStats { success, failed, total, skipped }
}

#[test]
fn two_row_sheet_scenario() {
    let mut processor = ExcelProcessor::new(Store::new());
    let run = processor.batch_import_excel_files(&vec![people()], 1000);
    assert_eq!(run, stats(1, 0, 1, 0));
    let rows = processor.store().rows();
    assert_eq!(rows.len(), 2);
    assert_eq!(row_to_json(rows[0].data()), r#"{"Name":"Alice","ID":"0012345"}"#);
    assert_eq!(row_to_json(rows[1].data()), r#"{"Name":"Bob","ID":67}"#);
    assert_eq!(rows[0].data().get("ID"), Some(&CellValue::Text("0012345".to_string())));
    assert_eq!(rows[1].data().get("ID"), Some(&CellValue::Number(Numeral::parse("67").unwrap())));
    assert_eq!(rows[0].row_number(), 1);
    assert_eq!(rows[1].row_number(), 2);
    assert_eq!(rows[0].sheet_name(), "People");
    assert_eq!(rows[0].search_text(), "Alice 0012345");
    assert_eq!(rows[1].search_text(), "Bob 67");
    assert_eq!(rows[0].import_time(), 1000);

    let alice = processor.search_data("Alice", 20, 0);
    assert_eq!(alice.total, 1);
    assert_eq!(alice.results.len(), 1);
    assert_eq!(alice.results[0].id, rows[0].id());
    assert_eq!(alice.results[0].row_number, 1);
    assert_eq!(alice.results[0].file_name, Some("people.xlsx".to_string()));
    assert_eq!(alice.results[0].data_json, r#"{"Name":"Alice","ID":"0012345"}"#);
    assert!(PreparedQuery::new("Alice").score(&alice.results[0].search_text).unwrap() >= 1);

    let both = processor.search_data("Alice Bob", 20, 0);
    assert_eq!(both.total, 0);
    assert!(both.results.is_empty());
}

#[test]
fn unchanged_file_is_skipped_on_second_run() {
    let mut processor = ExcelProcessor::new(Store::new());
    assert_eq!(processor.batch_import_excel_files(&vec![people()], 1), stats(1, 0, 1, 0));
    let before: Vec<_> = processor.store().rows().iter().map(|r| r.clone()).collect();
    let files_before: Vec<_> = processor.store().files().iter().map(copy_file_record).collect();
    assert_eq!(processor.batch_import_excel_files(&vec![people()], 2), stats(0, 0, 0, 1));
    assert_eq!(processor.store().rows().len(), 2);
    assert_eq!(processor.store().rows(), &before);
    assert_eq!(processor.store().files(), &files_before);
}

#[test]
fn forced_run_imports_unchanged_file_again() {
    let mut processor = ExcelProcessor::new(Store::new());
    processor.batch_import_excel_files(&vec![people()], 1);
    let run = processor.batch_import_excel_files_with_options(&vec![people()], true, 4, 2);
    assert_eq!(run, stats(1, 0, 1, 0));
    let rows = processor.store().rows();
    assert_eq!(rows.len(), 2);
    assert_eq!(rows[0].import_time(), 2);
    assert_eq!(rows[0].id(), Some(3));
    assert_eq!(processor.store().files().len(), 1);
    assert_eq!(processor.store().files()[0].created_at, 1);
    assert_eq!(processor.store().files()[0].updated_at, 2);
}

#[test]
fn changed_file_is_replaced_in_full() {
    let mut processor = ExcelProcessor::new(Store::new());
    let other = source("/data/other.xlsx", b"other", vec![sheet("S", &[&["K"], &["keep"]])]);
    assert_eq!(processor.batch_import_excel_files(&vec![people(), other.clone()], 1), stats(2, 0, 2, 0));
    assert_eq!(processor.store().rows().len(), 3);
    let old_ids: Vec<Option<i32>> = processor
        .store()
        .rows()
        .iter()
        .filter(|r| r.file_id() == 1)
        .map(|r| r.id())
        .collect();
    assert_eq!(old_ids, vec![Some(1), Some(2)]);

    let changed = source(
        "/data/people.xlsx",
        b"people v2",
        vec![
            sheet("People", &[&["Name", "City"], &["Carol", "Oslo"], &["Dan", "Rome"], &["Eve", "Bern"]]),
            sheet("More", &[&["Name"], &["Finn"]]),
        ],
    );
    let run = processor.batch_import_excel_files(&vec![changed, other], 2);
    assert_eq!(run, stats(1, 0, 1, 1));
    let store = processor.store();
    assert_eq!(store.files().len(), 2);
    let record = &store.files()[0];
    assert_eq!(record.id, 1);
    assert_eq!(record.file_hash, format!("{:x}", md5::compute(b"people v2")));
    assert_eq!(record.file_size, 9);
    assert_eq!(record.field_order, Some(vec!["Name".to_string(), "City".to_string()]));
    assert_eq!(record.created_at, 1);
    assert_eq!(record.updated_at, 2);
    let of_file: Vec<_> = store.rows().iter().filter(|r| r.file_id() == 1).collect();
    assert_eq!(of_file.len(), 4);
    assert!(of_file.iter().all(|r| !old_ids.contains(&r.id())));
    assert!(of_file.iter().all(|r| r.import_time() == 2));
    let names: Vec<String> = of_file.iter().map(|r| r.search_text().clone()).collect();
    assert_eq!(names, vec!["Carol Oslo", "Dan Rome", "Eve Bern", "Finn"]);
    let numbers: Vec<(String, i32)> =
        of_file.iter().map(|r| (r.sheet_name().clone(), r.row_number())).collect();
    assert_eq!(
        numbers,
        vec![
            ("People".to_string(), 1),
            ("People".to_string(), 2),
            ("People".to_string(), 3),
            ("More".to_string(), 1)
        ]
    );
    let others: Vec<_> = store.rows().iter().filter(|r| r.file_id() != 1).collect();
    assert_eq!(others.len(), 1);
    assert_eq!(others[0].search_text(), "keep");
    assert_eq!(others[0].id(), Some(3));
    assert!(processor.search_data("Alice", 20, 0).results.is_empty());
}

#[test]
fn unreadable_file_fails_and_leaves_the_store() {
    let mut processor = ExcelProcessor::new(Store::new());
    processor.batch_import_excel_files(&vec![people()], 1);
    let unreadable = SourceFile {
        path: "/data/people.xlsx".to_string(),
        name: "people.xlsx".to_string(),
        content: None,
        sheets: None,
    };
    assert_eq!(processor.check_changed(&unreadable), None);
    assert_eq!(processor.process_single_file(&unreadable, false, 2), Err(ImportError::Io));
    assert_eq!(processor.batch_import_excel_files(&vec![unreadable], 3), stats(0, 1, 1, 0));
    assert_eq!(processor.store().rows().len(), 2);
    assert_eq!(processor.store().files()[0].updated_at, 1);
}

#[test]
fn unreadable_workbook_fails_and_leaves_the_store() {
    let mut processor = ExcelProcessor::new(Store::new());
    processor.batch_import_excel_files(&vec![people()], 1);
    let broken = SourceFile {
        path: "/data/people.xlsx".to_string(),
        name: "people.xlsx".to_string(),
        content: Some(b"not a workbook".to_vec()),
        sheets: None,
    };
    assert_eq!(processor.check_changed(&broken), Some(true));
    assert_eq!(processor.process_single_file(&broken, false, 2), Err(ImportError::Format));
    let good = source("/data/good.xlsx", b"good", vec![sheet("S", &[&["K"], &["v"]])]);
    assert_eq!(processor.batch_import_excel_files(&vec![broken, good], 3), stats(1, 1, 2, 0));
    assert_eq!(processor.store().rows().len(), 3);
    assert_eq!(processor.store().files()[0].file_hash, format!("{:x}", md5::compute(b"people v1")));
}

#[test]
fn failure_does_not_stop_later_files() {
    let mut processor = ExcelProcessor::new(Store::new());
    let files = vec![
        SourceFile { path: "/a".to_string(), name: "a".to_string(), content: None, sheets: None },
        source("/b.xlsx", b"b", vec![sheet("S", &[&["K"], &["1"]])]),
        SourceFile { path: "/c".to_string(), name: "c".to_string(), content: Some(vec![1]), sheets: None },
        source("/d.xlsx", b"d", vec![sheet("S", &[&["K"], &["2"], &["3"]])]),
    ];
    assert_eq!(processor.batch_import_excel_files(&files, 1), stats(2, 2, 4, 0));
    assert_eq!(processor.store().files().len(), 2);
    assert_eq!(processor.store().rows().len(), 3);
}

#[test]
fn workbook_without_rows_is_imported_as_empty() {
    let mut processor = ExcelProcessor::new(Store::new());
    let empty = source("/e.xlsx", b"e", vec![sheet("S", &[&["only", "header"]])]);
    assert_eq!(processor.batch_import_excel_files(&vec![empty.clone()], 1), stats(1, 0, 1, 0));
    assert_eq!(processor.store().rows().len(), 0);
    assert_eq!(processor.store().files()[0].field_order, Some(vec![]));
    assert_eq!(processor.batch_import_excel_files(&vec![empty], 2), stats(0, 0, 0, 1));
}

#[test]
fn statistics_report_totals_and_latest_import() {
    let mut processor = ExcelProcessor::new(Store::new());
    let empty = processor.get_statistics(77);
    assert_eq!((empty.total_rows, empty.total_files, empty.last_update), (0, 0, 77));
    processor.batch_import_excel_files(&vec![people()], 10);
    let other = source("/data/other.xlsx", b"other", vec![sheet("S", &[&["K"], &["keep"]])]);
    processor.batch_import_excel_files(&vec![other], 5);
    let full = processor.get_statistics(77);
    assert_eq!((full.total_rows, full.total_files, full.last_update), (3, 2, 10));
}

#[test]
fn store_finds_files_by_path() {
    let mut store = Store::new();
    assert_eq!(store.find_file("/data/people.xlsx"), None);
    assert_eq!(store.stored_hash("/data/people.xlsx"), None);
    assert_eq!(store.import(&people(), 1), Ok(()));
    assert_eq!(store.find_file("/data/people.xlsx"), Some(0));
    assert_eq!(store.stored_hash("/data/people.xlsx"), Some(format!("{:x}", md5::compute(b"people v1"))));
    assert_eq!(store.find_file("/data/People.xlsx"), None);
}

#[test]
fn prepared_rows_are_numbered_from_one() {
    let mut a = Row::new();
    a.insert(" k ".to_string(), CellValue::Text(" v ".to_string()));
    let rows = vec![a, Row::new()];
    let prepared = prepare_rows(4, "Sheet", &rows, 9).unwrap();
    assert_eq!(prepared.len(), 2);
    assert_eq!(prepared[0].id(), None);
    assert_eq!(prepared[0].file_id(), 4);
    assert_eq!(prepared[0].row_number(), 1);
    assert_eq!(prepared[1].row_number(), 2);
    assert_eq!(prepared[0].search_text(), "v");
    assert_eq!(prepared[0].data().key_at(0), "k");
    assert_eq!(prepared[1].search_text(), "");
    assert_eq!(prepared[0].sheet_name(), "Sheet");
    assert_eq!(prepared[0].import_time(), 9);
}

#[test]
fn export_through_the_processor() {
    let mut processor = ExcelProcessor::new(Store::new());
    processor.batch_import_excel_files(&vec![people()], 0);
    let bytes = processor.export_search_results("Bob").unwrap();
    assert_eq!(&bytes[..2], b"PK");
    assert!(processor.export_search_results("").is_err());
    assert!(processor.export_search_results("nobody").is_err());
}

#[test]
fn batch_size_does_not_change_the_outcome() {
    let files: Vec<SourceFile> = (0..7)
        .map(|i| {
            let path = format!("/data/f{}.xlsx", i);
            let content = format!("content {}", i);
            if i == 3 {
                SourceFile { path, name: format!("f{}.xlsx", i), content: None, sheets: None }
            } else {
                source(&path, content.as_bytes(), vec![sheet("S", &[&["K"], &["v"], &["w"]])])
            }
        })
        .collect();
    let mut expected: Option<(ImportStats, Vec<Option<i32>>)> = None;
    for size in [0usize, 1, 2, 3, 7, 100] {
        let mut processor = ExcelProcessor::new(Store::new());
        let run = processor.batch_import_excel_files_with_options(&files, false, size, 5);
        assert_eq!(run, stats(6, 1, 7, 0));
        let ids: Vec<Option<i32>> = processor.store().rows().iter().map(|r| r.id()).collect();
        match &expected {
            None => expected = Some((run, ids)),
            Some(first) => assert_eq!(first, &(run, ids), "size {}", size),
        }
    }
}

#[test]
fn store_without_identifiers_left_refuses_the_import() {
    let mut no_file_ids = Store::starting_at(i32::MAX, 1);
    assert_eq!(no_file_ids.import(&people(), 1), Err(ImportError::Storage));
    assert!(no_file_ids.files().is_empty());
    assert!(no_file_ids.rows().is_empty());

    let mut one_row_id = Store::starting_at(1, i32::MAX - 1);
    assert_eq!(one_row_id.import(&people(), 1), Err(ImportError::Storage));
    assert!(one_row_id.files().is_empty());
    let single = source("/s.xlsx", b"s", vec![sheet("S", &[&["K"], &["v"]])]);
    assert_eq!(one_row_id.import(&single, 1), Ok(()));
    assert_eq!(one_row_id.rows()[0].id(), Some(i32::MAX - 1));
    assert_eq!(one_row_id.import(&people(), 2), Err(ImportError::Storage));
    assert_eq!(one_row_id.rows().len(), 1);

    let mut last_file_id = Store::starting_at(i32::MAX - 1, -5);
    assert_eq!(last_file_id.import(&single, 1), Ok(()));
    assert_eq!(last_file_id.files()[0].id, i32::MAX - 1);
    assert_eq!(last_file_id.rows()[0].id(), Some(1));
    assert_eq!(last_file_id.import(&people(), 2), Err(ImportError::Storage));
    assert_eq!(last_file_id.import(&single, 3), Ok(()));
    let mut processor = ExcelProcessor::new(last_file_id);
    assert_eq!(processor.batch_import_excel_files(&vec![people()], 4), stats(0, 1, 1, 0));
}

#[test]
fn missing_folder_fails_before_anything_changes() {
    let mut processor = ExcelProcessor::new(Store::new());
    assert_eq!(processor.batch_import_excel_files(&vec![people()], 1), stats(1, 0, 1, 0));
    let rows_before: Vec<_> = processor.store().rows().iter().map(|r| r.clone()).collect();
    let files_before: Vec<_> = processor.store().files().iter().map(copy_file_record).collect();
    let changed = || source("/data/people.xlsx", b"other bytes", vec![sheet("S", &[&["A"], &["1"]])]);
    for force in [false, true] {
        assert_eq!(
            processor.import_folder(false, false, &vec![changed()], force, 4, 2),
            Err(InputError::Missing)
        );
        assert_eq!(
            processor.import_folder(true, false, &vec![changed()], force, 0, 2),
            Err(InputError::NotADirectory)
        );
        assert_eq!(processor.store().rows(), &rows_before);
        assert_eq!(processor.store().files(), &files_before);
    }
}

#[test]
fn folder_that_is_there_is_imported() {
    let mut processor = ExcelProcessor::new(Store::new());
    assert_eq!(processor.import_folder(true, true, &vec![people()], false, 4, 1), Ok(stats(1, 0, 1, 0)));
    assert_eq!(processor.store().rows().len(), 2);
    assert_eq!(processor.import_folder(true, true, &vec![people()], false, 4, 2), Ok(stats(0, 0, 0, 1)));
    assert_eq!(processor.import_folder(true, true, &vec![], true, 1, 3), Ok(stats(0, 0, 0, 0)));
}

#[test]
fn exported_columns_stand_in_the_order_of_the_file() {
    let mut processor = ExcelProcessor::new(Store::new());
    processor.batch_import_excel_files(&vec![people()], 0);
    let bytes = processor.export_search_results("Bob").unwrap();
    let mut book = calamine::open_workbook_auto_from_rs(std::io::Cursor::new(bytes)).unwrap();
    assert_eq!(book.sheet_names(), vec!["people.xlsx"]);
    let range = book.worksheet_range("people.xlsx").unwrap();
    let rows: Vec<Vec<String>> =
        range.rows().map(|r| r.iter().map(|c| c.to_string()).collect()).collect();
    assert_eq!(rows[0], vec!["Name", "ID", "行号", "导入时间"]);
    assert_eq!(rows[1], vec!["Bob", "67", "2", "1970-01-01 00:00:00"]);
    assert_eq!(rows.len(), 2);
}
