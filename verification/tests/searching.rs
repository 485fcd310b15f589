use sheet_search::cell::CellValue;
use sheet_search::ranking::{candidate_ranks_before, rank, take_page, Candidate};
use sheet_search::record::{DataRow, FileRecord};
use sheet_search::row::Row;
use sheet_search::search::{find_candidates, find_file_name, make_hit, search_data, PreparedQuery};

fn row_with(text: &str) -> Row {
    let mut row = Row::new();
    row.insert("text".to_string(), CellValue::Text(text.to_string()));
    row
}

fn data_row(id: i32, file_id: i32, text: &str, time: i64) -> DataRow {
    DataRow::new(Some(id), file_id, "Sheet1".to_string(), id, row_with(text), time)
}

fn file(id: i32, name: &str) -> FileRecord {
    FileRecord {
        id,
        file_path: format!("/data/{}", name),
        file_name: name.to_string(),
        file_size: 1,
        file_hash: "h".to_string(),
        field_order: None,
        created_at: 0,
        updated_at: 0,
    }
}

fn cand(score: u128, import_time: i64, index: usize) -> Candidate {
    Candidate { score, import_time, index }
}

#[test]
fn score_counts_distinct_keywords_and_whole_query() {
    assert_eq!(PreparedQuery::new("red apple").score("a red apple pie"), Some(4));
    assert_eq!(PreparedQuery::new("apple red").score("a red apple pie"), Some(2));
    assert_eq!(PreparedQuery::new("red").score("a red apple pie"), Some(2));
    assert_eq!(PreparedQuery::new(" red ").score("a red apple pie"), Some(2));
    assert_eq!(PreparedQuery::new("  red").score("a red apple pie"), Some(1));
}

#[test]
fn repeated_keyword_counts_once_but_adds_to_the_bonus() {
    assert_eq!(PreparedQuery::new("a a").score("a a"), Some(3));
    assert_eq!(PreparedQuery::new("a a").score("xa"), Some(1));
    assert_eq!(PreparedQuery::new("a a").keyword_count(), 2);
}

#[test]
fn every_keyword_must_match() {
    assert_eq!(PreparedQuery::new("Alice Bob").score("Alice 0012345"), None);
    assert_eq!(PreparedQuery::new("Alice Bob").score("Bob 67"), None);
    assert_eq!(PreparedQuery::new("Alice Bob").score("Bob and Alice"), Some(2));
}

#[test]
fn query_without_keywords_matches_nothing() {
    assert_eq!(PreparedQuery::new("").score("anything"), None);
    assert_eq!(PreparedQuery::new(" \t ").score(" \t "), None);
    assert_eq!(PreparedQuery::new("").keyword_count(), 0);
    let rows = vec![data_row(1, 1, "anything", 5)];
    let response = search_data(&rows, &vec![file(1, "f.xlsx")], "   ", 20, 0);
    assert!(response.results.is_empty());
    assert_eq!(response.total, 0);
}

#[test]
fn ranking_orders_by_score_then_time_then_arrival() {
    let entries = vec![cand(1, 10, 0), cand(3, 5, 1), cand(1, 20, 2), cand(3, 5, 3), cand(2, 1, 4)];
    let ordered = rank(&entries);
    let indices: Vec<usize> = ordered.iter().map(|c| c.index).collect();
    assert_eq!(indices, vec![1, 3, 4, 2, 0]);
    for pair in ordered.windows(2) {
        assert!(candidate_ranks_before(&pair[0], &pair[1]));
    }
}

#[test]
fn ranking_keeps_every_entry() {
    let entries: Vec<Candidate> =
        (0..50usize).map(|i| cand(((i * 7) % 5) as u128, ((i * 13) % 11) as i64, i)).collect();
    let ordered = rank(&entries);
    let mut indices: Vec<usize> = ordered.iter().map(|c| c.index).collect();
    indices.sort();
    assert_eq!(indices, (0..50usize).collect::<Vec<usize>>());
    for pair in ordered.windows(2) {
        assert!(
            pair[0].score > pair[1].score
                || (pair[0].score == pair[1].score && pair[0].import_time >= pair[1].import_time)
        );
    }
}

#[test]
fn pages_cut_the_whole_list() {
    let list: Vec<Candidate> = (0..7usize).map(|i| cand(0, 0, i)).collect();
    let page = |offset: u64, limit: u64| -> Vec<usize> {
        take_page(&list, offset, limit).iter().map(|c| c.index).collect()
    };
    assert_eq!(page(0, 3), vec![0, 1, 2]);
    assert_eq!(page(3, 3), vec![3, 4, 5]);
    assert_eq!(page(6, 3), vec![6]);
    assert_eq!(page(7, 3), Vec::<usize>::new());
    assert_eq!(page(100, 3), Vec::<usize>::new());
    assert_eq!(page(2, 0), Vec::<usize>::new());
    assert_eq!(page(0, u64::MAX), vec![0, 1, 2, 3, 4, 5, 6]);
    assert_eq!(page(u64::MAX, u64::MAX), Vec::<usize>::new());
}

#[test]
fn concatenated_pages_reproduce_the_full_result() {
    let files = vec![file(1, "a.xlsx")];
    let rows: Vec<DataRow> = (0..23)
        .map(|i| data_row(i + 1, 1, if i % 3 == 0 { "kw kw2 extra" } else { "kw filler" }, (i % 5) as i64))
        .collect();
    let full = search_data(&rows, &files, "kw", 1000, 0);
    assert_eq!(full.total, 23);
    assert_eq!(full.results.len(), 23);
    for limit in [1u64, 2, 5, 23, 40] {
        let mut joined = Vec::new();
        let mut offset = 0u64;
        loop {
            let page = search_data(&rows, &files, "kw", limit, offset);
            assert_eq!(page.total, 23);
            assert!(page.results.len() as u64 <= limit);
            if page.results.is_empty() {
                break;
            }
            joined.extend(page.results);
            offset += limit;
        }
        assert_eq!(joined, full.results, "limit {}", limit);
    }
}

#[test]
fn results_are_ordered_by_score_and_import_time() {
    let files = vec![file(1, "a.xlsx")];
    let rows = vec![
        data_row(1, 1, "apple", 100),
        data_row(2, 1, "red apple", 50),
        data_row(3, 1, "apple red", 200),
        data_row(4, 1, "pear", 300),
        data_row(5, 1, "apple", 150),
        data_row(6, 1, "a red apple", 10),
    ];
    let response = search_data(&rows, &files, "red apple", 20, 0);
    let ids: Vec<Option<i32>> = response.results.iter().map(|h| h.id).collect();
    assert_eq!(ids, vec![Some(2), Some(6), Some(3)]);
    assert_eq!(response.total, 3);
    let single = search_data(&rows, &files, "apple", 20, 0);
    let ids: Vec<Option<i32>> = single.results.iter().map(|h| h.id).collect();
    assert_eq!(ids, vec![Some(3), Some(5), Some(1), Some(2), Some(6)]);
    let query = PreparedQuery::new("apple");
    for pair in single.results.windows(2) {
        let a = query.score(&pair[0].search_text).unwrap();
        let b = query.score(&pair[1].search_text).unwrap();
        assert!(a > b || (a == b && pair[0].import_time >= pair[1].import_time));
    }
}

#[test]
fn hit_carries_the_fields_of_its_row() {
    let files = vec![file(7, "people.xlsx")];
    let mut data = Row::new();
    data.insert("Name".to_string(), CellValue::Text(" Alice ".to_string()));
    data.insert("ID".to_string(), CellValue::Text("0012345".to_string()));
    let row = DataRow::new(Some(3), 7, "People".to_string(), 1, data, 1_700_000_000_000_000);
    let hit = make_hit(&row, &files);
    assert_eq!(hit.id, Some(3));
    assert_eq!(hit.file_id, 7);
    assert_eq!(hit.import_time, 1_700_000_000_000_000);
    assert_eq!(hit.row_number, 1);
    assert_eq!(hit.data_json, r#"{"Name":"Alice","ID":"0012345"}"#);
    assert_eq!(hit.search_text, "Alice 0012345");
    assert_eq!(hit.sheet_name, "People");
    assert_eq!(hit.file_name, Some("people.xlsx".to_string()));
    let orphan = DataRow::new(Some(4), 8, "S".to_string(), 1, Row::new(), 0);
    assert_eq!(make_hit(&orphan, &files).file_name, None);
}

#[test]
fn file_names_are_found_by_identifier() {
    let files = vec![file(1, "a.xlsx"), file(2, "b.xlsx")];
    assert_eq!(find_file_name(&files, 2), Some("b.xlsx".to_string()));
    assert_eq!(find_file_name(&files, 3), None);
}

#[test]
fn candidates_are_the_matching_rows_in_store_order() {
    let rows = vec![data_row(1, 1, "x kw", 3), data_row(2, 1, "none", 4), data_row(3, 1, "kw", 5)];
    let found = find_candidates(&rows, &PreparedQuery::new("kw"));
    assert_eq!(found, vec![cand(2, 3, 0), cand(2, 5, 2)]);
}

#[test]
fn limit_and_offset_are_echoed() {
    let response = search_data(&vec![], &vec![], "q", 20, 40);
    assert_eq!(response.limit, 20);
    assert_eq!(response.offset, 40);
    let huge = search_data(&vec![], &vec![], "q", u64::MAX, u64::MAX);
    assert_eq!(huge.limit, i64::MAX);
    assert_eq!(huge.offset, i64::MAX);
}
