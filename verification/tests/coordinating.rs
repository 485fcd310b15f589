use sheet_search::coordinator::{
    plan_batches, select_files, summarize, ScannedFile, DEFAULT_MAX_CONCURRENT_FILES,
};
use sheet_search::models::ImportStats;

fn scanned(path: &str, changed: Option<bool>) -> ScannedFile {
    ScannedFile { path: path.to_string(), changed }
}

fn paths(n: usize) -> Vec<String> {
    (0..n).map(|i| format!("f{}.xlsx", i)).collect()
}

#[test]
fn unchanged_files_are_not_selected() {
    let files = vec![
        scanned("a", Some(true)),
        scanned("b", Some(false)),
        scanned("c", None),
        scanned("d", Some(false)),
    ];
    assert_eq!(select_files(&files, false), vec!["a", "c"]);
    assert_eq!(select_files(&files, true), vec!["a", "b", "c", "d"]);
    assert!(select_files(&vec![], false).is_empty());
}

#[test]
fn batches_are_full_but_for_the_last() {
    let files = paths(10);
    let batches = plan_batches(&files, 4);
    assert_eq!(batches.len(), 3);
    assert_eq!(batches[0], files[0..4].to_vec());
    assert_eq!(batches[1], files[4..8].to_vec());
    assert_eq!(batches[2], files[8..10].to_vec());
    assert_eq!(batches.concat(), files);
}

#[test]
fn batches_agree_with_chunks() {
    for n in 0..12usize {
        for size in 0..6usize {
            let files = paths(n);
            let expected: Vec<Vec<String>> =
                files.chunks(std::cmp::max(1, size)).map(|c| c.to_vec()).collect();
            assert_eq!(plan_batches(&files, size), expected, "n {} size {}", n, size);
        }
    }
}

#[test]
fn batch_size_is_at_least_one() {
    let files = paths(3);
    assert_eq!(plan_batches(&files, 0), vec![vec!["f0.xlsx"], vec!["f1.xlsx"], vec!["f2.xlsx"]]);
    assert_eq!(plan_batches(&files, usize::MAX), vec![files.clone()]);
    assert!(plan_batches(&vec![], 4).is_empty());
    assert_eq!(DEFAULT_MAX_CONCURRENT_FILES, 4);
}

#[test]
fn outcomes_are_counted() {
    let stats = summarize(7, &vec![true, false, true, true]);
    assert_eq!(stats, ImportStats { success: 3, failed: 1, total: 4, skipped: 3 });
    assert_eq!(summarize(0, &vec![]), ImportStats { success: 0, failed: 0, total: 0, skipped: 0 });
    assert_eq!(summarize(2, &vec![]), ImportStats { success: 0, failed: 0, total: 0, skipped: 2 });
    assert_eq!(
        summarize(2, &vec![false, false]),
        ImportStats { success: 0, failed: 2, total: 2, skipped: 0 }
    );
}
