use sheet_search::importer::{start_import, step, FileAction, FileEvent, FileState};
use sheet_search::reader::RawSheet;
use sheet_search::store::ImportError;

fn workbook() -> Vec<RawSheet> {
    vec![RawSheet {
        name: "S".to_string(),
        cells: Some(vec![
            vec!["Name".to_string(), "".to_string()],
            vec!["Alice".to_string(), "1".to_string()],
        ]),
    }]
}

fn after_content(force: bool) -> FileState {
    let (state, action) = start_import();
    assert!(matches!(action, FileAction::ReadContent));
    let (state, action) = step(state, FileEvent::Content(Some(b"abc".to_vec())), force);
    assert!(matches!(action, FileAction::FindStored));
    match &state {
        FileState::AwaitStored { file_hash, file_size } => {
            assert_eq!(file_hash, "900150983cd24fb0d6963f7d28e17f72");
            assert_eq!(*file_size, 3);
        }
        other => panic!("unexpected state {:?}", other),
    }
    state
}

#[test]
fn unreadable_content_ends_with_io() {
    let (state, _) = start_import();
    let (state, action) = step(state, FileEvent::Content(None), false);
    assert!(matches!(state, FileState::Finished));
    assert!(matches!(action, FileAction::Finish(Err(ImportError::Io))));
}

#[test]
fn unchanged_file_ends_without_reading_the_workbook() {
    let stored = Ok(Some("900150983cd24fb0d6963f7d28e17f72".to_string()));
    let (state, action) = step(after_content(false), FileEvent::Stored(stored), false);
    assert!(matches!(state, FileState::Finished));
    assert!(matches!(action, FileAction::Finish(Ok(()))));
}

#[test]
fn forced_unchanged_file_goes_on() {
    let stored = Ok(Some("900150983cd24fb0d6963f7d28e17f72".to_string()));
    let (state, action) = step(after_content(true), FileEvent::Stored(stored), true);
    assert!(matches!(state, FileState::AwaitWorkbook { .. }));
    assert!(matches!(action, FileAction::ReadWorkbook));
}

#[test]
fn new_changed_and_unchecked_files_go_on() {
    for stored in [Ok(None), Ok(Some("other".to_string())), Err(())] {
        let (state, action) = step(after_content(false), FileEvent::Stored(stored), false);
        assert!(matches!(state, FileState::AwaitWorkbook { .. }));
        assert!(matches!(action, FileAction::ReadWorkbook));
    }
}

#[test]
fn unreadable_workbook_ends_with_format() {
    let (state, _) = step(after_content(false), FileEvent::Stored(Ok(None)), false);
    let (state, action) = step(state, FileEvent::Workbook(None), false);
    assert!(matches!(state, FileState::Finished));
    assert!(matches!(action, FileAction::Finish(Err(ImportError::Format))));
}

#[test]
fn replacement_carries_what_is_written() {
    let (state, _) = step(after_content(false), FileEvent::Stored(Ok(None)), false);
    let (state, action) = step(state, FileEvent::Workbook(Some(workbook())), false);
    assert!(matches!(state, FileState::AwaitWrite));
    match action {
        FileAction::Replace(r) => {
            assert_eq!(r.file_hash, "900150983cd24fb0d6963f7d28e17f72");
            assert_eq!(r.file_size, 3);
            assert_eq!(r.field_order, vec!["Name", "EMPTY"]);
            assert_eq!(r.sheets.len(), 1);
            assert_eq!(r.sheets[0].rows.len(), 1);
        }
        other => panic!("unexpected action {:?}", other),
    }
    let (done, action) = step(state, FileEvent::Written(true), false);
    assert!(matches!(done, FileState::Finished));
    assert!(matches!(action, FileAction::Finish(Ok(()))));
}

#[test]
fn refused_write_ends_with_storage() {
    let (state, action) = step(FileState::AwaitWrite, FileEvent::Written(false), false);
    assert!(matches!(state, FileState::Finished));
    assert!(matches!(action, FileAction::Finish(Err(ImportError::Storage))));
}

#[test]
fn event_out_of_turn_ends_with_storage() {
    let (state, action) = step(FileState::AwaitContent, FileEvent::Written(true), false);
    assert!(matches!(state, FileState::Finished));
    assert!(matches!(action, FileAction::Finish(Err(ImportError::Storage))));
    let (_, action) = step(FileState::Finished, FileEvent::Content(None), false);
    assert!(matches!(action, FileAction::Finish(Err(ImportError::Storage))));
}
