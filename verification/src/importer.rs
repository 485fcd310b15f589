//! The import of one file, step by step.
//!
//! An import alternates between work that only the caller can do (reading the
//! file, asking the store, reading the workbook, writing to the store) and
//! decisions.  The decisions are made here: `step` takes the state of the
//! import and what the caller's last piece of work gave, and says what is to
//! be done next.  The rows of the file are written in one piece, together with
//! what is recorded of the file, so that they are replaced in full or not at
//! all.

use vstd::prelude::*;
use crate::counts::report_count;
use crate::fingerprint::{
    differs_from_stored, fingerprint_of, generate_file_hash, import_required, is_file_changed,
    needs_import,
};
use crate::reader::{
    field_order_of, raw_models, read_excel_file, read_sheets, sheet_models, RawSheet,
    RawSheetModel, SheetData, SheetModel,
};
use crate::store::{recorded_size, ImportError};
use crate::text::texts;

verus! {

/// What the caller's last piece of work gave.
#[derive(Debug)]
pub enum FileEvent {
    /// The content of the file, or none where it could not be read.
    Content(Option<Vec<u8>>),
    /// The fingerprint that the store holds for the path, or none where it
    /// holds no record of it; `Err` where the store could not be asked.
    Stored(Result<Option<String>, ()>),
    /// The sheets of the workbook, or none where it could not be read.
    Workbook(Option<Vec<RawSheet>>),
    /// Whether the store took the replacement.
    Written(bool),
}

/// The model of an event.
pub enum FileEventModel {
    Content(Option<Seq<u8>>),
    Stored(Result<Option<Seq<char>>, ()>),
    Workbook(Option<Seq<RawSheetModel>>),
    Written(bool),
}

impl View for FileEvent {
    type V = FileEventModel;

    open spec fn view(&self) -> FileEventModel {
        match self {
            FileEvent::Content(c) => FileEventModel::Content(
                match c {
                    Some(bytes) => Some(bytes@),
                    None => None,
                },
            ),
            FileEvent::Stored(s) => FileEventModel::Stored(
                match s {
                    Ok(Some(h)) => Ok(Some(h@)),
                    Ok(None) => Ok(None),
                    Err(_) => Err(()),
                },
            ),
            FileEvent::Workbook(w) => FileEventModel::Workbook(
                match w {
                    Some(sheets) => Some(raw_models(sheets@)),
                    None => None,
                },
            ),
            FileEvent::Written(ok) => FileEventModel::Written(*ok),
        }
    }
}

/// Where an import stands.
#[derive(Debug)]
pub enum FileState {
    /// The content of the file is awaited.
    AwaitContent,
    /// The stored fingerprint is awaited; the fingerprint and the size of the
    /// content are known.
    AwaitStored { file_hash: String, file_size: i64 },
    /// The sheets of the workbook are awaited.
    AwaitWorkbook { file_hash: String, file_size: i64 },
    /// The answer of the store to the replacement is awaited.
    AwaitWrite,
    /// The import is over.
    Finished,
}

/// The model of a state.
pub enum FileStateModel {
    AwaitContent,
    AwaitStored { file_hash: Seq<char>, file_size: int },
    AwaitWorkbook { file_hash: Seq<char>, file_size: int },
    AwaitWrite,
    Finished,
}

impl View for FileState {
    type V = FileStateModel;

    open spec fn view(&self) -> FileStateModel {
        match self {
            FileState::AwaitContent => FileStateModel::AwaitContent,
            FileState::AwaitStored { file_hash, file_size } => FileStateModel::AwaitStored {
                file_hash: file_hash@,
                file_size: *file_size as int,
            },
            FileState::AwaitWorkbook { file_hash, file_size } => FileStateModel::AwaitWorkbook {
                file_hash: file_hash@,
                file_size: *file_size as int,
            },
            FileState::AwaitWrite => FileStateModel::AwaitWrite,
            FileState::Finished => FileStateModel::Finished,
        }
    }
}

/// What is written for a file, in one piece: what is recorded of the file,
/// and the records of its sheets, which take the place of all rows that the
/// store has of the file.
#[derive(Debug)]
pub struct Replacement {
    pub file_hash: String,
    pub file_size: i64,
    pub field_order: Vec<String>,
    pub sheets: Vec<SheetData>,
}

/// The model of a replacement.
pub struct ReplacementModel {
    pub file_hash: Seq<char>,
    pub file_size: int,
    pub field_order: Seq<Seq<char>>,
    pub sheets: Seq<SheetModel>,
}

impl View for Replacement {
    type V = ReplacementModel;

    open spec fn view(&self) -> ReplacementModel {
        ReplacementModel {
            file_hash: self.file_hash@,
            file_size: self.file_size as int,
            field_order: texts(self.field_order@),
            sheets: sheet_models(self.sheets@),
        }
    }
}

/// What the caller is to do next.
#[derive(Debug)]
pub enum FileAction {
    /// Read the content of the file.
    ReadContent,
    /// Ask the store for the fingerprint that it holds for the path.
    FindStored,
    /// Read the sheets of the workbook.
    ReadWorkbook,
    /// Write the replacement to the store, all of it or nothing.
    Replace(Replacement),
    /// Stop; the import ended as given.
    Finish(Result<(), ImportError>),
}

/// The model of an action.
pub enum FileActionModel {
    ReadContent,
    FindStored,
    ReadWorkbook,
    Replace(ReplacementModel),
    Finish(Result<(), ImportError>),
}

impl View for FileAction {
    type V = FileActionModel;

    open spec fn view(&self) -> FileActionModel {
        match self {
            FileAction::ReadContent => FileActionModel::ReadContent,
            FileAction::FindStored => FileActionModel::FindStored,
            FileAction::ReadWorkbook => FileActionModel::ReadWorkbook,
            FileAction::Replace(r) => FileActionModel::Replace(r@),
            FileAction::Finish(r) => FileActionModel::Finish(*r),
        }
    }
}

/// What the store's answer says of the file: whether the fingerprint differs
/// from the stored one, or `None` where the store could not be asked.
pub open spec fn change_found(stored: Result<Option<Seq<char>>, ()>, file_hash: Seq<char>) -> Option<
    bool,
> {
    match stored {
        Ok(s) => Some(differs_from_stored(s, file_hash)),
        Err(_) => None,
    }
}

/// The state and the action that follow on `event` in `state`.
///
/// A file that cannot be read ends the import with `Io`.  A file whose
/// fingerprint is the stored one is left alone, unless a fresh import is
/// forced; where the store could not be asked, the file counts as changed.  A
/// workbook that cannot be read ends the import with `Format`.  Else the
/// replacement is handed out, and the import ends with success where the store
/// took it, with `Storage` where it did not.  An event that does not belong
/// to the state ends the import with `Storage`.
pub open spec fn step_of(state: FileStateModel, event: FileEventModel, force_reimport: bool) -> (
    FileStateModel,
    FileActionModel,
) {
    match (state, event) {
        (FileStateModel::AwaitContent, FileEventModel::Content(None)) => (
            FileStateModel::Finished,
            FileActionModel::Finish(Err(ImportError::Io)),
        ),
        (FileStateModel::AwaitContent, FileEventModel::Content(Some(bytes))) => (
            FileStateModel::AwaitStored {
                file_hash: fingerprint_of(bytes),
                file_size: recorded_size(bytes),
            },
            FileActionModel::FindStored,
        ),
        (FileStateModel::AwaitStored { file_hash, file_size }, FileEventModel::Stored(stored)) => {
            if import_required(force_reimport, change_found(stored, file_hash)) {
                (
                    FileStateModel::AwaitWorkbook { file_hash, file_size },
                    FileActionModel::ReadWorkbook,
                )
            } else {
                (FileStateModel::Finished, FileActionModel::Finish(Ok(())))
            }
        },
        (FileStateModel::AwaitWorkbook { file_hash, file_size }, FileEventModel::Workbook(None)) => (
            FileStateModel::Finished,
            FileActionModel::Finish(Err(ImportError::Format)),
        ),
        (
            FileStateModel::AwaitWorkbook { file_hash, file_size },
            FileEventModel::Workbook(Some(raw)),
        ) => (
            FileStateModel::AwaitWrite,
            FileActionModel::Replace(
                ReplacementModel {
                    file_hash,
                    file_size,
                    field_order: field_order_of(raw),
                    sheets: read_sheets(raw),
                },
            ),
        ),
        (FileStateModel::AwaitWrite, FileEventModel::Written(true)) => (
            FileStateModel::Finished,
            FileActionModel::Finish(Ok(())),
        ),
        (_, _) => (FileStateModel::Finished, FileActionModel::Finish(Err(ImportError::Storage))),
    }
}

/// The action that follows when the events of an import are what the store
/// `s` and the file `f` give: the content of `f`, the fingerprint that `s`
/// holds for its path, its sheets, and whether `s` can take the import.
pub open spec fn last_action(
    s: crate::store::StoreModel,
    f: crate::store::SourceFileModel,
    force_reimport: bool,
) -> FileActionModel {
    let read = step_of(
        FileStateModel::AwaitContent,
        FileEventModel::Content(f.content),
        force_reimport,
    );
    if read.1 is Finish {
        read.1
    } else {
        let asked = step_of(
            read.0,
            FileEventModel::Stored(Ok(s.stored_hash(f.path))),
            force_reimport,
        );
        if asked.1 is Finish {
            asked.1
        } else {
            let parsed = step_of(asked.0, FileEventModel::Workbook(f.sheets), force_reimport);
            if parsed.1 is Finish {
                parsed.1
            } else {
                step_of(
                    parsed.0,
                    FileEventModel::Written(crate::store::import_check(s, f) is Ok),
                    force_reimport,
                ).1
            }
        }
    }
}

/// The steps end as the processor does: when the events of an import are
/// what a store and a file give, the import ends with the outcome that the
/// processor has for that file on that store, and where a replacement is
/// handed out on the way, it holds what the processor records of the file and
/// the sheets that it reads.
pub proof fn law_steps_follow_processor(
    s: crate::store::StoreModel,
    f: crate::store::SourceFileModel,
    force_reimport: bool,
    now: int,
)
    ensures
        last_action(s, f, force_reimport) == FileActionModel::Finish(
            crate::processor::processed(s, f, force_reimport, now).1,
        ),
        f.content is Some && f.sheets is Some && import_required(
            force_reimport,
            crate::processor::change_check(s, f),
        ) ==> step_of(
            FileStateModel::AwaitWorkbook {
                file_hash: fingerprint_of(f.content->0),
                file_size: recorded_size(f.content->0),
            },
            FileEventModel::Workbook(f.sheets),
            force_reimport,
        ).1 == FileActionModel::Replace(
            ReplacementModel {
                file_hash: crate::store::recorded_file(s, f, now).file_hash,
                file_size: crate::store::recorded_file(s, f, now).file_size,
                field_order: crate::store::recorded_file(s, f, now).field_order->0,
                sheets: read_sheets(f.sheets->0),
            },
        ),
{
}

/// The action that an import begins with.
pub fn start_import() -> (r: (FileState, FileAction))
    ensures
        r.0@ == FileStateModel::AwaitContent,
        r.1@ == FileActionModel::ReadContent,
{
    (FileState::AwaitContent, FileAction::ReadContent)
}

/// Decides what follows on an event.
pub fn step(state: FileState, event: FileEvent, force_reimport: bool) -> (r: (FileState, FileAction))
    ensures
        (r.0@, r.1@) == step_of(state@, event@, force_reimport),
{
    match (state, event) {
        (FileState::AwaitContent, FileEvent::Content(None)) => (
            FileState::Finished,
            FileAction::Finish(Err(ImportError::Io)),
        ),
        (FileState::AwaitContent, FileEvent::Content(Some(bytes))) => {
            let file_hash: String = generate_file_hash(bytes.as_slice());
            let file_size: i64 = report_count(bytes.len());
            (FileState::AwaitStored { file_hash, file_size }, FileAction::FindStored)
        },
        (FileState::AwaitStored { file_hash, file_size }, FileEvent::Stored(stored)) => {
            let changed: Option<bool> = match &stored {
                Ok(Some(s)) => Some(is_file_changed(Some(s.as_str()), file_hash.as_str())),
                Ok(None) => Some(is_file_changed(None, file_hash.as_str())),
                Err(_) => None,
            };
            if needs_import(force_reimport, changed) {
                (FileState::AwaitWorkbook { file_hash, file_size }, FileAction::ReadWorkbook)
            } else {
                (FileState::Finished, FileAction::Finish(Ok(())))
            }
        },
        (FileState::AwaitWorkbook { file_hash, file_size }, FileEvent::Workbook(None)) => (
            FileState::Finished,
            FileAction::Finish(Err(ImportError::Format)),
        ),
        (FileState::AwaitWorkbook { file_hash, file_size }, FileEvent::Workbook(Some(raw))) => {
            let read: (Vec<SheetData>, Vec<String>) = read_excel_file(&raw);
            (
                FileState::AwaitWrite,
                FileAction::Replace(
                    Replacement { file_hash, file_size, field_order: read.1, sheets: read.0 },
                ),
            )
        },
        (FileState::AwaitWrite, FileEvent::Written(true)) => (
            FileState::Finished,
            FileAction::Finish(Ok(())),
        ),
        (_, _) => (FileState::Finished, FileAction::Finish(Err(ImportError::Storage))),
    }
}

} // verus!
