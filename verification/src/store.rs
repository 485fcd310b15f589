//! The store: the file records and the row records, with the one write
//! that an import makes.
//!
//! The store here lives in memory.  No two file records have the same path
//! or the same identifier; every row belongs to a file record of the store;
//! and the rows of a file are never replaced in part: an import either puts
//! the new rows of the file in the place of all its old ones, together with
//! what is recorded of the file, or it leaves the store as it was.

use vstd::prelude::*;
use crate::counts::{report_count, reported};
use crate::fingerprint::{fingerprint_of, generate_file_hash};
use crate::reader::{
    field_order_of, raw_models, read_excel_file, read_sheets, row_models, sheet_models, RawSheet,
    RawSheetModel, SheetData, SheetModel,
};
use crate::record::{
    data_row_models, data_row_of, file_models, DataRow, DataRowModel, FileModel, FileRecord,
};
use crate::text::{same_text, texts};

verus! {

/// Why an import failed.
#[derive(Debug, Clone, Copy, PartialEq, Eq, Structural)]
pub enum ImportError {
    /// The file could not be read.
    Io,
    /// The workbook could not be read.
    Format,
    /// The store could not take the records.
    Storage,
}

/// A source file as it is handed to an import: its path and name, its
/// content, or none where it could not be read, and the sheets of its
/// workbook, or none where it is no workbook that can be read.
#[derive(Debug, Clone, PartialEq, Eq)]
pub struct SourceFile {
    pub path: String,
    pub name: String,
    pub content: Option<Vec<u8>>,
    pub sheets: Option<Vec<RawSheet>>,
}

/// The model of a source file.
pub struct SourceFileModel {
    pub path: Seq<char>,
    pub name: Seq<char>,
    pub content: Option<Seq<u8>>,
    pub sheets: Option<Seq<RawSheetModel>>,
}

impl View for SourceFile {
    type V = SourceFileModel;

    open spec fn view(&self) -> SourceFileModel {
        SourceFileModel {
            path: self.path@,
            name: self.name@,
            content: match self.content {
                Some(c) => Some(c@),
                None => None,
            },
            sheets: match self.sheets {
                Some(s) => Some(raw_models(s@)),
                None => None,
            },
        }
    }
}

/// The model of the store.
pub struct StoreModel {
    pub files: Seq<FileModel>,
    pub rows: Seq<DataRowModel>,
    /// The identifier that the next new file record gets.
    pub next_file_id: int,
    /// The identifier that the next new row gets.
    pub next_row_id: int,
}

/// Whether a file record with the path `path` is among `files`.
pub open spec fn has_path(files: Seq<FileModel>, path: Seq<char>) -> bool {
    exists|i: int| 0 <= i < files.len() && (#[trigger] files[i]).file_path == path
}

/// The position of the file record with the path `path`, where there is one.
pub open spec fn path_position(files: Seq<FileModel>, path: Seq<char>) -> int {
    choose|i: int| 0 <= i < files.len() && (#[trigger] files[i]).file_path == path
}

/// Whether a file record with the identifier `id` is among `files`.
pub open spec fn has_file_id(files: Seq<FileModel>, id: int) -> bool {
    exists|i: int| 0 <= i < files.len() && (#[trigger] files[i]).id == id
}

impl StoreModel {
    /// The store is consistent.
    pub open spec fn wf(self) -> bool {
        &&& 1 <= self.next_file_id <= i32::MAX
        &&& 1 <= self.next_row_id <= i32::MAX
        &&& forall|i: int, j: int|
            0 <= i < j < self.files.len() ==> (#[trigger] self.files[i]).file_path != (
            #[trigger] self.files[j]).file_path
        &&& forall|i: int, j: int|
            0 <= i < j < self.files.len() ==> (#[trigger] self.files[i]).id != (
            #[trigger] self.files[j]).id
        &&& forall|i: int|
            0 <= i < self.files.len() ==> 1 <= (#[trigger] self.files[i]).id < self.next_file_id
        &&& forall|k: int| 0 <= k < self.rows.len() ==> self.row_ok(#[trigger] self.rows[k])
        &&& forall|k: int, m: int|
            0 <= k < m < self.rows.len() ==> (#[trigger] self.rows[k]).id->0 < (
            #[trigger] self.rows[m]).id->0
    }

    /// A row of the store: its search text is derived from its data, it has
    /// an identifier that was given out, and its file record is in the store.
    pub open spec fn row_ok(self, row: DataRowModel) -> bool {
        &&& row.wf()
        &&& row.id is Some
        &&& 1 <= row.id->0 < self.next_row_id
        &&& has_file_id(self.files, row.file_id)
    }

    /// The fingerprint that is stored for `path`.
    pub open spec fn stored_hash(self, path: Seq<char>) -> Option<Seq<char>> {
        if has_path(self.files, path) {
            Some(self.files[path_position(self.files, path)].file_hash)
        } else {
            None
        }
    }

    /// The identifier of the file record for `path`: that of the record
    /// that is there, else the next one.
    pub open spec fn file_id_for(self, path: Seq<char>) -> int {
        if has_path(self.files, path) {
            self.files[path_position(self.files, path)].id
        } else {
            self.next_file_id
        }
    }
}

/// The rows of a file: those of `rows` that the file `file_id` owns.
pub open spec fn rows_owned_by(rows: Seq<DataRowModel>, file_id: int) -> Seq<DataRowModel> {
    rows.filter(|r: DataRowModel| r.file_id == file_id)
}

/// The rows of all other files.
pub open spec fn rows_not_owned_by(rows: Seq<DataRowModel>, file_id: int) -> Seq<DataRowModel> {
    rows.filter(|r: DataRowModel| r.file_id != file_id)
}

/// The row records of one sheet, with identifiers from `first_id` on.
pub open spec fn sheet_rows(
    file_id: int,
    sheet: SheetModel,
    first_id: int,
    import_time: int,
) -> Seq<DataRowModel> {
    Seq::new(
        sheet.rows.len(),
        |i: int|
            data_row_of(Some(first_id + i), file_id, sheet.name, i + 1, sheet.rows[i], import_time),
    )
}

/// The row records of a file: those of its sheets, sheet by sheet, with
/// identifiers from `first_id` on.
pub open spec fn file_rows(
    file_id: int,
    sheets: Seq<SheetModel>,
    first_id: int,
    import_time: int,
) -> Seq<DataRowModel>
    decreases sheets.len(),
{
    if sheets.len() == 0 {
        Seq::empty()
    } else {
        let before = file_rows(file_id, sheets.drop_last(), first_id, import_time);
        before + sheet_rows(file_id, sheets.last(), first_id + before.len(), import_time)
    }
}

/// The number of rows of the sheets.
pub open spec fn total_rows(sheets: Seq<SheetModel>) -> int
    decreases sheets.len(),
{
    if sheets.len() == 0 {
        0
    } else {
        total_rows(sheets.drop_last()) + sheets.last().rows.len()
    }
}

/// The size of a content, as it is recorded.
pub open spec fn recorded_size(content: Seq<u8>) -> int {
    reported(content.len() as int)
}

/// What is recorded of a file after an import of `f` at `now`.  A record
/// that is there keeps its identifier, its path, its name and the time of its
/// creation; a new one gets the next identifier of the store.
pub open spec fn recorded_file(s: StoreModel, f: SourceFileModel, now: int) -> FileModel {
    let order = Some(field_order_of(f.sheets->0));
    if has_path(s.files, f.path) {
        let old = s.files[path_position(s.files, f.path)];
        FileModel {
            file_size: recorded_size(f.content->0),
            file_hash: fingerprint_of(f.content->0),
            field_order: order,
            updated_at: now,
            ..old
        }
    } else {
        FileModel {
            id: s.next_file_id,
            file_path: f.path,
            file_name: f.name,
            file_size: recorded_size(f.content->0),
            file_hash: fingerprint_of(f.content->0),
            field_order: order,
            created_at: now,
            updated_at: now,
        }
    }
}

/// Whether the store `s` can take an import of `f`, and why not.
pub open spec fn import_check(s: StoreModel, f: SourceFileModel) -> Result<(), ImportError> {
    if f.content is None {
        Err(ImportError::Io)
    } else if f.sheets is None {
        Err(ImportError::Format)
    } else if !has_path(s.files, f.path) && s.next_file_id >= i32::MAX {
        Err(ImportError::Storage)
    } else if s.next_row_id + total_rows(read_sheets(f.sheets->0)) > i32::MAX {
        Err(ImportError::Storage)
    } else {
        Ok(())
    }
}

/// The store after an import of `f` at `now` that it can take: the record
/// of the file is brought up to date or made, the rows of the file are gone,
/// and the rows read from `f` stand behind the rows of the other files.
pub open spec fn imported(s: StoreModel, f: SourceFileModel, now: int) -> StoreModel {
    let id = s.file_id_for(f.path);
    let sheets = read_sheets(f.sheets->0);
    StoreModel {
        files: if has_path(s.files, f.path) {
            s.files.update(path_position(s.files, f.path), recorded_file(s, f, now))
        } else {
            s.files.push(recorded_file(s, f, now))
        },
        rows: rows_not_owned_by(s.rows, id) + file_rows(id, sheets, s.next_row_id, now),
        next_file_id: if has_path(s.files, f.path) {
            s.next_file_id
        } else {
            s.next_file_id + 1
        },
        next_row_id: s.next_row_id + total_rows(sheets),
    }
}

/// The rows of a file are as many as its sheets have rows; each has its
/// search text derived from its data, belongs to the file, and has an
/// identifier from `first_id` on, in ascending order.
pub proof fn lemma_file_rows(file_id: int, sheets: Seq<SheetModel>, first_id: int, now: int)
    ensures
        file_rows(file_id, sheets, first_id, now).len() == total_rows(sheets),
        total_rows(sheets) >= 0,
        forall|k: int|
            0 <= k < file_rows(file_id, sheets, first_id, now).len() ==> {
                let r = #[trigger] file_rows(file_id, sheets, first_id, now)[k];
                r.wf() && r.file_id == file_id && r.id == Some(first_id + k) && r.import_time == now
            },
    decreases sheets.len(),
{
    if sheets.len() > 0 {
        lemma_file_rows(file_id, sheets.drop_last(), first_id, now);
    }
}

/// An import that the store can take leaves it consistent.
pub proof fn lemma_imported_is_consistent(s: StoreModel, f: SourceFileModel, now: int)
    requires
        s.wf(),
        import_check(s, f) is Ok,
    ensures
        imported(s, f, now).wf(),
{
    let t = imported(s, f, now);
    let id = s.file_id_for(f.path);
    let sheets = read_sheets(f.sheets->0);
    let fresh = file_rows(id, sheets, s.next_row_id, now);
    let kept = rows_not_owned_by(s.rows, id);
    lemma_file_rows(id, sheets, s.next_row_id, now);
    let rec = recorded_file(s, f, now);
    if has_path(s.files, f.path) {
        let p = path_position(s.files, f.path);
        assert(rec.id == s.files[p].id && rec.file_path == s.files[p].file_path);
        assert forall|i: int| 0 <= i < t.files.len() implies (#[trigger] t.files[i]).id
            == s.files[i].id && t.files[i].file_path == s.files[i].file_path by {}
    } else {
        assert forall|i: int| 0 <= i < s.files.len() implies (#[trigger] t.files[i]) == s.files[i] by {}
        assert(t.files[s.files.len() as int] == rec);
    }
    assert forall|x: int| has_file_id(s.files, x) implies has_file_id(t.files, x) by {
        let i = choose|i: int| 0 <= i < s.files.len() && (#[trigger] s.files[i]).id == x;
        assert(t.files[i].id == x);
    }
    assert(has_file_id(t.files, id)) by {
        if has_path(s.files, f.path) {
            assert(t.files[path_position(s.files, f.path)].id == id);
        } else {
            assert(t.files[s.files.len() as int].id == id);
        }
    }
    lemma_filter_keeps_ascending(s.rows, id);
    assert forall|k: int| 0 <= k < kept.len() implies s.row_ok(#[trigger] kept[k]) by {
        assert(s.rows.contains(kept[k]));
        let m = choose|m: int| 0 <= m < s.rows.len() && s.rows[m] == kept[k];
        assert(s.row_ok(s.rows[m]));
    }
    assert forall|k: int| 0 <= k < t.rows.len() implies t.row_ok(#[trigger] t.rows[k]) by {
        if k < kept.len() {
            assert(t.rows[k] == kept[k]);
            assert(s.row_ok(kept[k]));
        } else {
            assert(t.rows[k] == fresh[k - kept.len()]);
        }
    }
    assert forall|k: int, m: int| 0 <= k < m < t.rows.len() implies (#[trigger] t.rows[k]).id->0 < (
    #[trigger] t.rows[m]).id->0 by {
        if m < kept.len() {
            assert(t.rows[k] == kept[k] && t.rows[m] == kept[m]);
        } else if k < kept.len() {
            assert(t.rows[k] == kept[k]);
            assert(s.row_ok(kept[k]));
            assert(t.rows[m] == fresh[m - kept.len()]);
        } else {
            assert(t.rows[k] == fresh[k - kept.len()]);
            assert(t.rows[m] == fresh[m - kept.len()]);
        }
    }
}

/// The identifier of a row.
pub open spec fn row_id(r: DataRowModel) -> int {
    r.id->0
}

/// Leaving rows out keeps the identifiers of the others in ascending order.
pub proof fn lemma_filter_keeps_ascending(rows: Seq<DataRowModel>, id: int)
    requires
        forall|k: int, m: int|
            0 <= k < m < rows.len() ==> (#[trigger] rows[k]).id->0 < (#[trigger] rows[m]).id->0,
    ensures
        forall|k: int, m: int|
            0 <= k < m < rows_not_owned_by(rows, id).len() ==> (#[trigger] rows_not_owned_by(
                rows,
                id,
            )[k]).id->0 < (#[trigger] rows_not_owned_by(rows, id)[m]).id->0,
        forall|k: int|
            0 <= k < rows_not_owned_by(rows, id).len() ==> rows.contains(
                #[trigger] rows_not_owned_by(rows, id)[k],
            ) && rows_not_owned_by(rows, id)[k].file_id != id,
    decreases rows.len(),
{
    reveal(Seq::filter);
    let pred = |r: DataRowModel| r.file_id != id;
    let kept = rows.filter(pred);
    if rows.len() > 0 {
        let head = rows.drop_last();
        lemma_filter_keeps_ascending(head, id);
        let before = head.filter(pred);
        assert forall|k: int| 0 <= k < before.len() implies rows.contains(#[trigger] before[k])
            && row_id(before[k]) < row_id(rows.last()) by {
            let m = choose|m: int| 0 <= m < head.len() && head[m] == before[k];
            assert(rows[m] == before[k]);
            assert(rows[rows.len() - 1] == rows.last());
        }
        assert forall|k: int| 0 <= k < kept.len() implies rows.contains(#[trigger] kept[k])
            && kept[k].file_id != id by {
            if k < before.len() {
                assert(kept[k] == before[k]);
            } else {
                assert(kept[k] == rows[rows.len() - 1]);
            }
        }
        assert forall|k: int, m: int| 0 <= k < m < kept.len() implies (#[trigger] kept[k]).id->0 < (
        #[trigger] kept[m]).id->0 by {
            if m < before.len() {
                assert(kept[k] == before[k] && kept[m] == before[m]);
            } else {
                assert(kept[k] == before[k]);
                assert(row_id(before[k]) < row_id(rows.last()));
            }
        }
    }
}

/// The store.
#[derive(Debug)]
pub struct Store {
    files: Vec<FileRecord>,
    rows: Vec<DataRow>,
    next_file_id: i32,
    next_row_id: i32,
}

impl View for Store {
    type V = StoreModel;

    closed spec fn view(&self) -> StoreModel {
        StoreModel {
            files: file_models(self.files@),
            rows: data_row_models(self.rows@),
            next_file_id: self.next_file_id as int,
            next_row_id: self.next_row_id as int,
        }
    }
}

/// The first identifier that is given out where `wanted` is asked for: at least 1.
pub open spec fn first_id(wanted: i32) -> int {
    if wanted < 1 {
        1
    } else {
        wanted as int
    }
}

/// The store with nothing in it.
pub open spec fn empty_store() -> StoreModel {
    StoreModel { files: Seq::empty(), rows: Seq::empty(), next_file_id: 1, next_row_id: 1 }
}

fn total_of(sheets: &Vec<SheetData>, limit: u64) -> (r: Option<u64>)
    ensures
        match r {
            Some(n) => n == total_rows(sheet_models(sheets@)) && n <= limit,
            None => total_rows(sheet_models(sheets@)) > limit,
        },
{
    let ghost models = sheet_models(sheets@);
    let mut n: u64 = 0;
    let mut i: usize = 0;
    assert(models.take(0) =~= Seq::<SheetModel>::empty());
    while i < sheets.len()
        invariant
            i <= sheets.len(),
            models == sheet_models(sheets@),
            n == total_rows(models.take(i as int)),
            n <= limit,
        decreases sheets.len() - i,
    {
        proof {
            let part = models.take(i as int + 1);
            assert(part.drop_last() =~= models.take(i as int));
            assert(part.last() == sheets@[i as int]@);
            lemma_total_rows_grows(models, i as int + 1);
        }
        let more: u64 = sheets[i].rows.len() as u64;
        if more > limit - n {
            return None;
        }
        n = n + more;
        i = i + 1;
    }
    assert(models.take(sheets.len() as int) =~= models);
    Some(n)
}

/// The sheets up to `k` have no more rows than all sheets.
pub proof fn lemma_total_rows_grows(sheets: Seq<SheetModel>, k: int)
    requires
        0 <= k <= sheets.len(),
    ensures
        0 <= total_rows(sheets.take(k)) <= total_rows(sheets),
    decreases sheets.len() - k,
{
    if k == sheets.len() {
        assert(sheets.take(k) =~= sheets);
        lemma_file_rows(0, sheets, 0, 0);
    } else {
        lemma_total_rows_grows(sheets, k + 1);
        assert(sheets.take(k + 1).drop_last() =~= sheets.take(k));
        lemma_file_rows(0, sheets.take(k), 0, 0);
    }
}

fn copy_names(names: &Vec<String>) -> (r: Vec<String>)
    ensures
        texts(r@) == texts(names@),
{
    let mut r: Vec<String> = Vec::new();
    let mut i: usize = 0;
    while i < names.len()
        invariant
            i <= names.len(),
            r@.len() == i,
            forall|k: int| 0 <= k < i ==> (#[trigger] r@[k])@ == names@[k]@,
        decreases names.len() - i,
    {
        r.push(names[i].clone());
        i = i + 1;
    }
    assert(texts(r@) =~= texts(names@));
    r
}

/// A copy of a file record.
pub fn copy_file_record(f: &FileRecord) -> (r: FileRecord)
    ensures
        r@ == f@,
{
    FileRecord {
        id: f.id,
        file_path: f.file_path.clone(),
        file_name: f.file_name.clone(),
        file_size: f.file_size,
        file_hash: f.file_hash.clone(),
        field_order: match &f.field_order {
            Some(names) => Some(copy_names(names)),
            None => None,
        },
        created_at: f.created_at,
        updated_at: f.updated_at,
    }
}

/// Makes the row records of the sheets of a file.
fn make_file_rows(file_id: i32, sheets: &Vec<SheetData>, first_id: i32, total: u64, now: i64) -> (fresh:
    Vec<DataRow>)
    requires
        total == total_rows(sheet_models(sheets@)),
        1 <= first_id,
        first_id + total <= i32::MAX,
    ensures
        data_row_models(fresh@) == file_rows(
            file_id as int,
            sheet_models(sheets@),
            first_id as int,
            now as int,
        ),
{
    let ghost models = sheet_models(sheets@);
    let mut fresh: Vec<DataRow> = Vec::new();
    let mut k: usize = 0;
    proof {
        assert(models.take(0) =~= Seq::<SheetModel>::empty());
        assert(data_row_models(fresh@) =~= file_rows(
            file_id as int,
            models.take(0),
            first_id as int,
            now as int,
        ));
    }
    while k < sheets.len()
        invariant
            k <= sheets.len(),
            models == sheet_models(sheets@),
            total == total_rows(models),
            1 <= first_id,
            first_id + total <= i32::MAX,
            data_row_models(fresh@) == file_rows(
                file_id as int,
                models.take(k as int),
                first_id as int,
                now as int,
            ),
        decreases sheets.len() - k,
    {
        let sheet: &SheetData = &sheets[k];
        let ghost before = data_row_models(fresh@);
        let ghost wanted = sheet_rows(
            file_id as int,
            sheet@,
            first_id as int + before.len(),
            now as int,
        );
        proof {
            let part = models.take(k as int + 1);
            assert(part.drop_last() =~= models.take(k as int));
            assert(part.last() == sheet@);
            lemma_file_rows(file_id as int, models.take(k as int), first_id as int, now as int);
            lemma_total_rows_grows(models, k as int + 1);
            assert(before + wanted.take(0) =~= before);
        }
        let mut i: usize = 0;
        while i < sheet.rows.len()
            invariant
                i <= sheet.rows.len(),
                before.len() + sheet.rows@.len() <= total,
                1 <= first_id,
                first_id + total <= i32::MAX,
                fresh@.len() == before.len() + i,
                wanted == sheet_rows(file_id as int, sheet@, first_id as int + before.len(), now as int),
                data_row_models(fresh@) == before + wanted.take(i as int),
            decreases sheet.rows.len() - i,
        {
            let id: i32 = first_id + fresh.len() as i32;
            let number: i32 = (i + 1) as i32;
            let row: DataRow = DataRow::new(
                Some(id),
                file_id,
                sheet.name.clone(),
                number,
                sheet.rows[i].clone(),
                now,
            );
            let ghost so_far = data_row_models(fresh@);
            fresh.push(row);
            proof {
                assert(row@ == wanted[i as int]);
                assert(data_row_models(fresh@) =~= so_far.push(row@));
                assert(before + wanted.take(i as int + 1) =~= (before + wanted.take(i as int)).push(
                    wanted[i as int],
                ));
            }
            i = i + 1;
        }
        assert(wanted.take(sheet.rows.len() as int) =~= wanted);
        k = k + 1;
    }
    assert(models.take(sheets.len() as int) =~= models);
    fresh
}

impl Store {
    #[verifier::type_invariant]
    pub closed spec fn well_formed(&self) -> bool {
        self@.wf()
    }

    /// A store with nothing in it.
    pub fn new() -> (store: Store)
        ensures
            store@ == empty_store(),
    {
        let store = Store { files: Vec::new(), rows: Vec::new(), next_file_id: 1, next_row_id: 1 };
        assert(store@.files =~= Seq::<FileModel>::empty());
        assert(store@.rows =~= Seq::<DataRowModel>::empty());
        store
    }

    /// A store with nothing in it that gives out identifiers from the given
    /// ones on, and from 1 on where a given one is smaller.
    pub fn starting_at(next_file_id: i32, next_row_id: i32) -> (store: Store)
        ensures
            store@ == (StoreModel {
                next_file_id: first_id(next_file_id),
                next_row_id: first_id(next_row_id),
                ..empty_store()
            }),
    {
        let store = Store {
            files: Vec::new(),
            rows: Vec::new(),
            next_file_id: if next_file_id < 1 {
                1
            } else {
                next_file_id
            },
            next_row_id: if next_row_id < 1 {
                1
            } else {
                next_row_id
            },
        };
        assert(store@.files =~= Seq::<FileModel>::empty());
        assert(store@.rows =~= Seq::<DataRowModel>::empty());
        store
    }

    /// The file records; the store is consistent.
    pub fn files(&self) -> (files: &Vec<FileRecord>)
        ensures
            file_models(files@) == self@.files,
            self@.wf(),
    {
        proof {
            use_type_invariant(self);
        }
        &self.files
    }

    /// The row records; the store is consistent.
    pub fn rows(&self) -> (rows: &Vec<DataRow>)
        ensures
            data_row_models(rows@) == self@.rows,
            self@.wf(),
    {
        proof {
            use_type_invariant(self);
        }
        &self.rows
    }

    /// The position of the file record for `path`.
    pub fn find_file(&self, path: &str) -> (r: Option<usize>)
        ensures
            r is Some <==> has_path(self@.files, path@),
            r matches Some(i) ==> i == path_position(self@.files, path@) && i < self@.files.len(),
    {
        proof {
            use_type_invariant(self);
        }
        let ghost models = file_models(self.files@);
        let mut i: usize = 0;
        while i < self.files.len()
            invariant
                i <= self.files.len(),
                models == file_models(self.files@),
                self@.wf(),
                models == self@.files,
                forall|k: int| 0 <= k < i ==> (#[trigger] models[k]).file_path != path@,
            decreases self.files.len() - i,
        {
            if same_text(self.files[i].file_path.as_str(), path) {
                assert(models[i as int].file_path == path@);
                return Some(i);
            }
            i = i + 1;
        }
        None
    }

    /// The fingerprint that is stored for `path`.
    pub fn stored_hash(&self, path: &str) -> (r: Option<String>)
        ensures
            match r {
                Some(h) => self@.stored_hash(path@) == Some(h@),
                None => self@.stored_hash(path@) is None,
            },
    {
        match self.find_file(path) {
            Some(i) => Some(self.files[i].file_hash.clone()),
            None => None,
        }
    }

    /// Imports a file: puts its rows in the place of the rows that the store
    /// has of it and brings its record up to date, or leaves the store as it
    /// is.
    pub fn import(&mut self, file: &SourceFile, now: i64) -> (r: Result<(), ImportError>)
        ensures
            match import_check(old(self)@, file@) {
                Ok(()) => r == Ok::<(), ImportError>(()) && final(self)@ == imported(
                    old(self)@,
                    file@,
                    now as int,
                ),
                Err(e) => r == Err::<(), ImportError>(e) && final(self)@ == old(self)@,
            },
    {
        proof {
            use_type_invariant(&*self);
        }
        let ghost s = self@;
        let content: &Vec<u8> = match &file.content {
            Some(c) => c,
            None => {
                return Err(ImportError::Io);
            },
        };
        let raw: &Vec<RawSheet> = match &file.sheets {
            Some(sheets) => sheets,
            None => {
                return Err(ImportError::Format);
            },
        };
        let found: Option<usize> = self.find_file(file.path.as_str());
        if found.is_none() && self.next_file_id >= i32::MAX {
            return Err(ImportError::Storage);
        }
        let read: (Vec<SheetData>, Vec<String>) = read_excel_file(raw);
        let sheets: Vec<SheetData> = read.0;
        let order: Vec<String> = read.1;
        let room: u64 = (i32::MAX - self.next_row_id) as u64;
        let total: u64 = match total_of(&sheets, room) {
            Some(n) => n,
            None => {
                return Err(ImportError::Storage);
            },
        };
        assert(import_check(s, file@) is Ok);
        let hash: String = generate_file_hash(content.as_slice());
        let size: i64 = report_count(content.len());
        let id: i32 = match found {
            Some(i) => self.files[i].id,
            None => self.next_file_id,
        };
        let record: FileRecord = match found {
            Some(i) => FileRecord {
                id,
                file_path: self.files[i].file_path.clone(),
                file_name: self.files[i].file_name.clone(),
                file_size: size,
                file_hash: hash,
                field_order: Some(order),
                created_at: self.files[i].created_at,
                updated_at: now,
            },
            None => FileRecord {
                id,
                file_path: file.path.clone(),
                file_name: file.name.clone(),
                file_size: size,
                file_hash: hash,
                field_order: Some(order),
                created_at: now,
                updated_at: now,
            },
        };
        assert(record@ == recorded_file(s, file@, now as int));
        let fresh: Vec<DataRow> = make_file_rows(id, &sheets, self.next_row_id, total, now);
        // The rows of the other files.
        let ghost pred = |r: DataRowModel| r.file_id != id as int;
        let mut rows: Vec<DataRow> = Vec::new();
        let mut k: usize = 0;
        proof {
            reveal(Seq::filter);
            assert(s.rows.take(0) =~= Seq::<DataRowModel>::empty());
            assert(data_row_models(rows@) =~= s.rows.take(0).filter(pred));
        }
        while k < self.rows.len()
            invariant
                k <= self.rows.len(),
                s == self@,
                s.rows == data_row_models(self.rows@),
                pred == |r: DataRowModel| r.file_id != id as int,
                data_row_models(rows@) == s.rows.take(k as int).filter(pred),
            decreases self.rows.len() - k,
        {
            proof {
                reveal(Seq::filter);
                let part = s.rows.take(k as int + 1);
                assert(part.drop_last() =~= s.rows.take(k as int));
                assert(part.last() == self.rows@[k as int]@);
            }
            if self.rows[k].file_id() != id {
                let ghost before = data_row_models(rows@);
                rows.push(self.rows[k].clone());
                assert(data_row_models(rows@) =~= before.push(self.rows@[k as int]@));
            }
            k = k + 1;
        }
        assert(s.rows.take(self.rows.len() as int) =~= s.rows);
        let ghost kept = data_row_models(rows@);
        let mut fresh = fresh;
        let ghost added = data_row_models(fresh@);
        rows.append(&mut fresh);
        assert(data_row_models(rows@) =~= kept + added);
        // The file records.
        let mut files: Vec<FileRecord> = Vec::new();
        let mut m: usize = 0;
        while m < self.files.len()
            invariant
                m <= self.files.len(),
                s == self@,
                s.files == file_models(self.files@),
                files@.len() == m,
                forall|j: int| 0 <= j < m ==> (#[trigger] files@[j])@ == s.files[j],
            decreases self.files.len() - m,
        {
            files.push(copy_file_record(&self.files[m]));
            m = m + 1;
        }
        assert(file_models(files@) =~= s.files);
        let next_file_id: i32 = match found {
            Some(i) => {
                files.set(i, record);
                self.next_file_id
            },
            None => {
                files.push(record);
                self.next_file_id + 1
            },
        };
        let next_row_id: i32 = self.next_row_id + total as i32;
        proof {
            lemma_imported_is_consistent(s, file@, now as int);
            let t = imported(s, file@, now as int);
            assert(file_models(files@) =~= t.files);
            assert(data_row_models(rows@) =~= t.rows);
        }
        *self = Store { files, rows, next_file_id, next_row_id };
        Ok(())
    }
}

} // verus!
