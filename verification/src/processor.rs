//! The processor: import runs, search, statistics and export over a store.
//!
//! An import run judges every file that was found against the store as it
//! is when the run begins: a file whose fingerprint is the stored one is
//! skipped, unless a fresh import is forced.  The other files are imported
//! one by one; a file that fails is counted and leaves the store as it was.

use vstd::prelude::*;
use crate::coordinator::{summarize, summary_of};
use crate::counts::{report_count, reported};
use crate::export::ExportError;
use crate::fingerprint::{
    differs_from_stored, fingerprint_of, generate_file_hash, import_required, is_file_changed,
    needs_import,
};
use crate::models::{ImportStats, SearchResponse, StatsResponse};
use crate::reader::read_sheets;
use crate::record::{data_row_models, DataRow, DataRowModel};
use crate::scanner::{check_root, root_check, InputError};
use crate::search::search_data;
use crate::sequences::{lemma_filter_all, lemma_filter_none};
use crate::store::{
    file_rows, has_path, import_check, imported, lemma_file_rows, lemma_imported_is_consistent,
    path_position, rows_not_owned_by, rows_owned_by, total_rows, ImportError, SourceFile,
    SourceFileModel, Store, StoreModel,
};
use crate::workbook::export_search_results;

verus! {

/// What the change check says of a file: whether its fingerprint differs
/// from the stored one, or `None` where its content could not be read.
pub open spec fn change_check(s: StoreModel, f: SourceFileModel) -> Option<bool> {
    match f.content {
        None => None,
        Some(c) => Some(differs_from_stored(s.stored_hash(f.path), fingerprint_of(c))),
    }
}

/// The store and the outcome after one file is worked on: a file that has
/// not changed is left alone, unless a fresh import is forced; else the file
/// is imported where the store can take it, and the store stays as it is
/// where it cannot.
pub open spec fn processed(s: StoreModel, f: SourceFileModel, force_reimport: bool, now: int) -> (
    StoreModel,
    Result<(), ImportError>,
) {
    if !force_reimport && change_check(s, f) == Some(false) {
        (s, Ok(()))
    } else {
        match import_check(s, f) {
            Ok(()) => (imported(s, f, now), Ok(())),
            Err(e) => (s, Err(e)),
        }
    }
}

/// The files of `files` that have to be imported, judged against the store `s`.
pub open spec fn to_import(s: StoreModel, files: Seq<SourceFileModel>, force_reimport: bool) -> Seq<
    SourceFileModel,
>
    decreases files.len(),
{
    if files.len() == 0 {
        Seq::empty()
    } else {
        let before = to_import(s, files.drop_last(), force_reimport);
        if import_required(force_reimport, change_check(s, files.last())) {
            before.push(files.last())
        } else {
            before
        }
    }
}

/// The store after `files` are worked on one by one, and whether each succeeded.
pub open spec fn worked_through(
    s: StoreModel,
    files: Seq<SourceFileModel>,
    force_reimport: bool,
    now: int,
) -> (StoreModel, Seq<bool>)
    decreases files.len(),
{
    if files.len() == 0 {
        (s, Seq::empty())
    } else {
        let before = worked_through(s, files.drop_last(), force_reimport, now);
        let last = processed(before.0, files.last(), force_reimport, now);
        (last.0, before.1.push(last.1 is Ok))
    }
}

/// The store and the counters after an import run over `files`.
pub open spec fn batch_imported(
    s: StoreModel,
    files: Seq<SourceFileModel>,
    force_reimport: bool,
    now: int,
) -> (StoreModel, ImportStats) {
    let done = worked_through(s, to_import(s, files, force_reimport), force_reimport, now);
    (done.0, summary_of(files.len() as int, done.1))
}

/// The store and the result after an import run over a folder: a folder
/// that is missing or is no folder stops the run before anything is changed;
/// else the store and the counters are those of the run over `files`.
pub open spec fn folder_imported(
    s: StoreModel,
    root_exists: bool,
    root_is_dir: bool,
    files: Seq<SourceFileModel>,
    force_reimport: bool,
    now: int,
) -> (StoreModel, Result<ImportStats, InputError>) {
    match root_check(root_exists, root_is_dir) {
        Err(e) => (s, Err(e)),
        Ok(()) => (
            batch_imported(s, files, force_reimport, now).0,
            Ok(batch_imported(s, files, force_reimport, now).1),
        ),
    }
}

/// Working on a file leaves the store consistent.
pub proof fn lemma_processed_is_consistent(
    s: StoreModel,
    f: SourceFileModel,
    force_reimport: bool,
    now: int,
)
    requires
        s.wf(),
    ensures
        processed(s, f, force_reimport, now).0.wf(),
{
    if !(!force_reimport && change_check(s, f) == Some(false)) && import_check(s, f) is Ok {
        lemma_imported_is_consistent(s, f, now);
    }
}

/// Working through files leaves the store consistent and gives one outcome
/// for each file.
pub proof fn law_runs_keep_store_consistent(
    s: StoreModel,
    files: Seq<SourceFileModel>,
    force_reimport: bool,
    now: int,
)
    requires
        s.wf(),
    ensures
        worked_through(s, files, force_reimport, now).0.wf(),
        worked_through(s, files, force_reimport, now).1.len() == files.len(),
    decreases files.len(),
{
    if files.len() > 0 {
        law_runs_keep_store_consistent(s, files.drop_last(), force_reimport, now);
        lemma_processed_is_consistent(
            worked_through(s, files.drop_last(), force_reimport, now).0,
            files.last(),
            force_reimport,
            now,
        );
    }
}

/// After an import, the stored fingerprint of the file is that of its content.
pub proof fn lemma_import_records_fingerprint(s: StoreModel, f: SourceFileModel, now: int)
    requires
        s.wf(),
        import_check(s, f) is Ok,
    ensures
        imported(s, f, now).stored_hash(f.path) == Some(fingerprint_of(f.content->0)),
        change_check(imported(s, f, now), f) == Some(false),
{
    let t = imported(s, f, now);
    lemma_imported_is_consistent(s, f, now);
    if has_path(s.files, f.path) {
        let p = path_position(s.files, f.path);
        assert(t.files[p].file_path == f.path);
    } else {
        assert(t.files[s.files.len() as int].file_path == f.path);
    }
    let q = path_position(t.files, f.path);
    if has_path(s.files, f.path) {
        let p = path_position(s.files, f.path);
        if q != p {
            assert(t.files[q] == s.files[q]);
            assert(s.files[q].file_path == s.files[p].file_path);
        }
    } else {
        if q != s.files.len() {
            assert(t.files[q] == s.files[q]);
            assert(s.files[q].file_path == f.path);
        }
    }
}

/// A file that was imported and has not changed since is skipped by the next
/// run, and that run leaves the store as it is: after a first run over a file
/// that the store can take, a second run over the same file, without forcing,
/// counts one skipped file and nothing else, and changes no row.
pub proof fn law_unchanged_file_is_skipped(s: StoreModel, f: SourceFileModel, first: int, second: int)
    requires
        s.wf(),
        import_check(s, f) is Ok,
    ensures
        ({
            let once = batch_imported(s, seq![f], false, first);
            let twice = batch_imported(once.0, seq![f], false, second);
            &&& twice.0 == once.0
            &&& twice.1 == (ImportStats { success: 0, failed: 0, total: 0, skipped: 1 })
        }),
{
    let files = seq![f];
    let none = Seq::<SourceFileModel>::empty();
    assert(files.drop_last() =~= none);
    assert(files.last() == f);
    let once = batch_imported(s, files, false, first);
    let chosen = to_import(s, files, false);
    assert(to_import(s, none, false) =~= none);
    if import_required(false, change_check(s, f)) {
        assert(chosen =~= seq![f]);
        assert(chosen.drop_last() =~= none);
        assert(worked_through(s, none, false, first).0 == s);
        assert(once.0 == processed(s, f, false, first).0);
        assert(change_check(s, f) == Some(true));
        lemma_import_records_fingerprint(s, f, first);
    } else {
        assert(chosen =~= none);
        assert(once.0 == s);
    }
    assert(change_check(once.0, f) == Some(false));
    let again = to_import(once.0, files, false);
    assert(to_import(once.0, none, false) =~= none);
    assert(again =~= none);
    let done = worked_through(once.0, again, false, second);
    assert(done.1 =~= Seq::<bool>::empty());
    assert(crate::coordinator::successes(done.1) == 0);
}

/// An import replaces the rows of the file in full: after it, the rows of
/// the file are the rows read from the new content, as many as were read; the
/// rows of the other files are as before; and no row that the file had before
/// is left.
pub proof fn lemma_import_replaces_rows(s: StoreModel, f: SourceFileModel, now: int)
    requires
        s.wf(),
        import_check(s, f) is Ok,
    ensures
        ({
            let t = imported(s, f, now);
            let id = s.file_id_for(f.path);
            let sheets = read_sheets(f.sheets->0);
            &&& rows_owned_by(t.rows, id) == file_rows(id, sheets, s.next_row_id, now)
            &&& rows_owned_by(t.rows, id).len() == total_rows(sheets)
            &&& rows_not_owned_by(t.rows, id) == rows_not_owned_by(s.rows, id)
            &&& forall|k: int|
                0 <= k < s.rows.len() && (#[trigger] s.rows[k]).file_id == id ==> !t.rows.contains(
                    s.rows[k],
                )
        }),
{
    let t = imported(s, f, now);
    let id = s.file_id_for(f.path);
    let sheets = read_sheets(f.sheets->0);
    let kept = rows_not_owned_by(s.rows, id);
    let fresh = file_rows(id, sheets, s.next_row_id, now);
    let own = |r: DataRowModel| r.file_id == id;
    let other = |r: DataRowModel| r.file_id != id;
    lemma_file_rows(id, sheets, s.next_row_id, now);
    crate::store::lemma_filter_keeps_ascending(s.rows, id);
    assert(t.rows == kept + fresh);
    lemma_filter_none(kept, own);
    lemma_filter_all(fresh, own);
    lemma_filter_all(kept, other);
    lemma_filter_none(fresh, other);
    Seq::filter_distributes_over_add(kept, fresh, own);
    Seq::filter_distributes_over_add(kept, fresh, other);
    assert(kept.filter(own) + fresh.filter(own) =~= fresh);
    assert(kept.filter(other) + fresh.filter(other) =~= kept);
    assert forall|k: int| 0 <= k < s.rows.len() && (#[trigger] s.rows[k]).file_id == id implies
        !t.rows.contains(s.rows[k]) by {
        let r = s.rows[k];
        assert(s.row_ok(r));
        if t.rows.contains(r) {
            let m = choose|m: int| 0 <= m < t.rows.len() && t.rows[m] == r;
            if m < kept.len() {
                assert(t.rows[m] == kept[m]);
            } else {
                assert(t.rows[m] == fresh[m - kept.len()]);
            }
        }
    }
}

/// A file whose content has changed is replaced in full by the next run:
/// the run counts one file, imported with success; after it, the rows of the
/// file are the rows read from the new content, as many as were read; the
/// rows of the other files are as before; and no row that the file had
/// before is left.
pub proof fn law_changed_file_is_replaced(s: StoreModel, f: SourceFileModel, now: int)
    requires
        s.wf(),
        import_check(s, f) is Ok,
        change_check(s, f) == Some(true),
    ensures
        ({
            let run = batch_imported(s, seq![f], false, now);
            let id = s.file_id_for(f.path);
            let sheets = read_sheets(f.sheets->0);
            &&& run.1 == (ImportStats { success: 1, failed: 0, total: 1, skipped: 0 })
            &&& run.0 == imported(s, f, now)
            &&& rows_owned_by(run.0.rows, id) == file_rows(id, sheets, s.next_row_id, now)
            &&& rows_owned_by(run.0.rows, id).len() == total_rows(sheets)
            &&& rows_not_owned_by(run.0.rows, id) == rows_not_owned_by(s.rows, id)
            &&& forall|k: int|
                0 <= k < s.rows.len() && (#[trigger] s.rows[k]).file_id == id
                    ==> !run.0.rows.contains(s.rows[k])
        }),
{
    lemma_run_over_changed_file(s, f, now);
    lemma_import_replaces_rows(s, f, now);
}

/// A run over one file that has changed imports it.
proof fn lemma_run_over_changed_file(s: StoreModel, f: SourceFileModel, now: int)
    requires
        import_check(s, f) is Ok,
        change_check(s, f) == Some(true),
    ensures
        batch_imported(s, seq![f], false, now).0 == imported(s, f, now),
        batch_imported(s, seq![f], false, now).1 == (ImportStats {
            success: 1,
            failed: 0,
            total: 1,
            skipped: 0,
        }),
{
    let files = seq![f];
    let none = Seq::<SourceFileModel>::empty();
    assert(files.drop_last() =~= none);
    assert(files.last() == f);
    assert(to_import(s, none, false) =~= none);
    let chosen = to_import(s, files, false);
    assert(chosen =~= seq![f]);
    assert(chosen.drop_last() =~= none);
    let done = worked_through(s, chosen, false, now);
    assert(worked_through(s, none, false, now).0 == s);
    assert(done.0 == imported(s, f, now));
    assert(done.1 =~= seq![true]);
    assert(done.1.drop_last() =~= Seq::<bool>::empty());
    assert(crate::coordinator::successes(Seq::<bool>::empty()) == 0);
    assert(crate::coordinator::successes(done.1) == 1);
}

/// The time of the latest import among `rows`, or `fallback` where there is no row.
pub open spec fn latest_import(rows: Seq<DataRowModel>, fallback: int) -> int
    decreases rows.len(),
{
    if rows.len() == 0 {
        fallback
    } else if rows.len() == 1 {
        rows.last().import_time
    } else {
        let before = latest_import(rows.drop_last(), fallback);
        if rows.last().import_time > before {
            rows.last().import_time
        } else {
            before
        }
    }
}

/// The models of a list of source files.
pub open spec fn source_models(files: Seq<SourceFile>) -> Seq<SourceFileModel> {
    files.map_values(|f: SourceFile| f@)
}

/// The processor, over its store.
#[derive(Debug)]
pub struct ExcelProcessor {
    store: Store,
}

impl View for ExcelProcessor {
    type V = StoreModel;

    closed spec fn view(&self) -> StoreModel {
        self.store@
    }
}

impl ExcelProcessor {
    /// A processor over `store`.
    pub fn new(store: Store) -> (processor: ExcelProcessor)
        ensures
            processor@ == store@,
    {
        ExcelProcessor { store }
    }

    /// The store.
    pub fn store(&self) -> (store: &Store)
        ensures
            store@ == self@,
    {
        &self.store
    }

    /// What the change check says of a file.
    pub fn check_changed(&self, file: &SourceFile) -> (r: Option<bool>)
        ensures
            r == change_check(self@, file@),
    {
        match &file.content {
            None => None,
            Some(content) => {
                let fresh: String = generate_file_hash(content.as_slice());
                let stored: Option<String> = self.store.stored_hash(file.path.as_str());
                match &stored {
                    Some(h) => Some(is_file_changed(Some(h.as_str()), fresh.as_str())),
                    None => Some(is_file_changed(None, fresh.as_str())),
                }
            },
        }
    }

    /// Works on one file.
    pub fn process_single_file(&mut self, file: &SourceFile, force_reimport: bool, now: i64) -> (r:
        Result<(), ImportError>)
        ensures
            final(self)@ == processed(old(self)@, file@, force_reimport, now as int).0,
            r == processed(old(self)@, file@, force_reimport, now as int).1,
    {
        if !force_reimport {
            match self.check_changed(file) {
                Some(false) => {
                    return Ok(());
                },
                _ => {},
            }
        }
        self.store.import(file, now)
    }

    /// Runs an import over a folder: `root_exists` and `root_is_dir` say what
    /// was found under its path, `files` are the spreadsheets that were found
    /// in it.  Where the folder is missing or is no folder the run fails before
    /// anything is read or changed; else the files are imported.
    pub fn import_folder(
        &mut self,
        root_exists: bool,
        root_is_dir: bool,
        files: &Vec<SourceFile>,
        force_reimport: bool,
        max_concurrent_files: usize,
        now: i64,
    ) -> (r: Result<ImportStats, InputError>)
        ensures
            final(self)@ == folder_imported(
                old(self)@,
                root_exists,
                root_is_dir,
                source_models(files@),
                force_reimport,
                now as int,
            ).0,
            r == folder_imported(
                old(self)@,
                root_exists,
                root_is_dir,
                source_models(files@),
                force_reimport,
                now as int,
            ).1,
    {
        match check_root(root_exists, root_is_dir) {
            Err(e) => Err(e),
            Ok(()) => Ok(
                self.batch_import_excel_files_with_options(
                    files,
                    force_reimport,
                    max_concurrent_files,
                    now,
                ),
            ),
        }
    }

    /// Runs an import over the files that were found, without forcing.
    pub fn batch_import_excel_files(&mut self, files: &Vec<SourceFile>, now: i64) -> (stats:
        ImportStats)
        ensures
            final(self)@ == batch_imported(old(self)@, source_models(files@), false, now as int).0,
            stats == batch_imported(old(self)@, source_models(files@), false, now as int).1,
    {
        self.batch_import_excel_files_with_options(
            files,
            false,
            crate::coordinator::DEFAULT_MAX_CONCURRENT_FILES,
            now,
        )
    }

    /// Runs an import over the files that were found, in batches of up to
    /// `max_concurrent_files` files (of one file where that is zero).  Over
    /// this store the files of a batch are worked on one after the other, so
    /// the size of the batches does not change the outcome.
    pub fn batch_import_excel_files_with_options(
        &mut self,
        files: &Vec<SourceFile>,
        force_reimport: bool,
        max_concurrent_files: usize,
        now: i64,
    ) -> (stats: ImportStats)
        ensures
            final(self)@ == batch_imported(
                old(self)@,
                source_models(files@),
                force_reimport,
                now as int,
            ).0,
            stats == batch_imported(old(self)@, source_models(files@), force_reimport, now as int).1,
    {
        let ghost s = self@;
        let ghost models = source_models(files@);
        // The files that have to be imported, judged before any of them is.
        let mut chosen: Vec<usize> = Vec::new();
        let mut i: usize = 0;
        proof {
            assert(models.take(0) =~= Seq::<SourceFileModel>::empty());
            assert(chosen@.map_values(|k: usize| models[k as int]) =~= to_import(
                s,
                models.take(0),
                force_reimport,
            ));
        }
        while i < files.len()
            invariant
                i <= files.len(),
                s == self@,
                models == source_models(files@),
                forall|j: int| 0 <= j < chosen@.len() ==> (#[trigger] chosen@[j]) < files.len(),
                chosen@.map_values(|k: usize| models[k as int]) == to_import(
                    s,
                    models.take(i as int),
                    force_reimport,
                ),
                chosen@.len() <= i,
            decreases files.len() - i,
        {
            proof {
                let part = models.take(i as int + 1);
                assert(part.drop_last() =~= models.take(i as int));
                assert(part.last() == files@[i as int]@);
            }
            let changed: Option<bool> = self.check_changed(&files[i]);
            if needs_import(force_reimport, changed) {
                let ghost before = chosen@.map_values(|k: usize| models[k as int]);
                chosen.push(i);
                assert(chosen@.map_values(|k: usize| models[k as int]) =~= before.push(
                    models[i as int],
                ));
            }
            i = i + 1;
        }
        assert(models.take(files.len() as int) =~= models);
        let ghost wanted = to_import(s, models, force_reimport);
        // Batch by batch; the next batch begins when the batch before it is done.
        let size: usize = if max_concurrent_files < 1 {
            1
        } else {
            max_concurrent_files
        };
        let mut outcomes: Vec<bool> = Vec::new();
        let mut n: usize = 0;
        proof {
            assert(wanted.take(0) =~= Seq::<SourceFileModel>::empty());
        }
        while n < chosen.len()
            invariant
                n <= chosen.len(),
                size >= 1,
                chosen@.len() <= files.len(),
                models == source_models(files@),
                forall|j: int| 0 <= j < chosen@.len() ==> (#[trigger] chosen@[j]) < files.len(),
                wanted == chosen@.map_values(|k: usize| models[k as int]),
                self@ == worked_through(s, wanted.take(n as int), force_reimport, now as int).0,
                outcomes@ == worked_through(s, wanted.take(n as int), force_reimport, now as int).1,
                outcomes@.len() == n,
            decreases chosen.len() - n,
        {
            let end: usize = if chosen.len() - n <= size {
                chosen.len()
            } else {
                n + size
            };
            while n < end
                invariant
                    n <= end <= chosen.len(),
                    chosen@.len() <= files.len(),
                    models == source_models(files@),
                    forall|j: int| 0 <= j < chosen@.len() ==> (#[trigger] chosen@[j]) < files.len(),
                    wanted == chosen@.map_values(|k: usize| models[k as int]),
                    self@ == worked_through(s, wanted.take(n as int), force_reimport, now as int).0,
                    outcomes@ == worked_through(
                        s,
                        wanted.take(n as int),
                        force_reimport,
                        now as int,
                    ).1,
                    outcomes@.len() == n,
                decreases end - n,
            {
                proof {
                    let part = wanted.take(n as int + 1);
                    assert(part.drop_last() =~= wanted.take(n as int));
                    assert(part.last() == models[chosen@[n as int] as int]);
                }
                let r: Result<(), ImportError> = self.process_single_file(
                    &files[chosen[n]],
                    force_reimport,
                    now,
                );
                outcomes.push(r.is_ok());
                n = n + 1;
            }
        }
        assert(wanted.take(chosen.len() as int) =~= wanted);
        summarize(files.len(), &outcomes)
    }

    /// Searches the rows of the store.
    pub fn search_data(&self, query_text: &str, limit: u64, offset: u64) -> (response:
        SearchResponse)
        ensures
            crate::models::hit_models(response.results@) == crate::search::search_hits(
                self@.rows,
                self@.files,
                query_text@,
                limit as int,
                offset as int,
            ),
            response.total == reported(
                crate::search::candidates_of(self@.rows, query_text@).len() as int,
            ),
            response.limit == reported(limit as int),
            response.offset == reported(offset as int),
    {
        search_data(self.store.rows(), self.store.files(), query_text, limit, offset)
    }

    /// The totals of the store.  `now` is reported as the time of the last
    /// update where the store has no row.
    pub fn get_statistics(&self, now: i64) -> (stats: StatsResponse)
        ensures
            stats.total_rows == reported(self@.rows.len() as int),
            stats.total_files == reported(self@.files.len() as int),
            stats.last_update == latest_import(self@.rows, now as int),
    {
        let rows: &Vec<DataRow> = self.store.rows();
        let ghost models = data_row_models(rows@);
        let mut latest: i64 = now;
        let mut i: usize = 0;
        assert(models.take(0) =~= Seq::<DataRowModel>::empty());
        while i < rows.len()
            invariant
                i <= rows.len(),
                models == data_row_models(rows@),
                latest == latest_import(models.take(i as int), now as int),
            decreases rows.len() - i,
        {
            proof {
                let part = models.take(i as int + 1);
                assert(part.drop_last() =~= models.take(i as int));
                assert(part.last() == rows@[i as int]@);
            }
            let t: i64 = rows[i].import_time();
            if i == 0 || t > latest {
                latest = t;
            }
            i = i + 1;
        }
        assert(models.take(rows.len() as int) =~= models);
        StatsResponse {
            total_rows: report_count(rows.len()),
            total_files: report_count(self.store.files().len()),
            last_update: latest,
        }
    }

    /// Exports the rows that match a query as a workbook.  A query without
    /// keywords and a query without matches give their errors; so does a
    /// sheet that does not fit; any other error is one of the writer, which
    /// gives one where it does not take a sheet.  Where the writer saves and
    /// there is a sheet to write, the bytes hold the sheets of the export as
    /// they are laid out.
    pub fn export_search_results(&self, query_text: &str) -> (r: Result<Vec<u8>, ExportError>)
        ensures
            match crate::export::export_outline(self@.rows, self@.files, query_text@) {
                Err(e) => r == Err::<Vec<u8>, ExportError>(e),
                Ok(plans) => if crate::workbook::all_fit(plans) {
                    &&& r matches Err(e) ==> e is Workbook
                    &&& r is Ok ==> crate::workbook::writer_takes_all(plans)
                    &&& r matches Ok(bytes) ==> plans.len() > 0 ==> crate::workbook::bytes_hold(
                        bytes@,
                        crate::workbook::sheets_of(plans),
                    )
                } else {
                    r == Err::<Vec<u8>, ExportError>(ExportError::TooLarge)
                },
            },
    {
        export_search_results(self.store.rows(), self.store.files(), query_text)
    }
}

} // verus!
