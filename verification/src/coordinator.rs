//! The concurrency coordinator: which of the files that were found are
//! imported, in which batches, and how the outcomes are counted.
//!
//! The files that need an import are cut into batches of a fixed size.  The
//! files of one batch may be worked on at the same time; the next batch starts
//! when every file of the batch before it is done.  A file that fails is
//! counted as failed and holds nothing else up.

use vstd::prelude::*;
use crate::counts::{report_count, reported};
use crate::fingerprint::{import_required, needs_import};
use crate::models::ImportStats;
use crate::text::texts;

verus! {

/// The number of files that are worked on at the same time, where nothing
/// else is asked for.
pub const DEFAULT_MAX_CONCURRENT_FILES: usize = 4;

/// A file that the scan found, with what the change check said of it:
/// whether it has changed, or `None` where the check itself failed.
#[derive(Debug, Clone, PartialEq, Eq)]
pub struct ScannedFile {
    pub path: String,
    pub changed: Option<bool>,
}

/// The model of a scanned file.
pub struct ScannedModel {
    pub path: Seq<char>,
    pub changed: Option<bool>,
}

impl View for ScannedFile {
    type V = ScannedModel;

    open spec fn view(&self) -> ScannedModel {
        ScannedModel { path: self.path@, changed: self.changed }
    }
}

/// The models of a list of scanned files.
pub open spec fn scanned_models(files: Seq<ScannedFile>) -> Seq<ScannedModel> {
    files.map_values(|f: ScannedFile| f@)
}

/// The paths of the files that have to be imported, in the order of the scan.
pub open spec fn selected(files: Seq<ScannedModel>, force_reimport: bool) -> Seq<Seq<char>>
    decreases files.len(),
{
    if files.len() == 0 {
        Seq::empty()
    } else {
        let before = selected(files.drop_last(), force_reimport);
        if import_required(force_reimport, files.last().changed) {
            before.push(files.last().path)
        } else {
            before
        }
    }
}

/// No more files are selected than were scanned.
pub proof fn lemma_selected_len(files: Seq<ScannedModel>, force_reimport: bool)
    ensures
        selected(files, force_reimport).len() <= files.len(),
        force_reimport ==> selected(files, force_reimport).len() == files.len(),
    decreases files.len(),
{
    if files.len() > 0 {
        lemma_selected_len(files.drop_last(), force_reimport);
    }
}

/// Selects the files that have to be imported.
pub fn select_files(files: &Vec<ScannedFile>, force_reimport: bool) -> (paths: Vec<String>)
    ensures
        texts(paths@) == selected(scanned_models(files@), force_reimport),
        paths@.len() <= files@.len(),
{
    let ghost models = scanned_models(files@);
    let mut paths: Vec<String> = Vec::new();
    let mut i: usize = 0;
    proof {
        assert(models.take(0) =~= Seq::<ScannedModel>::empty());
        assert(texts(paths@) =~= selected(models.take(0), force_reimport));
    }
    while i < files.len()
        invariant
            i <= files.len(),
            models == scanned_models(files@),
            texts(paths@) == selected(models.take(i as int), force_reimport),
        decreases files.len() - i,
    {
        proof {
            let part = models.take(i as int + 1);
            assert(part.drop_last() =~= models.take(i as int));
            assert(part.last() == files@[i as int]@);
        }
        if needs_import(force_reimport, files[i].changed) {
            let ghost before = texts(paths@);
            paths.push(files[i].path.clone());
            assert(texts(paths@) =~= before.push(files@[i as int].path@));
        }
        i = i + 1;
    }
    proof {
        assert(models.take(files.len() as int) =~= models);
        lemma_selected_len(models, force_reimport);
    }
    paths
}

/// The size of a batch for a requested number of files at a time: that
/// number, but at least one.
pub open spec fn batch_size(max_concurrent_files: int) -> int {
    if max_concurrent_files < 1 {
        1
    } else {
        max_concurrent_files
    }
}

/// `files` cut into batches of `size` files; the last batch holds what is left.
pub open spec fn batches_of<T>(files: Seq<T>, size: int) -> Seq<Seq<T>>
    decreases files.len(),
{
    if size < 1 || files.len() == 0 {
        Seq::empty()
    } else if files.len() <= size {
        seq![files]
    } else {
        seq![files.take(size)] + batches_of(files.skip(size), size)
    }
}

/// The batches, one behind the other.
pub open spec fn flattened<T>(batches: Seq<Seq<T>>) -> Seq<T>
    decreases batches.len(),
{
    if batches.len() == 0 {
        Seq::empty()
    } else {
        batches.first() + flattened(batches.drop_first())
    }
}

/// The batches hold every file once, in order; no batch is empty or larger
/// than the batch size, and every batch but the last is full.
pub proof fn law_batches_partition<T>(files: Seq<T>, size: int)
    requires
        size >= 1,
    ensures
        flattened(batches_of(files, size)) == files,
        forall|i: int|
            0 <= i < batches_of(files, size).len() ==> 0 < (#[trigger] batches_of(files, size)[i]).len()
                <= size,
        forall|i: int|
            0 <= i < batches_of(files, size).len() - 1 ==> (#[trigger] batches_of(
                files,
                size,
            )[i]).len() == size,
    decreases files.len(),
{
    let all = batches_of(files, size);
    if files.len() == 0 {
        assert(files =~= Seq::<T>::empty());
    } else if files.len() <= size {
        assert(all.first() == files);
        assert(all.drop_first() =~= Seq::<Seq<T>>::empty());
        assert(flattened(all.drop_first()) =~= Seq::<T>::empty());
        assert(files + Seq::<T>::empty() =~= files);
    } else {
        assert(all.first() == files.take(size));
        let rest = batches_of(files.skip(size), size);
        law_batches_partition(files.skip(size), size);
        assert(all.drop_first() =~= rest);
        assert(files.take(size) + files.skip(size) =~= files);
        assert(rest.len() >= 1);
        assert forall|i: int| 0 <= i < all.len() implies 0 < (#[trigger] all[i]).len() <= size by {
            if i > 0 {
                assert(all[i] == rest[i - 1]);
            }
        }
        assert forall|i: int| 0 <= i < all.len() - 1 implies (#[trigger] all[i]).len() == size by {
            if i > 0 {
                assert(all[i] == rest[i - 1]);
            }
        }
    }
}

/// The texts of a list of lists of strings.
pub open spec fn nested_texts(v: Seq<Vec<String>>) -> Seq<Seq<Seq<char>>> {
    v.map_values(|b: Vec<String>| texts(b@))
}

/// Cuts the files that have to be imported into batches.
pub fn plan_batches(files: &Vec<String>, max_concurrent_files: usize) -> (batches: Vec<Vec<String>>)
    ensures
        nested_texts(batches@) == batches_of(texts(files@), batch_size(max_concurrent_files as int)),
{
    let size: usize = if max_concurrent_files < 1 {
        1
    } else {
        max_concurrent_files
    };
    let ghost all = texts(files@);
    let mut batches: Vec<Vec<String>> = Vec::new();
    let mut start: usize = 0;
    proof {
        assert(all.skip(0) =~= all);
        assert(nested_texts(batches@) + batches_of(all, size as int) =~= batches_of(
            all,
            size as int,
        ));
    }
    while start < files.len()
        invariant
            start <= files.len(),
            size >= 1,
            all == texts(files@),
            nested_texts(batches@) + batches_of(all.skip(start as int), size as int) == batches_of(
                all,
                size as int,
            ),
        decreases files.len() - start,
    {
        let left: usize = files.len() - start;
        let end: usize = if left <= size {
            files.len()
        } else {
            start + size
        };
        let mut batch: Vec<String> = Vec::new();
        let mut i: usize = start;
        while i < end
            invariant
                start <= i <= end <= files.len(),
                all == texts(files@),
                texts(batch@) == all.subrange(start as int, i as int),
            decreases end - i,
        {
            let ghost before = texts(batch@);
            batch.push(files[i].clone());
            i = i + 1;
            assert(texts(batch@) =~= before.push(files@[i as int - 1]@));
            assert(all.subrange(start as int, i as int) =~= all.subrange(
                start as int,
                i as int - 1,
            ).push(all[i as int - 1]));
        }
        proof {
            let rest = all.skip(start as int);
            if left <= size {
                assert(texts(batch@) =~= rest);
                assert(batches_of(all.skip(end as int), size as int) =~= Seq::<
                    Seq<Seq<char>>,
                >::empty());
            } else {
                assert(texts(batch@) =~= rest.take(size as int));
                assert(rest.skip(size as int) =~= all.skip(end as int));
            }
        }
        let ghost before = nested_texts(batches@);
        let ghost piece = texts(batch@);
        batches.push(batch);
        proof {
            assert(nested_texts(batches@) =~= before.push(piece));
            assert(before.push(piece) + batches_of(all.skip(end as int), size as int) =~= before
                + (seq![piece] + batches_of(all.skip(end as int), size as int)));
        }
        start = end;
    }
    assert(nested_texts(batches@) + Seq::<Seq<Seq<char>>>::empty() =~= nested_texts(batches@));
    batches
}

/// How many of `outcomes` are successes.
pub open spec fn successes(outcomes: Seq<bool>) -> int
    decreases outcomes.len(),
{
    if outcomes.len() == 0 {
        0
    } else {
        successes(outcomes.drop_last()) + if outcomes.last() {
            1int
        } else {
            0int
        }
    }
}

/// The counters of a run in which `scanned` files were found and the files
/// that had to be imported ended with `outcomes`: as many files were to be
/// imported as there are outcomes, the others were skipped.  A count that the
/// counter cannot hold is reported as the largest that it can.
pub open spec fn summary_of(scanned: int, outcomes: Seq<bool>) -> ImportStats {
    ImportStats {
        success: reported(successes(outcomes)) as i64,
        failed: reported(outcomes.len() - successes(outcomes)) as i64,
        total: reported(outcomes.len() as int) as i64,
        skipped: reported(scanned - outcomes.len()) as i64,
    }
}

/// Counts the outcomes of a run.  `outcomes` holds, for each file that had to
/// be imported, whether its import succeeded.
pub fn summarize(scanned: usize, outcomes: &Vec<bool>) -> (stats: ImportStats)
    requires
        outcomes@.len() <= scanned,
    ensures
        stats == summary_of(scanned as int, outcomes@),
        outcomes@.len() <= i64::MAX ==> stats.is_settled(),
{
    let mut good: usize = 0;
    let mut i: usize = 0;
    assert(outcomes@.take(0) =~= Seq::<bool>::empty());
    while i < outcomes.len()
        invariant
            i <= outcomes.len(),
            good == successes(outcomes@.take(i as int)),
            good <= i,
        decreases outcomes.len() - i,
    {
        proof {
            let part = outcomes@.take(i as int + 1);
            assert(part.drop_last() =~= outcomes@.take(i as int));
            assert(part.last() == outcomes@[i as int]);
        }
        if outcomes[i] {
            good = good + 1;
        }
        i = i + 1;
    }
    assert(outcomes@.take(outcomes.len() as int) =~= outcomes@);
    ImportStats {
        success: report_count(good),
        failed: report_count(outcomes.len() - good),
        total: report_count(outcomes.len()),
        skipped: report_count(scanned - outcomes.len()),
    }
}

} // verus!
