//! The indexer's bookkeeping: what is stored for a file, and what a run
//! reports.

use crate::embedding::{embedding_from, read_embedding, EmbeddingError, EmbeddingOutcome};
use crate::store::{encoding, to_row, EmbeddingRecord, StorageError, StoredRow};
use crate::text::texts;
use vstd::prelude::*;

verus! {

/// How the indexing of one file ended.
#[derive(Clone, Copy, Debug, PartialEq, Eq, Structural)]
pub enum FileOutcome {
    /// The file's record was stored.
    Indexed,
    /// The file's metadata could not be read.
    NoMetadata,
    /// No embedding was had for the file's description.
    NotEmbedded(EmbeddingError),
    /// The record could not be stored.
    NotStored(StorageError),
}

/// What a run of the indexer reports.
#[derive(Clone, Copy, Debug, PartialEq, Eq, Structural)]
pub struct IndexReport {
    /// The files whose records were stored.
    pub indexed: usize,
    /// The files that were passed over.
    pub skipped: usize,
}

/// The folders that are indexed, each by its path under the home folder.
pub open spec fn index_root_names() -> Seq<Seq<char>> {
    seq!["Downloads"@, "OneDrive/Pictures"@]
}

/// The folders that are indexed, each by its path under the home folder.
/// Those that do not exist are passed over by the caller.
pub fn index_roots() -> (roots: Vec<String>)
    ensures
        texts(roots@) == index_root_names(),
{
    let mut roots: Vec<String> = Vec::new();
    roots.push(String::from_str("Downloads"));
    roots.push(String::from_str("OneDrive/Pictures"));
    assert(texts(roots@) =~= index_root_names());
    roots
}

/// The time stored for a file: the one read, or zero where none was read.
pub open spec fn stored_time(modified: Option<i64>) -> i64 {
    match modified {
        Some(t) => t,
        None => 0,
    }
}

/// Makes the row to store for a file from what was had for it: the path, the
/// time of its last modification where one was read, and the outcome of the
/// call that embedded its description. There is a row exactly when the call
/// gave an embedding; a failed call fails the file with the call's error.
pub fn prepare_row(path: &str, modified: Option<i64>, outcome: &EmbeddingOutcome) -> (r: Result<
    StoredRow,
    FileOutcome,
>)
    ensures
        match embedding_from(*outcome) {
            Ok(v) => r matches Ok(row) && row.blob@ == encoding(v) && row.path@ == path@
                && row.modified == stored_time(modified),
            Err(e) => r == Err::<StoredRow, FileOutcome>(FileOutcome::NotEmbedded(e)),
        },
{
    let vector = match read_embedding(outcome) {
        Ok(v) => v,
        Err(e) => {
            return Err(FileOutcome::NotEmbedded(e));
        },
    };
    let modified: i64 = match modified {
        Some(t) => t,
        None => 0,
    };
    let record = EmbeddingRecord { path: String::from_str(path), vector, modified };
    match to_row(&record) {
        Ok(row) => Ok(row),
        Err(e) => Err(FileOutcome::NotStored(e)),
    }
}

/// The number of files among the outcomes whose records were stored.
pub open spec fn indexed_count(outcomes: Seq<FileOutcome>) -> nat
    decreases outcomes.len(),
{
    if outcomes.len() == 0 {
        0
    } else {
        indexed_count(outcomes.drop_last()) + if outcomes.last() == FileOutcome::Indexed {
            1nat
        } else {
            0nat
        }
    }
}

/// No more files were indexed than there were outcomes.
pub proof fn lemma_indexed_count_bound(outcomes: Seq<FileOutcome>)
    ensures
        indexed_count(outcomes) <= outcomes.len(),
    decreases outcomes.len(),
{
    if outcomes.len() > 0 {
        lemma_indexed_count_bound(outcomes.drop_last());
    }
}

/// The report of a run from the outcomes of its files: every file is counted
/// once, as indexed or as skipped, and no outcome ends the run.
pub fn tally(outcomes: &Vec<FileOutcome>) -> (report: IndexReport)
    ensures
        report.indexed == indexed_count(outcomes@),
        report.indexed + report.skipped == outcomes@.len(),
{
    let mut indexed: usize = 0;
    let mut skipped: usize = 0;
    let mut i: usize = 0;
    while i < outcomes.len()
        invariant
            i <= outcomes.len(),
            indexed == indexed_count(outcomes@.take(i as int)),
            indexed + skipped == i,
        decreases outcomes.len() - i,
    {
        assert(outcomes@.take(i + 1).drop_last() =~= outcomes@.take(i as int));
        match outcomes[i] {
            FileOutcome::Indexed => {
                indexed += 1;
            },
            _ => {
                skipped += 1;
            },
        }
        i += 1;
    }
    assert(outcomes@.take(outcomes.len() as int) =~= outcomes@);
    IndexReport { indexed, skipped }
}

/// One more file that was indexed raises the count by one, and a file that
/// was skipped leaves it as it was.
pub proof fn lemma_indexed_count_step(outcomes: Seq<FileOutcome>, next: FileOutcome)
    ensures
        indexed_count(outcomes.push(next)) == indexed_count(outcomes) + if next
            == FileOutcome::Indexed {
            1nat
        } else {
            0nat
        },
{
    assert(outcomes.push(next).drop_last() =~= outcomes);
}

} // verus!
