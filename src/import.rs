use vstd::prelude::*;

use crate::db::{holds, insert_file_to_db, is_imported, unique_hashes, Ledger};
use crate::raw_photo::Photo;

verus! {

/// What was learnt of one discovered file before any decision: it could
/// not be read, it could not be decoded, or it gave this record.
pub enum Scan {
    Unreadable,
    Undecodable,
    Decoded(Photo),
}

/// The decision on a scanned file.
#[derive(PartialEq, Eq, Structural, Clone, Copy, Debug)]
pub enum Admission {
    /// It could not be read or decoded: nothing more is done.
    Failed,
    /// Its fingerprint is in the ledger: nothing more is done.
    Duplicate,
    /// It is new: write it into the archive if `write`, then record it in
    /// the ledger's store if `store`, and settle it.
    Place { write: bool, store: bool },
}

/// How writing a file into the archive went.
#[derive(PartialEq, Eq, Structural, Clone, Copy, Debug)]
pub enum WriteResult {
    NotRequested,
    Written,
    Failed,
}

/// How recording a file in the ledger's store went.
#[derive(PartialEq, Eq, Structural, Clone, Copy, Debug)]
pub enum StoreResult {
    NotRequested,
    Stored,
    /// The store refused it: the fingerprint was there already.
    Duplicate,
    Failed,
}

/// How the import of one file ended.
#[derive(PartialEq, Eq, Structural, Clone, Copy, Debug)]
pub enum FileOutcome {
    /// Placed and recorded, as far as requested.
    Imported,
    /// Its fingerprint was in the ledger already.
    Duplicate,
    /// It could not be read, decoded, written or recorded.
    Failed,
    /// Written into the archive, but the store did not record it.
    Untracked,
}

/// The counts of a batch.
#[derive(PartialEq, Eq, Structural, Clone, Copy, Debug)]
pub struct ImportSummary {
    pub imported: u64,
    pub duplicate: u64,
    pub failed: u64,
}

/// How many files a summary has counted.
pub open spec fn counted(s: ImportSummary) -> int {
    s.imported + s.duplicate + s.failed
}

/// The decision on `scan` against the ledger `l`.
pub open spec fn admission(l: Seq<Photo>, scan: Scan, move_files: bool, insert: bool) -> Admission {
    match scan {
        Scan::Decoded(p) => if holds(l, p.hash) {
            Admission::Duplicate
        } else {
            Admission::Place { write: move_files, store: insert }
        },
        _ => Admission::Failed,
    }
}

/// How the import of a placed file `p` ends, given what became of its
/// write and its store, against the ledger `l` as it is when it is settled.
pub open spec fn settlement(l: Seq<Photo>, p: Photo, write: WriteResult, store: StoreResult) -> FileOutcome {
    if write == WriteResult::Failed {
        FileOutcome::Failed
    } else if holds(l, p.hash) {
        FileOutcome::Duplicate
    } else {
        match store {
            StoreResult::Duplicate => FileOutcome::Duplicate,
            StoreResult::Failed => if write == WriteResult::Written {
                FileOutcome::Untracked
            } else {
                FileOutcome::Failed
            },
            _ => FileOutcome::Imported,
        }
    }
}

/// The ledger after a placed file is settled: it holds `p` where it was
/// imported.
pub open spec fn settled_ledger(l: Seq<Photo>, p: Photo, write: WriteResult, store: StoreResult) -> Seq<Photo> {
    if settlement(l, p, write, store) == FileOutcome::Imported {
        l.push(p)
    } else {
        l
    }
}

/// `s` with one more file counted under `outcome`.
pub open spec fn count_outcome(s: ImportSummary, outcome: FileOutcome) -> ImportSummary {
    match outcome {
        FileOutcome::Imported => ImportSummary { imported: (s.imported + 1) as u64, ..s },
        FileOutcome::Duplicate => ImportSummary { duplicate: (s.duplicate + 1) as u64, ..s },
        _ => ImportSummary { failed: (s.failed + 1) as u64, ..s },
    }
}

/// One import run: the ledger that decides what is new, what the caller
/// asked for, and the counts so far. In a dry run the ledger is the one the
/// run would leave.
pub struct ImportSession {
    ledger: Ledger,
    summary: ImportSummary,
    move_files: bool,
    insert: bool,
}

impl ImportSession {
    pub closed spec fn spec_ledger(&self) -> Seq<Photo> {
        self.ledger@
    }

    pub closed spec fn spec_summary(&self) -> ImportSummary {
        self.summary
    }

    pub closed spec fn spec_move_files(&self) -> bool {
        self.move_files
    }

    pub closed spec fn spec_insert(&self) -> bool {
        self.insert
    }

    pub closed spec fn wf(&self) -> bool {
        self.ledger.wf()
    }

    /// A run over `ledger` that writes files into the archive if
    /// `move_files` and records them in the store if `insert`.
    pub fn new(ledger: Ledger, move_files: bool, insert: bool) -> (r: ImportSession)
        requires
            ledger.wf(),
        ensures
            r.wf(),
            r.spec_ledger() == ledger@,
            r.spec_summary() == (ImportSummary { imported: 0, duplicate: 0, failed: 0 }),
            r.spec_move_files() == move_files,
            r.spec_insert() == insert,
    {
        ImportSession {
            ledger,
            summary: ImportSummary { imported: 0, duplicate: 0, failed: 0 },
            move_files,
            insert,
        }
    }

    fn count(&mut self, outcome: FileOutcome)
        requires
            counted(old(self).summary) < u64::MAX,
        ensures
            final(self).summary == count_outcome(old(self).summary, outcome),
            final(self).ledger == old(self).ledger,
            final(self).move_files == old(self).move_files,
            final(self).insert == old(self).insert,
    {
        match outcome {
            FileOutcome::Imported => self.summary.imported = self.summary.imported + 1,
            FileOutcome::Duplicate => self.summary.duplicate = self.summary.duplicate + 1,
            _ => self.summary.failed = self.summary.failed + 1,
        }
    }

    /// Decides on a scanned file. A file that failed, or whose fingerprint
    /// is in the ledger, is counted and done with; a new one is to be
    /// placed and then settled.
    pub fn decide(&mut self, scan: &Scan) -> (r: Admission)
        requires
            old(self).wf(),
            counted(old(self).spec_summary()) < u64::MAX,
        ensures
            final(self).wf(),
            r == admission(old(self).spec_ledger(), *scan, old(self).spec_move_files(), old(self).spec_insert()),
            final(self).spec_ledger() == old(self).spec_ledger(),
            final(self).spec_move_files() == old(self).spec_move_files(),
            final(self).spec_insert() == old(self).spec_insert(),
            final(self).spec_summary() == (match r {
                Admission::Failed => count_outcome(old(self).spec_summary(), FileOutcome::Failed),
                Admission::Duplicate => count_outcome(old(self).spec_summary(), FileOutcome::Duplicate),
                Admission::Place { .. } => old(self).spec_summary(),
            }),
    {
        match scan {
            Scan::Decoded(p) => {
                if is_imported(p.hash, &self.ledger) {
                    self.count(FileOutcome::Duplicate);
                    Admission::Duplicate
                } else {
                    Admission::Place { write: self.move_files, store: self.insert }
                }
            },
            _ => {
                self.count(FileOutcome::Failed);
                Admission::Failed
            },
        }
    }

    /// Settles a placed file `photo` once its write and its store are
    /// done: counts how it ended, and adds it to the ledger where it was
    /// imported. A file whose fingerprint another file of the run brought
    /// in meanwhile is a duplicate.
    pub fn settle(&mut self, photo: &Photo, write: WriteResult, store: StoreResult) -> (r: FileOutcome)
        requires
            old(self).wf(),
            counted(old(self).spec_summary()) < u64::MAX,
        ensures
            final(self).wf(),
            r == settlement(old(self).spec_ledger(), *photo, write, store),
            final(self).spec_ledger() == settled_ledger(old(self).spec_ledger(), *photo, write, store),
            final(self).spec_summary() == count_outcome(old(self).spec_summary(), r),
            final(self).spec_move_files() == old(self).spec_move_files(),
            final(self).spec_insert() == old(self).spec_insert(),
    {
        let outcome = if write == WriteResult::Failed {
            FileOutcome::Failed
        } else if is_imported(photo.hash, &self.ledger) {
            FileOutcome::Duplicate
        } else {
            match store {
                StoreResult::Duplicate => FileOutcome::Duplicate,
                StoreResult::Failed => if write == WriteResult::Written {
                    FileOutcome::Untracked
                } else {
                    FileOutcome::Failed
                },
                _ => FileOutcome::Imported,
            }
        };
        if outcome == FileOutcome::Imported {
            let _ = insert_file_to_db(photo, &mut self.ledger);
        }
        self.count(outcome);
        outcome
    }

    /// The counts so far.
    pub fn summary(&self) -> (r: ImportSummary)
        ensures
            r == self.spec_summary(),
    {
        self.summary
    }

    /// The ledger as the run has left it so far.
    pub fn ledger(&self) -> (r: &Ledger)
        requires
            self.wf(),
        ensures
            r.wf(),
            r@ == self.spec_ledger(),
    {
        &self.ledger
    }

    /// Ends the run, handing back its ledger.
    pub fn into_ledger(self) -> (r: Ledger)
        requires
            self.wf(),
        ensures
            r.wf(),
            r@ == self.spec_ledger(),
    {
        self.ledger
    }
}


/// The ledger after one file of a run in which every write and every store
/// that is asked for succeeds, and each file is settled before the next is
/// decided on.
pub open spec fn file_step(l: Seq<Photo>, scan: Scan) -> Seq<Photo> {
    match scan {
        Scan::Decoded(p) => match admission(l, scan, true, true) {
            Admission::Place { .. } => settled_ledger(l, p, WriteResult::Written, StoreResult::Stored),
            _ => l,
        },
        _ => l,
    }
}

/// The ledger after a whole run of that kind over `scans`, in order.
pub open spec fn import_run(l: Seq<Photo>, scans: Seq<Scan>) -> Seq<Photo>
    decreases scans.len(),
{
    if scans.len() == 0 {
        l
    } else {
        file_step(import_run(l, scans.drop_last()), scans.last())
    }
}

proof fn lemma_file_step(l: Seq<Photo>, scan: Scan)
    requires
        unique_hashes(l),
    ensures
        unique_hashes(file_step(l, scan)),
        forall|h: u128| holds(l, h) ==> holds(file_step(l, scan), h),
        scan is Decoded ==> holds(file_step(l, scan), scan->Decoded_0.hash),
        (scan is Decoded ==> holds(l, scan->Decoded_0.hash)) ==> file_step(l, scan) == l,
{
    let r = file_step(l, scan);
    if let Scan::Decoded(p) = scan {
        if !holds(l, p.hash) {
            assert(r == l.push(p));
            assert(r[l.len() as int].hash == p.hash);
            assert forall|h: u128| holds(l, h) implies holds(r, h) by {
                let i = choose|i: int| 0 <= i < l.len() && l[i].hash == h;
                assert(r[i].hash == h);
            }
            assert forall|i: int, j: int| 0 <= i < j < r.len() implies r[i].hash != r[j].hash by {
                if j == l.len() {
                    assert(l[i].hash == r[i].hash);
                }
            }
        }
    }
}

proof fn lemma_import_run(l: Seq<Photo>, scans: Seq<Scan>)
    requires
        unique_hashes(l),
    ensures
        unique_hashes(import_run(l, scans)),
        forall|h: u128| holds(l, h) ==> holds(import_run(l, scans), h),
        forall|i: int|
            0 <= i < scans.len() && (#[trigger] scans[i]) is Decoded ==> holds(
                import_run(l, scans),
                scans[i]->Decoded_0.hash,
            ),
    decreases scans.len(),
{
    if scans.len() > 0 {
        let prev = import_run(l, scans.drop_last());
        lemma_import_run(l, scans.drop_last());
        lemma_file_step(prev, scans.last());
        assert forall|i: int|
            0 <= i < scans.len() && (#[trigger] scans[i]) is Decoded implies holds(
                import_run(l, scans),
                scans[i]->Decoded_0.hash,
            ) by {
            if i < scans.len() - 1 {
                assert(scans.drop_last()[i] == scans[i]);
            }
        }
    }
}

proof fn lemma_import_run_settled(l: Seq<Photo>, scans: Seq<Scan>)
    requires
        unique_hashes(l),
        forall|i: int|
            0 <= i < scans.len() && (#[trigger] scans[i]) is Decoded ==> holds(l, scans[i]->Decoded_0.hash),
    ensures
        import_run(l, scans) == l,
    decreases scans.len(),
{
    if scans.len() > 0 {
        assert forall|i: int|
            0 <= i < scans.drop_last().len() && (#[trigger] scans.drop_last()[i]) is Decoded implies holds(
                l,
                scans.drop_last()[i]->Decoded_0.hash,
            ) by {
            assert(scans.drop_last()[i] == scans[i]);
        }
        lemma_import_run_settled(l, scans.drop_last());
        let last = scans.last();
        assert(scans[scans.len() - 1] == last);
        lemma_file_step(l, last);
    }
}

/// Importing keeps one record per fingerprint: after a run over any files,
/// in which every requested write and store succeeds, the ledger holds the
/// fingerprint of every decoded file exactly once, so two files with
/// identical samples leave one record between them.
pub proof fn lemma_import_uniqueness(l: Seq<Photo>, scans: Seq<Scan>)
    requires
        unique_hashes(l),
    ensures
        unique_hashes(import_run(l, scans)),
        forall|i: int|
            0 <= i < scans.len() && (#[trigger] scans[i]) is Decoded ==> holds(
                import_run(l, scans),
                scans[i]->Decoded_0.hash,
            ),
{
    lemma_import_run(l, scans);
}

/// Importing twice is importing once: a second run over the same files
/// places no file, so it writes nothing and records nothing, and leaves the
/// ledger as the first run left it.
pub proof fn lemma_import_idempotent(l: Seq<Photo>, scans: Seq<Scan>, move_files: bool, insert: bool)
    requires
        unique_hashes(l),
    ensures
        import_run(import_run(l, scans), scans) == import_run(l, scans),
        forall|i: int|
            0 <= i < scans.len() ==> !(admission(
                import_run(l, scans),
                #[trigger] scans[i],
                move_files,
                insert,
            ) is Place),
{
    lemma_import_run(l, scans);
    lemma_import_run_settled(import_run(l, scans), scans);
}

} // verus!
