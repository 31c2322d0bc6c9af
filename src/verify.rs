use vstd::prelude::*;

use crate::db::{get_photos, Ledger};
use crate::raw_photo::{fingerprint_of, get_hash, Photo};

verus! {

/// What was found at a record's archive path.
pub enum FileCheck {
    /// No file is there; nothing was read or decoded.
    Missing,
    Unreadable,
    Undecodable,
    /// The file decoded to these samples.
    Decoded(Vec<u16>),
}

/// The verdict on one record.
#[derive(PartialEq, Eq, Structural, Clone, Copy, Debug)]
pub enum VerifyReport {
    Missing,
    Unreadable,
    Undecodable,
    /// The file's fingerprint is the stored one.
    Verified(u128),
    /// The file's fingerprint `found` is not the stored one.
    Mismatch { stored: u128, found: u128 },
}

/// The verdict on a record whose stored fingerprint is `stored`, given
/// what was found at its archive path.
pub open spec fn verdict(stored: u128, check: FileCheck) -> VerifyReport {
    match check {
        FileCheck::Missing => VerifyReport::Missing,
        FileCheck::Unreadable => VerifyReport::Unreadable,
        FileCheck::Undecodable => VerifyReport::Undecodable,
        FileCheck::Decoded(samples) => if fingerprint_of(samples@) == stored {
            VerifyReport::Verified(stored)
        } else {
            VerifyReport::Mismatch { stored, found: fingerprint_of(samples@) }
        },
    }
}

/// Checks the record `photo` against what was found at its archive path:
/// the fingerprint of the decoded samples is taken anew and compared with
/// the stored one; a mismatch names both.
pub fn verify_photo(photo: &Photo, check: &FileCheck) -> (r: VerifyReport)
    ensures
        r == verdict(photo.hash, *check),
{
    match check {
        FileCheck::Missing => VerifyReport::Missing,
        FileCheck::Unreadable => VerifyReport::Unreadable,
        FileCheck::Undecodable => VerifyReport::Undecodable,
        FileCheck::Decoded(samples) => {
            let found = get_hash(samples);
            if found == photo.hash {
                VerifyReport::Verified(found)
            } else {
                VerifyReport::Mismatch { stored: photo.hash, found }
            }
        },
    }
}

/// A file whose pixels changed after import is caught: where the samples
/// now decoded have a fingerprint other than the stored one, the verdict is
/// a mismatch naming both; where the file is gone, the verdict is that it
/// is missing.
pub proof fn lemma_verification_detects_corruption(stored: u128, check: FileCheck)
    ensures
        check is Decoded && fingerprint_of(check->Decoded_0@) != stored ==> verdict(stored, check)
            == (VerifyReport::Mismatch { stored, found: fingerprint_of(check->Decoded_0@) }),
        check is Missing ==> verdict(stored, check) == VerifyReport::Missing,
{
}


/// Some record of `s` is kept at `path`.
pub open spec fn is_tracked(s: Seq<Photo>, path: Seq<char>) -> bool {
    exists|i: int| 0 <= i < s.len() && s[i].db_path@ == path
}

/// The paths of `files` at which no record of `s` is kept, in order.
pub open spec fn untracked(s: Seq<Photo>, files: Seq<String>) -> Seq<String>
    decreases files.len(),
{
    if files.len() == 0 {
        Seq::empty()
    } else if is_tracked(s, files.last()@) {
        untracked(s, files.drop_last())
    } else {
        untracked(s, files.drop_last()).push(files.last())
    }
}

fn kept_at(rows: &Vec<Photo>, path: &String) -> (r: bool)
    ensures
        r == is_tracked(rows@, path@),
{
    let mut i: usize = 0;
    while i < rows.len()
        invariant
            i <= rows@.len(),
            forall|k: int| 0 <= k < i ==> rows@[k].db_path@ != path@,
        decreases rows@.len() - i,
    {
        if rows[i].db_path == *path {
            return true;
        }
        i = i + 1;
    }
    false
}

/// The files, found in an archive, that no record of its ledger keeps.
pub fn untracked_files(ledger: &Ledger, files: &Vec<String>) -> (r: Vec<String>)
    requires
        ledger.wf(),
    ensures
        r@ == untracked(ledger@, files@),
{
    let rows = get_photos(ledger);
    let mut r: Vec<String> = Vec::new();
    let mut i: usize = 0;
    while i < files.len()
        invariant
            i <= files@.len(),
            rows@ == ledger@,
            r@ == untracked(rows@, files@.subrange(0, i as int)),
        decreases files@.len() - i,
    {
        assert(files@.subrange(0, i + 1).drop_last() =~= files@.subrange(0, i as int));
        if !kept_at(rows, &files[i]) {
            r.push(files[i].clone());
        }
        i = i + 1;
    }
    assert(files@.subrange(0, files@.len() as int) =~= files@);
    r
}

} // verus!
