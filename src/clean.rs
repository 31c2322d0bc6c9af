use vstd::prelude::*;

use crate::db::{get_photos, Ledger};
use crate::raw_photo::Photo;

verus! {

/// `s` begins with `prefix`.
pub open spec fn has_prefix(s: Seq<char>, prefix: Seq<char>) -> bool {
    prefix.len() <= s.len() && s.subrange(0, prefix.len() as int) == prefix
}

/// The records of `s` found under `prefix`, in order.
pub open spec fn found_under(s: Seq<Photo>, prefix: Seq<char>) -> Seq<Photo>
    decreases s.len(),
{
    if s.len() == 0 {
        Seq::empty()
    } else if has_prefix(s.last().og_path@, prefix) {
        found_under(s.drop_last(), prefix).push(s.last())
    } else {
        found_under(s.drop_last(), prefix)
    }
}

/// Whether `s` begins with `prefix`.
pub fn starts_with(s: &str, prefix: &str) -> (r: bool)
    ensures
        r == has_prefix(s@, prefix@),
{
    let n = s.unicode_len();
    let m = prefix.unicode_len();
    if m > n {
        return false;
    }
    let mut i: usize = 0;
    while i < m
        invariant
            m <= n,
            n == s@.len(),
            m == prefix@.len(),
            i <= m,
            forall|k: int| 0 <= k < i ==> s@[k] == prefix@[k],
        decreases m - i,
    {
        if s.get_char(i) != prefix.get_char(i) {
            assert(s@.subrange(0, m as int)[i as int] != prefix@[i as int]);
            return false;
        }
        i = i + 1;
    }
    assert(s@.subrange(0, m as int) =~= prefix@);
    true
}

/// The records of the ledger whose original path begins with `prefix`:
/// those whose source copy a clean under `prefix` deals with.
pub fn select_for_clean(ledger: &Ledger, prefix: &String) -> (r: Vec<Photo>)
    requires
        ledger.wf(),
    ensures
        r@ == found_under(ledger@, prefix@),
{
    let rows = get_photos(ledger);
    let mut r: Vec<Photo> = Vec::new();
    let mut i: usize = 0;
    while i < rows.len()
        invariant
            i <= rows@.len(),
            rows@ == ledger@,
            r@ == found_under(rows@.subrange(0, i as int), prefix@),
        decreases rows@.len() - i,
    {
        assert(rows@.subrange(0, i + 1).drop_last() =~= rows@.subrange(0, i as int));
        if starts_with(rows[i].og_path.as_str(), prefix.as_str()) {
            r.push(rows[i].clone());
        }
        i = i + 1;
    }
    assert(rows@.subrange(0, rows@.len() as int) =~= rows@);
    r
}

/// What a clean does with the source copy of one record.
#[derive(PartialEq, Eq, Structural, Clone, Copy, Debug)]
pub enum CleanAction {
    /// The archived copy is not there: the source copy is kept.
    ArchiveMissing,
    /// The source copy is the archived copy itself: it is kept.
    SameFile,
    /// The source copy is gone already.
    AlreadyDeleted,
    /// The source copy is deleted.
    Delete,
    /// A dry run: the source copy would be deleted.
    WouldDelete,
}

/// What to do with the source copy of a tracked photo, given whether its
/// archived copy and its source copy exist, and whether deletion was asked
/// for. A source copy is deleted only where deletion was asked for and the
/// photo is kept elsewhere, in the archive.
pub fn clean_action(photo: &Photo, archived_exists: bool, source_exists: bool, delete: bool) -> (r: CleanAction)
    ensures
        r == (if !archived_exists {
            CleanAction::ArchiveMissing
        } else if photo.og_path@ == photo.db_path@ {
            CleanAction::SameFile
        } else if !source_exists {
            CleanAction::AlreadyDeleted
        } else if delete {
            CleanAction::Delete
        } else {
            CleanAction::WouldDelete
        }),
{
    if !archived_exists {
        CleanAction::ArchiveMissing
    } else if photo.og_path == photo.db_path {
        CleanAction::SameFile
    } else if !source_exists {
        CleanAction::AlreadyDeleted
    } else if delete {
        CleanAction::Delete
    } else {
        CleanAction::WouldDelete
    }
}

} // verus!
