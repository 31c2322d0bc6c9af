use vstd::prelude::*;

use crate::db::{
    after_inserts, lemma_holds_concat, lemma_holds_push, fingerprints, get_photos, holds, inserted, insert_file_to_db, is_imported,
    unique_hashes, Ledger, LedgerError,
};
use crate::raw_photo::Photo;
use crate::util::{build_final_path, canonical_path, file_name};

verus! {

/// The records of `source` whose fingerprint `target` lacks, in the order
/// of `source`.
pub open spec fn missing(source: Seq<Photo>, target: Seq<Photo>) -> Seq<Photo>
    decreases source.len(),
{
    if source.len() == 0 {
        Seq::empty()
    } else if holds(target, source.last().hash) {
        missing(source.drop_last(), target)
    } else {
        missing(source.drop_last(), target).push(source.last())
    }
}

/// The records of the ledger `h1` whose fingerprint the ledger `h2` lacks:
/// what a sync from `h1` to `h2` has to bring over. Neither ledger changes.
pub fn h2_missing_h1(h1: &Ledger, h2: &Ledger) -> (r: Vec<Photo>)
    requires
        h1.wf(),
        h2.wf(),
    ensures
        r@ == missing(h1@, h2@),
{
    let source = get_photos(h1);
    let mut r: Vec<Photo> = Vec::new();
    let mut i: usize = 0;
    while i < source.len()
        invariant
            i <= source@.len(),
            source@ == h1@,
            h2.wf(),
            r@ == missing(source@.subrange(0, i as int), h2@),
        decreases source@.len() - i,
    {
        assert(source@.subrange(0, i + 1).drop_last() =~= source@.subrange(0, i as int));
        if !is_imported(source[i].hash, h2) {
            r.push(source[i].clone());
        }
        i = i + 1;
    }
    assert(source@.subrange(0, source@.len() as int) =~= source@);
    r
}

/// `n` is the record that `r` gets in the archive rooted at `root`: the
/// same photo, kept at its canonical place there, with `r`'s place in its
/// own archive as where it was found.
pub open spec fn synced_from(n: Photo, r: Photo, root: Seq<char>) -> bool {
    &&& n.hash == r.hash
    &&& n.year == r.year
    &&& n.month == r.month
    &&& n.model@ == r.model@
    &&& n.og_path@ == r.db_path@
    &&& n.db_path@ == canonical_path(root, r.model@, r.year as int, r.month as int, file_name(r.db_path@))
}

/// The record that `photo`, kept in another archive, gets in the archive
/// rooted at `target_root`.
pub fn sync_target(photo: &Photo, target_root: &String) -> (r: Photo)
    ensures
        synced_from(r, *photo, target_root@),
{
    let db_path = build_final_path(target_root, &photo.model, &photo.year, &photo.month, &photo.db_path);
    Photo {
        hash: photo.hash,
        year: photo.year,
        month: photo.month,
        model: photo.model.clone(),
        db_path,
        og_path: photo.db_path.clone(),
    }
}

/// How bringing one file over went.
#[derive(PartialEq, Eq, Structural, Clone, Copy, Debug)]
pub enum CopyResult {
    /// A file stood at the destination already, so none was copied.
    AlreadyPresent,
    /// A dry run: nothing was copied.
    NotApplied,
    /// The whole file was copied to the destination.
    Copied,
    /// The copy failed.
    Failed,
}

/// How the sync of one record ended.
#[derive(PartialEq, Eq, Structural, Clone, Copy, Debug)]
pub enum SyncOutcome {
    AlreadyPresent,
    WouldCopy,
    Synced,
    CopyFailed,
    /// The target ledger had the fingerprint already.
    Duplicate,
}

/// How the sync of the record `n` ends, given its copy, against the target
/// ledger `t`.
pub open spec fn sync_outcome(t: Seq<Photo>, n: Photo, copy: CopyResult) -> SyncOutcome {
    match copy {
        CopyResult::AlreadyPresent => SyncOutcome::AlreadyPresent,
        CopyResult::NotApplied => SyncOutcome::WouldCopy,
        CopyResult::Failed => SyncOutcome::CopyFailed,
        CopyResult::Copied => if holds(t, n.hash) {
            SyncOutcome::Duplicate
        } else {
            SyncOutcome::Synced
        },
    }
}

/// Settles the sync of the record `n` once its file was dealt with: the
/// target ledger gets `n` only where its whole file was copied.
pub fn record_sync(target: &mut Ledger, n: &Photo, copy: CopyResult) -> (r: SyncOutcome)
    requires
        old(target).wf(),
    ensures
        final(target).wf(),
        r == sync_outcome(old(target)@, *n, copy),
        final(target)@ == (if copy == CopyResult::Copied {
            inserted(old(target)@, *n)
        } else {
            old(target)@
        }),
{
    match copy {
        CopyResult::AlreadyPresent => SyncOutcome::AlreadyPresent,
        CopyResult::NotApplied => SyncOutcome::WouldCopy,
        CopyResult::Failed => SyncOutcome::CopyFailed,
        CopyResult::Copied => match insert_file_to_db(n, target) {
            Ok(()) => SyncOutcome::Synced,
            Err(_) => SyncOutcome::Duplicate,
        },
    }
}


proof fn lemma_missing(s: Seq<Photo>, t: Seq<Photo>)
    ensures
        forall|h: u128| holds(missing(s, t), h) <==> (holds(s, h) && !holds(t, h)),
        unique_hashes(s) ==> unique_hashes(missing(s, t)),
    decreases s.len(),
{
    if s.len() > 0 {
        let d = s.drop_last();
        let x = s.last();
        lemma_missing(d, t);
        assert(d.push(x) =~= s);
        assert forall|h: u128| holds(missing(s, t), h) <==> (holds(s, h) && !holds(t, h)) by {
            lemma_holds_push(d, x, h);
            lemma_holds_push(missing(d, t), x, h);
        }
        if unique_hashes(s) && !holds(t, x.hash) {
            let m = missing(d, t);
            assert(unique_hashes(d)) by {
                assert forall|i: int, j: int| 0 <= i < j < d.len() implies d[i].hash != d[j].hash by {
                    assert(d[i] == s[i] && d[j] == s[j]);
                }
            }
            assert(!holds(d, x.hash)) by {
                if holds(d, x.hash) {
                    let i = choose|i: int| 0 <= i < d.len() && d[i].hash == x.hash;
                    assert(s[i].hash == s[s.len() - 1].hash);
                }
            }
            assert(!holds(m, x.hash));
            assert forall|i: int, j: int| 0 <= i < j < m.push(x).len() implies m.push(x)[i].hash != m.push(x)[j].hash by {
                if j == m.len() {
                    assert(m.push(x)[i] == m[i]);
                }
            }
        } else if unique_hashes(s) {
            assert(unique_hashes(d)) by {
                assert forall|i: int, j: int| 0 <= i < j < d.len() implies d[i].hash != d[j].hash by {
                    assert(d[i] == s[i] && d[j] == s[j]);
                }
            }
        }
    }
}

proof fn lemma_append_disjoint(t: Seq<Photo>, news: Seq<Photo>)
    requires
        unique_hashes(t),
        unique_hashes(news),
        forall|i: int| 0 <= i < news.len() ==> !holds(t, #[trigger] news[i].hash),
    ensures
        after_inserts(t, news) == t + news,
        unique_hashes(t + news),
    decreases news.len(),
{
    if news.len() == 0 {
        assert(t + news =~= t);
    } else {
        let d = news.drop_last();
        let x = news.last();
        assert forall|i: int, j: int| 0 <= i < j < d.len() implies d[i].hash != d[j].hash by {
            assert(d[i] == news[i] && d[j] == news[j]);
        }
        assert forall|i: int| 0 <= i < d.len() implies !holds(t, #[trigger] d[i].hash) by {
            assert(d[i] == news[i]);
        }
        lemma_append_disjoint(t, d);
        assert(!holds(t, x.hash)) by {
            assert(news[news.len() - 1] == x);
        }
        assert(!holds(d, x.hash)) by {
            if holds(d, x.hash) {
                let i = choose|i: int| 0 <= i < d.len() && d[i].hash == x.hash;
                assert(news[i].hash == news[news.len() - 1].hash);
            }
        }
        lemma_holds_concat(t, d, x.hash);
        assert((t + d).push(x) =~= t + news);
        let r = t + news;
        assert forall|i: int, j: int| 0 <= i < j < r.len() implies r[i].hash != r[j].hash by {
            if j == r.len() - 1 {
                assert(r[i] == (t + d)[i]);
                if i < t.len() {
                    assert(t[i].hash == r[i].hash);
                } else {
                    assert(d[i - t.len()].hash == r[i].hash);
                }
            } else {
                assert(r[i] == (t + d)[i] && r[j] == (t + d)[j]);
            }
        }
    }
}

proof fn lemma_synced_records(s: Seq<Photo>, t: Seq<Photo>, news: Seq<Photo>, root: Seq<char>)
    requires
        unique_hashes(s),
        unique_hashes(t),
        news.len() == missing(s, t).len(),
        forall|i: int| 0 <= i < news.len() ==> synced_from(#[trigger] news[i], missing(s, t)[i], root),
    ensures
        after_inserts(t, news) == t + news,
        forall|h: u128| holds(t + news, h) <==> (holds(s, h) || holds(t, h)),
{
    let m = missing(s, t);
    lemma_missing(s, t);
    assert forall|i: int, j: int| 0 <= i < j < news.len() implies news[i].hash != news[j].hash by {
        assert(synced_from(news[i], m[i], root) && synced_from(news[j], m[j], root));
    }
    assert forall|i: int| 0 <= i < news.len() implies !holds(t, #[trigger] news[i].hash) by {
        assert(synced_from(news[i], m[i], root));
        assert(holds(m, m[i].hash));
    }
    lemma_append_disjoint(t, news);
    assert forall|h: u128| holds(t + news, h) <==> (holds(s, h) || holds(t, h)) by {
        lemma_holds_concat(t, news, h);
        if holds(news, h) {
            let i = choose|i: int| 0 <= i < news.len() && news[i].hash == h;
            assert(synced_from(news[i], m[i], root));
            assert(holds(m, h));
        }
        if holds(s, h) && !holds(t, h) {
            assert(holds(m, h));
            let i = choose|i: int| 0 <= i < m.len() && m[i].hash == h;
            assert(synced_from(news[i], m[i], root));
            assert(holds(news, h));
        }
    }
}

/// Sync brings every fingerprint over. Where each missing record's file is
/// copied whole and its record `news[i]` then added to the target, the
/// target holds its own records followed by exactly those new ones, each
/// kept where its file was copied; its fingerprints are those of source and
/// target together, and those of the source where the target was empty.
pub proof fn lemma_sync_complete(s: Seq<Photo>, t: Seq<Photo>, news: Seq<Photo>, root: Seq<char>)
    requires
        unique_hashes(s),
        unique_hashes(t),
        news.len() == missing(s, t).len(),
        forall|i: int| 0 <= i < news.len() ==> synced_from(#[trigger] news[i], missing(s, t)[i], root),
    ensures
        after_inserts(t, news) == t + news,
        fingerprints(after_inserts(t, news)) == fingerprints(s).union(fingerprints(t)),
        t.len() == 0 ==> fingerprints(after_inserts(t, news)) == fingerprints(s),
{
    lemma_synced_records(s, t, news, root);
    assert(fingerprints(after_inserts(t, news)) =~= fingerprints(s).union(fingerprints(t)));
    if t.len() == 0 {
        assert(fingerprints(t) =~= Set::<u128>::empty());
        assert(fingerprints(after_inserts(t, news)) =~= fingerprints(s));
    }
}

/// Syncing again brings nothing: after a sync in which every missing
/// record's file was copied and its record added, no record of the source
/// is missing from the target, so a second sync copies and adds nothing.
pub proof fn lemma_sync_idempotent(s: Seq<Photo>, t: Seq<Photo>, news: Seq<Photo>, root: Seq<char>)
    requires
        unique_hashes(s),
        unique_hashes(t),
        news.len() == missing(s, t).len(),
        forall|i: int| 0 <= i < news.len() ==> synced_from(#[trigger] news[i], missing(s, t)[i], root),
    ensures
        missing(s, after_inserts(t, news)).len() == 0,
{
    lemma_synced_records(s, t, news, root);
    let t2 = after_inserts(t, news);
    lemma_missing(s, t2);
    let m2 = missing(s, t2);
    if m2.len() > 0 {
        let h = m2[0].hash;
        assert(holds(m2, h));
        assert(holds(s, h));
        assert(holds(t + news, h));
        assert(holds(t2, h));
    }
}

} // verus!
