use photodb::db::{get_photos, insert_file_to_db, is_imported, Ledger};
use photodb::sync::{h2_missing_h1, record_sync, sync_target, CopyResult, SyncOutcome};
use photodb::raw_photo::Photo;

fn photo(hash: u128, name: &str) -> Photo {
    Photo {
        hash,
        year: 2020,
        month: 3,
        model: "Cam".to_string(),
        db_path: format!("src_root/2020/3/Cam/{}", name),
        og_path: format!("/card/{}", name),
    }
}

fn ledger(photos: &[Photo]) -> Ledger {
    let mut l = Ledger::new();
    for p in photos {
        insert_file_to_db(p, &mut l).unwrap();
    }
    l
}

#[test]
fn missing_is_keyed_by_fingerprint() {
    let s = ledger(&[photo(1, "a.nef"), photo(2, "b.nef"), photo(3, "c.nef")]);
    let mut other = photo(2, "elsewhere.nef");
    other.db_path = "t/x.nef".to_string();
    let t = ledger(&[other]);
    let m: Vec<u128> = h2_missing_h1(&s, &t).iter().map(|p| p.hash).collect();
    assert_eq!(m, vec![1, 3]);
    assert_eq!(s.len(), 3);
}

#[test]
fn target_record() {
    let n = sync_target(&photo(5, "a.nef"), &"tgt".to_string());
    assert_eq!(n.hash, 5);
    assert_eq!(n.og_path, "src_root/2020/3/Cam/a.nef");
    assert_eq!(n.db_path, "tgt/2020/3/Cam/a.nef");
    assert_eq!((n.year, n.month), (2020, 3));
    assert_eq!(n.model, "Cam");
}

#[test]
fn sync_into_empty_target_brings_every_fingerprint() {
    let s = ledger(&[photo(1, "a.nef"), photo(2, "b.nef")]);
    let mut t = Ledger::new();
    for r in h2_missing_h1(&s, &t) {
        let n = sync_target(&r, &"tgt".to_string());
        assert_eq!(record_sync(&mut t, &n, CopyResult::Copied), SyncOutcome::Synced);
    }
    let mut got: Vec<u128> = get_photos(&t).iter().map(|p| p.hash).collect();
    got.sort();
    assert_eq!(got, vec![1, 2]);
    assert!(get_photos(&t).iter().all(|p| p.db_path.starts_with("tgt/")));
}

#[test]
fn second_sync_has_nothing_to_do() {
    let s = ledger(&[photo(1, "a.nef"), photo(2, "b.nef")]);
    let mut t = Ledger::new();
    for r in h2_missing_h1(&s, &t) {
        record_sync(&mut t, &sync_target(&r, &"tgt".to_string()), CopyResult::Copied);
    }
    assert!(h2_missing_h1(&s, &t).is_empty());
}

#[test]
fn records_are_added_only_after_a_whole_copy() {
    let mut t = Ledger::new();
    let n = sync_target(&photo(9, "z.nef"), &"tgt".to_string());
    assert_eq!(record_sync(&mut t, &n, CopyResult::AlreadyPresent), SyncOutcome::AlreadyPresent);
    assert_eq!(record_sync(&mut t, &n, CopyResult::NotApplied), SyncOutcome::WouldCopy);
    assert_eq!(record_sync(&mut t, &n, CopyResult::Failed), SyncOutcome::CopyFailed);
    assert_eq!(t.len(), 0);
    assert_eq!(record_sync(&mut t, &n, CopyResult::Copied), SyncOutcome::Synced);
    assert_eq!(record_sync(&mut t, &n, CopyResult::Copied), SyncOutcome::Duplicate);
    assert!(is_imported(9, &t));
    assert_eq!(t.len(), 1);
}
