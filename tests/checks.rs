use photodb::clean::{clean_action, select_for_clean, starts_with, CleanAction};
use photodb::db::{insert_file_to_db, Ledger};
use photodb::raw_photo::{get_hash, Photo};
use photodb::verify::{untracked_files, verify_photo, FileCheck, VerifyReport};

fn photo(hash: u128, og: &str, db: &str) -> Photo {
    Photo { hash, year: 2020, month: 3, model: "Cam".to_string(), db_path: db.to_string(), og_path: og.to_string() }
}

#[test]
fn verified_when_fingerprints_agree() {
    let samples = vec![1u16, 2, 3];
    let h = get_hash(&samples);
    let p = photo(h, "/in/a.nef", "r/a.nef");
    assert_eq!(verify_photo(&p, &FileCheck::Decoded(samples)), VerifyReport::Verified(h));
}

#[test]
fn altered_pixels_are_a_mismatch() {
    let h = get_hash(&vec![1u16, 2, 3]);
    let p = photo(h, "/in/a.nef", "r/a.nef");
    let altered = vec![1u16, 2, 4];
    let found = get_hash(&altered);
    assert_eq!(verify_photo(&p, &FileCheck::Decoded(altered)), VerifyReport::Mismatch { stored: h, found });
}

#[test]
fn deleted_file_is_missing() {
    let p = photo(5, "/in/a.nef", "r/a.nef");
    assert_eq!(verify_photo(&p, &FileCheck::Missing), VerifyReport::Missing);
    assert_eq!(verify_photo(&p, &FileCheck::Unreadable), VerifyReport::Unreadable);
    assert_eq!(verify_photo(&p, &FileCheck::Undecodable), VerifyReport::Undecodable);
}

#[test]
fn untracked_archive_files() {
    let mut l = Ledger::new();
    insert_file_to_db(&photo(1, "/in/a.nef", "r/2020/3/Cam/a.nef"), &mut l).unwrap();
    let files = vec!["r/2020/3/Cam/a.nef".to_string(), "r/2020/3/Cam/b.nef".to_string()];
    assert_eq!(untracked_files(&l, &files), vec!["r/2020/3/Cam/b.nef".to_string()]);
}

#[test]
fn prefixes() {
    assert!(starts_with("/card/DCIM/a.nef", "/card/"));
    assert!(starts_with("abc", ""));
    assert!(!starts_with("/car", "/card"));
    assert!(!starts_with("/other/a.nef", "/card"));
}

#[test]
fn clean_selects_by_original_path() {
    let mut l = Ledger::new();
    insert_file_to_db(&photo(1, "/card/a.nef", "r/a.nef"), &mut l).unwrap();
    insert_file_to_db(&photo(2, "/disk/b.nef", "r/b.nef"), &mut l).unwrap();
    insert_file_to_db(&photo(3, "/card/sub/c.nef", "r/c.nef"), &mut l).unwrap();
    let hashes: Vec<u128> = select_for_clean(&l, &"/card/".to_string()).iter().map(|p| p.hash).collect();
    assert_eq!(hashes, vec![1, 3]);
}

#[test]
fn clean_actions() {
    let p = photo(1, "/card/a.nef", "r/a.nef");
    assert_eq!(clean_action(&p, false, true, true), CleanAction::ArchiveMissing);
    assert_eq!(clean_action(&p, true, false, true), CleanAction::AlreadyDeleted);
    assert_eq!(clean_action(&p, true, true, true), CleanAction::Delete);
    assert_eq!(clean_action(&p, true, true, false), CleanAction::WouldDelete);
    let same = photo(1, "r/a.nef", "r/a.nef");
    assert_eq!(clean_action(&same, true, true, true), CleanAction::SameFile);
}
