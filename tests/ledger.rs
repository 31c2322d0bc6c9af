use photodb::db::{get_photos, insert_file_to_db, is_imported, Ledger, LedgerError};
use photodb::photodb_error::PhotoDBError;
use photodb::raw_photo::Photo;

fn photo(hash: u128, og: &str) -> Photo {
    Photo { hash, year: 2020, month: 1, model: "m".to_string(), db_path: format!("r/2020/1/m/{}", og), og_path: og.to_string() }
}

#[test]
fn empty_ledger() {
    let l = Ledger::new();
    assert_eq!(l.len(), 0);
    assert!(!is_imported(1, &l));
    assert!(get_photos(&l).is_empty());
}

#[test]
fn insert_then_contains() {
    let mut l = Ledger::new();
    assert_eq!(insert_file_to_db(&photo(7, "a.nef"), &mut l), Ok(()));
    assert!(is_imported(7, &l));
    assert!(!is_imported(8, &l));
    assert_eq!(l.len(), 1);
}

#[test]
fn duplicate_insert_is_refused() {
    let mut l = Ledger::new();
    insert_file_to_db(&photo(7, "a.nef"), &mut l).unwrap();
    assert_eq!(insert_file_to_db(&photo(7, "b.nef"), &mut l), Err(LedgerError::Duplicate));
    assert_eq!(l.len(), 1);
    assert_eq!(get_photos(&l)[0].og_path, "a.nef");
}

#[test]
fn rows_load_first_wins() {
    let rows = vec![photo(1, "a"), photo(2, "b"), photo(1, "c"), photo(3, "d")];
    let l = Ledger::from_rows(&rows);
    let got: Vec<(u128, String)> = get_photos(&l).iter().map(|p| (p.hash, p.og_path.clone())).collect();
    assert_eq!(got, vec![(1, "a".to_string()), (2, "b".to_string()), (3, "d".to_string())]);
}

#[test]
fn large_fingerprints() {
    let mut l = Ledger::new();
    insert_file_to_db(&photo(u128::MAX, "a"), &mut l).unwrap();
    insert_file_to_db(&photo(0, "b"), &mut l).unwrap();
    assert!(is_imported(u128::MAX, &l));
    assert!(is_imported(0, &l));
}

#[test]
fn error_line() {
    let e = PhotoDBError::new("libraw_unpack failed", &"/in/x.nef".to_string());
    assert_eq!(e.to_string(), "Error: /in/x.nef -> libraw_unpack failed");
    assert_eq!(e.description(), "libraw_unpack failed");
    assert_eq!(e.path(), "/in/x.nef");
}
