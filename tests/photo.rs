use photodb::raw_photo::{get_hash, normalize_model, ExifTags, Photo, SEED};
use xxhash_rust::xxh3::{xxh3_128_with_seed, Xxh3};

fn s(x: &str) -> String {
    x.to_string()
}

fn tags(model: Option<&str>, dates: &[&str]) -> ExifTags {
    ExifTags { model: model.map(s), dates: dates.iter().map(|d| s(d)).collect() }
}

#[test]
fn fingerprint_is_deterministic() {
    let a: Vec<u16> = vec![1, 2, 3, 65535, 0, 4096];
    let b = a.clone();
    assert_eq!(get_hash(&a), get_hash(&a));
    assert_eq!(get_hash(&a), get_hash(&b));
}

#[test]
fn fingerprint_depends_on_samples() {
    assert_ne!(get_hash(&vec![1, 2, 3]), get_hash(&vec![1, 2, 4]));
    assert_ne!(get_hash(&vec![1, 2, 3]), get_hash(&vec![3, 2, 1]));
    assert_ne!(get_hash(&vec![0x0102]), get_hash(&vec![0x0201]));
}

#[test]
fn fingerprint_is_xxh3_of_little_endian_samples() {
    let samples: Vec<u16> = vec![0x0102, 0xfffe, 7];
    let bytes: Vec<u8> = vec![0x02, 0x01, 0xfe, 0xff, 7, 0];
    assert_eq!(get_hash(&samples), xxh3_128_with_seed(&bytes, 0xdeadbeef));
    assert_eq!(SEED, 0xdeadbeef);
}

#[test]
fn fingerprint_matches_streaming_digest() {
    let samples: Vec<u16> = (0..5000u32).map(|i| (i * 7919 % 65536) as u16).collect();
    let mut xxh = Xxh3::with_seed(0xdeadbeef);
    for x in samples.iter() {
        xxh.update(&x.to_le_bytes());
    }
    assert_eq!(get_hash(&samples), xxh.digest128());
}

#[test]
fn fingerprint_of_empty_grid() {
    assert_eq!(get_hash(&vec![]), xxh3_128_with_seed(&[], 0xdeadbeef));
}

#[test]
fn model_normalization() {
    assert_eq!(normalize_model("\"Canon, EOS 5D\"  "), "Canon EOS 5D");
    assert_eq!(normalize_model("   "), "");
    assert_eq!(normalize_model("\u{a0}Nikon\t\n"), "Nikon");
    assert_eq!(normalize_model("\",\""), "");
    assert_eq!(normalize_model("ILCE-7M3"), "ILCE-7M3");
}

#[test]
fn photo_from_metadata() {
    let p = Photo::new(
        &vec![10, 20, 30],
        &s("Nikon"),
        &tags(Some("\"NIKON D850\""), &["2018:11:03 12:00:00"]),
        &s("/card/DCIM/DSC_0001.NEF"),
        &s("root"),
    );
    assert_eq!(p.hash, get_hash(&vec![10, 20, 30]));
    assert_eq!(p.model, "NIKON D850");
    assert_eq!((p.year, p.month), (2018, 11));
    assert_eq!(p.db_path, "root/2018/11/NIKON D850/DSC_0001.NEF");
    assert_eq!(p.og_path, "/card/DCIM/DSC_0001.NEF");
}

#[test]
fn photo_without_metadata_uses_make_and_unknown_date() {
    let p = Photo::new(&vec![1], &s(" Canon "), &tags(None, &[]), &s("in/x.CR2"), &s("root"));
    assert_eq!(p.model, "Canon");
    assert_eq!((p.year, p.month), (0, 0));
    assert_eq!(p.db_path, "root/0/0/Canon/x.CR2");
}

#[test]
fn photo_without_any_model_is_unknown() {
    let p = Photo::new(&vec![1], &s(""), &tags(Some("  "), &["not a date"]), &s("x.dng"), &s("a"));
    assert_eq!(p.model, "unknown");
    assert_eq!(p.db_path, "a/0/0/unknown/x.dng");
}

#[test]
fn model_and_date_helpers() {
    assert_eq!(Photo::get_exif_model(&tags(Some("\"Sony\","), &[])), "Sony");
    assert_eq!(Photo::get_exif_model(&tags(None, &[])), "");
    assert_eq!(Photo::get_model(&s("Fujifilm")), "Fujifilm");
    assert_eq!(Photo::get_model(&s(" ")), "unknown");
    assert_eq!(Photo::get_date_tuple(&tags(None, &["2001:02:03 04:05:06"])), (2001, 2));
    assert_eq!(Photo::get_date_tuple(&tags(None, &["?"])), (0, 0));
}

#[test]
fn photo_clone_keeps_fields() {
    let p = Photo::new(&vec![5, 6], &s("M"), &tags(None, &[]), &s("d/f.arw"), &s("r"));
    let q = p.clone();
    assert_eq!(q.hash, p.hash);
    assert_eq!(q.db_path, p.db_path);
    assert_eq!(q.og_path, p.og_path);
    assert_eq!(q.model, p.model);
}

/// A little-endian TIFF whose first image names the model `Canon` and the
/// change time 2019:08:07 06:05:04.
fn tiff_with_model_and_date() -> Vec<u8> {
    let mut b: Vec<u8> = vec![0x49, 0x49, 0x2a, 0x00, 0x08, 0x00, 0x00, 0x00];
    b.extend_from_slice(&[0x02, 0x00]);
    b.extend_from_slice(&[0x10, 0x01, 0x02, 0x00, 0x06, 0x00, 0x00, 0x00, 38, 0x00, 0x00, 0x00]);
    b.extend_from_slice(&[0x32, 0x01, 0x02, 0x00, 20, 0x00, 0x00, 0x00, 44, 0x00, 0x00, 0x00]);
    b.extend_from_slice(&[0x00, 0x00, 0x00, 0x00]);
    b.extend_from_slice(b"Canon\0");
    b.extend_from_slice(b"2019:08:07 06:05:04\0");
    b
}

#[test]
fn metadata_read_from_file_bytes() {
    let exif = Photo::get_exif(&tiff_with_model_and_date());
    assert!(exif.model.as_deref().unwrap_or("").contains("Canon"));
    assert_eq!(exif.dates.len(), 1);
    let p = Photo::new(&vec![1], &s("Make"), &exif, &s("in/IMG_1.CR2"), &s("root"));
    assert_eq!(p.model, "Canon");
    assert_eq!((p.year, p.month), (2019, 8));
    assert_eq!(p.db_path, "root/2019/8/Canon/IMG_1.CR2");
}

#[test]
fn unreadable_metadata_gives_nothing() {
    let exif = Photo::get_exif(&[1, 2, 3, 4, 5]);
    assert!(exif.model.is_none());
    assert!(exif.dates.is_empty());
    let p = Photo::new(&vec![1], &s("Make"), &exif, &s("x.nef"), &s("r"));
    assert_eq!(p.model, "Make");
    assert_eq!((p.year, p.month), (0, 0));
}
