use photodb::build_config_path;
use photodb::util::{build_final_path, file_name_of, get_date, is_image_file};

fn s(x: &str) -> String {
    x.to_string()
}

fn place(root: &str, model: &str, year: i32, month: u32, og: &str) -> String {
    build_final_path(&s(root), &s(model), &year, &month, &s(og))
}

#[test]
fn final_path_layout() {
    assert_eq!(place("photodb", "Canon EOS R5", 2021, 7, "/cards/a/IMG_0001.CR3"), "photodb/2021/7/Canon EOS R5/IMG_0001.CR3");
}

#[test]
fn final_path_root_with_separator() {
    assert_eq!(place("photodb/", "X", 2021, 12, "a.nef"), "photodb/2021/12/X/a.nef");
}

#[test]
fn final_path_unknown_date() {
    assert_eq!(place("/archive", "unknown", 0, 0, "dir/x.dng"), "/archive/0/0/unknown/x.dng");
}

#[test]
fn final_path_negative_year() {
    assert_eq!(place("r", "m", -5, 1, "f.raf"), "r/-5/1/m/f.raf");
}

#[test]
fn final_path_empty_root() {
    assert_eq!(place("", "m", 1999, 10, "f.raf"), "1999/10/m/f.raf");
}

#[test]
fn placement_is_pure() {
    let a = place("root", "Nikon D850", 2018, 11, "/in/DSC_1.NEF");
    let b = place("root", "Nikon D850", 2018, 11, "/in/DSC_1.NEF");
    assert_eq!(a, b);
}

#[test]
fn placement_separates_each_argument() {
    let base = place("root", "Nikon D850", 2018, 11, "/in/DSC_1.NEF");
    assert_ne!(base, place("root2", "Nikon D850", 2018, 11, "/in/DSC_1.NEF"));
    assert_ne!(base, place("root", "Nikon D750", 2018, 11, "/in/DSC_1.NEF"));
    assert_ne!(base, place("root", "Nikon D850", 2019, 11, "/in/DSC_1.NEF"));
    assert_ne!(base, place("root", "Nikon D850", 2018, 1, "/in/DSC_1.NEF"));
    assert_ne!(base, place("root", "Nikon D850", 2018, 11, "/in/DSC_2.NEF"));
}

#[test]
fn config_path() {
    assert_eq!(build_config_path(&s("archive")), "archive/.photodb/photo.db");
    assert_eq!(build_config_path(&s("archive/")), "archive/.photodb/photo.db");
}

#[test]
fn file_names() {
    assert_eq!(file_name_of("a/b/c.nef"), "c.nef");
    assert_eq!(file_name_of("c.nef"), "c.nef");
    assert_eq!(file_name_of("/x/"), "");
}

#[test]
fn raw_extensions_in_any_case() {
    for ext in ["3fr", "arw", "cr2", "fff", "mef", "mos", "iiq", "nef", "raf", "rw2", "dng"] {
        assert!(is_image_file(&format!("/photos/img.{}", ext)), "{}", ext);
        assert!(is_image_file(&format!("/photos/img.{}", ext.to_uppercase())), "{}", ext);
    }
    assert!(is_image_file(&s("dir/IMG.Nef")));
}

#[test]
fn other_files_are_not_images() {
    assert!(!is_image_file(&s("dir/img.jpg")));
    assert!(!is_image_file(&s("dir/nef")));
    assert!(!is_image_file(&s("dir.nef/readme")));
    assert!(!is_image_file(&s("dir/img.nef.xmp")));
    assert!(!is_image_file(&s("")));
}

#[test]
fn hidden_files_are_not_images() {
    assert!(!is_image_file(&s("dir/.img.nef")));
    assert!(!is_image_file(&s("dir/.nef")));
    assert!(is_image_file(&s(".cache/img.nef")));
}

#[test]
fn date_from_first_readable_tag() {
    assert_eq!(get_date(&vec![s("2021:07:15 10:20:30")]), Some((2021, 7)));
    assert_eq!(get_date(&vec![s("garbage"), s("2019-03-04 05:06:07")]), Some((2019, 3)));
    assert_eq!(get_date(&vec![s("2020:01:02 03:04:05"), s("2019-03-04 05:06:07")]), Some((2020, 1)));
}

#[test]
fn date_layouts() {
    assert_eq!(get_date(&vec![s("2020:05:06T07:08:09")]), Some((2020, 5)));
    assert_eq!(get_date(&vec![s("2020-05-06T07:08:09")]), Some((2020, 5)));
    assert_eq!(get_date(&vec![s("2020-05-06T07:08:09Z")]), Some((2020, 5)));
    assert_eq!(get_date(&vec![s("2020:11:02 03:04")]), Some((2020, 11)));
}

#[test]
fn no_date() {
    assert_eq!(get_date(&vec![]), None);
    assert_eq!(get_date(&vec![s("2020"), s("")]), None);
    assert_eq!(get_date(&vec![s("2020:13:01 00:00:00")]), None);
}
