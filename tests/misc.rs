use hanja_hangul::{get_new_file_path, is_chi, is_kor_or_chi, CharTable};

#[test]
fn hanja_ranges() {
    assert!(is_chi(&'\u{3400}'));
    assert!(is_chi(&'\u{4DBF}'));
    assert!(!is_chi(&'\u{4DC0}'));
    assert!(is_chi(&'\u{4E00}'));
    assert!(is_chi(&'\u{9FFF}'));
    assert!(!is_chi(&'\u{A000}'));
    assert!(is_chi(&'\u{F900}'));
    assert!(is_chi(&'\u{FA2D}'));
    assert!(!is_chi(&'\u{FA2E}'));
    assert!(is_chi(&'\u{FA30}'));
    assert!(is_chi(&'\u{FA6D}'));
    assert!(!is_chi(&'\u{FA6E}'));
    assert!(!is_chi(&'가'));
    assert!(!is_chi(&'a'));
}

#[test]
fn hangul_or_hanja() {
    assert!(is_kor_or_chi(&'가'));
    assert!(is_kor_or_chi(&'\u{D7A3}'));
    assert!(!is_kor_or_chi(&'\u{D7A4}'));
    assert!(!is_kor_or_chi(&'\u{ABFF}'));
    assert!(is_kor_or_chi(&'女'));
    assert!(!is_kor_or_chi(&' '));
    assert!(!is_kor_or_chi(&'ㄱ'));
}

#[test]
fn new_file_path_inserts_suffix() {
    assert_eq!(get_new_file_path("hello.txt"), "hello(한글화).txt");
    assert_eq!(get_new_file_path("dir.v2/doc.tar.gz"), "dir.v2/doc.tar(한글화).gz");
    assert_eq!(get_new_file_path("dir.v2/readme"), "dir.v2/readme(한글화)");
    assert_eq!(get_new_file_path("notes"), "notes(한글화)");
    assert_eq!(get_new_file_path(""), "(한글화)");
}

#[test]
fn char_table_insert_and_get() {
    let mut t = CharTable::new();
    assert_eq!(t.get(&'女'), None);
    t.insert('女', '녀');
    t.insert('女', '여');
    assert_eq!(t.get(&'女'), Some('여'));
}
