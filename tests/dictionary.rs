use hanja_hangul::{
    generate_dic_char, generate_dic_str, load_dictionary, CharTable, DictionaryFile, WordTable,
};

#[test]
fn char_table_from_text() {
    let t: CharTable = generate_dic_char(" 女 , 녀 \r\n子,자\nbad line\na,b,c\n , x\n");
    assert_eq!(t.get(&'女'), Some('녀'));
    assert_eq!(t.get(&'子'), Some('자'));
    assert_eq!(t.get(&'b'), None);
    assert_eq!(t.get(&'a'), None);
    assert_eq!(t.get(&' '), None);
}

#[test]
fn char_table_later_line_wins() {
    let t = generate_dic_char("車,거\n車,차");
    assert_eq!(t.get(&'車'), Some('차'));
}

#[test]
fn char_table_takes_first_character_of_field() {
    let t = generate_dic_char("女子,녀자");
    assert_eq!(t.get(&'女'), Some('녀'));
    assert_eq!(t.get(&'子'), None);
}

#[test]
fn word_table_from_text() {
    let t: WordTable = generate_dic_str("客車, 객차\n 庫間 ,곳간\r\nno comma\n");
    let s: Vec<char> = "客車庫間".chars().collect();
    assert_eq!(t.lookup(&s, 0, 2), Some(&"객차".chars().collect::<Vec<char>>()));
    assert_eq!(t.lookup(&s, 2, 4), Some(&"곳간".chars().collect::<Vec<char>>()));
    assert_eq!(t.lookup(&s, 0, 4), None);
}

#[test]
fn load_reports_first_missing_source() {
    assert_eq!(
        load_dictionary(None, None, None).err(),
        Some(DictionaryFile::HanjaChar)
    );
    assert_eq!(
        load_dictionary(Some("女,녀"), None, Some("")).err(),
        Some(DictionaryFile::Dueum)
    );
    assert_eq!(
        load_dictionary(Some("女,녀"), Some("녀,여"), None).err(),
        Some(DictionaryFile::HanjaWord)
    );
}

#[test]
fn load_builds_three_tables() {
    let (c, d, w) = load_dictionary(Some("女,녀"), Some("녀,여"), Some("六月,유월")).unwrap();
    assert_eq!(c.get(&'女'), Some('녀'));
    assert_eq!(d.get(&'녀'), Some('여'));
    let s: Vec<char> = "六月".chars().collect();
    assert_eq!(w.lookup(&s, 0, 2), Some(&"유월".chars().collect::<Vec<char>>()));
}

#[test]
fn source_file_names() {
    assert_eq!(DictionaryFile::HanjaChar.file_name(), "hanja_char.csv");
    assert_eq!(DictionaryFile::Dueum.file_name(), "dueum.csv");
    assert_eq!(DictionaryFile::HanjaWord.file_name(), "hanja_word.csv");
}
