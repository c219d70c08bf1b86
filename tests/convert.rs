use hanja_hangul::{chi2kor_str, CharTable, WordTable};

fn chars(pairs: &[(char, char)]) -> CharTable {
    let mut t = CharTable::new();
    for (k, v) in pairs {
        t.insert(*k, *v);
    }
    t
}

fn words(pairs: &[(&str, &str)]) -> WordTable {
    let mut t = WordTable::new();
    for (k, v) in pairs {
        t.insert(k, v);
    }
    t
}

fn sample_tables() -> (CharTable, CharTable, WordTable) {
    let base = chars(&[
        ('客', '객'),
        ('車', '거'),
        ('六', '육'),
        ('月', '월'),
        ('庫', '고'),
        ('間', '간'),
        ('女', '녀'),
        ('子', '자'),
    ]);
    let corr = chars(&[('녀', '여')]);
    let word = words(&[("客車", "객차"), ("六月", "유월"), ("庫間", "곳간")]);
    (base, corr, word)
}

#[test]
fn text_without_hanja_is_unchanged() {
    let (base, corr, word) = sample_tables();
    assert_eq!(chi2kor_str("hello, world 123", &base, &corr, &word), None);
}

#[test]
fn hangul_text_is_unchanged() {
    let (base, corr, word) = sample_tables();
    assert_eq!(chi2kor_str("객차 유월 녀자", &base, &corr, &word), None);
}

#[test]
fn empty_input_is_unchanged() {
    let (base, corr, word) = sample_tables();
    assert_eq!(chi2kor_str("", &base, &corr, &word), None);
}

#[test]
fn known_hanja_is_changed() {
    let (base, corr, word) = sample_tables();
    let r = chi2kor_str("a子b", &base, &corr, &word).unwrap();
    assert_eq!(r, "a자b");
    assert!(r.chars().count() >= 3);
}

#[test]
fn unknown_hanja_passes_through() {
    let (base, corr, word) = sample_tables();
    assert_eq!(chi2kor_str("x丁y", &base, &corr, &word), None);
    assert_eq!(chi2kor_str("丁子", &base, &corr, &word), Some("丁자".to_string()));
}

#[test]
fn word_override_wins_over_base() {
    let base = chars(&[('客', '객'), ('車', '거')]);
    let corr = CharTable::new();
    let word = words(&[("客車", "객차")]);
    assert_eq!(chi2kor_str("客車", &base, &corr, &word), Some("객차".to_string()));
    let no_words = WordTable::new();
    assert_eq!(chi2kor_str("客車", &base, &corr, &no_words), Some("객거".to_string()));
}

#[test]
fn correction_applies_before_following_text() {
    let base = chars(&[('女', '녀'), ('子', '자')]);
    let corr = chars(&[('녀', '여')]);
    let word = WordTable::new();
    let r = chi2kor_str("女子", &base, &corr, &word).unwrap();
    assert!(r.starts_with('여'));
    assert_eq!(r, "여자");
}

#[test]
fn no_correction_on_last_character() {
    let base = chars(&[('女', '녀')]);
    let corr = chars(&[('녀', '여')]);
    let word = WordTable::new();
    assert_eq!(chi2kor_str("女", &base, &corr, &word), Some("녀".to_string()));
}

#[test]
fn no_correction_before_other_text() {
    let base = chars(&[('女', '녀')]);
    let corr = chars(&[('녀', '여')]);
    let word = WordTable::new();
    assert_eq!(chi2kor_str("女 ", &base, &corr, &word), Some("녀 ".to_string()));
    assert_eq!(chi2kor_str("女한", &base, &corr, &word), Some("여한".to_string()));
}

#[test]
fn maximal_run_is_replaced_whole() {
    let base = CharTable::new();
    let corr = CharTable::new();
    let word = words(&[("六月", "유월")]);
    assert_eq!(chi2kor_str("六月", &base, &corr, &word), Some("유월".to_string()));
}

#[test]
fn shorter_word_inside_longer_run_is_not_tried() {
    let base = chars(&[('六', '육'), ('月', '월'), ('日', '일')]);
    let corr = CharTable::new();
    let word = words(&[("六月", "유월")]);
    assert_eq!(chi2kor_str("六月日", &base, &corr, &word), Some("육월일".to_string()));
}

#[test]
fn word_may_change_length() {
    let base = CharTable::new();
    let corr = CharTable::new();
    let word = words(&[("六月", "유")]);
    assert_eq!(chi2kor_str("六月!", &base, &corr, &word), Some("유!".to_string()));
}

#[test]
fn later_word_entry_replaces_earlier() {
    let base = CharTable::new();
    let corr = CharTable::new();
    let word = words(&[("六月", "x"), ("六月", "유월")]);
    assert_eq!(chi2kor_str("六月", &base, &corr, &word), Some("유월".to_string()));
}

#[test]
fn mixed_content_end_to_end() {
    let (base, corr, word) = sample_tables();
    assert_eq!(
        chi2kor_str("客車, 六月, 庫間, 女子", &base, &corr, &word),
        Some("객차, 유월, 곳간, 여자".to_string())
    );
}

#[test]
fn compatibility_block_hanja_is_read() {
    let base = chars(&[('\u{F900}', '가'), ('\u{FA30}', '나'), ('\u{3400}', '다')]);
    let corr = CharTable::new();
    let word = WordTable::new();
    assert_eq!(
        chi2kor_str("\u{F900} \u{FA30} \u{3400}", &base, &corr, &word),
        Some("가 나 다".to_string())
    );
}
