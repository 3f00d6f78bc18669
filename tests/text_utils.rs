use brdocs::text_utils::{
    is_white_space, join_title_parts, pig_latin_str, pig_latinnify, remove_accents_expr,
    split_words, title_case_expr,
};

#[test]
fn accents_are_removed() {
    assert_eq!(remove_accents_expr("São Paulo, Ação ÑÜ"), "Sao Paulo, Acao NU".to_string());
    assert_eq!(remove_accents_expr("èéêë ìíîï òóôõö ùúûü"), "eeee iiii ooooo uuuu".to_string());
    assert_eq!(remove_accents_expr("plain"), "plain".to_string());
    assert_eq!(remove_accents_expr(""), "".to_string());
}

#[test]
fn title_case_words() {
    assert_eq!(title_case_expr("  hello   WORLD  "), "Hello World".to_string());
    assert_eq!(title_case_expr("éCOLE\tdU\nmonde"), "École Du Monde".to_string());
    assert_eq!(title_case_expr("ß"), "SS".to_string());
    assert_eq!(title_case_expr("   "), "".to_string());
    assert_eq!(title_case_expr(""), "".to_string());
}

#[test]
fn pig_latin_words() {
    assert_eq!(pig_latinnify("hello"), "ellohay".to_string());
    assert_eq!(pig_latinnify("a"), "aay".to_string());
    assert_eq!(pig_latinnify(""), "".to_string());
}

#[test]
fn pig_latin_appends() {
    let mut out = "x".to_string();
    pig_latin_str("ab", &mut out);
    assert_eq!(out, "xbaay".to_string());
}

#[test]
fn white_space_agrees_with_std_on_every_char() {
    for code in 0u32..=0x10FFFF {
        if let Some(c) = char::from_u32(code) {
            assert_eq!(is_white_space(c), c.is_whitespace(), "U+{:04X}", code);
        }
    }
}

#[test]
fn split_words_on_white_space() {
    assert_eq!(
        split_words(" a\u{3000}bc\t\u{a0}d "),
        vec!["a".to_string(), "bc".to_string(), "d".to_string()]
    );
    assert!(split_words(" \n ").is_empty());
}

#[test]
fn join_title_parts_with_single_spaces() {
    let parts = vec![
        ("H".to_string(), "ello".to_string()),
        ("W".to_string(), "orld".to_string()),
    ];
    assert_eq!(join_title_parts(&parts), "Hello World".to_string());
    assert_eq!(join_title_parts(&vec![("A".to_string(), "".to_string())]), "A".to_string());
    assert_eq!(join_title_parts(&Vec::new()), "".to_string());
}
