use maisou::text::{
    ascii_lowercase, chars_of, find_chars, rfind_char_index, str_equal, string_from, string_of,
    trim_chars, trim_start_matches_char,
};

#[test]
fn characters_round_trip_through_strings() {
    let chars = chars_of("麦搜 text");
    assert_eq!(chars.len(), 7);
    assert_eq!(string_of(&chars), "麦搜 text");
    assert_eq!(string_from(&chars, 3, 7), "text");
}

#[test]
fn trimming_and_lowercasing_follow_str() {
    let chars = chars_of("\u{3000} ..AbÇ \t");
    assert_eq!(string_of(&trim_chars(&chars)), "..AbÇ");
    assert_eq!(
        string_of(&trim_start_matches_char(&trim_chars(&chars), '.')),
        "AbÇ"
    );
    assert_eq!(string_of(&ascii_lowercase(&chars_of("AbÇ"))), "abÇ");
}

#[test]
fn searching_characters_finds_first_and_last() {
    let hay = chars_of("a/b/c.d");
    assert_eq!(find_chars(&hay, &chars_of("/")), Some(1));
    assert_eq!(find_chars(&hay, &chars_of("x")), None);
    assert_eq!(find_chars(&hay, &chars_of("")), Some(0));
    assert_eq!(rfind_char_index(&hay, '/'), Some(3));
    assert!(str_equal("same", "same"));
    assert!(!str_equal("same", "Same"));
}
