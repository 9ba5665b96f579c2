use jj_commands::text;

fn chars(s: &str) -> Vec<char> {
    s.chars().collect()
}

fn words(s: &str) -> Vec<String> {
    text::split_words(&chars(s))
        .iter()
        .map(|w| w.iter().collect())
        .collect()
}

#[test]
fn white_space_is_unicode_white_space() {
    for code in 0..=0x10ffffu32 {
        if let Some(c) = char::from_u32(code) {
            assert_eq!(text::white_space(c), c.is_whitespace(), "U+{:04X}", code);
        }
    }
}

#[test]
fn words_are_split_like_std_does() {
    for s in [
        "",
        "   ",
        "a",
        " a  b\tc ",
        "*.bin filter=lfs diff=lfs merge=lfs -text",
        "\u{a0}x\u{2003}y\u{3000}",
        "trailing\r",
    ] {
        let expected: Vec<&str> = s.split_whitespace().collect();
        assert_eq!(words(s), expected, "{:?}", s);
    }
}

#[test]
fn replacing_works_from_the_left_without_overlap() {
    for (s, needle) in [
        ("a[[:space:]]b", "[[:space:]]"),
        ("[[:space:]][[:space:]]", "[[:space:]]"),
        ("[[:sp[[:space:]]ace:]]", "[[:space:]]"),
        ("aaaaa", "aa"),
        ("abc", "abcd"),
        ("", "x"),
    ] {
        let got: String = text::replace(&chars(s), &chars(needle), ' ').iter().collect();
        assert_eq!(got, s.replace(needle, " "), "{:?}", s);
    }
}

#[test]
fn strings_and_characters_convert_both_ways() {
    let s = "h\u{e9}llo \u{1f980}";
    assert_eq!(text::chars_of(s), chars(s));
    assert_eq!(text::string_of(&chars(s)), s);
    assert!(text::same_text(s, s));
    assert!(!text::same_text(s, "hello"));
    assert!(!text::same_text("a", "b"));
}

#[test]
fn joining_puts_the_separator_between() {
    let list = |items: &[&str]| -> Vec<String> { items.iter().map(|s| s.to_string()).collect() };
    assert_eq!(text::join(&list(&[]), " "), "");
    assert_eq!(text::join(&list(&["a"]), " "), "a");
    assert_eq!(text::join(&list(&["a", "", "c"]), ", "), "a, , c");
    assert!(text::same_strings(&list(&["a", "b"]), &list(&["a", "b"])));
    assert!(!text::same_strings(&list(&["a", "b"]), &list(&["a"])));
    assert!(!text::same_strings(&list(&["a", "b"]), &list(&["a", "c"])));
    assert_eq!(text::copy_strings(&list(&["x", "y"])), list(&["x", "y"]));
}

#[test]
fn numerals_are_decimal() {
    for n in [0usize, 1, 9, 10, 42, 100, 65_536, usize::MAX] {
        let mut s = "n=".to_string();
        text::push_numeral(&mut s, n);
        assert_eq!(s, format!("n={}", n));
    }
}

#[test]
fn needle_is_found_where_it_stands() {
    let s = chars("xfilter");
    assert!(text::occurs_at(&s, 1, &chars("filter")));
    assert!(!text::occurs_at(&s, 0, &chars("filter")));
    assert!(!text::occurs_at(&s, 7, &chars("r")));
    assert!(text::occurs_at(&s, 7, &chars("")));
}
