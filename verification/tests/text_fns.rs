use npc_dialog::text::{
    chars_of, find_all, holds_at, replace, same_text, scan_i32, scan_usize, slice_of, trim_range,
    white_space,
};

fn trimmed(s: &str) -> String {
    let v = chars_of(s);
    let (from, to) = trim_range(&v, 0, v.len());
    slice_of(s, from, to)
}

#[test]
fn white_space_is_what_std_calls_white_space() {
    for code in 0..=0x10FFFFu32 {
        if let Some(c) = char::from_u32(code) {
            assert_eq!(white_space(c), c.is_whitespace(), "U+{:04X}", code);
        }
    }
}

#[test]
fn trimming_agrees_with_std() {
    let samples = [
        "",
        " ",
        "a",
        "  a b  ",
        "\t\r\n x \u{a0}\u{3000}",
        "\u{2028}\u{2029}line\u{85}",
        "\u{200b}zero width stays\u{200b}",
        "   ",
        "é \u{1680}",
    ];
    for s in samples {
        assert_eq!(trimmed(s), s.trim(), "{:?}", s);
    }
    let v = chars_of("ab  cd  ef");
    assert_eq!(trim_range(&v, 2, 8), (4, 6));
    assert_eq!(trim_range(&v, 2, 4), (4, 4));
    assert_eq!(trim_range(&v, 3, 3), (3, 3));
}

#[test]
fn chars_and_slices() {
    assert_eq!(chars_of("Let’s"), vec!['L', 'e', 't', '’', 's']);
    assert_eq!(chars_of(""), Vec::<char>::new());
    assert_eq!(slice_of("Let’s Go.", 3, 7), "’s G");
    assert_eq!(slice_of("abc", 1, 1), "");
    assert_eq!(slice_of("abc", 0, 3), "abc");
}

#[test]
fn find_all_lists_every_occurrence_in_order() {
    assert_eq!(find_all(&chars_of("{a}{b}"), '{'), vec![0, 3]);
    assert_eq!(find_all(&chars_of("{a}{b}"), '}'), vec![2, 5]);
    assert_eq!(find_all(&chars_of("’{’}"), '}'), vec![3]);
    assert_eq!(find_all(&chars_of("abc"), '{'), Vec::<usize>::new());
    assert_eq!(find_all(&chars_of(""), '{'), Vec::<usize>::new());
}

fn read_usize(s: &str) -> Option<usize> {
    let v = chars_of(s);
    scan_usize(&v, 0, v.len())
}

fn read_i32(s: &str) -> Option<i32> {
    let v = chars_of(s);
    scan_i32(&v, 0, v.len())
}

#[test]
fn numbers_are_read_as_std_reads_them() {
    let max = usize::MAX.to_string();
    let over = format!("{}0", usize::MAX);
    let samples = [
        "", "0", "7", "007", "+7", "-7", "+", "-", "+-7", "-+7", "++7", " 7", "7 ", "7a", "a7",
        "1_000", "0x10", "٣", "12345678901234567890123456789", "2147483647", "2147483648",
        "-2147483648", "-2147483649", "+2147483647", "-0", "+0", "4294967295", "4294967296",
        "-00000000000000000000000000000000001", "00000000000000000000000000000000000000012",
        max.as_str(), over.as_str(),
    ];
    for s in samples {
        assert_eq!(read_usize(s), s.parse::<usize>().ok(), "usize {:?}", s);
        assert_eq!(read_i32(s), s.parse::<i32>().ok(), "i32 {:?}", s);
    }
    assert_eq!(read_usize("42"), Some(42));
    assert_eq!(read_i32("-42"), Some(-42));
    let v = chars_of("ab123cd");
    assert_eq!(scan_usize(&v, 2, 5), Some(123));
    assert_eq!(scan_i32(&v, 2, 4), Some(12));
    assert_eq!(scan_usize(&v, 2, 2), None);
}

#[test]
fn replace_agrees_with_std() {
    let samples = [
        ("Hello @pcname@!", "@pcname@", "Lennart"),
        ("@pcname@", "@pcname@", ""),
        ("@pcname@pcname@", "@pcname@", "X"),
        ("@pcname@@pcname@", "@pcname@", "@pcname@"),
        ("no token", "@pcname@", "Lennart"),
        ("", "@pcname@", "Lennart"),
        ("@pcname", "@pcname@", "Lennart"),
        ("aaaa", "aa", "b"),
        ("aaa", "aa", "b"),
        ("abcabc", "c", "’"),
        ("’x’", "’", "ab"),
    ];
    for (text, token, with) in samples {
        assert_eq!(replace(text, token, with), text.replace(token, with), "{:?}", text);
    }
    assert_eq!(replace("Hi @pcname@, @pcname@!", "@pcname@", "Tim"), "Hi Tim, Tim!");
    assert_eq!(replace("as it is", "", "Tim"), "as it is");
}

#[test]
fn texts_are_compared_by_their_characters() {
    assert!(same_text("fo", "fo"));
    assert!(!same_text("fo", "wa"));
    assert!(!same_text("fo", "f"));
    assert!(!same_text("f", "fo"));
    assert!(same_text("", ""));
    assert!(same_text("’", "’"));
    let text = chars_of("say @pcname@");
    let token = chars_of("@pcname@");
    assert!(holds_at(&text, 4, &token));
    assert!(!holds_at(&text, 3, &token));
    assert!(!holds_at(&text, 5, &token));
    assert!(!holds_at(&text, 12, &token));
    assert!(holds_at(&text, 12, &Vec::new()));
}
