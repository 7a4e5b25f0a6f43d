use jisort::text::{
    find_from, run_end, run_start, slice_string, stands_at, stands_before, to_chars, to_decimal,
    trim_range, CharClass,
};

fn chars(s: &str) -> Vec<char> {
    s.chars().collect()
}

#[test]
fn whitespace_is_what_the_standard_library_says() {
    for code in 0..=0x10FFFFu32 {
        if let Some(c) = char::from_u32(code) {
            assert_eq!(CharClass::Whitespace.test(c), c.is_whitespace(), "{:x}", code);
        }
    }
}

#[test]
fn blanks_and_line_text() {
    assert!(CharClass::Blank.test(' '));
    assert!(CharClass::Blank.test('\t'));
    assert!(!CharClass::Blank.test('\n'));
    assert!(!CharClass::Blank.test('\u{a0}'));
    assert!(CharClass::LineText.test(' '));
    assert!(!CharClass::LineText.test('\n'));
    assert!(!CharClass::LineText.test('\r'));
}

#[test]
fn to_chars_decodes() {
    assert_eq!(to_chars("aé\u{10000}\n"), vec!['a', 'é', '\u{10000}', '\n']);
    assert!(to_chars("").is_empty());
}

#[test]
fn runs_stop_at_limits() {
    let text = chars("  \tab  ");
    assert_eq!(run_end(&text, 0, text.len(), CharClass::Blank), 3);
    assert_eq!(run_end(&text, 0, 2, CharClass::Blank), 2);
    assert_eq!(run_end(&text, 3, text.len(), CharClass::Blank), 3);
    assert_eq!(run_end(&text, 5, text.len(), CharClass::Blank), 7);
    assert_eq!(run_start(&text, 0, text.len(), CharClass::Blank), 5);
    assert_eq!(run_start(&text, 6, text.len(), CharClass::Blank), 6);
    assert_eq!(run_start(&text, 0, 5, CharClass::Blank), 5);
    assert_eq!(run_start(&text, 0, 3, CharClass::Blank), 0);
}

#[test]
fn trim_range_is_trim() {
    let cases = ["", " ", "a", "  a b \n", "\u{a0}x\u{3000}", "\t\r\n", "é"];
    for case in cases {
        let text = chars(case);
        let (first, last) = trim_range(&text, 0, text.len());
        let trimmed: String = text[first..last].iter().collect();
        assert_eq!(trimmed, case.trim());
    }
    let text = chars("ab  cd  ef");
    assert_eq!(trim_range(&text, 2, 8), (4, 6));
    assert_eq!(trim_range(&text, 2, 4), (4, 4));
}

#[test]
fn patterns_are_found_first() {
    let text = chars("abcabc");
    let pattern = chars("bc");
    assert!(stands_at(&text, 1, &pattern));
    assert!(!stands_at(&text, 2, &pattern));
    assert!(!stands_at(&text, 5, &pattern));
    assert!(stands_at(&text, 6, &chars("")));
    assert_eq!(find_from(&text, 0, &pattern), Some(1));
    assert_eq!(find_from(&text, 2, &pattern), Some(4));
    assert_eq!(find_from(&text, 5, &pattern), None);
    assert_eq!(find_from(&text, 6, &chars("")), Some(6));
    assert_eq!(find_from(&text, 0, &chars("abcabcd")), None);
}

#[test]
fn order_is_that_of_strings() {
    let cases = ["", "a", "ab", "b", "B", "é", "\u{ffff}", "\u{10000}", "a\u{0}"];
    for a in cases {
        for b in cases {
            assert_eq!(stands_before(&chars(a), &chars(b)), a < b);
        }
    }
}

#[test]
fn slices_count_characters() {
    assert_eq!(slice_string("aéüb", 1, 3), "éü");
    assert_eq!(slice_string("aéüb", 4, 4), "");
    assert_eq!(slice_string("aéüb", 0, 4), "aéüb");
}

#[test]
fn decimal_digits() {
    for n in [0usize, 1, 9, 10, 11, 99, 100, 1203, 65535, usize::MAX] {
        assert_eq!(to_decimal(n), n.to_string());
    }
}
