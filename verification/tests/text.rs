use monkey_front::lexer::integers_in_range;
use monkey_front::text::{
    chars_of, digit_to_number, int_to_string, number_to_digit, parse_decimal, scan_run,
    scan_run_back, spells, string_of, trim, CharClass,
};

#[test]
fn classes_hold_their_characters() {
    for c in [' ', '\n', '\t', '\r'] {
        assert!(CharClass::Space.has(c));
        assert!(CharClass::White.has(c));
    }
    assert!(!CharClass::Space.has('\u{a0}'));
    assert!(CharClass::White.has('\u{a0}'));
    assert!(!CharClass::White.has('x'));
    for c in ['a', 'Z', '_', '\u{e9}', '\u{4eac}'] {
        assert!(CharClass::Word.has(c));
    }
    for c in ['1', '-', ' ', '=', '\u{1f49d}'] {
        assert!(!CharClass::Word.has(c));
    }
    for c in ['0', '5', '9'] {
        assert!(CharClass::Digit.has(c));
    }
    for c in ['/', ':', 'a', '\u{0661}'] {
        assert!(!CharClass::Digit.has(c));
    }
}

#[test]
fn runs_are_scanned_to_their_ends() {
    let text = chars_of("ab12  cd");
    assert_eq!(scan_run(&text, 0, CharClass::Word), 2);
    assert_eq!(scan_run(&text, 1, CharClass::Word), 2);
    assert_eq!(scan_run(&text, 2, CharClass::Word), 2);
    assert_eq!(scan_run(&text, 2, CharClass::Digit), 4);
    assert_eq!(scan_run(&text, 4, CharClass::Space), 6);
    assert_eq!(scan_run(&text, 6, CharClass::Word), 8);
    assert_eq!(scan_run(&text, 8, CharClass::Word), 8);
    assert_eq!(scan_run_back(&text, 8, CharClass::Word), 6);
    assert_eq!(scan_run_back(&text, 6, CharClass::Space), 4);
    assert_eq!(scan_run_back(&text, 4, CharClass::Space), 4);
    assert_eq!(scan_run_back(&text, 0, CharClass::Word), 0);
}

#[test]
fn strings_and_characters_convert() {
    let text = chars_of("h\u{e9}llo");
    assert_eq!(text, vec!['h', '\u{e9}', 'l', 'l', 'o']);
    assert_eq!(string_of(&text, 1, 4), "\u{e9}ll");
    assert_eq!(string_of(&text, 2, 2), "");
    assert!(spells(&text, 2, 5, "llo"));
    assert!(!spells(&text, 2, 5, "lla"));
    assert!(!spells(&text, 2, 5, "ll"));
    assert!(spells(&text, 3, 3, ""));
}

#[test]
fn trimming_cuts_both_ends() {
    assert_eq!(trim("  a b \n", CharClass::White), vec!['a', ' ', 'b']);
    assert_eq!(trim(" \t ", CharClass::White), Vec::<char>::new());
    assert_eq!(trim("", CharClass::White), Vec::<char>::new());
    assert_eq!(trim("x", CharClass::White), vec!['x']);
    assert_eq!(trim("007x00", CharClass::Digit), vec!['x']);
}

#[test]
fn decimals_are_read_and_written() {
    let text = chars_of("x0042y170141183460469231731687303715884105728");
    assert_eq!(parse_decimal(&text, 1, 5), Some(42));
    assert_eq!(parse_decimal(&text, 3, 3), Some(0));
    assert_eq!(parse_decimal(&text, 6, 45), None);
    assert_eq!(parse_decimal(&text, 6, 44), Some(17014118346046923173168730371588410572));
    assert_eq!(digit_to_number('7'), 7);
    assert_eq!(number_to_digit(7), '7');
    assert_eq!(number_to_digit(0), '0');
    assert_eq!(int_to_string(0), "0");
    assert_eq!(int_to_string(9), "9");
    assert_eq!(int_to_string(10), "10");
    assert_eq!(int_to_string(-1), "-1");
    assert_eq!(int_to_string(1234567890), "1234567890");
    assert_eq!(int_to_string(i128::MIN), i128::MIN.to_string());
    assert_eq!(int_to_string(i128::MAX), i128::MAX.to_string());
}

#[test]
fn oversized_integers_are_found() {
    assert!(integers_in_range(&chars_of("")));
    assert!(integers_in_range(&chars_of("a 1 b 22 c 170141183460469231731687303715884105727")));
    assert!(!integers_in_range(&chars_of("a 1 b 170141183460469231731687303715884105728 c")));
    assert!(integers_in_range(&chars_of("000000000000000000000000000000000000000000000000005")));
}
