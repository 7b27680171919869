use minishell::text::{
    chars_of, decimal, find_from, join_from, parse_i32, solid_bounds, spaces_of, split, str_eq,
    string_of, trim, trim_classified,
};

#[test]
fn decimal_writes_every_sign_and_size() {
    assert_eq!(decimal(0), "0");
    assert_eq!(decimal(7), "7");
    assert_eq!(decimal(10), "10");
    assert_eq!(decimal(42), "42");
    assert_eq!(decimal(127), "127");
    assert_eq!(decimal(-1), "-1");
    assert_eq!(decimal(-120), "-120");
    assert_eq!(decimal(i32::MAX), "2147483647");
    assert_eq!(decimal(i32::MIN), "-2147483648");
}

#[test]
fn decimal_agrees_with_the_standard_library() {
    for n in [-1000, -99, -10, -9, 0, 1, 9, 10, 11, 99, 100, 101, 65535, 1_000_000] {
        assert_eq!(decimal(n), n.to_string());
    }
}

#[test]
fn parse_reads_signed_decimals() {
    assert_eq!(parse_i32("0"), Some(0));
    assert_eq!(parse_i32("42"), Some(42));
    assert_eq!(parse_i32("+42"), Some(42));
    assert_eq!(parse_i32("-42"), Some(-42));
    assert_eq!(parse_i32("007"), Some(7));
    assert_eq!(parse_i32("-0"), Some(0));
    assert_eq!(parse_i32("2147483647"), Some(i32::MAX));
    assert_eq!(parse_i32("-2147483648"), Some(i32::MIN));
}

#[test]
fn parse_refuses_what_is_no_number() {
    assert_eq!(parse_i32(""), None);
    assert_eq!(parse_i32("+"), None);
    assert_eq!(parse_i32("-"), None);
    assert_eq!(parse_i32("12a"), None);
    assert_eq!(parse_i32("a12"), None);
    assert_eq!(parse_i32(" 1"), None);
    assert_eq!(parse_i32("1 "), None);
    assert_eq!(parse_i32("--1"), None);
    assert_eq!(parse_i32("1.5"), None);
    assert_eq!(parse_i32("\u{663}"), None);
}

#[test]
fn parse_refuses_what_does_not_fit() {
    assert_eq!(parse_i32("2147483648"), None);
    assert_eq!(parse_i32("-2147483649"), None);
    assert_eq!(parse_i32("99999999999999999999999999"), None);
    assert_eq!(parse_i32("99999999999999999999999999x"), None);
    assert_eq!(parse_i32("00000000000000000000000001"), Some(1));
}

#[test]
fn parse_agrees_with_the_standard_library() {
    for s in ["", "1", "-1", "+1", "+-1", "2147483647", "2147483648", "0x10", "1e3", "١"] {
        assert_eq!(parse_i32(s), s.parse::<i32>().ok(), "{:?}", s);
    }
}

#[test]
fn parse_undoes_decimal() {
    for n in [i32::MIN, -1, 0, 1, 255, i32::MAX] {
        assert_eq!(parse_i32(&decimal(n)), Some(n));
    }
}

#[test]
fn split_gives_every_piece() {
    assert_eq!(split("a:b:c", ':'), vec!["a", "b", "c"]);
    assert_eq!(split("", ':'), vec![""]);
    assert_eq!(split(":", ':'), vec!["", ""]);
    assert_eq!(split("a::b", ':'), vec!["a", "", "b"]);
    assert_eq!(split("/usr/bin:/bin:", ':'), vec!["/usr/bin", "/bin", ""]);
    assert_eq!(split("abc", ':'), vec!["abc"]);
}

#[test]
fn join_puts_one_space_between_words() {
    let words: Vec<String> = ["echo", "a", "b c", ""].iter().map(|s| s.to_string()).collect();
    assert_eq!(join_from(&words, 0), "echo a b c ");
    assert_eq!(join_from(&words, 1), "a b c ");
    assert_eq!(join_from(&words, 3), "");
    assert_eq!(join_from(&words, 4), "");
    assert_eq!(join_from(&words[..2], 1), "a");
}

#[test]
fn trim_removes_white_space_at_both_ends() {
    assert_eq!(trim("  main \n"), "main");
    assert_eq!(trim("main"), "main");
    assert_eq!(trim("a b"), "a b");
    assert_eq!(trim(""), "");
    assert_eq!(trim(" \t\n"), "");
    assert_eq!(trim("\u{a0}x\u{3000}"), "x");
}

#[test]
fn str_eq_compares_contents() {
    assert!(str_eq("", ""));
    assert!(str_eq("cd", "cd"));
    assert!(!str_eq("cd", "cd "));
    assert!(!str_eq("cd", "ce"));
    assert!(!str_eq("a", ""));
    assert!(str_eq("h\u{e9}", "h\u{e9}"));
    assert!(!str_eq("h\u{e9}", "he\u{301}"));
}

#[test]
fn characters_and_back() {
    let v = chars_of("a\u{e9}\u{4e16}b");
    assert_eq!(v, vec!['a', '\u{e9}', '\u{4e16}', 'b']);
    assert_eq!(string_of(&v, 0, 4), "a\u{e9}\u{4e16}b");
    assert_eq!(string_of(&v, 1, 3), "\u{e9}\u{4e16}");
    assert_eq!(string_of(&v, 2, 2), "");
    assert_eq!(find_from(&v, 'b', 0), 3);
    assert_eq!(find_from(&v, 'a', 1), 4);
    assert_eq!(find_from(&v, 'a', 4), 4);
}

#[test]
fn white_space_is_marked() {
    let chars: Vec<char> = " a\t\n\u{a0}b\u{3000}_".chars().collect();
    assert_eq!(
        spaces_of(&chars),
        vec![true, false, true, true, true, false, true, false]
    );
}

#[test]
fn bounds_leave_out_marked_ends() {
    let marks = vec![true, true, false, true, false, true];
    assert_eq!(solid_bounds(&marks, 6), (2, 5));
    assert_eq!(solid_bounds(&marks, 4), (2, 3));
    assert_eq!(solid_bounds(&marks, 2), (2, 2));
    assert_eq!(solid_bounds(&marks, 1), (1, 1));
    assert_eq!(solid_bounds(&marks, 0), (0, 0));
    assert_eq!(solid_bounds(&marks, 8), (2, 8));
    assert_eq!(solid_bounds(&vec![true, true], 2), (2, 2));
    assert_eq!(solid_bounds(&vec![false, false], 2), (0, 2));
    assert_eq!(solid_bounds(&Vec::new(), 3), (0, 3));
}

#[test]
fn marks_decide_what_is_trimmed() {
    let chars: Vec<char> = "xxaxbxx".chars().collect();
    let marks: Vec<bool> = chars.iter().map(|c| *c == 'x').collect();
    assert_eq!(trim_classified(&chars, &marks), "axb");
    assert_eq!(trim_classified(&chars, &vec![false; 7]), "xxaxbxx");
    assert_eq!(trim_classified(&chars, &vec![true; 7]), "");
    assert_eq!(trim_classified(&chars, &Vec::new()), "xxaxbxx");
    assert_eq!(trim_classified(&chars, &vec![true; 3]), "xbxx");
}
