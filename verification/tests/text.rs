use mini_http::text::{
    chars_of, decimal_string, find_byte_from, find_from, find_pair_from, parse_usize,
    push_decimal, range_is,
};

fn chars(s: &str) -> Vec<char> {
    s.chars().collect()
}

#[test]
fn chars_of_gives_the_characters() {
    assert_eq!(chars_of("a\u{e9}z"), vec!['a', '\u{e9}', 'z']);
    assert_eq!(chars_of(""), Vec::<char>::new());
}

#[test]
fn find_from_finds_the_first_at_or_after() {
    let v = chars("a b c");
    assert_eq!(find_from(&v, ' ', 0), 1);
    assert_eq!(find_from(&v, ' ', 1), 1);
    assert_eq!(find_from(&v, ' ', 2), 3);
    assert_eq!(find_from(&v, ' ', 4), 5);
    assert_eq!(find_from(&v, ' ', 5), 5);
    assert_eq!(find_from(&v, 'x', 0), 5);
    assert_eq!(find_from(&v, ' ', 9), 5);
}

#[test]
fn find_byte_from_finds_the_first_at_or_after() {
    assert_eq!(find_byte_from(b"ab\ncd\n", 10, 0), 2);
    assert_eq!(find_byte_from(b"ab\ncd\n", 10, 3), 5);
    assert_eq!(find_byte_from(b"ab", 10, 0), 2);
    assert_eq!(find_byte_from(b"ab\n", 10, 7), 3);
}

#[test]
fn find_pair_from_finds_the_first_pair() {
    assert_eq!(find_pair_from(&chars("a:b: c: d"), ':', ' ', 0), 3);
    assert_eq!(find_pair_from(&chars("a:b: c: d"), ':', ' ', 4), 6);
    assert_eq!(find_pair_from(&chars("a:"), ':', ' ', 0), 2);
    assert_eq!(find_pair_from(&chars(""), ':', ' ', 0), 0);
    assert_eq!(find_pair_from(&chars(": "), ':', ' ', 3), 2);
}

#[test]
fn range_is_compares_the_range() {
    let v = chars("xGETy");
    assert!(range_is(&v, 1, 4, "GET"));
    assert!(!range_is(&v, 0, 4, "GET"));
    assert!(!range_is(&v, 1, 4, "GEX"));
    assert!(range_is(&v, 2, 2, ""));
    assert!(!range_is(&v, 3, 2, ""));
    assert!(!range_is(&v, 4, 8, "y"));
}

#[test]
fn decimal_string_writes_numbers() {
    assert_eq!(decimal_string(0), "0");
    assert_eq!(decimal_string(7), "7");
    assert_eq!(decimal_string(10), "10");
    assert_eq!(decimal_string(404), "404");
    assert_eq!(decimal_string(1234567890), "1234567890");
    assert_eq!(decimal_string(usize::MAX), usize::MAX.to_string());
    let mut s = String::from("n=");
    push_decimal(&mut s, 201);
    assert_eq!(s, "n=201");
}

#[test]
fn parse_usize_reads_what_the_standard_parser_reads() {
    let max = usize::MAX.to_string();
    let over = format!("{}0", max);
    let cases = [
        "0", "5", "+5", "007", "+0", "", "+", "-", "-5", "++5", "5+", " 5", "5 ", "a", "1a",
        "\u{663}", "18446744073709551615", "18446744073709551616", max.as_str(), over.as_str(),
    ];
    for case in cases {
        assert_eq!(parse_usize(&chars(case)), case.parse::<usize>().ok(), "{:?}", case);
    }
    assert_eq!(parse_usize(&chars("+42")), Some(42));
}
