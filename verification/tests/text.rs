use ristinolla::text::{
    chars_eq, chars_is, chars_of, parse_bool, parse_i64, parse_unsigned, push_char, push_chars,
    split_whitespace, string_of, trim_chars, IntErrorKind,
};

fn cs(s: &str) -> Vec<char> {
    s.chars().collect()
}

#[test]
fn unsigned_numbers() {
    assert_eq!(parse_unsigned(&cs("0"), 255), Ok(0));
    assert_eq!(parse_unsigned(&cs("255"), 255), Ok(255));
    assert_eq!(parse_unsigned(&cs("+12"), 255), Ok(12));
    assert_eq!(parse_unsigned(&cs("007"), 255), Ok(7));
    assert_eq!(parse_unsigned(&cs("256"), 255), Err(IntErrorKind::PosOverflow));
    assert_eq!(parse_unsigned(&cs(""), 255), Err(IntErrorKind::Empty));
    assert_eq!(parse_unsigned(&cs("+"), 255), Err(IntErrorKind::InvalidDigit));
    assert_eq!(parse_unsigned(&cs("-1"), 255), Err(IntErrorKind::InvalidDigit));
    assert_eq!(parse_unsigned(&cs("1a"), 255), Err(IntErrorKind::InvalidDigit));
    assert_eq!(parse_unsigned(&cs("18446744073709551615"), u64::MAX), Ok(u64::MAX));
    assert_eq!(parse_unsigned(&cs("18446744073709551616"), u64::MAX), Err(IntErrorKind::PosOverflow));
    assert_eq!(parse_unsigned(&cs("99999x"), 255), Err(IntErrorKind::PosOverflow));
}

#[test]
fn unsigned_agrees_with_std() {
    for s in ["0", "1", "+5", "255", "256", "-0", "", "+", "12a", "٣", " 1"] {
        let expected = s.parse::<u8>().map(|v| v as u64).map_err(|e| format!("{:?}", e.kind()));
        let got = parse_unsigned(&cs(s), 255).map_err(|e| format!("{:?}", e));
        assert_eq!(got, expected, "{s:?}");
    }
}

#[test]
fn signed_numbers() {
    assert_eq!(parse_i64(&cs("-5")), Ok(-5));
    assert_eq!(parse_i64(&cs("+5")), Ok(5));
    assert_eq!(parse_i64(&cs("9223372036854775807")), Ok(i64::MAX));
    assert_eq!(parse_i64(&cs("-9223372036854775808")), Ok(i64::MIN));
    assert_eq!(parse_i64(&cs("9223372036854775808")), Err(IntErrorKind::PosOverflow));
    assert_eq!(parse_i64(&cs("-9223372036854775809")), Err(IntErrorKind::NegOverflow));
    assert_eq!(parse_i64(&cs("-")), Err(IntErrorKind::InvalidDigit));
    assert_eq!(parse_i64(&cs("")), Err(IntErrorKind::Empty));
    assert_eq!(parse_i64(&cs("--1")), Err(IntErrorKind::InvalidDigit));
}

#[test]
fn signed_agrees_with_std() {
    for s in ["-1", "0", "+0", "-", "+", "", "123", "-9223372036854775808", "9223372036854775808", "1-"] {
        let expected = s.parse::<i64>().map_err(|e| format!("{:?}", e.kind()));
        let got = parse_i64(&cs(s)).map_err(|e| format!("{:?}", e));
        assert_eq!(got, expected, "{s:?}");
    }
}

#[test]
fn booleans() {
    assert_eq!(parse_bool(&cs("true")), Some(true));
    assert_eq!(parse_bool(&cs("false")), Some(false));
    assert_eq!(parse_bool(&cs("TRUE")), None);
    assert_eq!(parse_bool(&cs("1")), None);
    assert_eq!(parse_bool(&cs("")), None);
}

#[test]
fn whitespace_split() {
    let toks = split_whitespace(&cs("  go  depth\t5\n"));
    let words: Vec<String> = toks.iter().map(|t| t.iter().collect()).collect();
    assert_eq!(words, vec!["go", "depth", "5"]);
    assert!(split_whitespace(&cs("   ")).is_empty());
    let toks = split_whitespace(&cs("a\u{a0}b c"));
    assert_eq!(toks.len(), 2);
    assert_eq!(toks[0].len(), 3);
}

#[test]
fn trimming() {
    let t = trim_chars(&cs("\u{a0} e5 \u{3000}"));
    assert_eq!(t, cs("e5"));
    assert_eq!(trim_chars(&cs("   ")), Vec::<char>::new());
    assert_eq!(trim_chars(&cs("a b")), cs("a b"));
}

#[test]
fn strings_and_chars() {
    assert_eq!(chars_of("héllo"), cs("héllo"));
    assert_eq!(string_of(&cs("abc")), "abc");
    let mut s = String::from("ab");
    push_chars(&mut s, &cs("cd"));
    push_char(&mut s, 'e');
    assert_eq!(s, "abcde");
    assert!(chars_eq(&cs("xy"), &cs("xy")));
    assert!(!chars_eq(&cs("xy"), &cs("xyz")));
    assert!(chars_is(&cs("go"), "go"));
    assert!(!chars_is(&cs("Go"), "go"));
}
