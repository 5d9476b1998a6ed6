use statusbar::util::{ascii_string, chars_of, is_whitespace, parse_i64, parse_int, trim_bounds};

const SAMPLES: &[&str] = &[
    "", " ", "0", "42", " 42\n", "-7", "+5", "+", "-", "--1", "+-1", "12a", "a12", " 1 2", "007",
    "2147483647", "2147483648", "-2147483648", "-2147483649", "9223372036854775807",
    "9223372036854775808", "-9223372036854775808", "-9223372036854775809",
    "18446744073709551615", "18446744073709551616", "99999999999999999999999",
    "\u{3000}17\u{a0}", "\t\r\n 8 \u{2029}", "\u{200b}5", "١٢", "12\u{0}",
];

#[test]
fn parse_int_matches_std() {
    for s in SAMPLES {
        assert_eq!(parse_int(s), s.trim().parse::<i32>().ok(), "input {:?}", s);
    }
}

#[test]
fn parse_i64_matches_std() {
    for s in SAMPLES {
        assert_eq!(parse_i64(s), s.trim().parse::<i64>().ok(), "input {:?}", s);
    }
}

#[test]
fn parse_int_examples() {
    assert_eq!(parse_int(" 42\n"), Some(42));
    assert_eq!(parse_int("-2147483648"), Some(i32::MIN));
    assert_eq!(parse_int("2147483648"), None);
    assert_eq!(parse_int(""), None);
    assert_eq!(parse_int("+"), None);
    assert_eq!(parse_int("12a"), None);
}

#[test]
fn parse_i64_bounds() {
    assert_eq!(parse_i64("9223372036854775807"), Some(i64::MAX));
    assert_eq!(parse_i64("-9223372036854775808"), Some(i64::MIN));
    assert_eq!(parse_i64("9223372036854775808"), None);
    assert_eq!(parse_i64("99999999999999999999999"), None);
}

#[test]
fn whitespace_matches_std() {
    for u in 0u32..0x3100 {
        if let Some(c) = char::from_u32(u) {
            assert_eq!(is_whitespace(c), c.is_whitespace(), "char {:#x}", u);
        }
    }
    for c in ['\u{feff}', '\u{10ffff}', 'a', '\u{200b}'] {
        assert_eq!(is_whitespace(c), c.is_whitespace());
    }
}

#[test]
fn trim_bounds_match_std() {
    for s in SAMPLES.iter().chain(["  ", "\u{85}x\u{85}", "a b"].iter()) {
        let cs = chars_of(s);
        let (a, b) = trim_bounds(&cs);
        let got: String = cs[a..b].iter().collect();
        assert_eq!(got, s.trim(), "input {:?}", s);
    }
}

#[test]
fn chars_of_keeps_order() {
    assert_eq!(chars_of("aé😀"), vec!['a', 'é', '😀']);
    assert_eq!(chars_of(""), Vec::<char>::new());
}

#[test]
fn ascii_string_holds_chars() {
    assert_eq!(ascii_string(&vec!['a', ':', '9']), "a:9");
    assert_eq!(ascii_string(&vec![]), "");
}
