use system_monitor::utils::text::{
    chars_of, contains_seq, find, nth1_field, parse_u32, parse_u64, push_decimal, same_chars,
    split_lines, split_whitespace, string_of, trim, IntErrorKind,
};

fn v(s: &str) -> Vec<char> {
    s.chars().collect()
}

fn strings(vs: Vec<Vec<char>>) -> Vec<String> {
    vs.into_iter().map(|x| x.into_iter().collect()).collect()
}

#[test]
fn chars_round_trip() {
    let cs = chars_of("Cœur 1");
    assert_eq!(cs, vec!['C', 'œ', 'u', 'r', ' ', '1']);
    assert_eq!(string_of(&cs), "Cœur 1");
}

#[test]
fn lines_like_str_lines() {
    for text in ["", "a", "a\n", "a\nb", "a\r\nb\r\n", "\n\n", "x\r", "a\n\nb\n", "\r\n"] {
        let expected: Vec<String> = text.lines().map(|l| l.to_string()).collect();
        assert_eq!(strings(split_lines(&v(text))), expected, "text {:?}", text);
    }
}

#[test]
fn words_like_split_whitespace() {
    for text in ["", "  ", "a b", "  cpu0  1 2\t3\n", "x\u{a0}y\u{3000}z", "one"] {
        let expected: Vec<String> = text.split_whitespace().map(|l| l.to_string()).collect();
        assert_eq!(strings(split_whitespace(&v(text))), expected, "text {:?}", text);
    }
}

#[test]
fn trim_like_str_trim() {
    for text in ["", "   ", " a ", "\tab c\n", "x", "\u{2003}k10temp\u{85}"] {
        let t: String = trim(&v(text)).into_iter().collect();
        assert_eq!(t, text.trim(), "text {:?}", text);
    }
}

#[test]
fn search_in_text() {
    assert!(contains_seq(&v("Package id 0"), &v("id")));
    assert!(!contains_seq(&v("Package"), &v("Core")));
    assert!(contains_seq(&v("abc"), &v("")));
    assert_eq!(find(&v("abcabc"), &v("ca")), Some(2));
    assert_eq!(find(&v("abc"), &v("x")), None);
    assert!(same_chars(&v("coretemp"), &v("coretemp")));
    assert!(!same_chars(&v("coretemp"), &v("coretemp0")));
}

#[test]
fn second_field_like_split_nth() {
    for text in ["model name\t: Intel(R) Core", "a: b: c", "no separator", "x: ", ": y"] {
        let expected = text.split(": ").nth(1).map(|s| s.to_string());
        let got = nth1_field(&v(text), &v(": ")).map(|f| f.into_iter().collect::<String>());
        assert_eq!(got, expected, "text {:?}", text);
    }
}

#[test]
fn integers_like_str_parse() {
    for text in ["0", "42", "+7", "", "+", "-", "-1", "12a", "18446744073709551615", "18446744073709551616", "99999999999999999999x", "٣"] {
        let expected = text.parse::<u64>().map_err(|e| e.to_string());
        let got = parse_u64(&v(text)).map_err(|k| k.message());
        assert_eq!(got, expected, "text {:?}", text);
    }
    for text in ["4294967295", "4294967296", "77", " 1"] {
        let expected = text.parse::<u32>().map_err(|e| e.to_string());
        let got = parse_u32(&v(text)).map_err(|k| k.message());
        assert_eq!(got, expected, "text {:?}", text);
    }
}

#[test]
fn integer_error_kinds() {
    assert_eq!(parse_u64(&v("")), Err(IntErrorKind::Empty));
    assert_eq!(parse_u64(&v("1x")), Err(IntErrorKind::InvalidDigit));
    assert_eq!(parse_u32(&v("5000000000")), Err(IntErrorKind::PosOverflow));
}

#[test]
fn decimal_like_format() {
    for n in [0u64, 7, 10, 1234, u64::MAX] {
        let mut s = String::from("CPU");
        push_decimal(&mut s, n);
        assert_eq!(s, format!("CPU{}", n));
    }
}
