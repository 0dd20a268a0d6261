use krata::text::{parse_u32, parse_u32_checked, parse_u64, path_push, str_chars, trim_chars, u64_to_string};

fn chars(s: &str) -> Vec<char> {
    s.chars().collect()
}

#[test]
fn decimal_rendering() {
    assert_eq!(u64_to_string(0), "0");
    assert_eq!(u64_to_string(7), "7");
    assert_eq!(u64_to_string(10), "10");
    assert_eq!(u64_to_string(4294967295), "4294967295");
    assert_eq!(u64_to_string(u64::MAX), u64::MAX.to_string());
}

#[test]
fn unsigned_parsing_follows_std() {
    for text in ["0", "42", "+42", "007", "-1", "-0", "", "+", "++1", "1a", " 1", "4294967295", "4294967296", "99999999999"] {
        assert_eq!(parse_u32(text), text.parse::<u32>().ok(), "u32 {:?}", text);
    }
    for text in ["18446744073709551615", "18446744073709551616", "+18446744073709551615", "12"] {
        assert_eq!(parse_u64(text), text.parse::<u64>().ok(), "u64 {:?}", text);
    }
}

#[test]
fn trimming_follows_std() {
    for text in ["", "  ", " a ", "\tab c\n", "\u{3000}x\u{a0}", "x", "\u{85}y\u{2029}"] {
        let t: String = trim_chars(&chars(text)).into_iter().collect();
        assert_eq!(t, text.trim(), "{:?}", text);
    }
}

#[test]
fn path_joining_follows_pathbuf() {
    for (base, comp) in [("a", "b"), ("a/", "b"), ("", "b"), ("/x", "/etc"), ("/", "c"), ("a", "")] {
        let mut expected = std::path::PathBuf::from(base);
        expected.push(comp);
        let got: String = path_push(&chars(base), &chars(comp)).into_iter().collect();
        assert_eq!(got, expected.to_string_lossy(), "{:?} {:?}", base, comp);
    }
    assert_eq!(str_chars("héllo"), vec!['h', 'é', 'l', 'l', 'o']);
}

#[test]
fn parse_errors_are_those_of_std() {
    let cases = [
        "", "+", "-", "++1", "+-1", "-1", "12a", "a12", " 1", "1 ", "4294967295", "4294967296",
        "99999999999", "99999999999x", "4294967296x", "x4294967296", "0004294967295", "+4294967295",
        "٣", "42",
    ];
    for c in cases {
        match (parse_u32_checked(c), c.parse::<u32>()) {
            (Ok(a), Ok(b)) => assert_eq!(a, b, "{:?}", c),
            (Err(a), Err(b)) => assert_eq!(a.message(), b.to_string(), "{:?}", c),
            (a, b) => panic!("{:?}: {:?} against {:?}", c, a, b),
        }
    }
}
