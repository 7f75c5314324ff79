use discord_shield::text::{
    chars_of, contains_chars, decimal_string, ends_with_chars, fields_exec, lines_exec,
    parse_i32_chars, parse_u32_chars, replace_char_exec, starts_with_chars, str_contains,
    to_lowercase, trim_chars,
};

fn v(s: &str) -> Vec<char> {
    s.chars().collect()
}

fn strings(lines: Vec<Vec<char>>) -> Vec<String> {
    lines.into_iter().map(|l| l.into_iter().collect()).collect()
}

#[test]
fn parse_i32_accepts_what_std_accepts() {
    for s in ["0", "123", "-5", "+7", "2147483647", "-2147483648", "007", "-0"] {
        assert_eq!(parse_i32_chars(&v(s)), s.parse::<i32>().ok(), "{}", s);
    }
}

#[test]
fn parse_i32_rejects_what_std_rejects() {
    for s in ["", "-", "+", "2147483648", "-2147483649", "12a", " 1", "1 ", "--1", "99999999999999999999"] {
        assert_eq!(parse_i32_chars(&v(s)), None, "{}", s);
        assert_eq!(s.parse::<i32>().ok(), None, "{}", s);
    }
}

#[test]
fn parse_u32_matches_std() {
    for s in ["0", "4294967295", "4294967296", "+12", "-1", "-0", "", "1x"] {
        assert_eq!(parse_u32_chars(&v(s)), s.parse::<u32>().ok(), "{}", s);
    }
}

#[test]
fn decimal_string_matches_display() {
    for n in [0u64, 7, 10, 42, 1000, 65535, u64::MAX] {
        assert_eq!(decimal_string(n), n.to_string());
    }
}

#[test]
fn lines_match_std() {
    for s in ["", "a", "a\n", "a\nb", "a\r\nb\r\n", "\n\n", "x\r", "a\rb\nc"] {
        let expected: Vec<String> = s.lines().map(|l| l.to_string()).collect();
        assert_eq!(strings(lines_exec(&v(s))), expected, "{:?}", s);
    }
}

#[test]
fn fields_match_split_whitespace() {
    for s in ["", "  ", "TracerPid:\t123", " a  b\tc\n", "a\u{3000}b\u{a0}c"] {
        let expected: Vec<String> = s.split_whitespace().map(|l| l.to_string()).collect();
        assert_eq!(strings(fields_exec(&v(s))), expected, "{:?}", s);
    }
}

#[test]
fn trim_matches_std() {
    for s in ["", "   ", " discord \n", "\tx y\t", "abc"] {
        let t: String = trim_chars(&v(s)).into_iter().collect();
        assert_eq!(t, s.trim(), "{:?}", s);
    }
}

#[test]
fn substring_tests() {
    assert!(str_contains("python grabber.py", "grab"));
    assert!(!str_contains("python", "pythons"));
    assert!(str_contains("abc", ""));
    assert!(contains_chars(&v("local storage"), &v("storage")));
    assert!(starts_with_chars(&v("TracerPid:\t0"), &v("TracerPid:")));
    assert!(!starts_with_chars(&v("Tracer"), &v("TracerPid:")));
    assert!(ends_with_chars(&v("000003.ldb"), &v(".ldb")));
    assert!(!ends_with_chars(&v("ldb"), &v(".ldb")));
}

#[test]
fn replace_and_lowercase() {
    let r: String = replace_char_exec(&v("a\0b\0"), '\0', ' ').into_iter().collect();
    assert_eq!(r, "a b ");
    assert_eq!(to_lowercase("TokenGRABBER"), "tokengrabber");
    assert_eq!(chars_of("héllo"), v("héllo"));
}
