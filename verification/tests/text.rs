use worstbird::decimal::{decimal_string, parse_usize_exec};
use worstbird::text::{
    after_first_exec, chars_of, find_from, prefix_before_exec, split_all, string_of,
    strip_trailing_exec, trim_exec,
};

fn v(s: &str) -> Vec<char> {
    s.chars().collect()
}

fn s(v: &[char]) -> String {
    v.iter().collect()
}

#[test]
fn decimal_text() {
    assert_eq!(decimal_string(0), "0");
    assert_eq!(decimal_string(7), "7");
    assert_eq!(decimal_string(12345), "12345");
    assert_eq!(decimal_string(u64::MAX), u64::MAX.to_string());
}

#[test]
fn parsing_unsigned_numbers() {
    assert_eq!(parse_usize_exec("42"), Some(42));
    assert_eq!(parse_usize_exec("+7"), Some(7));
    assert_eq!(parse_usize_exec("007"), Some(7));
    assert_eq!(parse_usize_exec("+"), None);
    assert_eq!(parse_usize_exec(""), None);
    assert_eq!(parse_usize_exec("-1"), None);
    assert_eq!(parse_usize_exec("12a"), None);
    assert_eq!(parse_usize_exec(" 1"), None);
    assert_eq!(parse_usize_exec(&usize::MAX.to_string()), Some(usize::MAX));
    assert_eq!(parse_usize_exec(&format!("{}0", usize::MAX)), None);
    assert_eq!(parse_usize_exec("99999999999999999999999x"), None);
}

#[test]
fn parse_reads_back_decimal() {
    for n in [0u64, 1, 9, 10, 99, 100, 4_000_000_000, u64::MAX] {
        assert_eq!(parse_usize_exec(&decimal_string(n)), Some(n as usize));
    }
}

#[test]
fn splitting_like_str_split() {
    let pieces = split_all(&v("a--b----c"), &v("--"));
    let got: Vec<String> = pieces.iter().map(|p| s(p)).collect();
    let want: Vec<String> = "a--b----c".split("--").map(|p| p.to_string()).collect();
    assert_eq!(got, want);
    let got: Vec<String> = split_all(&v("aaa"), &v("aa")).iter().map(|p| s(p)).collect();
    assert_eq!(got, vec!["".to_string(), "a".to_string()]);
    assert_eq!(split_all(&v(""), &v("x")).len(), 1);
}

#[test]
fn finding() {
    assert_eq!(find_from(&v("abcabc"), &v("bc"), 0), Some(1));
    assert_eq!(find_from(&v("abcabc"), &v("bc"), 2), Some(4));
    assert_eq!(find_from(&v("abcabc"), &v("bd"), 0), None);
}

#[test]
fn take_and_skip_while() {
    assert_eq!(s(&prefix_before_exec(&v("ab<cd"), '<')), "ab");
    assert_eq!(s(&prefix_before_exec(&v("abcd"), '<')), "abcd");
    assert_eq!(s(&after_first_exec(&v("x>y>z"), '>')), "y>z");
    assert_eq!(s(&after_first_exec(&v("xyz"), '>')), "");
    assert_eq!(s(&strip_trailing_exec(&v("ab\"\""), '"')), "ab");
    assert_eq!(s(&trim_exec(&v(" \t a b\u{3000}\n"))), "a b");
    assert_eq!(s(&trim_exec(&v("   "))), "");
    assert_eq!(string_of(&chars_of("héllo"), 1, 3), "él");
}
