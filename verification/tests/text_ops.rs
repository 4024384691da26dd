use plate::text::{chars_of, decimal_string, parse_usize_in, split_in, trim_in};

fn pieces(s: &str, sep: &str) -> Vec<String> {
    let cs = chars_of(s);
    let sep_cs: Vec<char> = sep.chars().collect();
    split_in(&cs, 0, cs.len(), &sep_cs)
        .iter()
        .map(|(a, b)| cs[*a..*b].iter().collect())
        .collect()
}

fn parse(s: &str) -> Option<usize> {
    let cs = chars_of(s);
    parse_usize_in(&cs, 0, cs.len())
}

#[test]
fn split_matches_str_split() {
    for (s, sep) in [
        ("a\r\nb\r\n\r\nc", "\r\n"),
        ("", "&"),
        ("&&", "&"),
        ("x=1&y=2", "&"),
        ("GET /  HTTP/1.1", " "),
        ("aaa", "aa"),
    ] {
        let expected: Vec<String> = s.split(sep).map(|p| p.to_string()).collect();
        assert_eq!(pieces(s, sep), expected);
    }
}

#[test]
fn trim_removes_unicode_white_space() {
    let cs = chars_of("\u{3000} \t42\r\n\u{a0}");
    let (a, b) = trim_in(&cs, 0, cs.len());
    let t: String = cs[a..b].iter().collect();
    assert_eq!(t, "42");
    let cs = chars_of("   ");
    let (a, b) = trim_in(&cs, 0, cs.len());
    assert_eq!(a, b);
}

#[test]
fn parse_agrees_with_std() {
    for s in ["0", "42", "+7", "", "+", "-1", "12a", "007", "18446744073709551615", "18446744073709551616", "99999999999999999999999"] {
        assert_eq!(parse(s), s.parse::<usize>().ok(), "input {:?}", s);
    }
}

#[test]
fn decimal_text_of_numbers() {
    assert_eq!(decimal_string(0), "0");
    assert_eq!(decimal_string(7), "7");
    assert_eq!(decimal_string(404), "404");
    assert_eq!(decimal_string(1234567890123), "1234567890123");
}

#[test]
fn decimal_text_reads_back() {
    for n in [0usize, 1, 9, 10, 65535, usize::MAX] {
        let s = decimal_string(n as u128);
        assert_eq!(parse(&s), Some(n));
    }
}
