use rustboard::text::{
    decimal_chars, find_text, hex_chars, is_space_char, lines_of, parse_unsigned_chars, split_chars, trim_chars,
    zero_pad_chars,
};

fn v(s: &str) -> Vec<char> {
    s.chars().collect()
}

fn t(c: &[char]) -> String {
    c.iter().collect()
}

#[test]
fn whitespace_matches_std() {
    for c in ['\t', '\n', '\u{b}', '\u{c}', '\r', ' ', '\u{85}', '\u{a0}', '\u{1680}', '\u{2000}', '\u{200a}', '\u{2028}', '\u{2029}', '\u{202f}', '\u{205f}', '\u{3000}', 'a', '0', '\u{200b}', '\u{feff}', '\u{180e}'] {
        assert_eq!(is_space_char(c), c.is_whitespace(), "{:?}", c);
    }
}

#[test]
fn trim_matches_std() {
    for s in ["  a b  ", "", "   ", "\u{3000}x\t", "x"] {
        assert_eq!(t(&trim_chars(&v(s))), s.trim());
    }
}

#[test]
fn split_and_lines_match_std() {
    for s in ["a,b,,c", "", ",", "abc"] {
        let got: Vec<String> = split_chars(&v(s), ',').iter().map(|p| t(p)).collect();
        let want: Vec<String> = s.split(',').map(|p| p.to_string()).collect();
        assert_eq!(got, want);
    }
    for s in ["a\nb", "a\n", "", "\n", "a\r\nb\r", "x\r\n\r\ny"] {
        let got: Vec<String> = lines_of(&v(s)).iter().map(|p| t(p)).collect();
        let want: Vec<String> = s.lines().map(|p| p.to_string()).collect();
        assert_eq!(got, want, "{:?}", s);
    }
}

#[test]
fn find_matches_std() {
    assert_eq!(find_text(&v("0.0.0.0:80->8"), &v("->")), Some(10));
    assert_eq!(find_text(&v("abc"), &v("->")), None);
    assert_eq!(find_text(&v("abc"), &v("")), Some(0));
}

#[test]
fn numbers_parse_as_std() {
    for s in ["0", "65535", "65536", "+7", "+", "-1", "", "12a", "007"] {
        let got = parse_unsigned_chars(&v(s), 65535).map(|x| x as u16);
        assert_eq!(got, s.parse::<u16>().ok(), "{:?}", s);
    }
    for s in ["18446744073709551615", "18446744073709551616", "42"] {
        assert_eq!(parse_unsigned_chars(&v(s), u64::MAX), s.parse::<u64>().ok());
    }
}

#[test]
fn numbers_print_as_std() {
    for n in [0u64, 7, 10, 200, 65535, u64::MAX] {
        assert_eq!(t(&decimal_chars(n)), n.to_string());
        assert_eq!(t(&hex_chars(n)), format!("{:x}", n));
    }
    assert_eq!(t(&zero_pad_chars(&v("ab"), 5)), "000ab");
    assert_eq!(t(&zero_pad_chars(&v("abcdef"), 3)), "abcdef");
}
