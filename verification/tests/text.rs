use livetty::text::{
    align_left, align_right, append, chars_of, decimal_chars, hex_digit_char, hex_upper_chars, join,
    same_chars, same_str, spells, split, string_of, strip_prefix, trim, utf8_bytes, white_space,
};

fn text(chars: &[char]) -> String {
    chars.iter().collect()
}

fn parts(s: &str, sep: char) -> Vec<String> {
    split(&chars_of(s), sep).iter().map(|p| text(p)).collect()
}

#[test]
fn chars_and_strings() {
    assert_eq!(chars_of("aé€😀"), vec!['a', 'é', '€', '😀']);
    assert_eq!(string_of(&['a', 'é', '€', '😀']), "aé€😀");
    let mut out = vec!['x'];
    append(&mut out, "yé");
    assert_eq!(text(&out), "xyé");
    assert_eq!(utf8_bytes(&['é', '€']), vec![0xc3, 0xa9, 0xe2, 0x82, 0xac]);
}

#[test]
fn comparing() {
    assert!(same_chars(&['a', 'b'], &['a', 'b']));
    assert!(!same_chars(&['a', 'b'], &['a', 'c']));
    assert!(!same_chars(&['a'], &['a', 'b']));
    assert!(spells(&['o', 'k'], "ok"));
    assert!(!spells(&['o', 'k'], "okay"));
    assert!(same_str("", ""));
    assert!(!same_str("a", "A"));
}

#[test]
fn prefixes() {
    assert_eq!(strip_prefix(&chars_of("session=x"), "session="), Some(vec!['x']));
    assert_eq!(strip_prefix(&chars_of("session="), "session="), Some(vec![]));
    assert_eq!(strip_prefix(&chars_of("sess"), "session="), None);
    assert_eq!(strip_prefix(&chars_of("Session=x"), "session="), None);
}

#[test]
fn cutting_and_joining() {
    assert_eq!(parts("", ','), vec![""]);
    assert_eq!(parts(",", ','), vec!["", ""]);
    assert_eq!(parts("a,b,,c", ','), vec!["a", "b", "", "c"]);
    for s in ["", "/", "a/b", "//a//", "x/y/"] {
        let cut = split(&chars_of(s), '/');
        assert_eq!(text(&join(&cut, '/')), s);
        assert!(cut.iter().all(|p| !p.contains(&'/')));
    }
}

#[test]
fn trimming_like_std() {
    for s in ["", " ", " a ", "\ta b\n", "\u{a0}x\u{3000}", "a", "\u{200b}a", "\u{85}\u{2003}z\u{1680}"] {
        assert_eq!(text(&trim(&chars_of(s))), s.trim());
    }
    for n in 0u32..0x11000 {
        if let Some(c) = char::from_u32(n) {
            assert_eq!(white_space(c), c.is_whitespace(), "{n:x}");
        }
    }
}

#[test]
fn numbers() {
    for n in [0u64, 7, 10, 99, 100, 12345, u64::MAX] {
        assert_eq!(text(&decimal_chars(n)), n.to_string());
    }
    for n in [0u32, 9, 10, 0x41, 0xfff, 0x1f600, u32::MAX] {
        assert_eq!(text(&hex_upper_chars(n, 4)), format!("{:04X}", n));
        assert_eq!(text(&hex_upper_chars(n, 1)), format!("{:X}", n));
    }
    assert_eq!(hex_digit_char(10, true), 'A');
    assert_eq!(hex_digit_char(15, false), 'f');
    assert_eq!(hex_digit_char(9, false), '9');
}

#[test]
fn aligning_like_std() {
    for s in ["", "a", "ab", "abc", "abcd", "é"] {
        assert_eq!(text(&align_left(&chars_of(s), 3)), format!("{:<3}", s));
        assert_eq!(text(&align_right(&chars_of(s), 3)), format!("{:>3}", s));
    }
}
