use livetty::keys::{render_key, render_keys, unescape};

#[test]
fn escapes() {
    assert_eq!(unescape("ls\\n"), b"ls\n");
    assert_eq!(unescape("\\r\\t\\\\\\0\\e"), vec![13, 9, 92, 0, 27]);
    assert_eq!(unescape("\\x1b[A"), b"\x1b[A");
    assert_eq!(unescape("\\xfF"), vec![255]);
    assert_eq!(unescape("\\xzz"), b"?");
    assert_eq!(unescape("\\x4"), b"@");
    assert_eq!(unescape("\\x"), vec![0]);
    assert_eq!(unescape("\\q\\é"), "\\q\\é".as_bytes());
    assert_eq!(unescape("end\\"), b"end\\");
    assert_eq!(unescape("\\x+1"), vec![1]);
}

#[test]
fn plain_text_stays() {
    for s in ["", "hello", "déjà vu 😀", "line\nline"] {
        assert_eq!(unescape(s), s.as_bytes());
    }
}

#[test]
fn doubled_backslashes_arrive_once() {
    for s in ["\\", "a\\b", "\\\\n", "x"] {
        assert_eq!(unescape(&s.replace('\\', "\\\\")), s.as_bytes());
    }
}

#[test]
fn named_keys() {
    let cases: [(&str, &[u8]); 31] = [
        ("Enter", b"\r"),
        ("Return", b"\r"),
        ("CR", b"\r"),
        ("Tab", b"\t"),
        ("Backspace", b"\x7f"),
        ("BS", b"\x7f"),
        ("Space", b" "),
        ("Esc", b"\x1b"),
        ("Escape", b"\x1b"),
        ("Up", b"\x1b[A"),
        ("Down", b"\x1b[B"),
        ("Right", b"\x1b[C"),
        ("Left", b"\x1b[D"),
        ("Home", b"\x1b[H"),
        ("End", b"\x1b[F"),
        ("PgUp", b"\x1b[5~"),
        ("PageUp", b"\x1b[5~"),
        ("PgDn", b"\x1b[6~"),
        ("PageDown", b"\x1b[6~"),
        ("Delete", b"\x1b[3~"),
        ("Del", b"\x1b[3~"),
        ("F1", b"\x1bOP"),
        ("F4", b"\x1bOS"),
        ("F5", b"\x1b[15~"),
        ("F6", b"\x1b[17~"),
        ("F8", b"\x1b[19~"),
        ("F9", b"\x1b[20~"),
        ("F10", b"\x1b[21~"),
        ("F11", b"\x1b[23~"),
        ("F12", b"\x1b[24~"),
        ("F2", b"\x1bOQ"),
    ];
    for (name, bytes) in cases {
        assert_eq!(render_key(name), Some(bytes.to_vec()), "{name}");
    }
    assert_eq!(render_key("F3"), Some(b"\x1bOR".to_vec()));
    assert_eq!(render_key("F7"), Some(b"\x1b[18~".to_vec()));
    assert_eq!(render_key("enter"), None);
    assert_eq!(render_key("F13"), None);
    assert_eq!(render_key("a"), None);
    assert_eq!(render_key(""), None);
}

#[test]
fn control_keys() {
    assert_eq!(render_key("C-c"), Some(vec![3]));
    assert_eq!(render_key("C-C"), Some(vec![3]));
    assert_eq!(render_key("Ctrl-z"), Some(vec![26]));
    assert_eq!(render_key("Ctrl-Z"), Some(vec![26]));
    assert_eq!(render_key("C-@"), Some(vec![0]));
    assert_eq!(render_key("C- "), Some(vec![0]));
    assert_eq!(render_key("C-["), Some(vec![0x1b]));
    assert_eq!(render_key("C-\\"), Some(vec![0x1c]));
    assert_eq!(render_key("C-]"), Some(vec![0x1d]));
    assert_eq!(render_key("C-^"), Some(vec![0x1e]));
    assert_eq!(render_key("C-_"), Some(vec![0x1f]));
    assert_eq!(render_key("C-?"), Some(vec![0x7f]));
    assert_eq!(render_key("C-1"), None);
    assert_eq!(render_key("C-ab"), None);
    assert_eq!(render_key("C-"), None);
}

#[test]
fn alt_keys() {
    assert_eq!(render_key("M-x"), Some(b"\x1bx".to_vec()));
    assert_eq!(render_key("Alt-Up"), Some(b"\x1b\x1b[A".to_vec()));
    assert_eq!(render_key("M-C-c"), Some(vec![0x1b, 3]));
    assert_eq!(render_key("M-M-x"), Some(b"\x1b\x1bx".to_vec()));
    assert_eq!(render_key("M-é"), Some("\x1bé".as_bytes().to_vec()));
    assert_eq!(render_key("M-"), Some(vec![0x1b]));
}

#[test]
fn lists_of_keys() {
    assert_eq!(render_keys("C-c, Up ,Enter"), Ok(b"\x03\x1b[A\r".to_vec()));
    assert_eq!(render_keys(""), Ok(vec![]));
    assert_eq!(render_keys(" , ,"), Ok(vec![]));
    assert_eq!(render_keys("Up,Nope,Bad"), Err("Nope".chars().collect()));
}
