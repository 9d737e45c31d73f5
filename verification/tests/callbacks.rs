use livetty::callbacks::Cb;

#[test]
fn titles_are_taken_once() {
    let mut cb = Cb::default();
    assert_eq!(cb.take_title(), None);
    cb.set_window_title("één".as_bytes());
    assert_eq!(cb.take_title(), Some("één".to_string()));
    assert_eq!(cb.take_title(), None);
    cb.set_window_title(b"bad \xff byte");
    assert_eq!(cb.take_title(), Some("bad \u{fffd} byte".to_string()));
}

#[test]
fn unknown_sequences_are_noted_once() {
    let mut cb = Cb::default();
    assert_eq!(cb.unhandled_control(0x1f), Some("control 0x1f".to_string()));
    assert_eq!(cb.unhandled_control(0x1f), None);
    assert_eq!(cb.unhandled_control(0x01), Some("control 0x01".to_string()));
    assert_eq!(cb.note_unhandled("control 0x01".to_string()), None);
    let mut other = Cb::default();
    assert_eq!(other.unhandled_control(0x1f), Some("control 0x1f".to_string()));
}

#[test]
fn signatures() {
    let mut cb = Cb::default();
    assert_eq!(cb.unhandled_char('\u{fffd}'), Some("char '\u{fffd}' (U+FFFD)".to_string()));
    assert_eq!(cb.unhandled_char('\n'), Some("char '\\n' (U+000A)".to_string()));
    assert_eq!(cb.unhandled_escape(None, None, b'Z'), Some("ESC Z".to_string()));
    assert_eq!(cb.unhandled_escape(Some(b'('), Some(b'%'), b'0'), Some("ESC (%0".to_string()));
    assert_eq!(
        cb.unhandled_csi(Some(b'?'), None, &[&[1, 2], &[38, 5, 200], &[]], 'h'),
        Some("CSI ?1:2;38:5:200;h".to_string())
    );
    assert_eq!(cb.unhandled_csi(None, None, &[], 'q'), Some("CSI q".to_string()));
    assert_eq!(
        cb.unhandled_osc(&[b"10", b"?", b"\xff"]),
        Some("OSC 10;?;\u{fffd}".to_string())
    );
    assert_eq!(cb.unhandled_osc(&[]), Some("OSC ".to_string()));
}

#[test]
fn notes_from_given_texts() {
    let mut cb = Cb::default();
    assert_eq!(cb.note_char("<x>", 'x'), Some("char <x> (U+0078)".to_string()));
    let params: Vec<Vec<char>> = vec!["4".chars().collect(), vec![], "é".chars().collect()];
    assert_eq!(cb.note_osc(&params), Some("OSC 4;;é".to_string()));
    assert_eq!(cb.note_osc(&params), None);
}
