use livetty::screen::{assemble, cursor_sequence, drawable, dump};

#[test]
fn cursor_sequences() {
    assert_eq!(cursor_sequence(0, 0), b"\x1b[1;1H");
    assert_eq!(cursor_sequence(9, 41), b"\x1b[10;42H");
    assert_eq!(cursor_sequence(u16::MAX, u16::MAX), b"\x1b[65536;65536H");
}

#[test]
fn replay_of_the_alternate_picture() {
    let mut p = vt100::Parser::new(3, 10, 100);
    p.process(b"shell\x1b[?1049h\x1b[Hfull");
    let bytes = dump(p.screen_mut());
    assert!(bytes.starts_with(b"\x1bc\x1b[?1049h"));
    let mut q = vt100::Parser::new(3, 10, 100);
    q.process(&bytes);
    assert!(q.screen().alternate_screen());
    assert_eq!(q.screen().contents(), "full");
    q.process(b"\x1b[?1049l");
    assert_eq!(q.screen().contents(), "");
    p.process(b"\x1b[?1049l");
    assert!(!dump(p.screen_mut()).windows(8).any(|w| w == b"\x1b[?1049h"));
}

#[test]
fn replay_shows_the_same_picture() {
    let mut p = vt100::Parser::new(4, 20, 100);
    p.process(b"one\r\n\x1b[31mtwo\x1b[m\r\nthree\r\nfour\r\nfive\r\nsix\x1b[2;3H");
    let before = p.screen().contents_formatted();
    let bytes = dump(p.screen_mut());
    assert_eq!(p.screen().contents_formatted(), before);
    assert_eq!(&bytes[..2], b"\x1bc");
    assert!(bytes.ends_with(b"\x1b[2;3H"));

    let mut q = vt100::Parser::new(4, 20, 100);
    q.process(&bytes);
    assert_eq!(q.screen().contents(), p.screen().contents());
    assert_eq!(q.screen().cursor_position(), (1, 2));
    q.screen_mut().set_scrollback(2);
    p.screen_mut().set_scrollback(2);
    assert_eq!(q.screen().contents(), p.screen().contents());
    assert_eq!(q.screen().contents(), "one\ntwo\nthree\nfour");
}

#[test]
fn replay_of_a_fresh_screen() {
    let mut p = vt100::Parser::new(2, 10, 100);
    let live = p.screen().state_formatted();
    let bytes = dump(p.screen_mut());
    let mut expected = b"\x1bc".to_vec();
    expected.extend_from_slice(&live);
    expected.extend_from_slice(b"\x1b[1;1H");
    assert_eq!(bytes, expected);
}

#[test]
fn replay_starts_with_the_history() {
    let mut p = vt100::Parser::new(2, 10, 100);
    p.process(b"aa\r\nbb\r\ncc");
    let bytes = dump(p.screen_mut());
    assert!(bytes.starts_with(b"\x1bcaa\x1b[m\r\n\n"));
    assert_eq!(p.screen().scrollback(), 0);
}

#[test]
fn rows_from_before_there_were_columns() {
    let mut p = vt100::Parser::new(2, 0, 100);
    assert!(!drawable(p.screen()));
    p.process(b"\n\n\n");
    p.screen_mut().set_size(2, 10);
    assert!(drawable(p.screen()));
    p.process(b"\x1b[Hxx");
    p.screen_mut().set_scrollback(usize::MAX);
    let above = p.screen().scrollback();
    p.screen_mut().set_scrollback(0);
    assert_eq!(above, 2);
    let bytes = dump(p.screen_mut());
    assert!(bytes.starts_with(b"\x1bc\x1b[m\r\n\x1b[m\r\n\n"));
}

#[test]
fn assembling_a_replay() {
    assert_eq!(assemble(&vec![], b"LIVE", 3, (1, 4), false), b"\x1bcLIVE\x1b[2;5H");
    assert_eq!(
        assemble(&vec![], b"LIVE", 3, (1, 4), true),
        b"\x1bc\x1b[?1049hLIVE\x1b[2;5H"
    );
    assert_eq!(
        assemble(&vec![b"a".to_vec(), vec![]], b"LIVE", 3, (0, 0), false),
        b"\x1bca\x1b[m\r\n\x1b[m\r\n\n\nLIVE\x1b[1;1H"
    );
    assert_eq!(assemble(&vec![b"a".to_vec()], b"", 0, (0, 0), false), b"\x1bca\x1b[m\r\n\x1b[1;1H");
}
