use livetty::tail::{complete, Tail};

fn open(pieces: &[&[u8]]) -> Vec<u8> {
    let mut t = Tail::new();
    for p in pieces {
        t.feed(p);
    }
    t.bytes()
}

#[test]
fn complete_output_has_no_open_end() {
    for data in [
        &b""[..],
        b"plain text\r\n",
        b"\x1b[31mred\x1b[0m",
        b"\x1b]0;title\x07",
        b"\x1b]0;title\x1b\\",
        b"\x1b(B",
        b"\x1b7",
        b"\x1bPdata\x1b\\",
        b"\x1bPdata\x9c",
        b"\x1b_app\x1b\\",
        b"\x1b[3\x18",
        b"\x1b]0;t\x1a",
        "é€😀".as_bytes(),
        b"\xff\x80\xc0",
        b"\xe0\x80",
        b"\xe2\x82x",
    ] {
        assert!(open(&[data]).is_empty(), "{data:x?}");
    }
}

#[test]
fn open_ends() {
    let cases: [(&[u8], &[u8]); 12] = [
        (b"ab\x1b", b"\x1b"),
        (b"ab\x1b[3", b"\x1b[3"),
        (b"\x1b[?25;1", b"\x1b[?25;1"),
        (b"\x1b(", b"\x1b("),
        (b"\x1b]0;half a ti", b"\x1b]0;half a ti"),
        (b"\x1bP1;2qdata", b"\x1bP1;2qdata"),
        (b"\x1b^private", b"\x1b^private"),
        (b"\x1b[3\n1", b"\x1b[31"),
        (b"\x1b[3\x1b]", b"\x1b]"),
        (b"\x1b]0;t\x1b", b"\x1b"),
        (b"x\xe2\x82", b"\xe2\x82"),
        (b"\xe2\xf0\x9f", b"\xf0\x9f"),
    ];
    for (data, tail) in cases {
        assert_eq!(open(&[data]), tail, "{data:x?}");
    }
}

#[test]
fn pieces_do_not_matter() {
    let data = "a\x1b[1;31mé\x1b]0;t\x07€\x1b(B\x1bPq\x1b\\😀\x1b[38;5".as_bytes();
    for i in 0..data.len() {
        for j in i..data.len() {
            let whole = open(&[data]);
            assert_eq!(open(&[&data[..i], &data[i..j], &data[j..]]), whole);
            let before = open(&[&data[..i]]);
            assert_eq!(open(&[&before, &data[i..]]), whole);
        }
    }
    assert_eq!(open(&[data]), b"\x1b[38;5");
}

#[test]
fn attaching_anywhere_shows_the_same_picture() {
    let data = "ab\x1b[1;31mcé\x1b]0;t\x07€\x1b[2;4Hx\x1b(B\x1b[7my\x1bPq\x1b\\z\x1b[0m!".as_bytes();
    for i in 0..data.len() {
        let mut server = vt100::Parser::new(3, 20, 10);
        server.process(&data[..i]);
        let mut client = vt100::Parser::new(3, 20, 10);
        client.process(&livetty::screen::dump(server.screen_mut()));
        client.process(&open(&[&data[..i]]));
        server.process(&data[i..]);
        client.process(&data[i..]);
        assert_eq!(client.screen().contents_formatted(), server.screen().contents_formatted(), "{i}");
    }
}

#[test]
fn complete_parts() {
    assert_eq!(complete(b""), b"");
    assert_eq!(complete(b"ab"), b"ab");
    assert_eq!(complete(b"ab\x1b[3"), b"ab");
    assert_eq!(complete(b"ab\x1b[31m"), b"ab\x1b[31m");
    assert_eq!(complete(b"ab\x1b[31mc\xe2\x82"), b"ab\x1b[31mc");
    assert_eq!(complete(b"\x1b]0;t"), b"");
}
