use bytes::Bytes;
use livetty::frame::decode_json;
use livetty::manager::{resized, spawn_error, SpawnStage, TermManager};
use livetty::term::{event_frame, event_value, info_value, Event, TermInfo};

fn started(terms: &mut TermManager) -> u64 {
    let spawn = terms.create(None, 24, 80, None, None);
    terms.created(spawn.id, spawn.rows, spawn.cols);
    spawn.id
}

fn sorted(mut v: Vec<u64>) -> Vec<u64> {
    v.sort();
    v
}

#[test]
fn what_is_started() {
    let mut terms = TermManager::new();
    let a = terms.create(
        Some("/work".to_string()),
        30,
        100,
        Some("/bin/zsh".to_string()),
        Some("/home/me".to_string()),
    );
    assert_eq!((a.id, a.rows, a.cols), (1, 30, 100));
    assert_eq!((a.shell.as_str(), a.cwd.as_str()), ("/bin/zsh", "/work"));
    assert_eq!(
        a.env,
        vec![
            ("TERM".to_string(), "xterm-256color".to_string()),
            ("COLORTERM".to_string(), "truecolor".to_string()),
        ]
    );
    let b = terms.create(None, 24, 80, None, Some("/home/me".to_string()));
    assert_eq!((b.id, b.shell.as_str(), b.cwd.as_str()), (2, "/bin/bash", "/home/me"));
    let c = terms.create(None, 24, 80, None, None);
    assert_eq!((c.id, c.cwd.as_str()), (3, "/"));
    assert!(terms.list().is_empty());
}

#[test]
fn listing_is_in_order() {
    let mut terms = TermManager::new();
    for id in [7u64, 3, 11, 1] {
        let (info, ev) = terms.created(id, 10, 20);
        assert_eq!((info.id, info.rows, info.cols, info.exited), (id, 10, 20, false));
        assert_eq!(info.title, "");
        assert!(matches!(ev, Event::Created { term } if term.id == id));
    }
    let ids: Vec<u64> = terms.list().iter().map(|t| t.id).collect();
    assert_eq!(ids, vec![1, 3, 7, 11]);
}

#[test]
fn sub_numbers_count_up() {
    let mut terms = TermManager::new();
    assert_eq!(terms.next_sub_id(), 1);
    assert_eq!(terms.next_sub_id(), 2);
}

#[test]
fn watchers_come_and_go() {
    let mut terms = TermManager::new();
    let id = started(&mut terms);
    let mut p = vt100::Parser::new(24, 80, 10);
    p.process(b"hello");
    let (snap, exited) = terms.attach(id, 1, p.screen_mut()).unwrap();
    assert!(!exited);
    assert_eq!(snap, livetty::screen::dump(p.screen_mut()));
    assert!(terms.attach(99, 1, p.screen_mut()).is_none());
    terms.attach(id, 2, p.screen_mut());
    assert_eq!(sorted(terms.output(id, b"", None).1), vec![1, 2]);
    terms.detach(id, 1);
    assert_eq!(terms.output(id, b"", None).1, vec![2]);
    terms.drop_sub(id, 2);
    assert!(terms.output(id, b"", None).1.is_empty());
    terms.detach(id, 1);
    terms.detach(99, 1);
}

#[test]
fn titles_and_exits() {
    let mut terms = TermManager::new();
    let id = started(&mut terms);
    let (ev, subs) = terms.output(id, b"", Some("vim".to_string()));
    assert!(matches!(ev, Some(Event::Title { id: i, title }) if i == id && title == "vim"));
    assert!(subs.is_empty());
    assert!(terms.output(id, b"", None).0.is_none());
    assert_eq!(terms.list()[0].title, "vim");
    assert!(terms.output(99, b"", Some("x".to_string())).0.is_none());
    let (ev, _) = terms.exit(id);
    assert!(matches!(ev, Event::Exited { id: i } if i == id));
    assert!(terms.list()[0].exited);
    let mut p = vt100::Parser::new(24, 80, 10);
    assert!(terms.attach(id, 5, p.screen_mut()).unwrap().1);
}

#[test]
fn killed_terminals_still_feed_their_watchers() {
    let mut terms = TermManager::new();
    let id = started(&mut terms);
    let mut p = vt100::Parser::new(24, 80, 10);
    terms.attach(id, 4, p.screen_mut());
    assert!(terms.input(id));
    assert!(matches!(terms.kill(id), Some((Event::Removed { id: i }, false)) if i == id));
    assert!(terms.kill(id).is_none());
    assert!(!terms.input(id));
    assert!(terms.list().is_empty());
    assert!(!terms.resize(id, 5, 5));
    assert!(terms.attach(id, 5, p.screen_mut()).is_none());
    assert_eq!(terms.output(id, b"", None).1, vec![4]);
    assert_eq!(terms.exit(id).1, vec![4]);
    assert!(terms.output(id, b"", None).1.is_empty());
}

#[test]
fn ended_terminals_go_at_once() {
    let mut terms = TermManager::new();
    let id = started(&mut terms);
    terms.exit(id);
    let mut p = vt100::Parser::new(24, 80, 10);
    terms.attach(id, 4, p.screen_mut());
    assert!(matches!(terms.kill(id), Some((Event::Removed { .. }, true))));
    assert!(terms.output(id, b"", None).1.is_empty());
    assert!(terms.exit(id).1.is_empty());
}

#[test]
fn terminals_persist_without_watchers() {
    let mut terms = TermManager::new();
    let id = started(&mut terms);
    let mut p = vt100::Parser::new(24, 80, 10);
    terms.attach(id, 1, p.screen_mut());
    terms.detach(id, 1);
    let other = started(&mut terms);
    terms.kill(other);
    assert_eq!(terms.list().len(), 1);
    assert_ne!(started(&mut terms), id);
}

#[test]
fn sizes() {
    let mut terms = TermManager::new();
    let id = started(&mut terms);
    assert!(terms.resize(id, 40, 120));
    assert_eq!((terms.list()[0].rows, terms.list()[0].cols), (40, 120));
    assert!(!terms.resize(99, 40, 120));
    assert!(matches!(
        resized(id, 40, 120, true),
        Some(Event::Resized { id: i, rows: 40, cols: 120 }) if i == id
    ));
    assert!(resized(id, 40, 120, false).is_none());
}

#[test]
fn start_errors() {
    assert_eq!(spawn_error(SpawnStage::OpenPty, "no pty"), "openpty: no pty");
    assert_eq!(spawn_error(SpawnStage::Spawn, "e"), "spawn: e");
    assert_eq!(spawn_error(SpawnStage::CloneReader, "e"), "clone_reader: e");
    assert_eq!(spawn_error(SpawnStage::TakeWriter, "e"), "take_writer: e");
}

#[test]
fn events_as_json() {
    let term = TermInfo { id: 5, title: "a\"b".to_string(), rows: 24, cols: 80, exited: true };
    assert_eq!(
        info_value(&term).to_string(),
        "{\"cols\":80,\"exited\":true,\"id\":5,\"rows\":24,\"title\":\"a\\\"b\"}"
    );
    let cases = [
        (
            Event::Created { term: term.clone() },
            "{\"ev\":\"created\",\"term\":{\"cols\":80,\"exited\":true,\"id\":5,\"rows\":24,\"title\":\"a\\\"b\"}}",
        ),
        (Event::Removed { id: 9 }, "{\"ev\":\"removed\",\"id\":9}"),
        (Event::Exited { id: 9 }, "{\"ev\":\"exited\",\"id\":9}"),
        (
            Event::Title { id: 9, title: "t".to_string() },
            "{\"ev\":\"title\",\"id\":9,\"title\":\"t\"}",
        ),
        (
            Event::Resized { id: 9, rows: 2, cols: 3 },
            "{\"cols\":3,\"ev\":\"resized\",\"id\":9,\"rows\":2}",
        ),
    ];
    for (ev, expected) in cases {
        assert_eq!(event_value(&ev).to_string(), expected);
        let m = Bytes::from(event_frame(&ev));
        assert_eq!(decode_json(&m), Some(event_value(&ev)));
    }
}

#[test]
fn attaching_within_a_sequence() {
    let mut terms = TermManager::new();
    let id = started(&mut terms);
    let mut p = vt100::Parser::new(24, 80, 10);
    p.process(b"ab\x1b[3");
    terms.output(id, b"ab\x1b[3", None);
    let (snap, _) = terms.attach(id, 1, p.screen_mut()).unwrap();
    assert!(snap.ends_with(b"\x1b[1;3H\x1b[3"));
    let mut q = vt100::Parser::new(24, 80, 10);
    q.process(&snap);
    for rest in [&b"1"[..], b"mX"] {
        terms.output(id, rest, None);
        p.process(rest);
        q.process(rest);
    }
    assert_eq!(q.screen().contents(), "abX");
    assert_eq!(q.screen().contents_formatted(), p.screen().contents_formatted());
    let (snap, _) = terms.attach(id, 2, p.screen_mut()).unwrap();
    assert_eq!(snap, livetty::screen::dump(p.screen_mut()));
}
