use axum::http::{HeaderMap, HeaderValue};
use bytes::Bytes;
use livetty::auth::TrustedLocal;
use livetty::client::{
    kill, ls, new_term, new_timeout, patience, run, terminal_row, Op, Snap, Verdict, HELLO_WAIT_MS,
    SEND_PAUSE_MS,
};
use livetty::config::with_password;
use livetty::frame::{bytes_frame, decode, decode_json, frame, FT_BYTES, FT_JSON, SLICE};
use livetty::manager::{SpawnStage, TermManager};
use livetty::reply::Body;
use livetty::term::{Event, SubMsg, TermInfo};
use livetty::ws::{
    admits, attached, create_ok, error, forward, handle_op, hello, missing, not_opened, opened, origin_ok, receive,
    relay, show, ws_handler, Heard, Incoming, Received, Relay, Todo,
};
use serde_json::Value;

fn said(m: &Bytes) -> String {
    decode_json(m).unwrap().to_string()
}

fn value(s: &str) -> Value {
    serde_json::from_str(s).unwrap()
}

fn from(origin: Option<&str>, host: Option<&str>) -> HeaderMap {
    let mut h = HeaderMap::new();
    if let Some(o) = origin {
        h.insert("origin", HeaderValue::from_str(o).unwrap());
    }
    if let Some(o) = host {
        h.insert("host", HeaderValue::from_str(o).unwrap());
    }
    h
}

#[test]
fn origins() {
    let mut cfg = with_password("pw".to_string());
    cfg.allowed_origins = vec!["http://localhost:5173".to_string()];
    let ok = |origin, host| origin_ok(&from(origin, host), &cfg);
    assert!(ok(Some("https://me.example"), Some("me.example")));
    assert!(ok(Some("http://localhost:8737"), Some("localhost:8737")));
    assert!(ok(Some("http://localhost:5173"), Some("localhost:8737")));
    assert!(ok(Some("http://localhost:5173"), None));
    assert!(!ok(None, Some("me.example")));
    assert!(!ok(Some("https://evil.example"), Some("me.example")));
    assert!(!ok(Some("ftp://me.example"), Some("me.example")));
    assert!(!ok(Some("me.example"), Some("me.example")));
    assert!(!ok(Some("https://"), Some("")));
    assert!(!ok(Some("https://"), None));
    assert!(!ok(Some("https://ME.example"), Some("me.example")));
    let refused = ws_handler(&cfg, &from(None, None), None).unwrap();
    assert_eq!(refused.status, 403);
    assert!(matches!(refused.body, Body::Text(s) if s == "bad origin"));
    assert!(ws_handler(&cfg, &from(None, None), Some(TrustedLocal)).is_none());
    assert!(ws_handler(&cfg, &from(Some("https://a"), Some("a")), None).is_none());
}

#[test]
fn messages_to_clients() {
    let t = TermInfo { id: 2, title: "x".to_string(), rows: 3, cols: 4, exited: false };
    let info = "{\"cols\":4,\"exited\":false,\"id\":2,\"rows\":3,\"title\":\"x\"}";
    assert_eq!(said(&hello(&vec![])), "{\"ev\":\"hello\",\"terminals\":[]}");
    assert_eq!(
        said(&hello(&vec![t.clone(), t.clone()])),
        format!("{{\"ev\":\"hello\",\"terminals\":[{info},{info}]}}")
    );
    assert_eq!(said(&create_ok(&t)), format!("{{\"ev\":\"create_ok\",\"term\":{info}}}"));
    assert_eq!(said(&error("bad".to_string())), "{\"ev\":\"error\",\"msg\":\"bad\"}");
    assert_eq!(
        said(&attached(7, 8, true)),
        "{\"ev\":\"attached\",\"exited\":true,\"id\":7,\"sub\":8}"
    );
    assert_eq!(said(&missing(7)), "{\"ev\":\"error\",\"msg\":\"terminal 7 not found\"}");
    assert_eq!(
        said(&not_opened(SpawnStage::Spawn, "enoent")),
        "{\"ev\":\"error\",\"msg\":\"spawn: enoent\"}"
    );
}

#[test]
fn messages_from_clients() {
    let typed = receive(&Incoming::Binary(Bytes::from(bytes_frame(6, b"ls\n"))));
    assert!(matches!(typed, Received::Input { id: 6, data } if &data[..] == b"ls\n"));
    let control = receive(&Incoming::Binary(Bytes::from(frame(FT_JSON, 0, b"{}"))));
    assert!(matches!(control, Received::Control { payload } if &payload[..] == b"{}"));
    for b in [&b""[..], b"\x00\x00\x00\x00", b"\x02\x00\x00\x00\x00xx"] {
        let r = receive(&Incoming::Binary(Bytes::copy_from_slice(b)));
        assert!(matches!(r, Received::Ignore));
    }
    assert!(matches!(receive(&Incoming::Other), Received::Ignore));
    assert!(matches!(receive(&Incoming::Close), Received::Stop));
}

#[test]
fn relaying_events() {
    match relay(&Heard::Event(&Event::Removed { id: 3 })) {
        Relay::Send(m) => assert_eq!(said(&m), "{\"ev\":\"removed\",\"id\":3}"),
        _ => panic!("not sent"),
    }
    assert!(matches!(relay(&Heard::Missed), Relay::Skip));
    assert!(matches!(relay(&Heard::Over), Relay::Stop));
}

fn open(terms: &mut TermManager) -> u64 {
    let op = livetty::ws::Op::Create { cwd: None, rows: 5, cols: 10 };
    match handle_op(terms, op, None, None) {
        Todo::Start(spawn) => {
            opened(terms, &spawn);
            spawn.id
        }
        _ => panic!("not started"),
    }
}

#[test]
fn creating() {
    let mut terms = TermManager::new();
    let op = livetty::ws::Op::Create { cwd: Some("/w".to_string()), rows: 5, cols: 10 };
    match handle_op(&mut terms, op, Some("/bin/sh".to_string()), None) {
        Todo::Start(spawn) => {
            assert_eq!((spawn.id, spawn.rows, spawn.cols), (1, 5, 10));
            assert_eq!((spawn.shell.as_str(), spawn.cwd.as_str()), ("/bin/sh", "/w"));
            let (m, ev) = opened(&mut terms, &spawn);
            assert_eq!(
                said(&m),
                "{\"ev\":\"create_ok\",\"term\":{\"cols\":10,\"exited\":false,\"id\":1,\"rows\":5,\"title\":\"\"}}"
            );
            assert!(matches!(ev, Event::Created { term } if term.id == 1));
        }
        _ => panic!("not started"),
    }
    assert_eq!(terms.list().len(), 1);
}

#[test]
fn other_operations() {
    let mut terms = TermManager::new();
    let id = open(&mut terms);
    let missing = |t: Todo| match t {
        Todo::Send(m) => assert_eq!(said(&m), "{\"ev\":\"error\",\"msg\":\"terminal 99 not found\"}"),
        _ => panic!("found"),
    };
    missing(handle_op(&mut terms, livetty::ws::Op::Attach { id: 99 }, None, None));
    missing(handle_op(&mut terms, livetty::ws::Op::Kill { id: 99 }, None, None));
    let r = handle_op(&mut terms, livetty::ws::Op::Resize { id, rows: 0, cols: 1 }, None, None);
    assert!(matches!(r, Todo::Fit { id: i, rows: 2, cols: 2 } if i == id));
    let r = handle_op(&mut terms, livetty::ws::Op::Resize { id, rows: 30, cols: 2 }, None, None);
    assert!(matches!(r, Todo::Fit { rows: 30, cols: 2, .. }));
    let r = handle_op(&mut terms, livetty::ws::Op::Resize { id: 99, rows: 3, cols: 3 }, None, None);
    assert!(matches!(r, Todo::Nothing));
    match handle_op(&mut terms, livetty::ws::Op::List, None, None) {
        Todo::Send(m) => assert_eq!(
            said(&m),
            "{\"ev\":\"hello\",\"terminals\":[{\"cols\":2,\"exited\":false,\"id\":1,\"rows\":30,\"title\":\"\"}]}"
        ),
        _ => panic!("not listed"),
    }
    let r = handle_op(&mut terms, livetty::ws::Op::Detach { id, sub: 1 }, None, None);
    assert!(matches!(r, Todo::Leave { id: i, sub: 1 } if i == id));
    let r = handle_op(&mut terms, livetty::ws::Op::Detach { id: 99, sub: 1 }, None, None);
    assert!(matches!(r, Todo::Nothing));
    let r = handle_op(&mut terms, livetty::ws::Op::Kill { id }, None, None);
    assert!(matches!(
        r,
        Todo::End { id: i, event: Event::Removed { id: j }, over: false } if i == id && j == id
    ));
    assert!(terms.list().is_empty());
}

#[test]
fn snapshots_arrive() {
    let mut terms = TermManager::new();
    let id = open(&mut terms);
    let mut p = vt100::Parser::new(50, 200, 5000);
    for i in 0..600 {
        p.process(format!("line {i} {}\r\n", "x".repeat(150)).as_bytes());
    }
    let sub = match handle_op(&mut terms, livetty::ws::Op::Attach { id }, None, None) {
        Todo::Show { id: i, sub } if i == id => sub,
        _ => panic!("not found"),
    };
    let msgs = show(&mut terms, id, sub, p.screen_mut()).unwrap();
    assert_eq!(
        said(&msgs[0]),
        format!("{{\"ev\":\"attached\",\"exited\":false,\"id\":{id},\"sub\":{sub}}}")
    );
    let bytes = livetty::screen::dump(p.screen_mut());
    assert!(bytes.len() > SLICE && msgs.len() == 1 + bytes.len().div_ceil(SLICE));
    let mut snap = Snap::new(id);
    let last = msgs.len() - 1;
    for (i, m) in msgs.iter().enumerate() {
        assert_eq!(snap.take(m), i < last);
    }
    assert_eq!(snap.finish(), Ok(bytes));
    assert_eq!(terms.output(id, b"", None).1, vec![sub]);
    assert!(show(&mut terms, 99, sub, p.screen_mut()).is_none());
}

#[test]
fn snapshots_pass_over_other_terminals() {
    let mut snap = Snap::new(3);
    let full = vec![b'a'; SLICE];
    assert!(snap.take(&attached(3, 1, false)));
    assert!(snap.take(&Bytes::from(bytes_frame(3, &full))));
    assert!(snap.take(&Bytes::from(bytes_frame(4, b"zz"))));
    assert!(snap.take(&Bytes::from_static(b"\x00\x03")));
    assert!(snap.take(&Bytes::from(frame(FT_JSON, 3, b"not json"))));
    assert!(snap.take(&Bytes::from(frame(9, 3, b"zz"))));
    assert!(snap.take(&hello(&vec![])));
    assert!(!snap.take(&Bytes::from(bytes_frame(3, b"c"))));
    assert_eq!(snap.finish(), Ok([&full[..], b"c"].concat()));
}

#[test]
fn failing_snapshots() {
    let mut snap = Snap::new(3);
    assert!(snap.take(&Bytes::from(bytes_frame(3, b"ab"))));
    assert_eq!(snap.finish(), Err("wt: never received attached event".to_string()));
    let mut snap = Snap::new(3);
    assert!(!snap.take(&error("terminal 3 not found".to_string())));
    assert_eq!(snap.finish(), Err("wt: terminal 3 not found".to_string()));
    let mut snap = Snap::new(3);
    assert!(!snap.take(&Bytes::from(frame(FT_JSON, 0, b"{\"ev\":\"error\"}"))));
    assert_eq!(snap.finish(), Err("wt: attach error".to_string()));
    let mut large = Snap::new(0x1_0000_0003);
    assert!(large.take(&attached(0x1_0000_0003, 1, false)));
    assert!(large.take(&Bytes::from(bytes_frame(0x1_0000_0003, b"ab"))));
    assert_eq!(large.finish(), Ok(vec![]));
}

#[test]
fn busy_terminals_are_printed() {
    let mut snap = Snap::new(3);
    let full = vec![b'a'; SLICE];
    assert!(snap.take(&attached(3, 1, false)));
    assert!(snap.take(&Bytes::from(bytes_frame(3, &full))));
    assert!(!snap.take(&Bytes::from(bytes_frame(3, b"tick"))));
    let mut early = Snap::new(3);
    assert!(early.take(&Bytes::from(bytes_frame(3, b"x"))));
}

#[test]
fn snapshots_end_with_a_whole_sequence() {
    let mut snap = Snap::new(3);
    assert!(snap.take(&attached(3, 1, false)));
    assert!(!snap.take(&Bytes::from(bytes_frame(3, b"ab\x1b[3"))));
    assert_eq!(snap.finish(), Ok(b"ab".to_vec()));
}

#[test]
fn waiting() {
    let new = Op::New { cwd: None, rows: 1, cols: 1 };
    assert_eq!(patience(&new, 0), Some(2000));
    assert_eq!(patience(&new, 2999), Some(2000));
    assert_eq!(patience(&new, 3000), None);
    assert_eq!(patience(&Op::Kill { id: 1 }, 1999), Some(600));
    assert_eq!(patience(&Op::Kill { id: 1 }, 2000), None);
    assert_eq!(patience(&Op::Snap { id: 1 }, 60000), Some(600));
    assert_eq!(patience(&Op::Ls, 0), None);
    assert_eq!(patience(&Op::Type { id: 1, text: String::new() }, 0), None);
    assert_eq!(patience(&Op::Keys { id: 1, keys: String::new() }, 0), None);
    assert_eq!((HELLO_WAIT_MS, SEND_PAUSE_MS), (2000, 80));
}

#[test]
fn live_streams() {
    let data = vec![7u8; SLICE + 1];
    let frames = forward(5, &SubMsg::Output { data: Bytes::from(data) }).unwrap();
    assert_eq!(frames.len(), 2);
    assert_eq!(&frames[1][..], &[FT_BYTES, 5, 0, 0, 0, 7]);
    assert!(forward(5, &SubMsg::Exited).is_none());
}

fn sent(op: Op) -> (u8, u64, String) {
    let f = decode(&Bytes::from(run(&op).unwrap().unwrap())).unwrap();
    (f.kind, f.id, String::from_utf8(f.payload.to_vec()).unwrap())
}

#[test]
fn what_commands_send() {
    assert_eq!(run(&Op::Ls), Ok(None));
    assert_eq!(
        sent(Op::New { cwd: None, rows: 24, cols: 80 }),
        (FT_JSON, 0, "{\"cols\":80,\"op\":\"create\",\"rows\":24}".to_string())
    );
    assert_eq!(
        sent(Op::New { cwd: Some("/w".to_string()), rows: 24, cols: 80 }).2,
        "{\"cols\":80,\"cwd\":\"/w\",\"op\":\"create\",\"rows\":24}"
    );
    assert_eq!(
        sent(Op::Snap { id: 4 }),
        (FT_JSON, 0, "{\"id\":4,\"op\":\"attach\"}".to_string())
    );
    assert_eq!(sent(Op::Kill { id: 4 }).2, "{\"id\":4,\"op\":\"kill\"}");
    assert_eq!(
        sent(Op::Type { id: 4, text: "ls\\n".to_string() }),
        (FT_BYTES, 4, "ls\n".to_string())
    );
    assert_eq!(
        sent(Op::Keys { id: 4, keys: "C-c,Enter".to_string() }),
        (FT_BYTES, 4, "\u{3}\r".to_string())
    );
    assert_eq!(
        run(&Op::Keys { id: 4, keys: "Up, Nope".to_string() }),
        Err("wt: unknown key 'Nope'".to_string())
    );
}

#[test]
fn lists() {
    assert_eq!(ls(None), Err("wt: no hello from server".to_string()));
    for none in ["{}", "[]", "{\"terminals\":3}", "{\"terminals\":[]}"] {
        assert_eq!(ls(Some(&value(none))), Ok(vec!["(no terminals)".to_string()]));
    }
    let t = |id, title: &str, exited| TermInfo {
        id,
        title: title.to_string(),
        rows: 24,
        cols: 80,
        exited,
    };
    let long = "y".repeat(60);
    let odd = format!("{}é", "z".repeat(49));
    let hello = hello(&vec![t(1, "vim", false), t(12345, &long, true), t(2, &odd, false)]);
    assert_eq!(
        ls(decode_json(&hello).as_ref()),
        Ok(vec![
            format!("{:>4}  {:<50}  {:>6}  {}", "ID", "TITLE", "SIZE", "STATUS"),
            format!("{:>4}  {:<50}  {:>3}x{:<2}  {}", 1, "vim", 24, 80, "alive"),
            format!("{:>4}  {:<50}  {:>3}x{:<2}  {}", 12345, "y".repeat(50), 24, 80, "exited"),
            format!("{:>4}  {:<50}  {:>3}x{:<2}  {}", 2, "z".repeat(49), 24, 80, "alive"),
        ])
    );
}

#[test]
fn long_titles() {
    let row = |title: &str| terminal_row(&value(&format!("{{\"title\":\"{title}\"}}")));
    let line = |title: &str| format!("   0  {:<50}    0x0   alive", title);
    assert_eq!(row(&"é".repeat(30)), line(&"é".repeat(25)));
    assert_eq!(row(&format!("x{}", "é".repeat(30))), line(&format!("x{}", "é".repeat(24))));
    assert_eq!(row(&"😀".repeat(13)), line(&"😀".repeat(12)));
    assert_eq!(row(&"é".repeat(25)), line(&"é".repeat(25)));
    assert_eq!(
        terminal_row(&value("{\"id\":-1,\"title\":5,\"rows\":1.5,\"exited\":\"yes\"}")),
        line("")
    );
}

fn verdict(v: Verdict) -> String {
    match v {
        Verdict::Done(s) => format!("done {s}"),
        Verdict::Failed(s) => format!("failed {s}"),
        Verdict::Wait => "wait".to_string(),
    }
}

#[test]
fn new_terminals() {
    let of = |s: &str| verdict(new_term(&value(s)));
    assert_eq!(of("{\"ev\":\"create_ok\",\"term\":{\"id\":7}}"), "done 7");
    assert_eq!(of("{\"ev\":\"created\",\"term\":{\"id\":8}}"), "wait");
    assert_eq!(of("{\"ev\":\"create_ok\",\"term\":{}}"), "wait");
    assert_eq!(of("{\"ev\":\"create_ok\"}"), "wait");
    assert_eq!(of("{\"ev\":\"error\",\"msg\":\"spawn: no\"}"), "failed wt: spawn: no");
    assert_eq!(of("{\"ev\":\"error\"}"), "failed wt: create failed");
    assert_eq!(of("{\"ev\":\"title\"}"), "wait");
    assert_eq!(of("{}"), "wait");
    assert_eq!(new_timeout(), "wt: create timed out waiting for create_ok");
    let t = TermInfo { id: 9, title: String::new(), rows: 3, cols: 4, exited: false };
    assert_eq!(verdict(new_term(&decode_json(&create_ok(&t)).unwrap())), "done 9");
}

#[test]
fn killed_terminals() {
    let of = |s: &str| verdict(kill(&value(s), 7));
    assert_eq!(of("{\"ev\":\"removed\",\"id\":7}"), "done ");
    assert_eq!(of("{\"ev\":\"removed\",\"id\":8}"), "wait");
    assert_eq!(of("{\"ev\":\"error\",\"msg\":\"terminal 7 not found\"}"), "failed wt: terminal 7 not found");
    assert_eq!(of("{\"ev\":\"error\"}"), "failed wt: kill failed");
    assert_eq!(of("{\"ev\":\"exited\",\"id\":7}"), "wait");
}

#[test]
fn origins_from_given_texts() {
    let chars = |s: &str| Some(s.chars().collect::<Vec<char>>());
    let allowed = vec!["app://x".to_string()];
    assert!(admits(&chars("https://h"), &chars("h"), &allowed));
    assert!(admits(&chars("app://x"), &None, &allowed));
    assert!(!admits(&chars("app://y"), &chars("y"), &allowed));
    assert!(!admits(&None, &chars("h"), &allowed));
    assert!(!admits(&chars("https://h"), &None, &allowed));
}

#[test]
fn snapshots_hear_events() {
    let mut snap = Snap::new(1);
    assert!(snap.hear(&value("{\"ev\":\"attached\"}")));
    assert!(snap.hear(&value("{\"ev\":\"title\"}")));
    assert!(!snap.hear(&value("{\"ev\":\"error\",\"msg\":\"m\"}")));
    assert_eq!(snap.finish(), Err("wt: m".to_string()));
}
