use livetty::config::{
    config_from, d_bind, d_port, load_or_create_config, page, page_reply, read_config, refuse_to_start,
    sock_path, start_with, static_handler, with_password, write_config, Config, Start, Stored,
    CONFIG_MODE,
};
use livetty::reply::{Body, Reply};
use serde_json::Value;

fn first(path: &str) -> Start {
    load_or_create_config(path, Stored::Missing).unwrap_or_else(|e| panic!("{e}"))
}

#[test]
fn first_settings() {
    let s = first("my.json");
    let c = s.config;
    assert_eq!(c.password.len(), 24);
    assert!(c.password.chars().all(|x| x.is_ascii_alphanumeric()));
    assert_eq!((c.port, c.bind.as_str()), (8737, "127.0.0.1"));
    assert_eq!((d_port(), d_bind().as_str()), (8737, "127.0.0.1"));
    assert!(c.allowed_origins.is_empty());
    assert_ne!(first("my.json").config.password, c.password);
    assert_eq!(CONFIG_MODE, 0o600);
    assert_eq!(refuse_to_start(&c, "my.json"), None);
    let w = s.write.unwrap();
    assert_eq!((w.path.as_str(), w.mode), ("my.json", 0o600));
    assert!(w.content.contains(&c.password));
    assert_eq!(s.notice, Some(format!("wrote my.json, initial password: {}", c.password)));
}

#[test]
fn written_settings() {
    let s = start_with("c.json", "pw".to_string());
    assert_eq!(
        s.write.unwrap().content,
        "{\n  \"allowed_origins\": [],\n  \"bind\": \"127.0.0.1\",\n  \"password\": \"pw\",\n  \"port\": 8737\n}"
    );
    assert_eq!(s.notice, Some("wrote c.json, initial password: pw".to_string()));
}

fn same(a: &Config, b: &Config) {
    assert_eq!((&a.password, a.port, &a.bind), (&b.password, b.port, &b.bind));
    assert_eq!(a.allowed_origins, b.allowed_origins);
}

#[test]
fn second_start() {
    let s = first("c.json");
    let again = load_or_create_config("c.json", Stored::Text(s.write.unwrap().content)).ok().unwrap();
    same(&again.config, &s.config);
    assert!(again.write.is_none() && again.notice.is_none());
}

#[test]
fn settings_come_back() {
    let c = Config {
        password: "a \"b\" \u{e9}\n".to_string(),
        port: 65535,
        bind: "::1".to_string(),
        allowed_origins: vec!["http://localhost:5173".to_string(), String::new()],
    };
    let w = write_config(&c, "c.json");
    same(&read_config(&w.content).unwrap(), &c);
}

#[test]
fn hand_written_settings() {
    let c = read_config(r#"{"password": "x", "more": [1.5]}"#).unwrap();
    same(&c, &with_password("x".to_string()));
    let c = read_config(r#"{"password": "x", "port": 80, "allowed_origins": ["a"]}"#).unwrap();
    assert_eq!((c.port, c.bind.as_str(), c.allowed_origins), (80, "127.0.0.1", vec!["a".to_string()]));
    let c = read_config(r#"["x", 80]"#).unwrap();
    assert_eq!((c.password.as_str(), c.port, c.bind.as_str()), ("x", 80, "127.0.0.1"));
    let c = read_config(r#"["x", 80, "b", ["c"]]"#).unwrap();
    assert_eq!((c.bind.as_str(), c.allowed_origins), ("b", vec!["c".to_string()]));
}

#[test]
fn no_settings() {
    for text in [
        "",
        "{}",
        "[]",
        "7",
        r#"{"password": 7}"#,
        r#"{"password": "x", "port": 65536}"#,
        r#"{"password": "x", "port": -1}"#,
        r#"{"password": "x", "port": 80.0}"#,
        r#"{"password": "x", "port": null}"#,
        r#"{"password": "x", "bind": 7}"#,
        r#"{"password": "x", "allowed_origins": "a"}"#,
        r#"{"password": "x", "allowed_origins": ["a", 7]}"#,
        r#"["x", 80, "b", [], 7]"#,
        r#"{"password": "x"} x"#,
    ] {
        assert!(read_config(text).is_none(), "{text}");
    }
    assert!(config_from(&Value::Null).is_none());
    assert_eq!(
        load_or_create_config("c.json", Stored::Text("{}".to_string())).err(),
        Some("failed to parse config.json".to_string())
    );
    assert_eq!(
        load_or_create_config("c.json", Stored::Unreadable).err(),
        Some("failed to read config.json".to_string())
    );
}

#[test]
fn empty_passwords_are_refused() {
    assert_eq!(
        refuse_to_start(&with_password(String::new()), "my.json"),
        Some("refusing to start: password in my.json is empty".to_string())
    );
    assert_eq!(refuse_to_start(&with_password(" ".to_string()), "my.json"), None);
}

#[test]
fn sockets() {
    assert_eq!(sock_path(Some("/run/user/1000"), 5), "/run/user/1000/livetty.sock");
    assert_eq!(sock_path(Some("/run//"), 5), "/run/livetty.sock");
    assert_eq!(sock_path(Some(""), 5), "/livetty.sock");
    assert_eq!(sock_path(None, 1000), "/tmp/livetty-1000.sock");
}

#[test]
fn pages() {
    assert_eq!(page("/"), "index.html");
    assert_eq!(page(""), "index.html");
    assert_eq!(page("//assets/a.js"), "assets/a.js");
}

fn parts(r: Reply) -> (u16, Vec<(String, String)>, Vec<u8>) {
    let body = match r.body {
        Body::Bytes(b) => b,
        Body::Text(s) => s.into_bytes(),
        Body::Json(_) => panic!("JSON"),
    };
    (r.status, r.headers, body)
}

fn typed(media: &str) -> Vec<(String, String)> {
    vec![("content-type".to_string(), media.to_string())]
}

#[test]
fn serving_pages() {
    let index = || Some(b"<html>".to_vec());
    assert_eq!(
        parts(static_handler("/", index(), index())),
        (200, typed("text/html"), b"<html>".to_vec())
    );
    assert_eq!(
        parts(static_handler("/a.css", Some(b"x".to_vec()), index())),
        (200, typed("text/css"), b"x".to_vec())
    );
    assert_eq!(
        parts(static_handler("/settings", None, index())),
        (200, typed("text/html"), b"<html>".to_vec())
    );
    assert_eq!(
        parts(static_handler("/data", Some(b"x".to_vec()), index())),
        (200, typed("application/octet-stream"), b"x".to_vec())
    );
    assert_eq!(parts(static_handler("/x", None, None)), (404, vec![], b"not found".to_vec()));
    assert_eq!(
        parts(page_reply("image/png".to_string(), vec![1])),
        (200, typed("image/png"), vec![1])
    );
}
