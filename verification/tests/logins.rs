use axum::http::{HeaderMap, HeaderValue};
use livetty::auth::{
    auth_mw, ct_eq, grant, guard, leave, login, logout, me, refuse, session_in, session_token, LoginReq, Sessions,
    TrustedLocal, FAILURE_WINDOW, MAX_FAILURES, SESSION_TTL_SECS,
};
use livetty::headers::header_text;
use livetty::reply::{Body, Reply};
use serde_json::Value;

fn cookie(text: &str) -> HeaderMap {
    let mut h = HeaderMap::new();
    h.insert("cookie", HeaderValue::from_str(text).unwrap());
    h
}

fn json(r: &Reply) -> String {
    match &r.body {
        Body::Json(v) => v.to_string(),
        _ => panic!("no JSON"),
    }
}

fn try_login(password: &str) -> LoginReq {
    LoginReq { password: password.to_string() }
}

#[test]
fn header_texts() {
    let mut h = HeaderMap::new();
    h.append("cookie", HeaderValue::from_static("first\t1"));
    h.append("cookie", HeaderValue::from_static("second"));
    h.insert("host", HeaderValue::from_bytes(b"\xe9").unwrap());
    assert_eq!(header_text(&h, "cookie"), Some("first\t1".chars().collect()));
    assert_eq!(header_text(&h, "host"), None);
    assert_eq!(header_text(&h, "origin"), None);
}

#[test]
fn stored_sessions_are_loaded() {
    let s = Sessions::load("s.json", Some("{\"a\":10,\"b\":20}"));
    assert!(s.check("a", 9));
    assert!(!s.check("a", 10));
    assert!(s.check("b", 19));
    assert!(!s.check("c", 0));
    for stored in [None, Some(""), Some("nonsense"), Some("{\"a\":-1}"), Some("[1]"), Some("{\"a\":\"x\"}")] {
        let s = Sessions::load("s.json", stored);
        assert!(!s.check("a", 0));
        assert_eq!(s.save().content, "{}");
    }
}

#[test]
fn sessions_survive_a_restart() {
    let mut s = Sessions::load("/x/sessions.json", None);
    let (a, _) = s.create(1000);
    let (b, w) = s.create(1000);
    assert_ne!(a, b);
    assert_eq!((w.path.as_str(), w.mode), ("/x/sessions.json", 0o600));
    let again = Sessions::load(&w.path, Some(&w.content));
    for t in [&a, &b] {
        assert!(again.check(t, 1000 + SESSION_TTL_SECS - 1));
        assert!(!again.check(t, 1000 + SESSION_TTL_SECS));
    }
    let stored: Value = serde_json::from_str(&w.content).unwrap();
    assert_eq!(stored[&a].as_u64(), Some(1000 + 2592000));
}

#[test]
fn tokens_are_random_letters_and_digits() {
    let mut s = Sessions::load("s", None);
    let (t, _) = s.create(0);
    assert_eq!(t.len(), 48);
    assert!(t.chars().all(|c| c.is_ascii_alphanumeric()));
}

#[test]
fn expired_sessions_go() {
    let mut s = Sessions::load("s", Some("{\"old\":50,\"new\":200}"));
    let w = s.insert("tok", 100);
    let stored: Value = serde_json::from_str(&w.content).unwrap();
    assert_eq!(stored.as_object().unwrap().len(), 2);
    assert_eq!(stored["new"].as_u64(), Some(200));
    assert_eq!(stored["tok"].as_u64(), Some(2592100));
    let w = s.insert("tok", 300);
    assert_eq!(w.content, "{\"tok\":2592300}");
}

#[test]
fn removed_sessions_stay_removed() {
    let mut s = Sessions::load("s", Some("{\"a\":10,\"b\":20}"));
    let w = s.remove("a");
    assert_eq!(w.content, "{\"b\":20}");
    assert!(!s.check("a", 0));
    assert!(s.check("b", 0));
    assert_eq!(s.remove("zzz").content, "{\"b\":20}");
}

#[test]
fn comparing_passwords() {
    assert!(ct_eq("", ""));
    assert!(ct_eq("sécret", "sécret"));
    assert!(!ct_eq("secret", "secreT"));
    assert!(!ct_eq("secret", "secrets"));
    assert!(!ct_eq("a", "b"));
}

#[test]
fn tokens_in_cookies() {
    assert_eq!(session_token(&cookie("session=abc")), Some("abc".to_string()));
    assert_eq!(session_token(&cookie("a=b; session=abc; c=d")), Some("abc".to_string()));
    assert_eq!(session_token(&cookie("session=x; session=y")), Some("x".to_string()));
    assert_eq!(session_token(&cookie("session=")), Some("".to_string()));
    assert_eq!(session_token(&cookie("xsession=abc")), None);
    assert_eq!(session_token(&cookie("session =abc")), None);
    assert_eq!(session_token(&HeaderMap::new()), None);
    let spaced: Vec<char> = "q ;\tsession=a b \t".chars().collect();
    assert_eq!(session_in(&spaced), Some("a b".to_string()));
    let mut h = HeaderMap::new();
    h.insert("cookie", HeaderValue::from_bytes(b"session=\xff").unwrap());
    assert_eq!(session_token(&h), None);
}

#[test]
fn right_password_opens_a_session() {
    let mut s = Sessions::load("s", None);
    let (r, w) = login(&mut s, &try_login("pw"), "pw", 500, 0);
    assert_eq!(r.status, 200);
    assert_eq!(json(&r), "{\"ok\":true}");
    assert!(w.is_some());
    let (name, value) = &r.headers[0];
    assert_eq!(name, "set-cookie");
    let token = &value["session=".len()..][..48];
    assert_eq!(
        *value,
        format!("session={token}; HttpOnly; Secure; SameSite=Strict; Path=/; Max-Age=2592000")
    );
    assert!(s.check(token, 500));
    let sent = cookie(&format!("session={token}"));
    assert!(auth_mw(&s, "/api/me", None, &sent, 501).is_none());
    assert!(auth_mw(&s, "/api/me", None, &sent, 500 + SESSION_TTL_SECS).is_some());
}

#[test]
fn granted_cookie() {
    let r = grant("tok");
    assert_eq!(
        r.headers,
        vec![(
            "set-cookie".to_string(),
            "session=tok; HttpOnly; Secure; SameSite=Strict; Path=/; Max-Age=2592000".to_string()
        )]
    );
}

#[test]
fn wrong_passwords_close_the_login() {
    let mut s = Sessions::load("s", None);
    for i in 0..MAX_FAILURES as u64 {
        let (r, w) = login(&mut s, &try_login("no"), "pw", 0, i);
        assert_eq!((r.status, json(&r).as_str()), (401, "{\"error\":\"wrong password\"}"));
        assert!(w.is_none());
    }
    for password in ["pw", "no"] {
        let (r, _) = login(&mut s, &try_login(password), "pw", 0, FAILURE_WINDOW);
        assert_eq!(r.status, 429);
        assert_eq!(json(&r), "{\"error\":\"too many attempts, try again later\"}");
    }
    let (r, _) = login(&mut s, &try_login("pw"), "pw", 0, FAILURE_WINDOW + 1);
    assert_eq!(r.status, 200);
}

#[test]
fn refusals_need_no_expiry() {
    let mut s = Sessions::load("s", None);
    for _ in 0..MAX_FAILURES {
        assert_eq!(login(&mut s, &try_login("no"), "pw", u64::MAX, 5).0.status, 401);
    }
    let (r, w) = login(&mut s, &try_login("pw"), "pw", u64::MAX, 5);
    assert_eq!(r.status, 429);
    assert!(w.is_none() && r.headers.is_empty());
}

#[test]
fn old_failures_do_not_count() {
    let mut s = Sessions::load("s", None);
    for i in 0..9u64 {
        s.record_failure(i * 10);
    }
    assert!(!s.throttled(100));
    s.record_failure(100);
    assert!(s.throttled(100));
    assert!(s.throttled(FAILURE_WINDOW));
    assert!(!s.throttled(FAILURE_WINDOW + 1));
    assert!(refuse(&mut s, &try_login("pw"), "pw", FAILURE_WINDOW + 1).is_none());
}

#[test]
fn clock_running_backwards_keeps_failures() {
    let mut s = Sessions::load("s", None);
    for _ in 0..10 {
        s.record_failure(FAILURE_WINDOW * 3);
    }
    assert!(s.throttled(5));
}

#[test]
fn logging_out() {
    let mut s = Sessions::load("s", Some("{\"a\":10}"));
    let (r, w) = logout(&mut s, &HeaderMap::new());
    assert!(w.is_none());
    assert!(s.check("a", 0));
    assert_eq!((r.status, json(&r).as_str()), (200, "{\"ok\":true}"));
    assert_eq!(
        r.headers,
        vec![(
            "set-cookie".to_string(),
            "session=; HttpOnly; Secure; SameSite=Strict; Path=/; Max-Age=0".to_string()
        )]
    );
    let (_, w) = logout(&mut s, &cookie("session=a"));
    assert_eq!(w.unwrap().content, "{}");
    assert!(!s.check("a", 0));
}

#[test]
fn who_may_pass() {
    let s = Sessions::load("s", Some("{\"a\":10}"));
    let none = HeaderMap::new();
    assert!(auth_mw(&s, "/api/login", None, &none, 0).is_none());
    assert!(auth_mw(&s, "/ws", Some(TrustedLocal), &none, 0).is_none());
    assert!(auth_mw(&s, "/ws", None, &cookie("session=a"), 9).is_none());
    for (path, headers, now) in [
        ("/api/me", none.clone(), 0),
        ("/api/login/", none, 0),
        ("/api/me", cookie("session=b"), 0),
        ("/api/me", cookie("session=a"), 10),
    ] {
        let r = auth_mw(&s, path, None, &headers, now).unwrap();
        assert_eq!((r.status, json(&r).as_str()), (401, "{\"error\":\"not logged in\"}"));
    }
}

#[test]
fn about_the_machine() {
    assert_eq!(
        json(&me(Some("/home/x"), Some("box\n"))),
        "{\"home\":\"/home/x\",\"hostname\":\"box\",\"ok\":true}"
    );
    assert_eq!(json(&me(None, None)), "{\"home\":\"/\",\"hostname\":\"\",\"ok\":true}");
}

#[test]
fn guarding_and_leaving_by_token() {
    let mut s = Sessions::load("s", Some("{\"a\":10}"));
    let a = Some("a".to_string());
    assert!(guard(&s, "/api/me", None, &a, 9).is_none());
    assert_eq!(guard(&s, "/api/me", None, &a, 10).unwrap().status, 401);
    assert_eq!(guard(&s, "/api/me", None, &None, 0).unwrap().status, 401);
    assert!(guard(&s, "/api/login", None, &None, 0).is_none());
    assert!(guard(&s, "/api/me", Some(TrustedLocal), &None, 0).is_none());
    assert!(leave(&mut s, None).1.is_none());
    assert_eq!(leave(&mut s, a.clone()).1.unwrap().content, "{}");
    assert!(guard(&s, "/api/me", None, &a, 0).is_some());
}
