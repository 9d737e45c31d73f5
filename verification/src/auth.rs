//! Sessions and logins.
//!
//! A session is a random token with a time of expiry. Too many failed logins within ten minutes
//! close the login. Times come from the caller: seconds since the epoch for sessions, nanoseconds
//! since the start for failures.

use crate::headers::{header_text, header_text_of, header_values, plain_name};
use crate::json::{
    boolean, field, fields_view, member_of, object, object_member, object_of, opt_view, text, Json,
};
use crate::paths::split_behind;
use crate::reply::{
    err, error_answer, error_member, json_answer, json_reply, ok_json, ok_value, pairs_view, Body,
    BodyView, FileWrite, Reply, ReplyView,
};
use crate::text::{
    append, behind_prefix, chars_of, decimal, decimal_chars, decimal_reads_back, decimal_value,
    encode_injective, is_white, parts_view, prefix_comes_off, same_str, split, split_on, split_plain,
    string_of, strip_prefix, trim, trimmed, trimmed_undoes,
};
use axum::http::HeaderMap;
use rand::Rng;
use serde_json::Value;
use std::collections::{HashMap, VecDeque};
use vstd::prelude::*;

verus! {

/// How long a session lasts, in seconds.
pub const SESSION_TTL_SECS: u64 = 2592000;

/// How many failed logins close the login.
pub const MAX_FAILURES: usize = 10;

/// For how long a failed login counts, in nanoseconds.
pub const FAILURE_WINDOW: u64 = 600_000_000_000;

/// The number of characters in a session's token.
pub const TOKEN_LEN: usize = 48;

/// The permissions of a file that only its owner may read and write.
pub const OWNER_ONLY: u32 = 0o600;

/// Marks a request that came over the local socket, which the operating system guards.
#[derive(Clone, Copy)]
pub struct TrustedLocal;

/// A request to log in.
pub struct LoginReq {
    pub password: String,
}

// ---------- From outside ----------

/// Holds of the characters `A` to `Z`, `a` to `z` and `0` to `9`.
pub open spec fn alphanumeric(c: char) -> bool {
    'A' <= c <= 'Z' || 'a' <= c <= 'z' || '0' <= c <= '9'
}

/// Random letters and digits (`rand::rng` sampled with `rand::distr::Alphanumeric`). Which ones
/// come is left to chance.
#[verifier::external_body]
pub(crate) fn random_alphanumeric(n: usize) -> (s: String)
    ensures
        s@.len() == n,
        forall|i: int| 0 <= i < n ==> alphanumeric(#[trigger] s@[i]),
{
    rand::rng().sample_iter(&rand::distr::Alphanumeric).take(n).map(char::from).collect()
}

/// The tokens and their expiry, of pairs of which none repeats a token.
pub open spec fn tokens_of(entries: Seq<(String, u64)>) -> Map<Seq<char>, u64>
    decreases entries.len(),
{
    if entries.len() == 0 {
        Map::empty()
    } else {
        tokens_of(entries.drop_last()).insert(entries.last().0@, entries.last().1)
    }
}

/// Holds if no token comes twice.
pub open spec fn distinct_tokens(entries: Seq<(String, u64)>) -> bool {
    forall|i: int, j: int|
        0 <= i < j < entries.len() ==> (#[trigger] entries[i]).0@ != (#[trigger] entries[j]).0@
}

/// The sessions that `serde_json` reads from a text, or nothing where it reports an error.
pub uninterp spec fn sessions_read(s: Seq<char>) -> Option<Map<Seq<char>, u64>>;

/// Reads stored sessions (`serde_json::from_str` into a `HashMap<String, u64>`). The result is named
/// `sessions_read`; what it is on a given text is left unsaid, except that what `write_sessions`
/// wrote is read back. The order of the pairs is left open.
#[verifier::external_body]
fn read_sessions(s: &str) -> (r: Option<Vec<(String, u64)>>)
    ensures
        match r {
            Some(entries) => distinct_tokens(entries@) && sessions_read(s@) == Some(
                tokens_of(entries@),
            ),
            None => sessions_read(s@) is None,
        },
{
    let map: Option<HashMap<String, u64>> = serde_json::from_str(s).ok();
    map.map(|m| m.into_iter().collect())
}

/// Writes sessions (`serde_json::to_string` of a `HashMap`). The order in which they are written is
/// left open; read again, they are the same sessions.
#[verifier::external_body]
fn write_sessions(entries: &Vec<(String, u64)>) -> (s: String)
    requires
        distinct_tokens(entries@),
    ensures
        sessions_read(s@) == Some(tokens_of(entries@)),
{
    let map: HashMap<&str, u64> = entries.iter().map(|e| (e.0.as_str(), e.1)).collect();
    serde_json::to_string(&map).unwrap()
}

// ---------- Sessions ----------

/// The sessions, where they are stored, and the times of the failed logins.
pub struct Sessions {
    entries: Vec<(String, u64)>,
    path: String,
    failures: VecDeque<u64>,
}

/// The sessions as a mathematical value: the expiry of each token, where they are stored, and the
/// times of the failed logins, oldest first.
#[verifier::ext_equal]
pub struct SessionsView {
    pub tokens: Map<Seq<char>, u64>,
    pub path: Seq<char>,
    pub failures: Seq<u64>,
}

/// The sessions that have not expired.
pub open spec fn live(tokens: Map<Seq<char>, u64>, now: u64) -> Map<Seq<char>, u64> {
    Map::new(|t: Seq<char>| tokens.contains_key(t) && tokens[t] > now, |t: Seq<char>| tokens[t])
}

/// Holds if the token belongs to a session that has not expired.
pub open spec fn valid(tokens: Map<Seq<char>, u64>, token: Seq<char>, now: u64) -> bool {
    tokens.contains_key(token) && tokens[token] > now
}

/// The failures that still count: those behind the last old one at the front.
pub open spec fn recent(failures: Seq<u64>, now: u64) -> Seq<u64>
    decreases failures.len(),
{
    if failures.len() > 0 && now - failures[0] > FAILURE_WINDOW {
        recent(failures.skip(1), now)
    } else {
        failures
    }
}

/// The sessions in a stored file. A missing file, or one that cannot be read, holds none.
pub open spec fn loaded(path: Seq<char>, stored: Option<Seq<char>>) -> SessionsView {
    let read = match stored {
        Some(s) => sessions_read(s),
        None => None,
    };
    SessionsView {
        tokens: match read {
            Some(tokens) => tokens,
            None => Map::empty(),
        },
        path,
        failures: seq![],
    }
}

/// Holds of the write that stores the sessions.
pub open spec fn stores(w: FileWrite, s: SessionsView) -> bool {
    &&& w.path@ == s.path
    &&& sessions_read(w.content@) == Some(s.tokens)
    &&& w.mode == OWNER_ONLY
}

proof fn tokens_member(entries: Seq<(String, u64)>, i: int)
    requires
        distinct_tokens(entries),
        0 <= i < entries.len(),
    ensures
        tokens_of(entries).contains_key(entries[i].0@),
        tokens_of(entries)[entries[i].0@] == entries[i].1,
    decreases entries.len(),
{
    if i < entries.len() - 1 {
        let before = entries.drop_last();
        assert(distinct_tokens(before)) by {
            assert forall|a: int, b: int| 0 <= a < b < before.len() implies (
            #[trigger] before[a]).0@ != (#[trigger] before[b]).0@ by {
                assert(before[a] == entries[a] && before[b] == entries[b]);
            }
        }
        tokens_member(before, i);
        assert(before[i] == entries[i]);
        assert(entries[i].0@ != entries[entries.len() - 1].0@);
    }
}

proof fn tokens_absent(entries: Seq<(String, u64)>, token: Seq<char>)
    requires
        forall|i: int| 0 <= i < entries.len() ==> (#[trigger] entries[i]).0@ != token,
    ensures
        !tokens_of(entries).contains_key(token),
    decreases entries.len(),
{
    if entries.len() > 0 {
        let before = entries.drop_last();
        assert forall|i: int| 0 <= i < before.len() implies (#[trigger] before[i]).0@ != token by {
            assert(before[i] == entries[i]);
        }
        tokens_absent(before, token);
        assert(entries[entries.len() - 1].0@ != token);
    }
}

impl Sessions {
    /// The sessions as a mathematical value.
    pub closed spec fn view(&self) -> SessionsView {
        SessionsView {
            tokens: tokens_of(self.entries@),
            path: self.path@,
            failures: self.failures@,
        }
    }

    /// No token is held twice.
    pub closed spec fn wf(&self) -> bool {
        distinct_tokens(self.entries@)
    }

    /// Takes up the sessions in a stored file, if there is one.
    pub fn load(path: &str, stored: Option<&str>) -> (r: Self)
        ensures
            r.wf(),
            r@ == loaded(
                path@,
                match stored {
                    Some(s) => Some(s@),
                    None => None,
                },
            ),
    {
        let entries: Vec<(String, u64)> = match stored {
            Some(s) => match read_sessions(s) {
                Some(entries) => entries,
                None => Vec::new(),
            },
            None => Vec::new(),
        };
        Sessions { entries, path: path.to_string(), failures: VecDeque::new() }
    }

    /// What to write so that the sessions survive a restart.
    pub fn save(&self) -> (w: FileWrite)
        requires
            self.wf(),
        ensures
            stores(w, self@),
    {
        FileWrite {
            path: self.path.clone(),
            content: write_sessions(&self.entries),
            mode: OWNER_ONLY,
        }
    }

    /// Drops the expired sessions and those under `token`.
    fn retain(&mut self, token: Option<&str>, now: Option<u64>)
        requires
            old(self).wf(),
        ensures
            final(self).wf(),
            final(self)@ == (SessionsView {
                tokens: Map::new(
                    |t: Seq<char>|
                        {
                            &&& old(self)@.tokens.contains_key(t)
                            &&& token matches Some(x) ==> t != x@
                            &&& now matches Some(n) ==> old(self)@.tokens[t] > n
                        },
                    |t: Seq<char>| old(self)@.tokens[t],
                ),
                ..old(self)@
            }),
    {
        let ghost all = self.entries@;
        let mut kept: Vec<(String, u64)> = Vec::new();
        let mut i: usize = 0;
        while i < self.entries.len()
            invariant
                i <= self.entries@.len(),
                self.entries@ == all,
                distinct_tokens(all),
                distinct_tokens(kept@),
                forall|k: int|
                    0 <= k < kept@.len() ==> exists|j: int|
                        0 <= j < i && (#[trigger] all[j]).0@ == (#[trigger] kept@[k]).0@,
                tokens_of(kept@) =~= Map::new(
                    |t: Seq<char>|
                        {
                            &&& tokens_of(all.take(i as int)).contains_key(t)
                            &&& token matches Some(x) ==> t != x@
                            &&& now matches Some(n) ==> tokens_of(all.take(i as int))[t] > n
                        },
                    |t: Seq<char>| tokens_of(all.take(i as int))[t],
                ),
            decreases self.entries@.len() - i,
        {
            let ghost upto = all.take(i + 1);
            let ghost before = all.take(i as int);
            let ghost kept_before = kept@;
            let same = match token {
                Some(x) => same_str(self.entries[i].0.as_str(), x),
                None => false,
            };
            let stale = match now {
                Some(n) => self.entries[i].1 <= n,
                None => false,
            };
            proof {
                assert(upto.drop_last() =~= before);
                assert(upto.last() == all[i as int]);
                assert forall|j: int| 0 <= j < before.len() implies (#[trigger] before[j]).0@
                    != all[i as int].0@ by {
                    assert(before[j] == all[j]);
                }
                tokens_absent(before, all[i as int].0@);
            }
            if !same && !stale {
                let copy = (self.entries[i].0.clone(), self.entries[i].1);
                kept.push(copy);
                proof {
                    assert(kept@.drop_last() =~= kept_before);
                    assert forall|a: int, b: int| 0 <= a < b < kept@.len() implies (
                    #[trigger] kept@[a]).0@ != (#[trigger] kept@[b]).0@ by {
                        if b == kept_before.len() {
                            assert(kept@[a] == kept_before[a]);
                            let j = choose|j: int|
                                0 <= j < i && (#[trigger] all[j]).0@ == kept_before[a].0@;
                            assert(all[j].0@ != all[i as int].0@);
                        } else {
                            assert(kept@[a] == kept_before[a] && kept@[b] == kept_before[b]);
                        }
                    }
                    assert forall|k: int| 0 <= k < kept@.len() implies exists|j: int|
                        0 <= j < i + 1 && (#[trigger] all[j]).0@ == (#[trigger] kept@[k]).0@ by {
                        if k == kept_before.len() {
                            assert(all[i as int].0@ == kept@[k].0@);
                        } else {
                            assert(kept@[k] == kept_before[k]);
                        }
                    }
                }
            } else {
                proof {
                    assert forall|k: int| 0 <= k < kept@.len() implies exists|j: int|
                        0 <= j < i + 1 && (#[trigger] all[j]).0@ == (#[trigger] kept@[k]).0@ by {
                        let j = choose|j: int|
                            0 <= j < i && (#[trigger] all[j]).0@ == kept@[k].0@;
                        assert(all[j].0@ == kept@[k].0@);
                    }
                }
            }
            i += 1;
        }
        assert(all.take(i as int) =~= all);
        self.entries = kept;
    }

    fn position(&self, token: &str) -> (r: Option<usize>)
        ensures
            match r {
                Some(i) => i < self.entries@.len() && self.entries@[i as int].0@ == token@,
                None => forall|i: int|
                    0 <= i < self.entries@.len() ==> (#[trigger] self.entries@[i]).0@ != token@,
            },
    {
        let mut i: usize = 0;
        while i < self.entries.len()
            invariant
                i <= self.entries@.len(),
                forall|k: int| 0 <= k < i ==> (#[trigger] self.entries@[k]).0@ != token@,
            decreases self.entries@.len() - i,
        {
            if same_str(self.entries[i].0.as_str(), token) {
                return Some(i);
            }
            i += 1;
        }
        None
    }

    /// Opens a session under `token`; expired sessions go.
    pub fn insert(&mut self, token: &str, now: u64) -> (w: FileWrite)
        requires
            old(self).wf(),
            now + SESSION_TTL_SECS <= u64::MAX,
        ensures
            final(self).wf(),
            final(self)@ == opened(old(self)@, token@, now),
            stores(w, final(self)@),
    {
        self.retain(Some(token), Some(now));
        let ghost kept = self.entries@;
        proof {
            assert forall|i: int| 0 <= i < kept.len() implies (#[trigger] kept[i]).0@ != token@ by {
                tokens_member(kept, i);
            }
        }
        self.entries.push((token.to_string(), now + SESSION_TTL_SECS));
        proof {
            assert(self.entries@.drop_last() =~= kept);
            assert forall|a: int, b: int| 0 <= a < b < self.entries@.len() implies (
            #[trigger] self.entries@[a]).0@ != (#[trigger] self.entries@[b]).0@ by {
                assert(self.entries@[a] == kept[a]);
                if b < kept.len() {
                    assert(self.entries@[b] == kept[b]);
                }
            }
            assert(self@.tokens =~= live(old(self)@.tokens, now).insert(
                token@,
                (now + SESSION_TTL_SECS) as u64,
            ));
        }
        self.save()
    }

    /// Opens a session under a new random token.
    pub fn create(&mut self, now: u64) -> (r: (String, FileWrite))
        requires
            old(self).wf(),
            now + SESSION_TTL_SECS <= u64::MAX,
        ensures
            final(self).wf(),
            r.0@.len() == TOKEN_LEN,
            forall|i: int| 0 <= i < TOKEN_LEN ==> alphanumeric(#[trigger] r.0@[i]),
            final(self)@ == opened(old(self)@, r.0@, now),
            stores(r.1, final(self)@),
    {
        let token = random_alphanumeric(TOKEN_LEN);
        let w = self.insert(token.as_str(), now);
        (token, w)
    }

    /// Whether the token belongs to a session that has not expired.
    pub fn check(&self, token: &str, now: u64) -> (r: bool)
        requires
            self.wf(),
        ensures
            r == valid(self@.tokens, token@, now),
    {
        match self.position(token) {
            Some(i) => {
                proof {
                    tokens_member(self.entries@, i as int);
                }
                self.entries[i].1 > now
            },
            None => {
                proof {
                    tokens_absent(self.entries@, token@);
                }
                false
            },
        }
    }

    /// Ends a session.
    pub fn remove(&mut self, token: &str) -> (w: FileWrite)
        requires
            old(self).wf(),
        ensures
            final(self).wf(),
            final(self)@ == (SessionsView {
                tokens: old(self)@.tokens.remove(token@),
                ..old(self)@
            }),
            stores(w, final(self)@),
    {
        self.retain(Some(token), None);
        assert(self@.tokens =~= old(self)@.tokens.remove(token@));
        self.save()
    }

    /// Forgets the failures that no longer count, and says whether the login is closed.
    pub fn throttled(&mut self, now: u64) -> (r: bool)
        requires
            old(self).wf(),
        ensures
            final(self).wf(),
            final(self)@ == (SessionsView {
                failures: recent(old(self)@.failures, now),
                ..old(self)@
            }),
            r == (recent(old(self)@.failures, now).len() >= MAX_FAILURES),
    {
        let ghost all = self.failures@;
        loop
            invariant_except_break
                recent(self.failures@, now) == recent(all, now),
            invariant
                self.entries@ == old(self).entries@,
                self.path@ == old(self).path@,
            ensures
                self.failures@ == recent(all, now),
            decreases self.failures@.len(),
        {
            if self.failures.len() == 0 {
                break;
            }
            let first: u64 = self.failures[0];
            if now > first && now - first > FAILURE_WINDOW {
                let ghost before = self.failures@;
                let gone = self.failures.pop_front();
                assert(self.failures@ =~= before.skip(1));
            } else {
                break;
            }
        }
        self.failures.len() >= MAX_FAILURES
    }

    /// Remembers a failed login.
    pub fn record_failure(&mut self, now: u64)
        requires
            old(self).wf(),
        ensures
            final(self).wf(),
            final(self)@ == (SessionsView {
                failures: old(self)@.failures.push(now),
                ..old(self)@
            }),
    {
        self.failures.push_back(now);
    }
}

// ---------- Comparing passwords ----------

/// Whether two texts are the same. The bytes of texts of one length are all compared, whether or
/// not an earlier one differs.
pub fn ct_eq(a: &str, b: &str) -> (r: bool)
    ensures
        r == (a@ == b@),
{
    let x = a.as_bytes();
    let y = b.as_bytes();
    if x.len() != y.len() {
        return false;
    }
    let mut acc: u8 = 0;
    let mut i: usize = 0;
    assert(x@.take(0) =~= y@.take(0));
    while i < x.len()
        invariant
            i <= x@.len(),
            x@.len() == y@.len(),
            acc == 0 <==> x@.take(i as int) == y@.take(i as int),
        decreases x@.len() - i,
    {
        let p: u8 = x[i];
        let q: u8 = y[i];
        assert((acc | (p ^ q)) == 0 <==> acc == 0 && p == q) by (bit_vector);
        proof {
            let m = x@.take(i + 1);
            let n = y@.take(i + 1);
            assert(m.drop_last() =~= x@.take(i as int));
            assert(n.drop_last() =~= y@.take(i as int));
            assert(m.last() == p && n.last() == q);
            if m.drop_last() == n.drop_last() && p == q {
                assert(m =~= n);
            }
        }
        acc = acc | (p ^ q);
        i += 1;
    }
    proof {
        assert(x@.take(i as int) =~= x@);
        assert(y@.take(i as int) =~= y@);
        if x@ == y@ {
            encode_injective(a@, b@);
        }
    }
    acc == 0
}

// ---------- Cookies ----------

/// The token in the first part of a cookie that starts, but for white space, with `session=`.
pub open spec fn first_session(parts: Seq<Seq<char>>) -> Option<Seq<char>>
    decreases parts.len(),
{
    if parts.len() == 0 {
        None
    } else {
        match behind_prefix(trimmed(parts[0]), "session="@) {
            Some(token) => Some(token),
            None => first_session(parts.skip(1)),
        }
    }
}

/// The session's token in the text of a `Cookie` header.
pub open spec fn cookie_session(cookies: Option<Seq<char>>) -> Option<Seq<char>> {
    match cookies {
        Some(text) => first_session(split_on(text, ';')),
        None => None,
    }
}

/// Finds the session's token in the text of a `Cookie` header.
pub fn session_in(cookies: &[char]) -> (r: Option<String>)
    ensures
        match r {
            Some(token) => first_session(split_on(cookies@, ';')) == Some(token@),
            None => first_session(split_on(cookies@, ';')) is None,
        },
{
    let parts = split(cookies, ';');
    let ghost all = parts_view(parts@);
    let mut i: usize = 0;
    assert(all.skip(0) =~= all);
    while i < parts.len()
        invariant
            i <= parts@.len(),
            all == parts_view(parts@),
            all == split_on(cookies@, ';'),
            first_session(all.skip(i as int)) == first_session(all),
        decreases parts@.len() - i,
    {
        let ghost rest = all.skip(i as int);
        assert(rest[0] == parts@[i as int]@);
        let part = trim(parts[i].as_slice());
        match strip_prefix(part.as_slice(), "session=") {
            Some(token) => {
                return Some(string_of(token.as_slice()));
            },
            None => {},
        }
        assert(rest.skip(1) =~= all.skip(i + 1));
        i += 1;
    }
    assert(all.skip(i as int) =~= seq![]);
    None
}

/// The session's token that a request carries.
pub fn session_token(headers: &HeaderMap) -> (r: Option<String>)
    ensures
        match r {
            Some(token) => cookie_session(header_text_of(header_values(*headers), "cookie"@))
                == Some(token@),
            None => cookie_session(header_text_of(header_values(*headers), "cookie"@)) is None,
        },
{
    proof {
        reveal_strlit("cookie");
        assert(plain_name("cookie"@));
    }
    match header_text(headers, "cookie") {
        Some(text) => session_in(text.as_slice()),
        None => None,
    }
}

// ---------- Requests ----------

/// The cookie that gives a browser its session.
pub open spec fn login_cookie(token: Seq<char>) -> Seq<char> {
    "session="@ + token + "; HttpOnly; Secure; SameSite=Strict; Path=/; Max-Age="@ + decimal(
        SESSION_TTL_SECS as nat,
    )
}

/// The cookie that takes a browser's session away.
pub open spec fn logout_cookie() -> Seq<char> {
    "session=; HttpOnly; Secure; SameSite=Strict; Path=/; Max-Age=0"@
}

/// The answer `{"ok": true}` that sets a cookie.
pub open spec fn cookie_answer(cookie: Seq<char>) -> ReplyView {
    ReplyView {
        status: 200,
        headers: seq![("set-cookie"@, cookie)],
        body: BodyView::Json(ok_json()),
    }
}

fn cookie_reply(cookie: String) -> (r: Reply)
    ensures
        r@ == cookie_answer(cookie@),
{
    let mut headers: Vec<(String, String)> = Vec::new();
    headers.push(("set-cookie".to_string(), cookie));
    assert(pairs_view(headers@) =~= seq![("set-cookie"@, cookie@)]);
    Reply { status: 200, headers, body: Body::Json(ok_value()) }
}

/// The answer to a login that is refused, or nothing if it is not: first of all, the login may be
/// closed; then the password must be right.
pub open spec fn refusal(
    s: SessionsView,
    given: Seq<char>,
    password: Seq<char>,
    now: u64,
) -> Option<ReplyView> {
    if recent(s.failures, now).len() >= MAX_FAILURES {
        Some(error_answer(429, "too many attempts, try again later"@))
    } else if given != password {
        Some(error_answer(401, "wrong password"@))
    } else {
        None
    }
}

/// The sessions after a login was tried: a wrong password counts, unless the login was closed.
pub open spec fn tried(
    s: SessionsView,
    given: Seq<char>,
    password: Seq<char>,
    now: u64,
) -> SessionsView {
    let failures = recent(s.failures, now);
    SessionsView {
        failures: if failures.len() < MAX_FAILURES && given != password {
            failures.push(now)
        } else {
            failures
        },
        ..s
    }
}

/// The sessions after a session was opened under `token`.
pub open spec fn opened(s: SessionsView, token: Seq<char>, now: u64) -> SessionsView {
    SessionsView {
        tokens: live(s.tokens, now).insert(token, (now + SESSION_TTL_SECS) as u64),
        ..s
    }
}

/// Refuses a login, if it must be.
pub fn refuse(
    sessions: &mut Sessions,
    body: &LoginReq,
    password: &str,
    now: u64,
) -> (r: Option<Reply>)
    requires
        old(sessions).wf(),
    ensures
        final(sessions).wf(),
        final(sessions)@ == tried(old(sessions)@, body.password@, password@, now),
        match r {
            Some(reply) => refusal(old(sessions)@, body.password@, password@, now) == Some(reply@),
            None => refusal(old(sessions)@, body.password@, password@, now) is None,
        },
{
    if sessions.throttled(now) {
        return Some(err(429, "too many attempts, try again later".to_string()));
    }
    if !ct_eq(body.password.as_str(), password) {
        sessions.record_failure(now);
        return Some(err(401, "wrong password".to_string()));
    }
    None
}

/// Answers a login that is granted under `token`.
pub fn grant(token: &str) -> (r: Reply)
    ensures
        r@ == cookie_answer(login_cookie(token@)),
{
    let mut cookie = chars_of("session=");
    append(&mut cookie, token);
    append(&mut cookie, "; HttpOnly; Secure; SameSite=Strict; Path=/; Max-Age=");
    let mut age = decimal_chars(SESSION_TTL_SECS);
    cookie.append(&mut age);
    cookie_reply(string_of(cookie.as_slice()))
}

/// Answers a login. `now` is the time in seconds since the epoch, `instant` that in nanoseconds
/// since the start. The expiry of a session must fit in 64 bits; a refusal opens none.
pub fn login(
    sessions: &mut Sessions,
    body: &LoginReq,
    password: &str,
    now: u64,
    instant: u64,
) -> (r: (Reply, Option<FileWrite>))
    requires
        old(sessions).wf(),
        refusal(old(sessions)@, body.password@, password@, instant) is None ==> now
            + SESSION_TTL_SECS <= u64::MAX,
    ensures
        final(sessions).wf(),
        match refusal(old(sessions)@, body.password@, password@, instant) {
            Some(answer) => {
                &&& r.0@ == answer
                &&& r.1 is None
                &&& final(sessions)@ == tried(old(sessions)@, body.password@, password@, instant)
            },
            None => exists|token: Seq<char>|
                {
                    &&& token.len() == TOKEN_LEN
                    &&& forall|i: int| 0 <= i < TOKEN_LEN ==> alphanumeric(#[trigger] token[i])
                    &&& r.0@ == cookie_answer(#[trigger] login_cookie(token))
                    &&& r.1 is Some
                    &&& stores(r.1->0, final(sessions)@)
                    &&& final(sessions)@ == opened(
                        tried(old(sessions)@, body.password@, password@, instant),
                        token,
                        now,
                    )
                },
        },
{
    match refuse(sessions, body, password, instant) {
        Some(reply) => (reply, None),
        None => {
            let (token, w) = sessions.create(now);
            let reply = grant(token.as_str());
            assert(reply@ == cookie_answer(login_cookie(token@)));
            (reply, Some(w))
        },
    }
}

/// Holds of what a logout does to the session under `token`, if there is one.
pub open spec fn left(
    before: SessionsView,
    token: Option<Seq<char>>,
    after: SessionsView,
    w: Option<FileWrite>,
) -> bool {
    match token {
        Some(t) => {
            &&& after == SessionsView { tokens: before.tokens.remove(t), ..before }
            &&& w is Some
            &&& stores(w->0, after)
        },
        None => after == before && w is None,
    }
}

/// Ends the session under `token`, if there is one.
pub fn leave(sessions: &mut Sessions, token: Option<String>) -> (r: (Reply, Option<FileWrite>))
    requires
        old(sessions).wf(),
    ensures
        final(sessions).wf(),
        r.0@ == cookie_answer(logout_cookie()),
        left(old(sessions)@, opt_view(token), final(sessions)@, r.1),
{
    let w = match token {
        Some(t) => Some(sessions.remove(t.as_str())),
        None => None,
    };
    let cookie = "session=; HttpOnly; Secure; SameSite=Strict; Path=/; Max-Age=0".to_string();
    (cookie_reply(cookie), w)
}

/// Answers a logout: the session that the request carries ends.
pub fn logout(sessions: &mut Sessions, headers: &HeaderMap) -> (r: (Reply, Option<FileWrite>))
    requires
        old(sessions).wf(),
    ensures
        final(sessions).wf(),
        r.0@ == cookie_answer(logout_cookie()),
        left(
            old(sessions)@,
            cookie_session(header_text_of(header_values(*headers), "cookie"@)),
            final(sessions)@,
            r.1,
        ),
{
    let token = session_token(headers);
    leave(sessions, token)
}

/// What a client is told about the machine.
pub open spec fn me_json(home: Seq<char>, hostname: Seq<char>) -> Json {
    object_of(
        seq![
            ("ok"@, Json::Bool(true)),
            ("home"@, Json::Text(home)),
            ("hostname"@, Json::Text(hostname)),
        ],
    )
}

/// Answers who the machine is: the home directory, or else the root, and the host's name without
/// the white space around it, or else nothing.
pub fn me(home: Option<&str>, hostname: Option<&str>) -> (r: Reply)
    ensures
        r@ == json_answer(
            200,
            me_json(
                match home {
                    Some(h) => h@,
                    None => "/"@,
                },
                match hostname {
                    Some(h) => trimmed(h@),
                    None => seq![],
                },
            ),
        ),
{
    let home_text = match home {
        Some(h) => h.to_string(),
        None => "/".to_string(),
    };
    let host_text = match hostname {
        Some(h) => {
            let chars = chars_of(h);
            string_of(trim(chars.as_slice()).as_slice())
        },
        None => String::new(),
    };
    let mut fields: Vec<(String, Value)> = Vec::new();
    fields.push(field("ok", boolean(true)));
    fields.push(field("home", text(home_text)));
    fields.push(field("hostname", text(host_text)));
    assert(fields_view(fields@) =~= seq![
        ("ok"@, Json::Bool(true)),
        ("home"@, Json::Text(home_text@)),
        ("hostname"@, Json::Text(host_text@)),
    ]);
    assert(host_text@ =~= match hostname {
        Some(h) => trimmed(h@),
        None => seq![],
    });
    json_reply(200, object(fields))
}

/// Holds of the requests that may pass: the login itself, requests over the local socket, and those
/// with a valid session.
pub open spec fn admitted(
    s: SessionsView,
    path: Seq<char>,
    trusted: bool,
    token: Option<Seq<char>>,
    now: u64,
) -> bool {
    ||| path == "/api/login"@
    ||| trusted
    ||| token matches Some(t) && valid(s.tokens, t, now)
}

/// Guards a request that carries `token`: nothing if it may pass, and else the answer to it.
pub fn guard(
    sessions: &Sessions,
    path: &str,
    trusted: Option<TrustedLocal>,
    token: &Option<String>,
    now: u64,
) -> (r: Option<Reply>)
    requires
        sessions.wf(),
    ensures
        match r {
            None => admitted(sessions@, path@, trusted is Some, opt_view(*token), now),
            Some(reply) => {
                &&& !admitted(sessions@, path@, trusted is Some, opt_view(*token), now)
                &&& reply@ == error_answer(401, "not logged in"@)
            },
        },
{
    if same_str(path, "/api/login") {
        return None;
    }
    if trusted.is_some() {
        return None;
    }
    let ok = match token {
        Some(t) => sessions.check(t.as_str(), now),
        None => false,
    };
    if !ok {
        return Some(err(401, "not logged in".to_string()));
    }
    None
}

/// Guards every request: nothing if it may pass, and else the answer to it.
pub fn auth_mw(
    sessions: &Sessions,
    path: &str,
    trusted: Option<TrustedLocal>,
    headers: &HeaderMap,
    now: u64,
) -> (r: Option<Reply>)
    requires
        sessions.wf(),
    ensures
        match r {
            None => admitted(
                sessions@,
                path@,
                trusted is Some,
                cookie_session(header_text_of(header_values(*headers), "cookie"@)),
                now,
            ),
            Some(reply) => {
                &&& !admitted(
                    sessions@,
                    path@,
                    trusted is Some,
                    cookie_session(header_text_of(header_values(*headers), "cookie"@)),
                    now,
                )
                &&& reply@ == error_answer(401, "not logged in"@)
            },
        },
{
    let token = session_token(headers);
    guard(sessions, path, trusted, &token, now)
}

// ---------- Laws ----------

proof fn trimmed_plain(chars: Seq<char>)
    requires
        forall|i: int| 0 <= i < chars.len() ==> !is_white(#[trigger] chars[i]),
    ensures
        trimmed(chars) == chars,
{
    if chars.len() > 0 {
        assert(!is_white(chars[0]));
        assert(!is_white(chars[chars.len() - 1]));
    }
}

/// A login lasts: the browser that got the cookie sends its first part back, the token is found in
/// it, and the session is valid until it is `SESSION_TTL_SECS` old.
pub proof fn login_admits(
    s: SessionsView,
    token: Seq<char>,
    opened_at: u64,
    now: u64,
    path: Seq<char>,
)
    requires
        opened_at + SESSION_TTL_SECS <= u64::MAX,
        forall|i: int| 0 <= i < token.len() ==> alphanumeric(#[trigger] token[i]),
    ensures
        cookie_session(Some("session="@ + token)) == Some(token),
        now < opened_at + SESSION_TTL_SECS ==> admitted(
            opened(s, token, opened_at),
            path,
            false,
            cookie_session(Some("session="@ + token)),
            now,
        ),
        now >= opened_at + SESSION_TTL_SECS && path != "/api/login"@ ==> !admitted(
            opened(s, token, opened_at),
            path,
            false,
            cookie_session(Some("session="@ + token)),
            now,
        ),
{
    let text = "session="@ + token;
    reveal_strlit("session=");
    assert forall|i: int| 0 <= i < text.len() implies !is_white(#[trigger] text[i]) && text[i]
        != ';' by {
        if i >= 8 {
            assert(alphanumeric(token[i - 8]));
            assert(text[i] == token[i - 8]);
        }
    }
    split_plain(text, ';');
    trimmed_plain(text);
    assert("session="@.is_prefix_of(text));
    assert(text.skip(8) =~= token);
}

/// A logout is final: the token opens nothing any more.
pub proof fn logout_ends(tokens: Map<Seq<char>, u64>, token: Seq<char>, now: u64)
    ensures
        !valid(tokens.remove(token), token, now),
        forall|other: Seq<char>|
            other != token ==> (#[trigger] valid(tokens.remove(token), other, now) <==> valid(
                tokens,
                other,
                now,
            )),
{
}

/// Opening a session ends no other one.
pub proof fn login_keeps_others(
    s: SessionsView,
    token: Seq<char>,
    other: Seq<char>,
    now: u64,
    later: u64,
)
    requires
        other != token,
        now <= later,
    ensures
        valid(opened(s, token, now).tokens, other, later) <==> valid(s.tokens, other, later),
{
}

/// Sessions survive a restart: what was stored is what is loaded.
pub proof fn sessions_reload(w: FileWrite, s: SessionsView)
    requires
        stores(w, s),
    ensures
        loaded(w.path@, Some(w.content@)) == (SessionsView { failures: seq![], ..s }),
{
}

/// Holds of times in the order in which they came.
pub open spec fn in_order(failures: Seq<u64>) -> bool {
    forall|i: int, j: int| 0 <= i <= j < failures.len() ==> failures[i] <= failures[j]
}

/// The failures that count are exactly those of the last `FAILURE_WINDOW`, as long as the clock
/// does not run backwards.
pub proof fn window_counts(failures: Seq<u64>, now: u64)
    requires
        in_order(failures),
    ensures
        recent(failures, now) == failures.filter(|t: u64| now - t <= FAILURE_WINDOW),
        in_order(recent(failures, now)),
    decreases failures.len(),
{
    let counts = |t: u64| now - t <= FAILURE_WINDOW;
    reveal(Seq::filter);
    if failures.len() > 0 && now - failures[0] > FAILURE_WINDOW {
        let rest = failures.skip(1);
        assert(in_order(rest)) by {
            assert forall|i: int, j: int| 0 <= i <= j < rest.len() implies rest[i] <= rest[j] by {
                assert(rest[i] == failures[i + 1] && rest[j] == failures[j + 1]);
            }
        }
        window_counts(rest, now);
        assert(failures =~= seq![failures[0]] + rest);
        filter_front(failures[0], rest, counts);
    } else {
        filter_all(failures, counts);
    }
}

proof fn filter_front(x: u64, rest: Seq<u64>, f: spec_fn(u64) -> bool)
    requires
        !f(x),
    ensures
        (seq![x] + rest).filter(f) == rest.filter(f),
    decreases rest.len(),
{
    reveal(Seq::filter);
    let all = seq![x] + rest;
    if rest.len() == 0 {
        assert(all =~= seq![x]);
        assert(all.drop_last() =~= rest);
        assert(rest.filter(f) =~= seq![]);
    } else {
        filter_front(x, rest.drop_last(), f);
        assert(all.drop_last() =~= seq![x] + rest.drop_last());
        assert(all.last() == rest.last());
    }
}

proof fn filter_all(s: Seq<u64>, f: spec_fn(u64) -> bool)
    requires
        forall|i: int| 0 <= i < s.len() ==> f(#[trigger] s[i]),
    ensures
        s.filter(f) == s,
    decreases s.len(),
{
    reveal(Seq::filter);
    if s.len() > 0 {
        let before = s.drop_last();
        assert forall|i: int| 0 <= i < before.len() implies f(#[trigger] before[i]) by {
            assert(before[i] == s[i]);
        }
        filter_all(before, f);
        assert(f(s[s.len() - 1]));
        assert(before.push(s.last()) =~= s);
    } else {
        assert(s.filter(f) =~= s);
    }
}

/// While the login is closed, even the right password is refused, and a refusal does not keep it
/// closed any longer: the failures stay as they are.
pub proof fn closed_login(s: SessionsView, given: Seq<char>, password: Seq<char>, now: u64)
    requires
        recent(s.failures, now).len() >= MAX_FAILURES,
    ensures
        refusal(s, given, password, now) == Some(
            error_answer(429, "too many attempts, try again later"@),
        ),
        tried(s, given, password, now).failures == recent(s.failures, now),
        tried(s, given, password, now).tokens == s.tokens,
{
}

/// The login opens again once every failure is older than `FAILURE_WINDOW`.
pub proof fn login_reopens(s: SessionsView, password: Seq<char>, now: u64)
    requires
        forall|i: int|
            0 <= i < s.failures.len() ==> now - #[trigger] s.failures[i] > FAILURE_WINDOW,
    ensures
        recent(s.failures, now) == Seq::<u64>::empty(),
        refusal(s, password, password, now) is None,
    decreases s.failures.len(),
{
    if s.failures.len() > 0 {
        assert(now - s.failures[0] > FAILURE_WINDOW);
        let rest = SessionsView { failures: s.failures.skip(1), ..s };
        assert forall|i: int| 0 <= i < rest.failures.len() implies now
            - #[trigger] rest.failures[i] > FAILURE_WINDOW by {
            assert(rest.failures[i] == s.failures[i + 1]);
        }
        login_reopens(rest, password, now);
    } else {
        assert(s.failures =~= seq![]);
    }
}

/// The sessions after wrong passwords came at the given times.
pub open spec fn tried_wrong(
    s: SessionsView,
    givens: Seq<Seq<char>>,
    password: Seq<char>,
    times: Seq<u64>,
) -> SessionsView
    decreases times.len(),
{
    if times.len() == 0 {
        s
    } else {
        tried(
            tried_wrong(s, givens.drop_last(), password, times.drop_last()),
            givens.last(),
            password,
            times.last(),
        )
    }
}

/// Holds if each of these wrong passwords was answered as one, and not turned away unread.
pub open spec fn all_counted(
    s: SessionsView,
    givens: Seq<Seq<char>>,
    password: Seq<char>,
    times: Seq<u64>,
) -> bool
    decreases times.len(),
{
    times.len() == 0 || {
        &&& all_counted(s, givens.drop_last(), password, times.drop_last())
        &&& recent(
            tried_wrong(s, givens.drop_last(), password, times.drop_last()).failures,
            times.last(),
        ).len() < MAX_FAILURES
    }
}

proof fn recent_keeps(a: Seq<u64>, times: Seq<u64>, now: u64)
    requires
        forall|i: int| 0 <= i < times.len() ==> now - #[trigger] times[i] <= FAILURE_WINDOW,
    ensures
        exists|b: Seq<u64>| #[trigger] (b + times) == recent(a + times, now),
    decreases a.len(),
{
    let all = a + times;
    if a.len() > 0 && now - a[0] > FAILURE_WINDOW {
        recent_keeps(a.skip(1), times, now);
        assert(all.skip(1) =~= a.skip(1) + times);
        assert(all[0] == a[0]);
    } else {
        if a.len() == 0 && times.len() > 0 {
            assert(all[0] == times[0]);
        } else if a.len() > 0 {
            assert(all[0] == a[0]);
        }
        assert(recent(all, now) == a + times);
    }
}

proof fn failures_pile_up(
    s: SessionsView,
    givens: Seq<Seq<char>>,
    password: Seq<char>,
    times: Seq<u64>,
    now: u64,
)
    requires
        givens.len() == times.len(),
        forall|i: int| 0 <= i < givens.len() ==> #[trigger] givens[i] != password,
        in_order(times),
        all_counted(s, givens, password, times),
        forall|i: int| 0 <= i < times.len() ==> times[i] <= now && now - #[trigger] times[i]
            <= FAILURE_WINDOW,
    ensures
        exists|b: Seq<u64>| #[trigger] (b + times) == tried_wrong(
            s,
            givens,
            password,
            times,
        ).failures,
    decreases times.len(),
{
    let after = tried_wrong(s, givens, password, times);
    if times.len() == 0 {
        assert(after.failures + times =~= after.failures);
    } else {
        let before = times.drop_last();
        let last = times.last();
        let firsts = givens.drop_last();
        assert forall|i: int| 0 <= i < firsts.len() implies #[trigger] firsts[i] != password by {
            assert(firsts[i] == givens[i]);
        }
        assert(givens[givens.len() - 1] != password);
        assert(in_order(before)) by {
            assert forall|i: int, j: int| 0 <= i <= j < before.len() implies before[i]
                <= before[j] by {
                assert(before[i] == times[i] && before[j] == times[j]);
            }
        }
        assert forall|i: int| 0 <= i < before.len() implies before[i] <= now && now
            - #[trigger] before[i] <= FAILURE_WINDOW && last - before[i] <= FAILURE_WINDOW by {
            assert(before[i] == times[i]);
            assert(times[times.len() - 1] <= now);
        }
        failures_pile_up(s, firsts, password, before, now);
        let mid = tried_wrong(s, firsts, password, before).failures;
        let a = choose|a: Seq<u64>| #[trigger] (a + before) == mid;
        recent_keeps(a, before, last);
        let b = choose|b: Seq<u64>| #[trigger] (b + before) == recent(a + before, last);
        assert(before.push(last) =~= times);
        assert(b + times =~= (b + before).push(last));
    }
}

/// Too many wrong passwords close the login: once `MAX_FAILURES` of them were answered within
/// `FAILURE_WINDOW`, the next login is turned away, whatever its password; no session is opened, and
/// the attempt does not count.
pub proof fn failures_close_login(
    s: SessionsView,
    givens: Seq<Seq<char>>,
    password: Seq<char>,
    times: Seq<u64>,
    next: Seq<char>,
    now: u64,
)
    requires
        givens.len() == times.len(),
        forall|i: int| 0 <= i < givens.len() ==> #[trigger] givens[i] != password,
        times.len() >= MAX_FAILURES,
        in_order(times),
        all_counted(s, givens, password, times),
        forall|i: int| 0 <= i < times.len() ==> times[i] <= now && now - #[trigger] times[i]
            <= FAILURE_WINDOW,
    ensures
        ({
            let closed = tried_wrong(s, givens, password, times);
            &&& refusal(closed, next, password, now) == Some(
                error_answer(429, "too many attempts, try again later"@),
            )
            &&& tried(closed, next, password, now).tokens == closed.tokens
            &&& tried(closed, next, password, now).failures == recent(closed.failures, now)
        }),
{
    let closed = tried_wrong(s, givens, password, times);
    failures_pile_up(s, givens, password, times, now);
    let a = choose|a: Seq<u64>| #[trigger] (a + times) == closed.failures;
    recent_keeps(a, times, now);
    let b = choose|b: Seq<u64>| #[trigger] (b + times) == recent(a + times, now);
    assert(recent(closed.failures, now).len() == b.len() + times.len());
}

proof fn first_session_at(parts: Seq<Seq<char>>, i: int)
    requires
        0 <= i <= parts.len(),
        forall|j: int| 0 <= j < i ==> !"session="@.is_prefix_of(trimmed(#[trigger] parts[j])),
    ensures
        i == parts.len() ==> first_session(parts) is None,
        i < parts.len() && "session="@.is_prefix_of(trimmed(parts[i])) ==> first_session(parts)
            == Some(trimmed(parts[i]).skip("session="@.len() as int)),
    decreases parts.len(),
{
    if parts.len() > 0 && i > 0 {
        let rest = parts.skip(1);
        assert forall|j: int| 0 <= j < i - 1 implies !"session="@.is_prefix_of(
            trimmed(#[trigger] rest[j]),
        ) by {
            assert(rest[j] == parts[j + 1]);
        }
        assert(!"session="@.is_prefix_of(trimmed(parts[0])));
        first_session_at(rest, i - 1);
        if i < parts.len() {
            assert(rest[i - 1] == parts[i]);
        }
    }
}

/// The session's token is found wherever it stands among the cookies: of the parts between semicolons,
/// the first that starts with `session=`, but for white space, holds it; and nothing is found only if
/// there is no such part, whatever the number of parts.
pub proof fn session_is_found(cookies: &[char], r: Option<String>, i: int)
    requires
        call_ensures(session_in, (cookies,), r),
        0 <= i < split_on(cookies@, ';').len(),
    ensures
        ({
            let parts = split_on(cookies@, ';');
            let part = trimmed(parts[i]);
            &&& "session="@.is_prefix_of(part) && (forall|j: int|
                0 <= j < i ==> !"session="@.is_prefix_of(trimmed(#[trigger] parts[j]))) ==> (
            r matches Some(t) && "session="@ + t@ == part)
            &&& "session="@.is_prefix_of(part) ==> r is Some
        }),
        r matches Some(t) ==> exists|k: int|
            0 <= k < split_on(cookies@, ';').len() && #[trigger] trimmed(split_on(cookies@, ';')[k])
                == "session="@ + t@,
{
    let parts = split_on(cookies@, ';');
    let part = trimmed(parts[i]);
    if "session="@.is_prefix_of(part) && (forall|j: int|
        0 <= j < i ==> !"session="@.is_prefix_of(trimmed(#[trigger] parts[j]))) {
        first_session_at(parts, i);
        prefix_comes_off("session="@, r->0@, part);
    }
    session_comes_from(parts);
    if "session="@.is_prefix_of(part) && r is None {
        session_missed(parts, i);
    }
}

proof fn session_comes_from(parts: Seq<Seq<char>>)
    ensures
        first_session(parts) matches Some(t) ==> exists|k: int|
            0 <= k < parts.len() && #[trigger] trimmed(parts[k]) == "session="@ + t,
    decreases parts.len(),
{
    if parts.len() > 0 {
        match behind_prefix(trimmed(parts[0]), "session="@) {
            Some(t) => {
                prefix_comes_off("session="@, t, trimmed(parts[0]));
            },
            None => {
                let rest = parts.skip(1);
                session_comes_from(rest);
                if let Some(t) = first_session(rest) {
                    let k = choose|k: int|
                        0 <= k < rest.len() && #[trigger] trimmed(rest[k]) == "session="@ + t;
                    assert(rest[k] == parts[k + 1]);
                }
            },
        }
    }
}

proof fn session_missed(parts: Seq<Seq<char>>, i: int)
    requires
        0 <= i < parts.len(),
        "session="@.is_prefix_of(trimmed(parts[i])),
    ensures
        first_session(parts) is Some,
    decreases parts.len(),
{
    if i > 0 {
        assert(parts.skip(1)[i - 1] == parts[i]);
        session_missed(parts.skip(1), i - 1);
    }
}

/// Other cookies change nothing: with any number of them in front, none of which is a session's, the
/// token is the one that the session's own cookie holds.
pub proof fn other_cookies_do_not_count(others: Seq<char>, token: Seq<char>)
    requires
        forall|i: int|
            0 <= i < split_on(others, ';').len() ==> !"session="@.is_prefix_of(
                trimmed(#[trigger] split_on(others, ';')[i]),
            ),
        forall|i: int| 0 <= i < token.len() ==> alphanumeric(#[trigger] token[i]),
    ensures
        cookie_session(Some(others + "; session="@ + token)) == Some(token),
        cookie_session(Some("session="@ + token)) == Some(token),
        cookie_session(Some(others)) is None,
{
    reveal_strlit("session=");
    reveal_strlit("; session=");
    let own = "session="@ + token;
    let part = seq![' '] + own;
    assert forall|i: int| 0 <= i < own.len() implies !is_white(#[trigger] own[i]) && own[i]
        != ';' by {
        if i >= 8 {
            assert(own[i] == token[i - 8]);
        }
    }
    assert(!part.contains(';')) by {
        if part.contains(';') {
            let i = choose|i: int| 0 <= i < part.len() && part[i] == ';';
            if i > 0 {
                assert(part[i] == own[i - 1]);
            }
        }
    }
    assert(others + "; session="@ + token =~= others.push(';') + part);
    split_behind(others, part, ';');
    let before = split_on(others, ';');
    let parts = before.push(part);
    assert(seq![' '] + own + Seq::<char>::empty() =~= part);
    assert(!is_white(own[0]));
    assert(!is_white(own[own.len() - 1]));
    trimmed_undoes(seq![' '], own, Seq::<char>::empty());
    assert("session="@.is_prefix_of(own));
    assert(own.skip(8) =~= token);
    assert forall|j: int| 0 <= j < before.len() implies !"session="@.is_prefix_of(
        trimmed(#[trigger] parts[j]),
    ) by {
        assert(parts[j] == before[j]);
    }
    first_session_at(parts, before.len() as int);
    first_session_at(before, before.len() as int);
    split_plain(own, ';');
    trimmed_plain(own);
}

/// How many failures there were in the last ten minutes, at a time in nanoseconds.
pub open spec fn failures_at(failures: Seq<u64>, now: u64) -> nat {
    failures.filter(|t: u64| now - t <= 600_000_000_000).len()
}

/// A login is decided by the number of failures in the last ten minutes, and then by the password: ten
/// close it, whatever the password; below that, the right password, and no other, opens a session of
/// thirty days, and any other counts as one failure more. Nobody else's session is touched.
pub proof fn login_is_decided(body: LoginReq, password: &str, now: u64, instant: u64)
    requires
        now + 2592000 <= u64::MAX,
    ensures
        forall|s: &mut Sessions, r: (Reply, Option<FileWrite>)|
            in_order(s@.failures) && #[trigger] call_ensures(
                login,
                (s, &body, password, now, instant),
                r,
            ) ==> {
                let n = failures_at(s@.failures, instant);
                if n >= 10 {
                    &&& r.0@ == error_answer(429, "too many attempts, try again later"@)
                    &&& r.0@.status == 429
                    &&& r.1 is None
                    &&& final(s)@.tokens == s@.tokens
                    &&& final(s)@.failures.len() == n
                } else if body.password@ != password@ {
                    &&& r.0@ == error_answer(401, "wrong password"@)
                    &&& r.0@.status == 401
                    &&& r.1 is None
                    &&& final(s)@.tokens == s@.tokens
                    &&& final(s)@.failures.len() == n + 1
                    &&& final(s)@.failures.last() == instant
                } else {
                    &&& r.0@.status == 200
                    &&& r.1 is Some
                    &&& final(s)@.failures.len() == n
                    &&& exists|token: Seq<char>|
                        {
                            &&& token.len() == 48
                            &&& r.0@.headers == seq![("set-cookie"@, #[trigger] login_cookie(token))]
                            &&& final(s)@.tokens.contains_key(token)
                            &&& final(s)@.tokens[token] == now + 2592000
                            &&& forall|other: Seq<char>|
                                other != token ==> (valid(final(s)@.tokens, other, now)
                                    <==> #[trigger] valid(s@.tokens, other, now))
                        }
                }
            },
{
    assert forall|s: &mut Sessions, r: (Reply, Option<FileWrite>)|
        in_order(s@.failures) && #[trigger] call_ensures(
            login,
            (s, &body, password, now, instant),
            r,
        ) implies {
        let n = failures_at(s@.failures, instant);
        if n >= 10 {
            &&& r.0@ == error_answer(429, "too many attempts, try again later"@)
            &&& r.0@.status == 429
            &&& r.1 is None
            &&& final(s)@.tokens == s@.tokens
            &&& final(s)@.failures.len() == n
        } else if body.password@ != password@ {
            &&& r.0@ == error_answer(401, "wrong password"@)
            &&& r.0@.status == 401
            &&& r.1 is None
            &&& final(s)@.tokens == s@.tokens
            &&& final(s)@.failures.len() == n + 1
            &&& final(s)@.failures.last() == instant
        } else {
            &&& r.0@.status == 200
            &&& r.1 is Some
            &&& final(s)@.failures.len() == n
            &&& exists|token: Seq<char>|
                {
                    &&& token.len() == 48
                    &&& r.0@.headers == seq![("set-cookie"@, #[trigger] login_cookie(token))]
                    &&& final(s)@.tokens.contains_key(token)
                    &&& final(s)@.tokens[token] == now + 2592000
                    &&& forall|other: Seq<char>|
                        other != token ==> (valid(final(s)@.tokens, other, now)
                            <==> #[trigger] valid(s@.tokens, other, now))
                }
        }
    } by {
        window_counts(s@.failures, instant);
        let counts = |t: u64| instant - t <= 600_000_000_000;
        let same = |t: u64| instant - t <= FAILURE_WINDOW;
        assert(counts =~= same);
        if failures_at(s@.failures, instant) < 10 && body.password@ == password@ {
            let token = choose|token: Seq<char>|
                {
                    &&& token.len() == TOKEN_LEN
                    &&& forall|i: int| 0 <= i < TOKEN_LEN ==> alphanumeric(#[trigger] token[i])
                    &&& r.0@ == cookie_answer(#[trigger] login_cookie(token))
                    &&& r.1 is Some
                    &&& stores(r.1->0, final(s)@)
                    &&& final(s)@ == opened(
                        tried(s@, body.password@, password@, instant),
                        token,
                        now,
                    )
                };
            assert(token.len() == 48);
            assert(r.0@.headers == seq![("set-cookie"@, login_cookie(token))]);
            assert forall|other: Seq<char>| other != token implies (valid(
                final(s)@.tokens,
                other,
                now,
            ) <==> #[trigger] valid(s@.tokens, other, now)) by {
                login_keeps_others(
                    tried(s@, body.password@, password@, instant),
                    token,
                    other,
                    now,
                    now,
                );
            }
        }
    }
}

/// A request passes if it is the login itself, if it came over the local socket, or if it carries the
/// token of a session that has not expired; any other is answered with 401.
pub proof fn guard_is_exact(
    s: Sessions,
    path: &str,
    trusted: Option<TrustedLocal>,
    token: Option<String>,
    now: u64,
    r: Option<Reply>,
)
    requires
        call_ensures(guard, (&s, path, trusted, &token, now), r),
    ensures
        r is None <==> {
            ||| path@ == "/api/login"@
            ||| trusted is Some
            ||| token matches Some(t) && s@.tokens.contains_key(t@) && s@.tokens[t@] > now
        },
        r matches Some(reply) ==> {
            &&& reply@.status == 401
            &&& reply@.body matches BodyView::Json(j)
            &&& member_of(j, "error"@) == Some(Json::Text("not logged in"@))
        },
{
    error_member(401, "not logged in"@);
}

/// The guard of every request goes by the token in the request's cookies.
pub proof fn requests_are_guarded(
    s: Sessions,
    path: &str,
    trusted: Option<TrustedLocal>,
    headers: HeaderMap,
    now: u64,
    r: Option<Reply>,
    token: Option<String>,
)
    requires
        call_ensures(auth_mw, (&s, path, trusted, &headers, now), r),
        call_ensures(session_token, (&headers,), token),
    ensures
        r is None <==> {
            ||| path@ == "/api/login"@
            ||| trusted is Some
            ||| token matches Some(t) && s@.tokens.contains_key(t@) && s@.tokens[t@] > now
        },
        r matches Some(reply) ==> reply@.status == 401,
{
}

/// The token that a request carries is the one in the text of its `Cookie` header.
pub proof fn token_comes_from_cookie(
    headers: HeaderMap,
    r: Option<String>,
    text: &[char],
    s: Option<String>,
)
    requires
        call_ensures(session_token, (&headers,), r),
        header_text_of(header_values(headers), "cookie"@) == Some(text@),
        call_ensures(session_in, (text,), s),
    ensures
        opt_view(r) == opt_view(s),
{
}

/// A logout ends the session that the request carries, and no other, takes the cookie away, and is
/// stored; without a session it changes nothing.
pub proof fn logout_is_exact(headers: HeaderMap, token: Option<String>)
    requires
        call_ensures(session_token, (&headers,), token),
    ensures
        forall|s: &mut Sessions, r: (Reply, Option<FileWrite>)| #[trigger]
            call_ensures(logout, (s, &headers), r) ==> {
                &&& r.0@.status == 200
                &&& r.0@.headers == seq![
                    (
                        "set-cookie"@,
                        "session=; HttpOnly; Secure; SameSite=Strict; Path=/; Max-Age=0"@,
                    ),
                ]
                &&& r.1 is Some <==> token is Some
                &&& token matches Some(t) ==> !final(s)@.tokens.contains_key(t@)
                &&& forall|other: Seq<char>|
                    !(token matches Some(t) && t@ == other) ==> (
                    #[trigger] final(s)@.tokens.contains_key(other) <==> s@.tokens.contains_key(
                        other,
                    )) && final(s)@.tokens[other] == s@.tokens[other]
            },
{
}

/// A session is good for thirty days from its login: it is checked against the time at which it was
/// opened, to the second. Sessions that have expired by then go; no other is touched.
pub proof fn session_lasts_thirty_days(token: &str, opened_at: u64, now: u64)
    requires
        opened_at + 2592000 <= u64::MAX,
    ensures
        2592000 == 30 * 24 * 60 * 60,
        forall|s: &mut Sessions, w: FileWrite| #[trigger]
            call_ensures(Sessions::insert, (s, token, opened_at), w) ==> {
                &&& valid(final(s)@.tokens, token@, now) <==> now < opened_at + 2592000
                &&& final(s)@.failures == s@.failures
                &&& sessions_read(w.content@) == Some(final(s)@.tokens)
                &&& w.path@ == s@.path && w.mode == 0o600
                &&& forall|other: Seq<char>|
                    other != token@ ==> (#[trigger] final(s)@.tokens.contains_key(other)
                        <==> s@.tokens.contains_key(other) && s@.tokens[other] > opened_at)
                &&& forall|other: Seq<char>|
                    other != token@ && #[trigger] final(s)@.tokens.contains_key(other)
                        ==> final(s)@.tokens[other] == s@.tokens[other]
            },
        forall|s: Sessions, r: bool| #[trigger]
            call_ensures(Sessions::check, (&s, token, now), r) ==> (r
                <==> s@.tokens.contains_key(token@) && s@.tokens[token@] > now),
{
}

/// A failure is remembered with its time, behind those before it; those that are older than ten minutes
/// are forgotten, and ten that are not close the login.
pub proof fn failures_are_counted(now: u64)
    ensures
        forall|s: &mut Sessions, r: ()| #[trigger]
            call_ensures(Sessions::record_failure, (s, now), r) ==> final(s)@.failures
                == s@.failures.push(now) && final(s)@.tokens == s@.tokens,
        forall|s: &mut Sessions, r: bool|
            in_order(s@.failures) && #[trigger] call_ensures(Sessions::throttled, (s, now), r) ==> {
                &&& r <==> failures_at(s@.failures, now) >= 10
                &&& final(s)@.failures.len() == failures_at(s@.failures, now)
                &&& final(s)@.tokens == s@.tokens
            },
{
    assert forall|s: &mut Sessions, r: bool|
        in_order(s@.failures) && #[trigger] call_ensures(Sessions::throttled, (s, now), r) implies {
        &&& r <==> failures_at(s@.failures, now) >= 10
        &&& final(s)@.failures.len() == failures_at(s@.failures, now)
        &&& final(s)@.tokens == s@.tokens
    } by {
        window_counts(s@.failures, now);
        let counts = |t: u64| now - t <= 600_000_000_000;
        let same = |t: u64| now - t <= FAILURE_WINDOW;
        assert(counts =~= same);
    }
}

/// Sessions survive a restart: what is stored at one time is what is there after the next start, under
/// the same path, readable by its owner alone. Failures are forgotten.
pub proof fn stored_sessions_return(s: Sessions, w: FileWrite, stored: &str, path: &str, t: Sessions)
    requires
        call_ensures(Sessions::save, (&s,), w),
        stored@ == w.content@,
        path@ == w.path@,
        call_ensures(Sessions::load, (path, Some(stored)), t),
    ensures
        t@.tokens == s@.tokens,
        t@.path == s@.path,
        t@.failures.len() == 0,
        w.mode == 0o600,
{
}

/// The cookie of a login holds the token, is kept for as long as the session lasts, and is out of reach
/// of scripts, of plain lines and of other sites.
pub proof fn login_cookie_is_strict(token: &str, r: Reply)
    requires
        call_ensures(grant, (token,), r),
    ensures
        r@.status == 200,
        r@.headers.len() == 1,
        r@.headers[0].0 == "set-cookie"@,
        ({
            let cookie = r@.headers[0].1;
            let front = "session="@ + token@;
            let flags = "; HttpOnly; Secure; SameSite=Strict; Path=/; Max-Age="@;
            &&& cookie.take(front.len() as int) == front
            &&& cookie.subrange(front.len() as int, (front + flags).len() as int) == flags
            &&& decimal_value(cookie.skip((front + flags).len() as int)) == 2592000
        }),
{
    let cookie = login_cookie(token@);
    let front = "session="@ + token@;
    let flags = "; HttpOnly; Secure; SameSite=Strict; Path=/; Max-Age="@;
    assert(cookie.take(front.len() as int) =~= front);
    assert(cookie.subrange(front.len() as int, (front + flags).len() as int) =~= flags);
    assert(cookie.skip((front + flags).len() as int) =~= decimal(2592000));
    decimal_reads_back(2592000);
}

/// A client is told the home directory and the host's name, whole, but for white space round the name.
pub proof fn machine_is_told(home: Option<&str>, hostname: Option<&str>, r: Reply)
    requires
        call_ensures(me, (home, hostname), r),
    ensures
        r@.status == 200,
        r@.body matches BodyView::Json(j) && {
            &&& member_of(j, "ok"@) == Some(Json::Bool(true))
            &&& member_of(j, "home"@) == Some(
                Json::Text(
                    match home {
                        Some(h) => h@,
                        None => "/"@,
                    },
                ),
            )
            &&& hostname matches Some(h) ==> member_of(j, "hostname"@) == Some(
                Json::Text(trimmed(h@)),
            )
            &&& hostname is None ==> member_of(j, "hostname"@) == Some(Json::Text(Seq::empty()))
        },
{
    reveal_strlit("ok");
    reveal_strlit("home");
    reveal_strlit("hostname");
    assert("ok"@.len() == 2 && "home"@.len() == 4 && "hostname"@.len() == 8);
    let h = match home {
        Some(h) => h@,
        None => "/"@,
    };
    let n = match hostname {
        Some(h) => trimmed(h@),
        None => seq![],
    };
    let fields = seq![
        ("ok"@, Json::Bool(true)),
        ("home"@, Json::Text(h)),
        ("hostname"@, Json::Text(n)),
    ];
    object_member(fields, 0);
    object_member(fields, 1);
    object_member(fields, 2);
}

/// Two passwords are the same if they have the same characters, all of them.
pub proof fn passwords_compare_whole(a: &str, b: &str, r: bool)
    requires
        call_ensures(ct_eq, (a, b), r),
    ensures
        r <==> a@.len() == b@.len() && forall|i: int| 0 <= i < a@.len() ==> a@[i] == b@[i],
{
    if a@.len() == b@.len() && forall|i: int| 0 <= i < a@.len() ==> a@[i] == b@[i] {
        assert(a@ =~= b@);
    }
}

/// A file that is missing, or that holds no sessions, is taken for none.
pub proof fn unreadable_sessions_are_none(path: &str, text: &str, a: Sessions, b: Sessions)
    requires
        call_ensures(Sessions::load, (path, None), a),
        sessions_read(text@) is None,
        call_ensures(Sessions::load, (path, Some(text)), b),
    ensures
        forall|token: Seq<char>| !a@.tokens.contains_key(token) && !b@.tokens.contains_key(token),
        a@.path == path@,
        b@.path == path@,
        a@.failures.len() == 0,
{
}

/// Ending a session ends that one and no other, and is stored; leaving without one changes nothing.
pub proof fn sessions_end_alone(token: &str, own: Option<String>)
    ensures
        forall|s: &mut Sessions, w: FileWrite| #[trigger]
            call_ensures(Sessions::remove, (s, token), w) ==> {
                &&& !final(s)@.tokens.contains_key(token@)
                &&& forall|other: Seq<char>|
                    other != token@ ==> (#[trigger] final(s)@.tokens.contains_key(other)
                        <==> s@.tokens.contains_key(other)) && final(s)@.tokens[other]
                        == s@.tokens[other]
                &&& sessions_read(w.content@) == Some(final(s)@.tokens)
                &&& w.path@ == s@.path
                &&& final(s)@.failures == s@.failures
            },
        forall|s: &mut Sessions, r: (Reply, Option<FileWrite>)| #[trigger]
            call_ensures(leave, (s, own), r) ==> {
                &&& r.0@.status == 200
                &&& own matches Some(t) ==> final(s)@.tokens == s@.tokens.remove(t@) && r.1 is Some
                &&& own is None ==> final(s)@ == s@ && r.1 is None
            },
{
}

/// A login is refused for a wrong password, or because it is closed, and for nothing else; being refused
/// opens no session and ends none.
pub proof fn refusal_is_exact(body: LoginReq, password: &str, now: u64)
    ensures
        forall|s: &mut Sessions, r: Option<Reply>|
            in_order(s@.failures) && #[trigger] call_ensures(refuse, (s, &body, password, now), r) ==> {
                let n = failures_at(s@.failures, now);
                &&& r is None <==> n < 10 && body.password@ == password@
                &&& n >= 10 ==> r->0@.status == 429 && final(s)@.failures.len() == n
                &&& n < 10 && r is Some ==> r->0@.status == 401 && final(s)@.failures.len() == n + 1
                &&& final(s)@.tokens == s@.tokens
            },
{
    assert forall|s: &mut Sessions, r: Option<Reply>|
        in_order(s@.failures) && #[trigger] call_ensures(
            refuse,
            (s, &body, password, now),
            r,
        ) implies {
        let n = failures_at(s@.failures, now);
        &&& r is None <==> n < 10 && body.password@ == password@
        &&& n >= 10 ==> r->0@.status == 429 && final(s)@.failures.len() == n
        &&& n < 10 && r is Some ==> r->0@.status == 401 && final(s)@.failures.len() == n + 1
        &&& final(s)@.tokens == s@.tokens
    } by {
        window_counts(s@.failures, now);
        let counts = |t: u64| now - t <= 600_000_000_000;
        let same = |t: u64| now - t <= FAILURE_WINDOW;
        assert(counts =~= same);
    }
}

}
