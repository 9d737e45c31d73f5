//! The connection that all terminals of a browser share.

use crate::auth::TrustedLocal;
use crate::config::{strings_view, Config};
use crate::frame::{
    bytes_from, bytes_of, bytes_slice, decode, frame_id, frame_json, json_frame, json_frame_bytes,
    messages, output_frames, output_payloads, payloads, slice_frames, FT_BYTES, FT_JSON,
};
use crate::headers::{header_text, header_text_of, header_values, plain_name};
use crate::json::{
    boolean, field, fields_view, json, json_all, list, member_of, number, object, object_member,
    object_of, opt_view, tame, tame_deeper, tame_object, text, Json,
};
use crate::manager::{
    after, after_attach, after_created, after_detach, after_kill, after_resize, bump, first_of,
    fresh_terminal, lists, shell_env, shows, spawn_error, stage_name, ManagerView, Spawn, SpawnStage,
    Step, TermManager,
};
use crate::reply::{pairs_view, Body, BodyView, Reply, ReplyView};
use crate::screen::{same_screen, screen_replay, screen_size};
use crate::term::{
    event_frame, event_json, info_json, info_json_tame, info_members, info_value, Event, SubMsg,
    TermInfo,
};
use crate::text::{
    append, behind_prefix, chars_of, decimal, decimal_chars, prefix_comes_off, same_chars, spells,
    string_of, strip_prefix,
};
use axum::http::HeaderMap;
use bytes::Bytes;
use serde_json::Value;
use vstd::prelude::*;
use vt100::Screen;

verus! {

// ---------- Who may connect ----------

/// The host in an origin; nothing if the origin is no page of the web.
pub open spec fn origin_host(origin: Seq<char>) -> Seq<char> {
    match behind_prefix(origin, "https://"@) {
        Some(host) => host,
        None => match behind_prefix(origin, "http://"@) {
            Some(host) => host,
            None => seq![],
        },
    }
}

/// Holds of the origins from which a connection may come: those that are listed, and the host that
/// the request itself is for. A request without an origin has none of these.
pub open spec fn origin_allowed(
    origin: Option<Seq<char>>,
    host: Option<Seq<char>>,
    allowed: Seq<Seq<char>>,
) -> bool {
    match origin {
        Some(o) => allowed.contains(o) || origin_host(o).len() > 0 && host == Some(origin_host(o)),
        None => false,
    }
}

/// The characters of an optional text.
pub open spec fn chars_view(s: Option<Vec<char>>) -> Option<Seq<char>> {
    match s {
        Some(t) => Some(t@),
        None => None,
    }
}

/// Whether a connection may come from an origin.
pub fn admits(
    origin: &Option<Vec<char>>,
    host: &Option<Vec<char>>,
    allowed: &Vec<String>,
) -> (r: bool)
    ensures
        r == origin_allowed(chars_view(*origin), chars_view(*host), strings_view(allowed@)),
{
    let page = match origin {
        Some(o) => o,
        None => return false,
    };
    let ghost all = strings_view(allowed@);
    let mut i: usize = 0;
    while i < allowed.len()
        invariant
            i <= allowed@.len(),
            all == strings_view(allowed@),
            forall|k: int| 0 <= k < i ==> all[k] != page@,
            chars_view(*origin) == Some(page@),
        decreases allowed@.len() - i,
    {
        if spells(page.as_slice(), allowed[i].as_str()) {
            assert(all[i as int] == page@);
            assert(all.contains(page@));
            return true;
        }
        i += 1;
    }
    assert(!all.contains(page@));
    let from = match strip_prefix(page.as_slice(), "https://") {
        Some(host) => host,
        None => match strip_prefix(page.as_slice(), "http://") {
            Some(host) => host,
            None => Vec::new(),
        },
    };
    assert(from@ =~= origin_host(page@));
    match host {
        Some(host) => from.len() > 0 && same_chars(from.as_slice(), host.as_slice()),
        None => false,
    }
}

/// Whether a connection may come from where the request comes from.
pub fn origin_ok(headers: &HeaderMap, cfg: &Config) -> (r: bool)
    ensures
        r == origin_allowed(
            header_text_of(header_values(*headers), "origin"@),
            header_text_of(header_values(*headers), "host"@),
            strings_view(cfg.allowed_origins@),
        ),
{
    proof {
        reveal_strlit("origin");
        reveal_strlit("host");
        assert(plain_name("origin"@));
        assert(plain_name("host"@));
    }
    let origin = header_text(headers, "origin");
    let host = header_text(headers, "host");
    admits(&origin, &host, &cfg.allowed_origins)
}

/// The answer to a connection from elsewhere.
pub open spec fn bad_origin() -> ReplyView {
    ReplyView { status: 403, headers: seq![], body: BodyView::Text("bad origin"@) }
}

/// Guards a connection: nothing if it may come about, and else the answer to it. Clients on the
/// local socket have no origin, and need none.
pub fn ws_handler(cfg: &Config, headers: &HeaderMap, trusted: Option<TrustedLocal>) -> (r: Option<
    Reply,
>)
    ensures
        match r {
            Some(reply) => {
                &&& trusted is None
                &&& !origin_allowed(
                    header_text_of(header_values(*headers), "origin"@),
                    header_text_of(header_values(*headers), "host"@),
                    strings_view(cfg.allowed_origins@),
                )
                &&& reply@ == bad_origin()
            },
            None => trusted is Some || origin_allowed(
                header_text_of(header_values(*headers), "origin"@),
                header_text_of(header_values(*headers), "host"@),
                strings_view(cfg.allowed_origins@),
            ),
        },
{
    if trusted.is_none() && !origin_ok(headers, cfg) {
        let r = Reply {
            status: 403,
            headers: Vec::new(),
            body: Body::Text("bad origin".to_string()),
        };
        assert(pairs_view(r.headers@) =~= seq![]);
        return Some(r);
    }
    None
}

/// A page from another site cannot connect, whatever it claims, unless it is listed: its origin
/// names a host that is not the one that the request is for.
pub proof fn foreign_page_refused(
    origin: Seq<char>,
    host: Option<Seq<char>>,
    allowed: Seq<Seq<char>>,
)
    requires
        !allowed.contains(origin),
        host != Some(origin_host(origin)),
    ensures
        !origin_allowed(Some(origin), host, allowed),
{
}

/// A page that the server itself serves can connect, over a safe line and over a plain one.
pub proof fn own_page_admitted(host: Seq<char>, allowed: Seq<Seq<char>>)
    requires
        host.len() > 0,
    ensures
        origin_allowed(Some("https://"@ + host), Some(host), allowed),
        origin_allowed(Some("http://"@ + host), Some(host), allowed),
{
    reveal_strlit("https://");
    reveal_strlit("http://");
    let safe = "https://"@ + host;
    let plain = "http://"@ + host;
    assert("https://"@.is_prefix_of(safe));
    assert(safe.skip(8) =~= host);
    assert("http://"@.is_prefix_of(plain));
    assert(plain.skip(7) =~= host);
    assert(!"https://"@.is_prefix_of(plain)) by {
        assert(plain[4] == ':');
        assert("https://"@[4] == 's');
    }
}

// ---------- What the server says ----------

/// The list of terminals, as a new connection gets it.
pub open spec fn hello_json(terms: Seq<TermInfo>) -> Json {
    object_of(
        seq![
            ("ev"@, Json::Text("hello"@)),
            ("terminals"@, Json::List(terms.map_values(|t: TermInfo| info_json(t)))),
        ],
    )
}

/// What who created a terminal is told, beside what everyone is told.
pub open spec fn create_ok_json(term: TermInfo) -> Json {
    object_of(seq![("ev"@, Json::Text("create_ok"@)), ("term"@, info_json(term))])
}

/// What went wrong.
pub open spec fn error_json(msg: Seq<char>) -> Json {
    object_of(seq![("ev"@, Json::Text("error"@)), ("msg"@, Json::Text(msg))])
}

/// What comes before the replay of a terminal.
pub open spec fn attached_json(id: u64, sub: u64, exited: bool) -> Json {
    object_of(
        seq![
            ("ev"@, Json::Text("attached"@)),
            ("id"@, Json::Int(id as int)),
            ("sub"@, Json::Int(sub as int)),
            ("exited"@, Json::Bool(exited)),
        ],
    )
}

/// What is said where there is no such terminal.
pub open spec fn not_found(id: u64) -> Seq<char> {
    "terminal "@ + decimal(id as nat) + " not found"@
}

/// Holds of a message that carries a document, which can be read back from it.
pub open spec fn tells(m: Bytes, j: Json) -> bool {
    &&& bytes_of(m) == json_frame_bytes(j)
    &&& frame_json(bytes_of(m)) == Some(j)
}

fn tell(v: &Value) -> (m: Bytes)
    requires
        tame(json(*v), 127),
    ensures
        tells(m, json(*v)),
{
    bytes_from(json_frame(v))
}

/// Says which terminals there are.
pub fn hello(terms: &Vec<TermInfo>) -> (m: Bytes)
    ensures
        tells(m, hello_json(terms@)),
{
    let ghost all = terms@.map_values(|t: TermInfo| info_json(t));
    let mut items: Vec<Value> = Vec::new();
    let mut i: usize = 0;
    while i < terms.len()
        invariant
            i <= terms@.len(),
            all == terms@.map_values(|t: TermInfo| info_json(t)),
            json_all(items@) =~= all.take(i as int),
        decreases terms@.len() - i,
    {
        let ghost before = items@;
        items.push(info_value(&terms[i]));
        assert(json_all(items@) =~= json_all(before).push(all[i as int]));
        i += 1;
    }
    assert(all.take(i as int) =~= all);
    let mut fields: Vec<(String, Value)> = Vec::new();
    fields.push(field("ev", text("hello".to_string())));
    fields.push(field("terminals", list(items)));
    let ghost seen = seq![("ev"@, Json::Text("hello"@)), ("terminals"@, Json::List(all))];
    assert(fields_view(fields@) =~= seen);
    proof {
        assert forall|i: int| 0 <= i < all.len() implies tame(#[trigger] all[i], 125) by {
            info_json_tame(terms@[i]);
            tame_deeper(all[i], 1, 125);
        }
        assert(tame(Json::List(all), 126));
        reveal_strlit("ev");
        reveal_strlit("terminals");
        tame_object(seen, 127);
    }
    tell(&object(fields))
}

/// Tells who created a terminal which one it is.
pub fn create_ok(term: &TermInfo) -> (m: Bytes)
    ensures
        tells(m, create_ok_json(*term)),
{
    let mut fields: Vec<(String, Value)> = Vec::new();
    fields.push(field("ev", text("create_ok".to_string())));
    fields.push(field("term", info_value(term)));
    let ghost seen = seq![("ev"@, Json::Text("create_ok"@)), ("term"@, info_json(*term))];
    assert(fields_view(fields@) =~= seen);
    proof {
        info_json_tame(*term);
        tame_deeper(info_json(*term), 1, 126);
        reveal_strlit("ev");
        reveal_strlit("term");
        tame_object(seen, 127);
    }
    tell(&object(fields))
}

/// Says what went wrong.
pub fn error(msg: String) -> (m: Bytes)
    ensures
        tells(m, error_json(msg@)),
{
    let mut fields: Vec<(String, Value)> = Vec::new();
    fields.push(field("ev", text("error".to_string())));
    fields.push(field("msg", text(msg)));
    let ghost seen = seq![("ev"@, Json::Text("error"@)), ("msg"@, Json::Text(msg@))];
    assert(fields_view(fields@) =~= seen);
    proof {
        reveal_strlit("ev");
        reveal_strlit("msg");
        tame_object(seen, 127);
    }
    tell(&object(fields))
}

/// Says that there is no such terminal.
pub fn missing(id: u64) -> (m: Bytes)
    ensures
        tells(m, error_json(not_found(id))),
{
    let mut out = chars_of("terminal ");
    let mut digits = decimal_chars(id);
    out.append(&mut digits);
    append(&mut out, " not found");
    error(string_of(out.as_slice()))
}

/// Announces the replay of a terminal.
pub fn attached(id: u64, sub: u64, exited: bool) -> (m: Bytes)
    ensures
        tells(m, attached_json(id, sub, exited)),
{
    let mut fields: Vec<(String, Value)> = Vec::new();
    fields.push(field("ev", text("attached".to_string())));
    fields.push(field("id", number(id)));
    fields.push(field("sub", number(sub)));
    fields.push(field("exited", boolean(exited)));
    let ghost seen = seq![
        ("ev"@, Json::Text("attached"@)),
        ("id"@, Json::Int(id as int)),
        ("sub"@, Json::Int(sub as int)),
        ("exited"@, Json::Bool(exited)),
    ];
    assert(fields_view(fields@) =~= seen);
    proof {
        reveal_strlit("ev");
        reveal_strlit("id");
        reveal_strlit("sub");
        reveal_strlit("exited");
        tame_object(seen, 127);
    }
    tell(&object(fields))
}

// ---------- What comes in ----------

/// A message from a client.
pub enum Incoming {
    Binary(Bytes),
    Close,
    Other,
}

/// What a message asks for.
pub enum Received {
    /// Type this into a terminal.
    Input { id: u64, data: Bytes },
    /// Read an operation from this, and do it.
    Control { payload: Bytes },
    /// Nothing.
    Ignore,
    /// End the connection.
    Stop,
}

/// Holds of what a message asks for.
pub open spec fn asks(msg: Incoming, r: Received) -> bool {
    match msg {
        Incoming::Binary(b) => {
            let m = bytes_of(b);
            if m.len() >= 5 && m[0] == FT_BYTES {
                &&& r matches Received::Input { id, data }
                &&& id == frame_id(m)
                &&& bytes_of(data) == m.skip(5)
            } else if m.len() >= 5 && m[0] == FT_JSON {
                &&& r matches Received::Control { payload }
                &&& bytes_of(payload) == m.skip(5)
            } else {
                r is Ignore
            }
        },
        Incoming::Close => r is Stop,
        Incoming::Other => r is Ignore,
    }
}

/// Takes a message from a client apart. Messages that are no frames are ignored, and so are frames
/// of a kind that does not exist.
pub fn receive(msg: &Incoming) -> (r: Received)
    ensures
        asks(*msg, r),
{
    match msg {
        Incoming::Binary(b) => match decode(b) {
            Some(f) => if f.kind == FT_BYTES {
                Received::Input { id: f.id, data: f.payload }
            } else if f.kind == FT_JSON {
                Received::Control { payload: f.payload }
            } else {
                Received::Ignore
            },
            None => Received::Ignore,
        },
        Incoming::Close => Received::Stop,
        Incoming::Other => Received::Ignore,
    }
}

/// What a connection hears of what everyone is told. One that is slow may miss some of it.
pub enum Heard<'a> {
    Event(&'a Event),
    Missed,
    Over,
}

/// What a connection does with it: passes it on, goes on, or stops listening.
pub enum Relay {
    Send(Bytes),
    Skip,
    Stop,
}

/// Passes on what everyone is told.
pub fn relay(heard: &Heard) -> (r: Relay)
    ensures
        match *heard {
            Heard::Event(ev) => r matches Relay::Send(m) && tells(m, event_json(*ev)),
            Heard::Missed => r is Skip,
            Heard::Over => r is Stop,
        },
{
    match heard {
        Heard::Event(ev) => Relay::Send(bytes_from(event_frame(ev))),
        Heard::Missed => Relay::Skip,
        Heard::Over => Relay::Stop,
    }
}

// ---------- Operations ----------

/// An operation that a client asks for.
pub enum Op {
    Create { cwd: Option<String>, rows: u16, cols: u16 },
    Attach { id: u64 },
    Detach { id: u64, sub: u64 },
    Kill { id: u64 },
    Resize { id: u64, rows: u16, cols: u16 },
    List,
}

/// What is left to do for an operation.
pub enum Todo {
    /// Nothing.
    Nothing,
    /// Send this to the client.
    Send(Bytes),
    /// Start a shell; then list the terminal with `opened`, or else tell the client with
    /// `not_opened`.
    Start(Spawn),
    /// Let the watcher attach with `show`, with the terminal's screen.
    Show { id: u64, sub: u64 },
    /// End the watcher's stream.
    Leave { id: u64, sub: u64 },
    /// End the terminal's process, and tell everyone. If the process is over already, nothing more
    /// will come from the terminal.
    End { id: u64, event: Event, over: bool },
    /// Give the terminal's device this size, and tell everyone if that worked.
    Fit { id: u64, rows: u16, cols: u16 },
}

/// The least size of a terminal that a client can ask for.
pub open spec fn at_least_two(n: u16) -> u16 {
    if n < 2 {
        2
    } else {
        n
    }
}

fn larger_of_two(n: u16) -> (r: u16)
    ensures
        r == at_least_two(n),
{
    if n < 2 {
        2
    } else {
        n
    }
}

/// The terminals after an operation.
pub open spec fn after_op(m: ManagerView, op: Op) -> ManagerView {
    match op {
        Op::Create { .. } => ManagerView { next_id: bump(m.next_id), ..m },
        Op::Attach { .. } => ManagerView { next_sub: bump(m.next_sub), ..m },
        Op::Detach { id, sub } => after_detach(m, id, sub),
        Op::Kill { id } => after_kill(m, id),
        Op::Resize { id, rows, cols } => after_resize(
            m,
            id,
            at_least_two(rows),
            at_least_two(cols),
        ),
        Op::List => m,
    }
}

/// Holds of what is left to do for an operation.
pub open spec fn todo_of(
    m: ManagerView,
    op: Op,
    shell: Option<String>,
    home: Option<String>,
    todo: Todo,
) -> bool {
    match op {
        Op::Create { cwd, rows, cols } => {
            &&& todo matches Todo::Start(spawn)
            &&& spawn.id == m.next_id
            &&& spawn.rows == rows
            &&& spawn.cols == cols
            &&& spawn.shell@ == first_of(opt_view(shell), "/bin/bash"@)
            &&& spawn.cwd@ == first_of(opt_view(cwd), first_of(opt_view(home), "/"@))
            &&& pairs_view(spawn.env@) == shell_env()
        },
        Op::Attach { id } => if m.listed.contains_key(id) {
            todo == (Todo::Show { id, sub: m.next_sub })
        } else {
            todo matches Todo::Send(msg) && tells(msg, error_json(not_found(id)))
        },
        Op::Detach { id, sub } => if m.listed.contains_key(id) {
            todo == (Todo::Leave { id, sub })
        } else {
            todo is Nothing
        },
        Op::Kill { id } => if m.listed.contains_key(id) {
            todo == (Todo::End { id, event: Event::Removed { id }, over: m.listed[id].exited })
        } else {
            todo matches Todo::Send(msg) && tells(msg, error_json(not_found(id)))
        },
        Op::Resize { id, rows, cols } => if m.listed.contains_key(id) {
            todo == (Todo::Fit { id, rows: at_least_two(rows), cols: at_least_two(cols) })
        } else {
            todo is Nothing
        },
        Op::List => exists|terms: Seq<TermInfo>| #[trigger]
            lists(terms, m.listed) && (todo matches Todo::Send(msg) && tells(
                msg,
                hello_json(terms),
            )),
    }
}

/// Does an operation, as far as the terminals go, and says what is left to do. `shell` and `home` are
/// the user's shell and home directory.
pub fn handle_op(
    terms: &mut TermManager,
    op: Op,
    shell: Option<String>,
    home: Option<String>,
) -> (todo: Todo)
    requires
        old(terms).wf(),
    ensures
        final(terms).wf(),
        final(terms)@ == after_op(old(terms)@, op),
        todo_of(old(terms)@, op, shell, home, todo),
{
    match op {
        Op::Create { cwd, rows, cols } => Todo::Start(terms.create(cwd, rows, cols, shell, home)),
        Op::Attach { id } => {
            let sub: u64 = terms.next_sub_id();
            if terms.input(id) {
                Todo::Show { id, sub }
            } else {
                Todo::Send(missing(id))
            }
        },
        Op::Detach { id, sub } => {
            terms.detach(id, sub);
            if terms.input(id) {
                Todo::Leave { id, sub }
            } else {
                Todo::Nothing
            }
        },
        Op::Kill { id } => match terms.kill(id) {
            Some((event, over)) => Todo::End { id, event, over },
            None => Todo::Send(missing(id)),
        },
        Op::Resize { id, rows, cols } => {
            let r: u16 = larger_of_two(rows);
            let c: u16 = larger_of_two(cols);
            if terms.resize(id, r, c) {
                Todo::Fit { id, rows: r, cols: c }
            } else {
                Todo::Nothing
            }
        },
        Op::List => {
            let infos = terms.list();
            let msg = hello(&infos);
            assert(lists(infos@, old(terms)@.listed));
            Todo::Send(msg)
        },
    }
}

/// Lists a terminal whose shell was started: gives the message to who asked for it, and what
/// everyone is told.
pub fn opened(terms: &mut TermManager, spawn: &Spawn) -> (r: (Bytes, Event))
    requires
        old(terms).wf(),
    ensures
        final(terms).wf(),
        final(terms)@ == after_created(old(terms)@, spawn.id, spawn.rows, spawn.cols),
        r.1 matches Event::Created { term } && shows(
            term,
            fresh_terminal(spawn.id, spawn.rows, spawn.cols),
        ) && tells(r.0, create_ok_json(term)),
{
    let (info, event) = terms.created(spawn.id, spawn.rows, spawn.cols);
    (create_ok(&info), event)
}

/// The message to who asked for a terminal that could not be started.
pub fn not_opened(stage: SpawnStage, reason: &str) -> (m: Bytes)
    ensures
        tells(m, error_json(stage_name(stage) + reason@)),
{
    error(spawn_error(stage, reason))
}

/// Holds of what a watcher gets on attaching: that it is attached, then the replay, in order.
pub open spec fn introduces(
    m: ManagerView,
    id: u64,
    sub: u64,
    snap: Seq<u8>,
    msgs: Seq<Bytes>,
) -> bool {
    &&& msgs.len() > 0
    &&& tells(msgs[0], attached_json(id, sub, m.listed[id].exited))
    &&& messages(msgs.skip(1)) == output_frames(id as int, snap)
}

/// Attaches a watcher to a terminal that shows `screen`: takes the replay and lets the watcher watch,
/// in one step. Gives the messages that come before the live stream.
pub fn show(
    terms: &mut TermManager,
    id: u64,
    sub: u64,
    screen: &mut Screen,
) -> (r: Option<Vec<Bytes>>)
    requires
        old(terms).wf(),
        screen_size(*old(screen)).0 > 0,
        screen_size(*old(screen)).1 > 0,
    ensures
        final(terms).wf(),
        same_screen(*final(screen), *old(screen)),
        final(terms)@ == after_attach(old(terms)@, id, sub),
        match r {
            Some(msgs) => {
                &&& old(terms)@.listed.contains_key(id)
                &&& introduces(
                    old(terms)@,
                    id,
                    sub,
                    screen_replay(*old(screen)) + old(terms)@.listed[id].pending,
                    msgs@,
                )
            },
            None => !old(terms)@.listed.contains_key(id),
        },
{
    match terms.attach(id, sub, screen) {
        Some((snap, exited)) => {
            let mut msgs: Vec<Bytes> = Vec::new();
            msgs.push(attached(id, sub, exited));
            let mut frames = slice_frames(id, snap.as_slice());
            let ghost rest = frames@;
            msgs.append(&mut frames);
            assert(msgs@.skip(1) =~= rest);
            Some(msgs)
        },
        None => None,
    }
}

/// What a watcher's live stream becomes on the line: frames for output, and nothing once the
/// terminal's process has ended.
pub fn forward(id: u64, msg: &SubMsg) -> (r: Option<Vec<Bytes>>)
    ensures
        match *msg {
            SubMsg::Output { data } => r matches Some(frames) && messages(frames@) == output_frames(
                id as int,
                bytes_of(data),
            ),
            SubMsg::Exited => r is None,
        },
{
    match msg {
        SubMsg::Output { data } => Some(slice_frames(id, bytes_slice(data))),
        SubMsg::Exited => None,
    }
}

/// Every operation is one step of the terminals, so that what holds of their steps holds of all
/// that clients can ask for.
pub proof fn operations_are_steps(m: ManagerView, op: Op)
    ensures
        after_op(m, op) == match op {
            Op::Create { .. } => after(m, Step::Create),
            Op::Attach { .. } => after(m, Step::NextSub),
            Op::Detach { id, sub } => after(m, Step::Detach { id, sub }),
            Op::Kill { id } => after(m, Step::Kill { id }),
            Op::Resize { id, rows, cols } => after(
                m,
                Step::Resize { id, rows: at_least_two(rows), cols: at_least_two(cols) },
            ),
            Op::List => m,
        },
{
}

// ---------- Laws ----------

/// A resize gives the size that was asked for, to the terminal that it names: as the list shows it, and as
/// the device gets it. Only a number below 2 is changed, to 2. A terminal that is not listed gets none.
pub proof fn resize_is_as_asked(
    id: u64,
    rows: u16,
    cols: u16,
    shell: Option<String>,
    home: Option<String>,
)
    ensures
        forall|terms: &mut TermManager, todo: Todo| #[trigger]
            call_ensures(handle_op, (terms, Op::Resize { id, rows, cols }, shell, home), todo) ==> {
                let h = if rows >= 2 {
                    rows
                } else {
                    2
                };
                let w = if cols >= 2 {
                    cols
                } else {
                    2
                };
                if terms@.listed.contains_key(id) {
                    &&& final(terms)@.listed.contains_key(id)
                    &&& final(terms)@.listed[id].rows == h
                    &&& final(terms)@.listed[id].cols == w
                    &&& final(terms)@.listed[id].title == terms@.listed[id].title
                    &&& final(terms)@.listed[id].subs == terms@.listed[id].subs
                    &&& todo matches Todo::Fit { id: i, rows: r, cols: c }
                    &&& i == id && r == h && c == w
                } else {
                    todo is Nothing && final(terms)@ == terms@
                }
            },
{
}

/// A new terminal is started under the next number, with the size, the directory, the shell and the
/// environment that belong to it; nothing is listed before it runs.
pub proof fn create_is_as_asked(
    cwd: Option<String>,
    rows: u16,
    cols: u16,
    shell: Option<String>,
    home: Option<String>,
)
    ensures
        forall|terms: &mut TermManager, todo: Todo| #[trigger]
            call_ensures(handle_op, (terms, Op::Create { cwd, rows, cols }, shell, home), todo) ==> {
                &&& final(terms)@.listed == terms@.listed
                &&& terms@.next_id < u64::MAX ==> final(terms)@.next_id == terms@.next_id + 1
                &&& todo matches Todo::Start(spawn)
                &&& spawn.id == terms@.next_id
                &&& spawn.rows == rows
                &&& spawn.cols == cols
                &&& spawn.shell@ == match shell {
                    Some(s) => s@,
                    None => "/bin/bash"@,
                }
                &&& spawn.cwd@ == match (cwd, home) {
                    (Some(d), _) => d@,
                    (None, Some(h)) => h@,
                    (None, None) => "/"@,
                }
                &&& pairs_view(spawn.env@) == seq![
                    ("TERM"@, "xterm-256color"@),
                    ("COLORTERM"@, "truecolor"@),
                ]
            },
{
}

/// Who attaches to a listed terminal gets a watcher's number of its own, who kills one takes it off the
/// list, and everyone hears of that; where there is no such terminal, who asked is told so and nothing
/// happens to the others.
pub proof fn operations_find_terminals(
    id: u64,
    sub: u64,
    shell: Option<String>,
    home: Option<String>,
)
    ensures
        forall|terms: &mut TermManager, todo: Todo| #[trigger]
            call_ensures(handle_op, (terms, Op::Attach { id }, shell, home), todo) ==> {
                &&& final(terms)@.listed == terms@.listed
                &&& terms@.next_sub < u64::MAX ==> final(terms)@.next_sub == terms@.next_sub + 1
                &&& if terms@.listed.contains_key(id) {
                    todo == (Todo::Show { id, sub: terms@.next_sub })
                } else {
                    todo matches Todo::Send(msg) && tells(
                        msg,
                        error_json("terminal "@ + decimal(id as nat) + " not found"@),
                    )
                }
            },
        forall|terms: &mut TermManager, todo: Todo| #[trigger]
            call_ensures(handle_op, (terms, Op::Kill { id }, shell, home), todo) ==> {
                &&& !final(terms)@.listed.contains_key(id)
                &&& forall|other: u64|
                    other != id ==> (final(terms)@.listed.contains_key(other)
                        <==> terms@.listed.contains_key(other))
                &&& if terms@.listed.contains_key(id) {
                    todo == (Todo::End {
                        id,
                        event: Event::Removed { id },
                        over: terms@.listed[id].exited,
                    })
                } else {
                    &&& final(terms)@ == terms@
                    &&& todo matches Todo::Send(msg) && tells(
                        msg,
                        error_json("terminal "@ + decimal(id as nat) + " not found"@),
                    )
                }
            },
        forall|terms: &mut TermManager, todo: Todo| #[trigger]
            call_ensures(handle_op, (terms, Op::Detach { id, sub }, shell, home), todo) ==> {
                if terms@.listed.contains_key(id) {
                    &&& !final(terms)@.listed[id].subs.contains(sub)
                    &&& forall|other: u64|
                        other != sub ==> (final(terms)@.listed[id].subs.contains(other)
                            <==> terms@.listed[id].subs.contains(other))
                    &&& todo == (Todo::Leave { id, sub })
                } else {
                    todo is Nothing && final(terms)@ == terms@
                }
            },
{
}

/// Who asks for the list gets all listed terminals, each once, in the order of their numbers.
pub proof fn list_is_sent(shell: Option<String>, home: Option<String>)
    ensures
        forall|terms: &mut TermManager, todo: Todo| #[trigger]
            call_ensures(handle_op, (terms, Op::List, shell, home), todo) ==> {
                &&& final(terms)@ == terms@
                &&& exists|infos: Seq<TermInfo>|
                    {
                        &&& todo matches Todo::Send(msg) && tells(msg, #[trigger] hello_json(infos))
                        &&& forall|i: int, j: int|
                            0 <= i < j < infos.len() ==> infos[i].id < infos[j].id
                        &&& forall|id: u64| #[trigger]
                            terms@.listed.contains_key(id) <==> exists|i: int|
                                0 <= i < infos.len() && (#[trigger] infos[i]).id == id
                        &&& forall|i: int|
                            0 <= i < infos.len() ==> {
                                let t = terms@.listed[(#[trigger] infos[i]).id];
                                &&& infos[i].title@ == t.title
                                &&& infos[i].rows == t.rows
                                &&& infos[i].cols == t.cols
                                &&& infos[i].exited == t.exited
                            }
                    }
            },
{
    assert forall|terms: &mut TermManager, todo: Todo| #[trigger]
        call_ensures(handle_op, (terms, Op::List, shell, home), todo) implies exists|
        infos: Seq<TermInfo>,
    |
        {
            &&& todo matches Todo::Send(msg) && tells(msg, #[trigger] hello_json(infos))
            &&& forall|i: int, j: int| 0 <= i < j < infos.len() ==> infos[i].id < infos[j].id
            &&& forall|id: u64| #[trigger]
                terms@.listed.contains_key(id) <==> exists|i: int|
                    0 <= i < infos.len() && (#[trigger] infos[i]).id == id
            &&& forall|i: int|
                0 <= i < infos.len() ==> {
                    let t = terms@.listed[(#[trigger] infos[i]).id];
                    &&& infos[i].title@ == t.title
                    &&& infos[i].rows == t.rows
                    &&& infos[i].cols == t.cols
                    &&& infos[i].exited == t.exited
                }
        } by {
        let infos = choose|infos: Seq<TermInfo>| #[trigger]
            lists(infos, terms@.listed) && (todo matches Todo::Send(msg) && tells(
                msg,
                hello_json(infos),
            ));
        assert(lists(infos, terms@.listed));
        assert(todo matches Todo::Send(msg) && tells(msg, hello_json(infos)));
    }
}

proof fn keys_apart()
    ensures
        "ev"@.len() == 2 && "ev"@[0] == 'e',
        "id"@.len() == 2 && "id"@[0] == 'i',
        "msg"@.len() == 3 && "msg"@[0] == 'm',
        "sub"@.len() == 3 && "sub"@[0] == 's',
        "term"@.len() == 4,
        "exited"@.len() == 6,
        "terminals"@.len() == 9,
{
    reveal_strlit("ev");
    reveal_strlit("id");
    reveal_strlit("msg");
    reveal_strlit("sub");
    reveal_strlit("term");
    reveal_strlit("exited");
    reveal_strlit("terminals");
}

/// The document that a message of the server carries.
pub open spec fn carried(m: Bytes) -> Json {
    frame_json(bytes_of(m))->0
}

/// A hello shows every terminal that went into it, in order, each with its number, its whole title, its
/// size, and whether its process has ended.
pub proof fn hello_shows_terminals(terms: Vec<TermInfo>, m: Bytes)
    requires
        call_ensures(hello, (&terms,), m),
    ensures
        member_of(carried(m), "ev"@) == Some(Json::Text("hello"@)),
        member_of(carried(m), "terminals"@) matches Some(Json::List(items)) && {
            &&& items.len() == terms@.len()
            &&& forall|i: int|
                0 <= i < terms@.len() ==> {
                    let t = #[trigger] terms@[i];
                    &&& member_of(items[i], "id"@) == Some(Json::Int(t.id as int))
                    &&& member_of(items[i], "title"@) == Some(Json::Text(t.title@))
                    &&& member_of(items[i], "rows"@) == Some(Json::Int(t.rows as int))
                    &&& member_of(items[i], "cols"@) == Some(Json::Int(t.cols as int))
                    &&& member_of(items[i], "exited"@) == Some(Json::Bool(t.exited))
                }
        },
{
    keys_apart();
    let items = terms@.map_values(|t: TermInfo| info_json(t));
    let fields = seq![("ev"@, Json::Text("hello"@)), ("terminals"@, Json::List(items))];
    object_member(fields, 0);
    object_member(fields, 1);
    assert forall|i: int| 0 <= i < terms@.len() implies {
        let t = #[trigger] terms@[i];
        &&& member_of(items[i], "id"@) == Some(Json::Int(t.id as int))
        &&& member_of(items[i], "title"@) == Some(Json::Text(t.title@))
        &&& member_of(items[i], "rows"@) == Some(Json::Int(t.rows as int))
        &&& member_of(items[i], "cols"@) == Some(Json::Int(t.cols as int))
        &&& member_of(items[i], "exited"@) == Some(Json::Bool(t.exited))
    } by {
        info_members(terms@[i]);
    }
}

/// What the server says of a terminal that was created, of one that is attached to, and of what went
/// wrong, is all in its messages, unchanged.
pub proof fn messages_tell_all(
    term: TermInfo,
    a: Bytes,
    msg: String,
    b: Bytes,
    id: u64,
    sub: u64,
    exited: bool,
    c: Bytes,
)
    requires
        call_ensures(create_ok, (&term,), a),
        call_ensures(error, (msg,), b),
        call_ensures(attached, (id, sub, exited), c),
    ensures
        member_of(carried(a), "ev"@) == Some(Json::Text("create_ok"@)),
        member_of(carried(a), "term"@) matches Some(t) && {
            &&& member_of(t, "id"@) == Some(Json::Int(term.id as int))
            &&& member_of(t, "title"@) == Some(Json::Text(term.title@))
            &&& member_of(t, "rows"@) == Some(Json::Int(term.rows as int))
            &&& member_of(t, "cols"@) == Some(Json::Int(term.cols as int))
            &&& member_of(t, "exited"@) == Some(Json::Bool(term.exited))
        },
        member_of(carried(b), "ev"@) == Some(Json::Text("error"@)),
        member_of(carried(b), "msg"@) == Some(Json::Text(msg@)),
        member_of(carried(c), "ev"@) == Some(Json::Text("attached"@)),
        member_of(carried(c), "id"@) == Some(Json::Int(id as int)),
        member_of(carried(c), "sub"@) == Some(Json::Int(sub as int)),
        member_of(carried(c), "exited"@) == Some(Json::Bool(exited)),
{
    keys_apart();
    let x = seq![("ev"@, Json::Text("create_ok"@)), ("term"@, info_json(term))];
    object_member(x, 0);
    object_member(x, 1);
    info_members(term);
    let y = seq![("ev"@, Json::Text("error"@)), ("msg"@, Json::Text(msg@))];
    object_member(y, 0);
    object_member(y, 1);
    let z = seq![
        ("ev"@, Json::Text("attached"@)),
        ("id"@, Json::Int(id as int)),
        ("sub"@, Json::Int(sub as int)),
        ("exited"@, Json::Bool(exited)),
    ];
    object_member(z, 0);
    object_member(z, 1);
    object_member(z, 2);
    object_member(z, 3);
}

/// Who asked for a terminal that was started is told its number and the size that it was started with,
/// everyone else is told the same, and the terminal is listed so. Why one could not be started is told
/// whole.
pub proof fn opening_is_told(spawn: Spawn, stage: SpawnStage, reason: &str)
    ensures
        forall|terms: &mut TermManager, r: (Bytes, Event)| #[trigger]
            call_ensures(opened, (terms, &spawn), r) ==> {
                &&& final(terms)@.listed.contains_key(spawn.id)
                &&& final(terms)@.listed[spawn.id].rows == spawn.rows
                &&& final(terms)@.listed[spawn.id].cols == spawn.cols
                &&& !final(terms)@.listed[spawn.id].exited
                &&& r.1 matches Event::Created { term }
                &&& term.id == spawn.id && term.rows == spawn.rows && term.cols == spawn.cols
                &&& !term.exited && term.title@.len() == 0
                &&& tells(r.0, create_ok_json(term))
            },
        forall|m: Bytes| #[trigger]
            call_ensures(not_opened, (stage, reason), m) ==> exists|text: Seq<char>|
                {
                    &&& tells(m, #[trigger] error_json(text))
                    &&& text.len() >= reason@.len()
                    &&& text.skip(text.len() - reason@.len()) == reason@
                },
{
    assert forall|m: Bytes| #[trigger]
        call_ensures(not_opened, (stage, reason), m) implies exists|text: Seq<char>|
        {
            &&& tells(m, #[trigger] error_json(text))
            &&& text.len() >= reason@.len()
            &&& text.skip(text.len() - reason@.len()) == reason@
        } by {
        let text = stage_name(stage) + reason@;
        assert(text.skip(text.len() - reason@.len()) =~= reason@);
        assert(tells(m, error_json(text)));
    }
}

/// A watcher gets all of the replay, in order, behind the message that says so, and the open end of the
/// output behind it; from then on it watches.
pub proof fn replay_is_sent(id: u64, sub: u64)
    ensures
        forall|terms: &mut TermManager, screen: &mut Screen, r: Option<Vec<Bytes>>| #[trigger]
            call_ensures(show, (terms, id, sub, screen), r) ==> {
                &&& r is Some <==> terms@.listed.contains_key(id)
                &&& r matches Some(msgs) ==> {
                    &&& final(terms)@.listed[id].subs.contains(sub)
                    &&& msgs@.len() > 0
                    &&& tells(msgs@[0], attached_json(id, sub, terms@.listed[id].exited))
                    &&& payloads(messages(msgs@.skip(1))) == screen_replay(*screen)
                        + terms@.listed[id].pending
                }
            },
{
    assert forall|terms: &mut TermManager, screen: &mut Screen, r: Option<Vec<Bytes>>| #[trigger]
        call_ensures(show, (terms, id, sub, screen), r) && r is Some implies payloads(
        messages(r->0@.skip(1)),
    ) == screen_replay(*screen) + terms@.listed[id].pending by {
        output_payloads(id, screen_replay(*screen) + terms@.listed[id].pending);
    }
}

/// A watcher gets all that the terminal writes, until its process ends.
pub proof fn stream_is_sent(id: u64, msg: SubMsg, r: Option<Vec<Bytes>>)
    requires
        call_ensures(forward, (id, &msg), r),
    ensures
        match msg {
            SubMsg::Output { data } => r matches Some(frames) && payloads(messages(frames@))
                == bytes_of(data),
            SubMsg::Exited => r is None,
        },
{
    match msg {
        SubMsg::Output { data } => {
            output_payloads(id, bytes_of(data));
        },
        SubMsg::Exited => {},
    }
}

/// A message is taken for what its first byte says: 0 for input to the terminal that the next four bytes
/// number, 1 for an operation; all behind the first five bytes belongs to it. Anything else is ignored,
/// and only a close ends the connection.
pub proof fn messages_are_sorted(msg: Incoming, r: Received)
    requires
        call_ensures(receive, (&msg,), r),
    ensures
        r is Stop <==> msg is Close,
        match msg {
            Incoming::Binary(b) => {
                let m = bytes_of(b);
                if m.len() >= 5 && m[0] == 0 {
                    r matches Received::Input { id, data } && id == m[1] + 0x100 * m[2] + 0x1_0000
                        * m[3] + 0x100_0000 * m[4] && m.take(5) + bytes_of(data) == m
                } else if m.len() >= 5 && m[0] == 1 {
                    r matches Received::Control { payload } && m.take(5) + bytes_of(payload) == m
                } else {
                    r is Ignore
                }
            },
            Incoming::Close => true,
            Incoming::Other => r is Ignore,
        },
{
    match msg {
        Incoming::Binary(b) => {
            let m = bytes_of(b);
            if m.len() >= 5 {
                assert(m.take(5) + m.skip(5) =~= m);
            }
        },
        _ => {},
    }
}

/// What everyone is told reaches a connection as it is; a connection that missed something goes on.
pub proof fn news_is_passed_on(ev: Event, heard: Heard, r: Relay)
    requires
        call_ensures(relay, (&heard,), r),
    ensures
        heard == Heard::Event(&ev) ==> (r matches Relay::Send(m) && carried(m) == event_json(ev)),
        r is Stop <==> heard is Over,
        r is Skip <==> heard is Missed,
{
}

/// Exactly these origins may connect: those in the settings, and pages of the very host that the request
/// is for, over a safe line or a plain one. No start or end of a host will do, and a request without an
/// origin may not.
pub proof fn admission_is_exact(
    origin: Option<Vec<char>>,
    host: Option<Vec<char>>,
    allowed: Vec<String>,
    r: bool,
)
    requires
        call_ensures(admits, (&origin, &host, &allowed), r),
    ensures
        r <==> (origin matches Some(o) && {
            ||| exists|i: int| 0 <= i < allowed@.len() && (#[trigger] allowed@[i])@ == o@
            ||| host matches Some(h) && h@.len() > 0 && (o@ == "https://"@ + h@ || o@ == "http://"@
                + h@)
        }),
{
    match origin {
        Some(o) => {
            let all = strings_view(allowed@);
            assert(all.contains(o@) <==> exists|i: int|
                0 <= i < allowed@.len() && (#[trigger] allowed@[i])@ == o@) by {
                if all.contains(o@) {
                    let i = choose|i: int| 0 <= i < all.len() && all[i] == o@;
                    assert(allowed@[i]@ == o@);
                }
                if exists|i: int| 0 <= i < allowed@.len() && (#[trigger] allowed@[i])@ == o@ {
                    let i = choose|i: int|
                        0 <= i < allowed@.len() && (#[trigger] allowed@[i])@ == o@;
                    assert(all[i] == o@);
                }
            }
            match host {
                Some(h) => {
                    if h@.len() > 0 {
                        own_page_admitted(h@, all);
                    }
                    prefix_comes_off("https://"@, origin_host(o@), o@);
                    prefix_comes_off("http://"@, origin_host(o@), o@);
                },
                None => {},
            }
        },
        None => {},
    }
}

/// A connection is refused, with 403, if it came neither over the local socket nor from an origin that
/// may connect.
pub proof fn strangers_are_refused(
    cfg: Config,
    headers: HeaderMap,
    trusted: Option<TrustedLocal>,
    r: Option<Reply>,
    ok: bool,
)
    requires
        call_ensures(ws_handler, (&cfg, &headers, trusted), r),
        call_ensures(origin_ok, (&headers, &cfg), ok),
    ensures
        r is None <==> trusted is Some || ok,
        r matches Some(reply) ==> reply@.status == 403 && reply@.body == BodyView::Text(
            "bad origin"@,
        ),
{
}

/// Where there is no such terminal, its number is told.
pub proof fn missing_terminal_is_told(id: u64, m: Bytes)
    requires
        call_ensures(missing, (id,), m),
    ensures
        member_of(carried(m), "ev"@) == Some(Json::Text("error"@)),
        member_of(carried(m), "msg"@) == Some(
            Json::Text("terminal "@ + decimal(id as nat) + " not found"@),
        ),
{
    keys_apart();
    let fields = seq![("ev"@, Json::Text("error"@)), ("msg"@, Json::Text(not_found(id)))];
    object_member(fields, 0);
    object_member(fields, 1);
}

}
