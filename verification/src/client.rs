//! The command line client: what each command sends, and what it makes of the answers.
//!
//! A client connects to the server's local socket, waits for the server's hello, sends at most one
//! frame, and listens as long as its command needs.

use crate::frame::{
    bytes_frame, bytes_of, bytes_slice, decode, frame_bytes, frame_id, frame_json, frame_reads_back,
    json_frame, json_frame_bytes, messages, slices, slices_full, slices_rejoin, FT_BYTES, FT_JSON,
    SLICE,
};
use crate::json::{
    as_bool, as_list, as_number, as_text, bool_of, field, fields_view, json, json_all, member,
    member_of, number, number_of, object, object_member, object_of, opt_view, parse, tame,
    tame_object, text, text_of, Json,
};
use crate::keys::{keys_rendered, render_keys, unescape, unescaped};
use crate::manager::ManagerView;
use crate::screen::{replay_is_closed, screen_replay};
use crate::tail::{closed_part, complete, open_end_is_cut_off, open_tail};
use crate::term::{event_json, info_json, Event, TermInfo};
use crate::text::{
    align_left, align_right, append, char_bytes, chars_of, decimal, decimal_chars, encode_concat,
    encode_one, left_aligned, right_aligned, same_str, split_on, string_of,
};
use crate::ws::{
    asks, attached_json, create_ok_json, error_json, hello_json, introduces, tells, Incoming,
    Received,
};
use bytes::Bytes;
use serde_json::Value;
use vstd::prelude::*;
use vstd::utf8::encode_utf8;
use vt100::Screen;

verus! {

/// A command.
pub enum Op {
    Ls,
    New { cwd: Option<String>, rows: u16, cols: u16 },
    Snap { id: u64 },
    Type { id: u64, text: String },
    Keys { id: u64, keys: String },
    Kill { id: u64 },
}

// ---------- What a command sends ----------

/// The request for a new terminal; the directory is left out where none is given.
pub open spec fn create_request(cwd: Option<Seq<char>>, rows: u16, cols: u16) -> Json {
    let size = seq![
        ("op"@, Json::Text("create"@)),
        ("rows"@, Json::Int(rows as int)),
        ("cols"@, Json::Int(cols as int)),
    ];
    object_of(match cwd {
        Some(d) => size.push(("cwd"@, Json::Text(d))),
        None => size,
    })
}

/// A request that is about one terminal.
pub open spec fn terminal_request(op: Seq<char>, id: u64) -> Json {
    object_of(seq![("op"@, Json::Text(op)), ("id"@, Json::Int(id as int))])
}

/// What a command sends after the hello: one frame, or nothing; or why it cannot.
pub open spec fn sends(op: Op) -> Result<Option<Seq<u8>>, Seq<char>> {
    match op {
        Op::Ls => Ok(None),
        Op::New { cwd, rows, cols } => Ok(
            Some(json_frame_bytes(create_request(opt_view(cwd), rows, cols))),
        ),
        Op::Snap { id } => Ok(Some(json_frame_bytes(terminal_request("attach"@, id)))),
        Op::Type { id, text } => Ok(Some(frame_bytes(FT_BYTES, id as int, unescaped(text@)))),
        Op::Keys { id, keys } => match keys_rendered(split_on(keys@, ',')) {
            Ok(bytes) => Ok(Some(frame_bytes(FT_BYTES, id as int, bytes))),
            Err(name) => Err("wt: unknown key '"@ + name + "'"@),
        },
        Op::Kill { id } => Ok(Some(json_frame_bytes(terminal_request("kill"@, id)))),
    }
}

fn create_value(cwd: &Option<String>, rows: u16, cols: u16) -> (v: Value)
    ensures
        json(v) == create_request(opt_view(*cwd), rows, cols),
{
    let mut fields: Vec<(String, Value)> = Vec::new();
    fields.push(field("op", text("create".to_string())));
    fields.push(field("rows", number(rows as u64)));
    fields.push(field("cols", number(cols as u64)));
    let ghost size = seq![
        ("op"@, Json::Text("create"@)),
        ("rows"@, Json::Int(rows as int)),
        ("cols"@, Json::Int(cols as int)),
    ];
    assert(fields_view(fields@) =~= size);
    match cwd {
        Some(d) => {
            fields.push(field("cwd", text(d.clone())));
            assert(fields_view(fields@) =~= size.push(("cwd"@, Json::Text(d@))));
        },
        None => {},
    }
    object(fields)
}

fn terminal_value(op: &str, id: u64) -> (v: Value)
    ensures
        json(v) == terminal_request(op@, id),
{
    let mut fields: Vec<(String, Value)> = Vec::new();
    fields.push(field("op", text(op.to_string())));
    fields.push(field("id", number(id)));
    assert(fields_view(fields@) =~= seq![
        ("op"@, Json::Text(op@)),
        ("id"@, Json::Int(id as int)),
    ]);
    object(fields)
}

/// The requests of a command can be read back.
proof fn requests_are_tame(op: Op)
    ensures
        match op {
            Op::New { cwd, rows, cols } => tame(create_request(opt_view(cwd), rows, cols), 127),
            Op::Snap { id } => tame(terminal_request("attach"@, id), 127),
            Op::Kill { id } => tame(terminal_request("kill"@, id), 127),
            _ => true,
        },
{
    reveal_strlit("op");
    reveal_strlit("id");
    reveal_strlit("rows");
    reveal_strlit("cols");
    reveal_strlit("cwd");
    match op {
        Op::New { cwd, rows, cols } => {
            let size = seq![
                ("op"@, Json::Text("create"@)),
                ("rows"@, Json::Int(rows as int)),
                ("cols"@, Json::Int(cols as int)),
            ];
            tame_object(size, 127);
            if let Some(d) = cwd {
                tame_object(size.push(("cwd"@, Json::Text(d@))), 127);
            }
        },
        Op::Snap { id } => tame_object(
            seq![("op"@, Json::Text("attach"@)), ("id"@, Json::Int(id as int))],
            127,
        ),
        Op::Kill { id } => tame_object(
            seq![("op"@, Json::Text("kill"@)), ("id"@, Json::Int(id as int))],
            127,
        ),
        _ => {},
    }
}

/// What a command sends after the hello; the error is what to print.
pub fn run(op: &Op) -> (r: Result<Option<Vec<u8>>, String>)
    ensures
        match r {
            Ok(Some(msg)) => sends(*op) == Ok::<Option<Seq<u8>>, Seq<char>>(Some(msg@)),
            Ok(None) => sends(*op) == Ok::<Option<Seq<u8>>, Seq<char>>(None),
            Err(e) => sends(*op) == Err::<Option<Seq<u8>>, Seq<char>>(e@),
        },
        match (*op, r) {
            (Op::New { cwd, rows, cols }, Ok(Some(msg))) => frame_json(msg@) == Some(
                create_request(opt_view(cwd), rows, cols),
            ),
            (Op::Snap { id }, Ok(Some(msg))) => frame_json(msg@) == Some(
                terminal_request("attach"@, id),
            ),
            (Op::Kill { id }, Ok(Some(msg))) => frame_json(msg@) == Some(
                terminal_request("kill"@, id),
            ),
            _ => true,
        },
{
    proof {
        requests_are_tame(*op);
    }
    match op {
        Op::Ls => Ok(None),
        Op::New { cwd, rows, cols } => Ok(Some(json_frame(&create_value(cwd, *rows, *cols)))),
        Op::Snap { id } => Ok(Some(json_frame(&terminal_value("attach", *id)))),
        Op::Type { id, text } => {
            let bytes = unescape(text.as_str());
            Ok(Some(bytes_frame(*id, bytes.as_slice())))
        },
        Op::Keys { id, keys } => match render_keys(keys.as_str()) {
            Ok(bytes) => Ok(Some(bytes_frame(*id, bytes.as_slice()))),
            Err(name) => {
                let mut msg = chars_of("wt: unknown key '");
                let mut n = name;
                msg.append(&mut n);
                append(&mut msg, "'");
                Err(string_of(msg.as_slice()))
            },
        },
        Op::Kill { id } => Ok(Some(json_frame(&terminal_value("kill", *id)))),
    }
}

// ---------- How long a command waits ----------

/// How long a client waits for the server's hello, in milliseconds.
pub const HELLO_WAIT_MS: u64 = 2000;

/// How long a client keeps a connection open on which it only sends, in milliseconds: what was sent
/// needs a moment to leave.
pub const SEND_PAUSE_MS: u64 = 80;

/// How long a command waits for the next message, in milliseconds, when `passed` of them have gone by
/// since it sent its own; nothing if it waits no longer. A snapshot waits as long as messages come.
pub open spec fn waits(op: Op, passed: u64) -> Option<u64> {
    match op {
        Op::New { .. } => if passed < 3000 {
            Some(2000)
        } else {
            None
        },
        Op::Kill { .. } => if passed < 2000 {
            Some(600)
        } else {
            None
        },
        Op::Snap { .. } => Some(600),
        _ => None,
    }
}

/// How long a command waits for the next message; nothing if it waits no longer.
pub fn patience(op: &Op, passed: u64) -> (r: Option<u64>)
    ensures
        r == waits(*op, passed),
{
    match op {
        Op::New { .. } => if passed < 3000 {
            Some(2000)
        } else {
            None
        },
        Op::Kill { .. } => if passed < 2000 {
            Some(600)
        } else {
            None
        },
        Op::Snap { .. } => Some(600),
        _ => None,
    }
}

// ---------- Looking into answers ----------

/// The text under a key, or else `other`.
pub open spec fn text_under(j: Json, key: Seq<char>, other: Seq<char>) -> Seq<char> {
    match member_of(j, key) {
        Some(m) => match text_of(m) {
            Some(s) => s,
            None => other,
        },
        None => other,
    }
}

/// The number under a key.
pub open spec fn number_under(j: Json, key: Seq<char>) -> Option<u64> {
    match member_of(j, key) {
        Some(m) => number_of(m),
        None => None,
    }
}

/// The truth value under a key, or else false.
pub open spec fn flag_under(j: Json, key: Seq<char>) -> bool {
    match member_of(j, key) {
        Some(m) => bool_of(m) == Some(true),
        None => false,
    }
}

fn get_text(v: &Value, key: &str, other: &str) -> (r: String)
    ensures
        r@ == text_under(json(*v), key@, other@),
{
    match member(v, key) {
        Some(m) => match as_text(m) {
            Some(s) => s.to_string(),
            None => other.to_string(),
        },
        None => other.to_string(),
    }
}

fn get_number(v: &Value, key: &str) -> (r: Option<u64>)
    ensures
        r == number_under(json(*v), key@),
{
    match member(v, key) {
        Some(m) => as_number(m),
        None => None,
    }
}

fn get_flag(v: &Value, key: &str) -> (r: bool)
    ensures
        r == flag_under(json(*v), key@),
{
    match member(v, key) {
        Some(m) => match as_bool(m) {
            Some(b) => b,
            None => false,
        },
        None => false,
    }
}

/// The name of an event.
pub open spec fn event_name(j: Json) -> Seq<char> {
    text_under(j, "ev"@, ""@)
}

/// What to print where the server reports an error.
pub open spec fn complaint(j: Json, other: Seq<char>) -> Seq<char> {
    "wt: "@ + text_under(j, "msg"@, other)
}

fn complain(v: &Value, other: &str) -> (r: String)
    ensures
        r@ == complaint(json(*v), other@),
{
    let mut out = chars_of("wt: ");
    append(&mut out, get_text(v, "msg", other).as_str());
    string_of(out.as_slice())
}

// ---------- ls ----------

/// The part of a title that is shown: the longest start of it, in whole characters, that has at most
/// 50 bytes.
pub open spec fn title_cut(title: Seq<char>) -> Seq<char>
    decreases title.len(),
{
    if encode_utf8(title).len() <= 50 {
        title
    } else {
        title_cut(title.drop_last())
    }
}

fn cut_title(title: &str) -> (r: Vec<char>)
    ensures
        r@ == title_cut(title@),
{
    let mut r = chars_of(title);
    let mut len: usize = title.as_bytes().len();
    while len > 50
        invariant
            len == encode_utf8(r@).len(),
            title_cut(r@) == title_cut(title@),
        decreases r@.len(),
    {
        let ghost before = r@;
        assert(before.len() > 0);
        match r.pop() {
            Some(c) => {
                let gone = char_bytes(c);
                proof {
                    assert(r@ =~= before.drop_last());
                    assert(before =~= r@ + seq![c]);
                    encode_concat(r@, seq![c]);
                    encode_one(c);
                }
                len = len - gone.len();
            },
            None => {},
        }
    }
    r
}

/// One line of the list.
pub open spec fn line(
    id: Seq<char>,
    title: Seq<char>,
    size: Seq<char>,
    status: Seq<char>,
) -> Seq<char> {
    right_aligned(id, 4) + "  "@ + left_aligned(title, 50) + "  "@ + size + "  "@ + status
}

/// The line above the list.
pub open spec fn heading() -> Seq<char> {
    line("ID"@, "TITLE"@, right_aligned("SIZE"@, 6), "STATUS"@)
}

/// The number, or 0.
pub open spec fn or_zero(n: Option<u64>) -> u64 {
    match n {
        Some(x) => x,
        None => 0,
    }
}

/// The line of one terminal.
pub open spec fn shown_line(j: Json) -> Seq<char> {
    terminal_line(j, title_cut(text_under(j, "title"@, ""@)))
}

/// The line of one terminal, with the part of its title that is shown.
pub open spec fn terminal_line(j: Json, title: Seq<char>) -> Seq<char> {
    line(
        decimal(or_zero(number_under(j, "id"@)) as nat),
        title,
        right_aligned(decimal(or_zero(number_under(j, "rows"@)) as nat), 3) + "x"@ + left_aligned(
            decimal(or_zero(number_under(j, "cols"@)) as nat),
            2,
        ),
        if flag_under(j, "exited"@) {
            "exited"@
        } else {
            "alive"@
        },
    )
}

/// The terminals in a hello; none if it lists none.
pub open spec fn terminals_in(j: Json) -> Seq<Json> {
    match member_of(j, "terminals"@) {
        Some(Json::List(items)) => items,
        _ => seq![],
    }
}

/// What the list shows.
pub open spec fn listing(terms: Seq<Json>) -> Seq<Seq<char>> {
    if terms.len() == 0 {
        seq!["(no terminals)"@]
    } else {
        seq![heading()] + terms.map_values(|t: Json| shown_line(t))
    }
}

fn or_zero_of(n: Option<u64>) -> (r: u64)
    ensures
        r == or_zero(n),
{
    match n {
        Some(x) => x,
        None => 0,
    }
}

fn make_line(id: &[char], title: &[char], size: &[char], status: &str) -> (r: String)
    ensures
        r@ == line(id@, title@, size@, status@),
{
    let mut out = align_right(id, 4);
    append(&mut out, "  ");
    let mut t = align_left(title, 50);
    out.append(&mut t);
    append(&mut out, "  ");
    let mut s = vstd::slice::slice_to_vec(size);
    out.append(&mut s);
    append(&mut out, "  ");
    append(&mut out, status);
    string_of(out.as_slice())
}

fn make_heading() -> (r: String)
    ensures
        r@ == heading(),
{
    let size = chars_of("SIZE");
    make_line(
        chars_of("ID").as_slice(),
        chars_of("TITLE").as_slice(),
        align_right(size.as_slice(), 6).as_slice(),
        "STATUS",
    )
}

/// The line of one terminal.
pub fn terminal_row(t: &Value) -> (r: String)
    ensures
        r@ == shown_line(json(*t)),
{
    let title = cut_title(get_text(t, "title", "").as_str());
    let id: u64 = or_zero_of(get_number(t, "id"));
    let rows: u64 = or_zero_of(get_number(t, "rows"));
    let cols: u64 = or_zero_of(get_number(t, "cols"));
    let mut size = align_right(decimal_chars(rows).as_slice(), 3);
    append(&mut size, "x");
    let mut right = align_left(decimal_chars(cols).as_slice(), 2);
    size.append(&mut right);
    let status = if get_flag(t, "exited") { "exited" } else { "alive" };
    make_line(decimal_chars(id).as_slice(), title.as_slice(), size.as_slice(), status)
}

/// The texts of the lines.
pub open spec fn lines_view(lines: Seq<String>) -> Seq<Seq<char>> {
    lines.map_values(|s: String| s@)
}

fn listing_of(terms: &Vec<Value>) -> (lines: Vec<String>)
    ensures
        lines_view(lines@) == listing(json_all(terms@)),
{
    let ghost all = json_all(terms@).map_values(|t: Json| shown_line(t));
    let mut lines: Vec<String> = Vec::new();
    if terms.len() == 0 {
        lines.push("(no terminals)".to_string());
        assert(lines_view(lines@) =~= seq!["(no terminals)"@]);
        return lines;
    }
    lines.push(make_heading());
    assert(lines_view(lines@) =~= seq![heading()] + all.take(0));
    let mut i: usize = 0;
    while i < terms.len()
        invariant
            i <= terms@.len(),
            all == json_all(terms@).map_values(|t: Json| shown_line(t)),
            lines_view(lines@) =~= seq![heading()] + all.take(i as int),
        decreases terms@.len() - i,
    {
        let ghost before = lines@;
        let row = terminal_row(&terms[i]);
        lines.push(row);
        assert(lines_view(lines@) =~= lines_view(before).push(all[i as int]));
        i += 1;
    }
    assert(all.take(i as int) =~= all);
    lines
}

/// Lists the terminals in the server's hello, one line each; the error is what to print where there
/// was no hello.
pub fn ls(hello: Option<&Value>) -> (r: Result<Vec<String>, String>)
    ensures
        match (hello, r) {
            (Some(ev), Ok(lines)) => lines_view(lines@) == listing(terminals_in(json(*ev))),
            (None, Err(e)) => e@ == "wt: no hello from server"@,
            _ => false,
        },
{
    let ev = match hello {
        Some(ev) => ev,
        None => return Err("wt: no hello from server".to_string()),
    };
    match member(ev, "terminals") {
        Some(m) => match as_list(m) {
            Some(items) => Ok(listing_of(items)),
            None => {
                let none: Vec<Value> = Vec::new();
                assert(json_all(none@) =~= seq![]);
                Ok(listing_of(&none))
            },
        },
        None => {
            let none: Vec<Value> = Vec::new();
            assert(json_all(none@) =~= seq![]);
            Ok(listing_of(&none))
        },
    }
}

// ---------- new ----------

/// What a command makes of an event: it is done, with something to print or not; it failed, and says
/// why; or it waits on.
pub enum Verdict {
    Done(String),
    Failed(String),
    Wait,
}

/// Holds of what the command for a new terminal makes of an event. Only the answer to its own request
/// tells the terminal's number: the news for everyone may be about another client's terminal.
pub open spec fn new_verdict(j: Json, v: Verdict) -> bool {
    let name = event_name(j);
    if name == "create_ok"@ {
        let id = match member_of(j, "term"@) {
            Some(t) => number_under(t, "id"@),
            None => None,
        };
        match id {
            Some(n) => v matches Verdict::Done(s) && s@ == decimal(n as nat),
            None => v is Wait,
        }
    } else if name == "error"@ {
        v matches Verdict::Failed(s) && s@ == complaint(j, "create failed"@)
    } else {
        v is Wait
    }
}

/// What the command for a new terminal makes of an event.
pub fn new_term(ev: &Value) -> (v: Verdict)
    ensures
        new_verdict(json(*ev), v),
{
    let name = get_text(ev, "ev", "");
    if same_str(name.as_str(), "create_ok") {
        let id = match member(ev, "term") {
            Some(t) => get_number(t, "id"),
            None => None,
        };
        match id {
            Some(n) => Verdict::Done(string_of(decimal_chars(n).as_slice())),
            None => Verdict::Wait,
        }
    } else if same_str(name.as_str(), "error") {
        Verdict::Failed(complain(ev, "create failed"))
    } else {
        Verdict::Wait
    }
}

/// What to print where no terminal was created in time.
pub fn new_timeout() -> (r: String)
    ensures
        r@ == "wt: create timed out waiting for create_ok"@,
{
    "wt: create timed out waiting for create_ok".to_string()
}

// ---------- kill ----------

/// Holds of what the command that kills a terminal makes of an event.
pub open spec fn kill_verdict(j: Json, id: u64, v: Verdict) -> bool {
    let name = event_name(j);
    if name == "removed"@ && number_under(j, "id"@) == Some(id) {
        v matches Verdict::Done(s) && s@.len() == 0
    } else if name == "error"@ {
        v matches Verdict::Failed(s) && s@ == complaint(j, "kill failed"@)
    } else {
        v is Wait
    }
}

/// What the command that kills a terminal makes of an event.
pub fn kill(ev: &Value, id: u64) -> (v: Verdict)
    ensures
        kill_verdict(json(*ev), id, v),
{
    let name = get_text(ev, "ev", "");
    let gone = match get_number(ev, "id") {
        Some(n) => n == id,
        None => false,
    };
    if same_str(name.as_str(), "removed") && gone {
        Verdict::Done(String::new())
    } else if same_str(name.as_str(), "error") {
        Verdict::Failed(complain(ev, "kill failed"))
    } else {
        Verdict::Wait
    }
}

// ---------- snap ----------

/// A snapshot as it comes in.
pub struct Snap {
    id: u64,
    buf: Vec<u8>,
    attached: bool,
    error: Option<String>,
}

/// A snapshot as a mathematical value: the terminal, the bytes so far, whether the server said that
/// they come, and the error that ended it.
pub struct SnapView {
    pub id: u64,
    pub buf: Seq<u8>,
    pub attached: bool,
    pub error: Option<Seq<char>>,
}

/// A snapshot of which nothing has come in yet.
pub open spec fn snap_start(id: u64) -> SnapView {
    SnapView { id, buf: seq![], attached: false, error: None }
}

/// A snapshot after an event: one says that the bytes come, another that none will.
pub open spec fn snap_event(s: SnapView, j: Json) -> SnapView {
    if event_name(j) == "attached"@ {
        SnapView { attached: true, ..s }
    } else if event_name(j) == "error"@ {
        SnapView { error: Some(text_under(j, "msg"@, "attach error"@)), ..s }
    } else {
        s
    }
}

/// A snapshot after one more message. Bytes of other terminals, and messages that mean nothing, are
/// passed over.
pub open spec fn snap_step(s: SnapView, msg: Seq<u8>) -> SnapView {
    match frame_json(msg) {
        Some(j) => snap_event(s, j),
        None => if msg.len() >= 5 && msg[0] == FT_BYTES && frame_id(msg) == s.id {
            SnapView { buf: s.buf + msg.skip(5), ..s }
        } else {
            s
        },
    }
}

/// Holds if a snapshot waits on after a message. An error ends it. So does a short frame of the
/// terminal's bytes, once the server said that they come: the replay is cut into frames that are full
/// but for the last, and what the terminal writes later comes in short ones.
pub open spec fn snap_goes_on(s: SnapView, msg: Seq<u8>) -> bool {
    match frame_json(msg) {
        Some(j) => event_name(j) != "error"@,
        None => !(s.attached && msg.len() >= 5 && msg[0] == FT_BYTES && frame_id(msg) == s.id
            && msg.len() - 5 < SLICE),
    }
}

/// The outcome of a snapshot: the bytes to print, without a control sequence that breaks off at their
/// end, or what went wrong.
pub open spec fn snap_result(s: SnapView) -> Result<Seq<u8>, Seq<char>> {
    match s.error {
        Some(e) => Err("wt: "@ + e),
        None => if s.attached {
            Ok(closed_part(s.buf))
        } else {
            Err("wt: never received attached event"@)
        },
    }
}

impl Snap {
    /// The snapshot as a mathematical value.
    pub closed spec fn view(&self) -> SnapView {
        SnapView {
            id: self.id,
            buf: self.buf@,
            attached: self.attached,
            error: opt_view(self.error),
        }
    }

    /// Begins a snapshot.
    pub fn new(id: u64) -> (r: Self)
        ensures
            r@ == snap_start(id),
    {
        let r = Snap { id, buf: Vec::new(), attached: false, error: None };
        assert(r.buf@ =~= seq![]);
        r
    }

    /// Takes in an event, and says whether to wait for more: an error ends the snapshot.
    pub fn hear(&mut self, ev: &Value) -> (more: bool)
        ensures
            final(self)@ == snap_event(old(self)@, json(*ev)),
            more == (event_name(json(*ev)) != "error"@),
    {
        proof {
            reveal_strlit("attached");
            reveal_strlit("error");
            assert("attached"@.len() == 8 && "error"@.len() == 5);
        }
        let name = get_text(ev, "ev", "");
        if same_str(name.as_str(), "attached") {
            self.attached = true;
            true
        } else if same_str(name.as_str(), "error") {
            self.error = Some(get_text(ev, "msg", "attach error"));
            false
        } else {
            true
        }
    }

    /// Takes in a message, and says whether to wait for more.
    pub fn take(&mut self, b: &Bytes) -> (more: bool)
        ensures
            final(self)@ == snap_step(old(self)@, bytes_of(*b)),
            more == snap_goes_on(old(self)@, bytes_of(*b)),
    {
        let f = match decode(b) {
            Some(f) => f,
            None => return true,
        };
        if f.kind == FT_JSON {
            match parse(bytes_slice(&f.payload)) {
                Some(v) => return self.hear(&v),
                None => {},
            }
        } else if f.kind == FT_BYTES && f.id == self.id {
            let payload = bytes_slice(&f.payload);
            self.buf.extend_from_slice(payload);
            assert(self.buf@ =~= old(self).buf@ + bytes_of(f.payload));
            return !(self.attached && payload.len() < SLICE);
        }
        true
    }

    /// Ends a snapshot; the error is what to print.
    pub fn finish(self) -> (r: Result<Vec<u8>, String>)
        ensures
            match r {
                Ok(bytes) => snap_result(self@) == Ok::<Seq<u8>, Seq<char>>(bytes@),
                Err(e) => snap_result(self@) == Err::<Seq<u8>, Seq<char>>(e@),
            },
    {
        match self.error {
            Some(e) => {
                let mut msg = chars_of("wt: ");
                append(&mut msg, e.as_str());
                Err(string_of(msg.as_slice()))
            },
            None => if self.attached {
                Ok(complete(self.buf.as_slice()))
            } else {
                Err("wt: never received attached event".to_string())
            },
        }
    }
}

// ---------- Laws ----------

/// A snapshot after a row of messages.
pub open spec fn snap_all(s: SnapView, msgs: Seq<Seq<u8>>) -> SnapView
    decreases msgs.len(),
{
    if msgs.len() == 0 {
        s
    } else {
        snap_step(snap_all(s, msgs.drop_last()), msgs.last())
    }
}

proof fn snap_takes_frames(s: SnapView, id: u64, parts: Seq<Seq<u8>>)
    requires
        s.id == id,
        id < 0x1_0000_0000,
    ensures
        snap_all(s, parts.map_values(|p: Seq<u8>| frame_bytes(FT_BYTES, id as int, p)))
            == (SnapView { buf: s.buf + parts.flatten(), ..s }),
    decreases parts.len(),
{
    let f = |p: Seq<u8>| frame_bytes(FT_BYTES, id as int, p);
    let msgs = parts.map_values(f);
    if parts.len() == 0 {
        assert(parts.flatten() =~= seq![]);
        assert(s.buf + parts.flatten() =~= s.buf);
    } else {
        let before = parts.drop_last();
        snap_takes_frames(s, id, before);
        assert(msgs.drop_last() =~= before.map_values(f));
        let p = parts.last();
        assert(msgs.last() == f(p));
        frame_reads_back(FT_BYTES, id, p);
        parts.lemma_flatten_and_flatten_alt_are_equivalent();
        before.lemma_flatten_and_flatten_alt_are_equivalent();
        assert(parts.flatten() =~= before.flatten() + p);
        assert(s.buf + before.flatten() + p =~= s.buf + parts.flatten());
    }
}

proof fn snap_splits(s: SnapView, a: Seq<u8>, rest: Seq<Seq<u8>>)
    ensures
        snap_all(s, seq![a] + rest) == snap_all(snap_step(s, a), rest),
    decreases rest.len(),
{
    let all = seq![a] + rest;
    if rest.len() == 0 {
        assert(all =~= seq![a]);
        assert(all.drop_last() =~= seq![]);
        assert(snap_all(s, all.drop_last()) == s);
    } else {
        snap_splits(s, a, rest.drop_last());
        assert(all.drop_last() =~= seq![a] + rest.drop_last());
        assert(all.last() == rest.last());
    }
}

/// The name of the event that announces a replay.
proof fn attached_name(id: u64, sub: u64, exited: bool)
    ensures
        event_name(attached_json(id, sub, exited)) == "attached"@,
{
    let fields = seq![
        ("ev"@, Json::Text("attached"@)),
        ("id"@, Json::Int(id as int)),
        ("sub"@, Json::Int(sub as int)),
        ("exited"@, Json::Bool(exited)),
    ];
    keys_differ();
    object_member(fields, 0);
    assert(fields[0].0 == "ev"@);
}

/// The keys of the server's messages are different.
proof fn keys_differ()
    ensures
        "ev"@ != "id"@,
        "ev"@ != "sub"@,
        "ev"@ != "exited"@,
        "ev"@ != "term"@,
        "ev"@ != "msg"@,
        "ev"@ != "terminals"@,
        "id"@ != "title"@,
        "id"@ != "rows"@,
        "id"@ != "cols"@,
        "id"@ != "exited"@,
        "title"@ != "rows"@,
        "title"@ != "cols"@,
        "title"@ != "exited"@,
        "rows"@ != "cols"@,
        "rows"@ != "exited"@,
        "cols"@ != "exited"@,
{
    reveal_strlit("ev");
    reveal_strlit("id");
    reveal_strlit("sub");
    reveal_strlit("exited");
    reveal_strlit("term");
    reveal_strlit("msg");
    reveal_strlit("terminals");
    reveal_strlit("title");
    reveal_strlit("rows");
    reveal_strlit("cols");
    assert("ev"@[0] == 'e' && "id"@[0] == 'i' && "rows"@[0] == 'r' && "cols"@[0] == 'c');
    assert("ev"@.len() == 2 && "exited"@.len() == 6 && "title"@.len() == 5);
}

proof fn snapshot_comes_in(m: ManagerView, id: u64, sub: u64, snap: Seq<u8>, msgs: Seq<Bytes>)
    requires
        id < 0x1_0000_0000,
        introduces(m, id, sub, snap, msgs),
    ensures
        snap_result(snap_all(snap_start(id), messages(msgs))) == Ok::<Seq<u8>, Seq<char>>(
            closed_part(snap),
        ),
{
    let all = messages(msgs);
    let first = bytes_of(msgs[0]);
    let rest = messages(msgs.skip(1));
    assert(all =~= seq![first] + rest);
    attached_name(id, sub, m.listed[id].exited);
    reveal_strlit("attached");
    reveal_strlit("error");
    snap_splits(snap_start(id), first, rest);
    let s = snap_step(snap_start(id), first);
    assert(s == SnapView { attached: true, ..snap_start(id) });
    slices_rejoin(snap);
    assert(rest == slices(snap).map_values(|p: Seq<u8>| frame_bytes(FT_BYTES, id as int, p)));
    snap_takes_frames(s, id, slices(snap));
    assert(s.buf + slices(snap).flatten() =~= snap);
}

/// A snapshot shows what the terminal shows: of the messages that the server sends on attaching, the
/// client prints exactly the replay of the terminal's screen, whatever the terminal was writing. This
/// holds of terminals with numbers below 2^32, which are those that a frame can name.
pub proof fn snapshot_arrives(
    m: ManagerView,
    id: u64,
    sub: u64,
    screen: Screen,
    written: Seq<u8>,
    msgs: Seq<Bytes>,
)
    requires
        id < 0x1_0000_0000,
        m.listed[id].pending == open_tail(written),
        introduces(m, id, sub, screen_replay(screen) + m.listed[id].pending, msgs),
    ensures
        snap_result(snap_all(snap_start(id), messages(msgs))) == Ok::<Seq<u8>, Seq<char>>(
            screen_replay(screen),
        ),
{
    snapshot_comes_in(m, id, sub, screen_replay(screen) + m.listed[id].pending, msgs);
    replay_is_closed(screen);
    open_end_is_cut_off(screen_replay(screen), written);
}

/// A snapshot ends: it goes on until the last frame of the replay, and ends with that frame unless the
/// frame is full.
pub proof fn snapshot_ends(m: ManagerView, id: u64, sub: u64, snap: Seq<u8>, msgs: Seq<Bytes>)
    requires
        id < 0x1_0000_0000,
        snap.len() > 0,
        introduces(m, id, sub, snap, msgs),
    ensures
        msgs.len() >= 2,
        forall|i: int|
            0 <= i < msgs.len() - 1 ==> #[trigger] snap_goes_on(
                snap_all(snap_start(id), messages(msgs).take(i)),
                messages(msgs)[i],
            ),
        snap.len() % (SLICE as nat) != 0 ==> !snap_goes_on(
            snap_all(snap_start(id), messages(msgs).take(msgs.len() - 1)),
            messages(msgs)[msgs.len() - 1],
        ),
{
    let all = messages(msgs);
    let first = bytes_of(msgs[0]);
    let rest = messages(msgs.skip(1));
    let parts = slices(snap);
    let f = |p: Seq<u8>| frame_bytes(FT_BYTES, id as int, p);
    assert(all =~= seq![first] + rest);
    assert(rest == parts.map_values(f));
    slices_full(snap);
    attached_name(id, sub, m.listed[id].exited);
    reveal_strlit("attached");
    reveal_strlit("error");
    assert("attached"@.len() == 8 && "error"@.len() == 5);
    let s = snap_step(snap_start(id), first);
    assert forall|i: int| 1 <= i < all.len() implies {
        let sofar = #[trigger] snap_all(snap_start(id), all.take(i));
        snap_goes_on(sofar, all[i]) == (parts[i - 1].len() >= SLICE)
    } by {
        let before = parts.take(i - 1);
        assert(all.take(i) =~= seq![first] + before.map_values(f));
        snap_splits(snap_start(id), first, before.map_values(f));
        snap_takes_frames(s, id, before);
        assert(all[i] == f(parts[i - 1]));
        frame_reads_back(FT_BYTES, id, parts[i - 1]);
    }
    assert forall|i: int| 0 <= i < all.len() - 1 implies #[trigger] snap_goes_on(
        snap_all(snap_start(id), all.take(i)),
        all[i],
    ) by {
        if i == 0 {
            assert(all[0] == first);
        } else {
            assert(parts[i - 1].len() == SLICE);
        }
    }
    let n = all.len() as int;
    assert(parts[n - 2] == parts.last());
    let sofar = snap_all(snap_start(id), all.take(n - 1));
    assert(snap_goes_on(sofar, all[n - 1]) == (parts[n - 2].len() >= SLICE));
}

/// A terminal that never rests is printed all the same: the next piece of its output ends a snapshot
/// that has not ended yet.
pub proof fn output_ends_snapshot(s: SnapView, data: Seq<u8>)
    requires
        s.attached,
        s.id < 0x1_0000_0000,
        data.len() < SLICE,
    ensures
        !snap_goes_on(s, frame_bytes(FT_BYTES, s.id as int, data)),
{
    frame_reads_back(FT_BYTES, s.id, data);
}

/// What is typed arrives: the server takes the bytes that a client sent for the terminal that they
/// were sent to, of terminals with numbers below 2^32.
pub proof fn typing_arrives(id: u64, data: Seq<u8>, msg: Bytes, r: Received)
    requires
        id < 0x1_0000_0000,
        bytes_of(msg) == frame_bytes(FT_BYTES, id as int, data),
        asks(Incoming::Binary(msg), r),
    ensures
        r matches Received::Input { id: i, data: d } && i == id && bytes_of(d) == data,
{
    frame_reads_back(FT_BYTES, id, data);
}

/// The members of a terminal's JSON form.
proof fn info_members(t: TermInfo)
    ensures
        number_under(info_json(t), "id"@) == Some(t.id),
        text_under(info_json(t), "title"@, ""@) == t.title@,
        number_under(info_json(t), "rows"@) == Some(t.rows as u64),
        number_under(info_json(t), "cols"@) == Some(t.cols as u64),
        flag_under(info_json(t), "exited"@) == t.exited,
{
    let fields = seq![
        ("id"@, Json::Int(t.id as int)),
        ("title"@, Json::Text(t.title@)),
        ("rows"@, Json::Int(t.rows as int)),
        ("cols"@, Json::Int(t.cols as int)),
        ("exited"@, Json::Bool(t.exited)),
    ];
    keys_differ();
    object_member(fields, 0);
    object_member(fields, 1);
    object_member(fields, 2);
    object_member(fields, 3);
    object_member(fields, 4);
    assert(fields[0].0 == "id"@ && fields[1].0 == "title"@ && fields[2].0 == "rows"@);
    assert(fields[3].0 == "cols"@ && fields[4].0 == "exited"@);
}

/// The list shows all terminals that the server lists, one line each, in the server's order.
pub proof fn list_shows_terminals(terms: Seq<TermInfo>, i: int)
    requires
        0 <= i < terms.len(),
    ensures
        listing(terminals_in(hello_json(terms))).len() == 1 + terms.len(),
        listing(terminals_in(hello_json(terms)))[0] == heading(),
        listing(terminals_in(hello_json(terms)))[1 + i] == line(
            decimal(terms[i].id as nat),
            title_cut(terms[i].title@),
            right_aligned(decimal(terms[i].rows as nat), 3) + "x"@ + left_aligned(
                decimal(terms[i].cols as nat),
                2,
            ),
            if terms[i].exited {
                "exited"@
            } else {
                "alive"@
            },
        ),
{
    let all = terms.map_values(|t: TermInfo| info_json(t));
    let fields = seq![("ev"@, Json::Text("hello"@)), ("terminals"@, Json::List(all))];
    object_member(fields, 1);
    assert(fields[1].0 == "terminals"@);
    assert(terminals_in(hello_json(terms)) == all);
    info_members(terms[i]);
    assert(all[i] == info_json(terms[i]));
}

/// The part of a title that is shown is the longest start of it with at most 50 bytes.
pub proof fn title_cut_is_longest(title: Seq<char>, n: int)
    requires
        0 <= n <= title.len(),
    ensures
        title_cut(title).is_prefix_of(title),
        encode_utf8(title_cut(title)).len() <= 50,
        encode_utf8(title.take(n)).len() <= 50 ==> n <= title_cut(title).len(),
    decreases title.len(),
{
    if encode_utf8(title).len() > 50 {
        if n < title.len() {
            title_cut_is_longest(title.drop_last(), n);
            assert(title.drop_last().take(n) =~= title.take(n));
        } else {
            title_cut_is_longest(title.drop_last(), 0);
            assert(title.take(n) =~= title);
        }
    } else {
        assert(title.take(n).len() == n);
    }
}

/// Who asks for a terminal is told its number.
pub proof fn creation_is_understood(term: TermInfo, v: Verdict)
    requires
        new_verdict(create_ok_json(term), v),
    ensures
        v matches Verdict::Done(s) && s@ == decimal(term.id as nat),
{
    let fields = seq![("ev"@, Json::Text("create_ok"@)), ("term"@, info_json(term))];
    keys_differ();
    object_member(fields, 0);
    object_member(fields, 1);
    assert(fields[0].0 == "ev"@ && fields[1].0 == "term"@);
    info_members(term);
}

/// The news of another client's terminal is not taken for the answer.
pub proof fn news_is_no_answer(term: TermInfo, v: Verdict)
    requires
        new_verdict(event_json(Event::Created { term }), v),
    ensures
        v is Wait,
{
    let fields = seq![("ev"@, Json::Text("created"@)), ("term"@, info_json(term))];
    keys_differ();
    object_member(fields, 0);
    assert(fields[0].0 == "ev"@);
    reveal_strlit("created");
    reveal_strlit("create_ok");
    reveal_strlit("error");
    assert("created"@.len() == 7 && "create_ok"@.len() == 9 && "error"@.len() == 5);
}

/// The members of an error.
proof fn error_members(msg: Seq<char>)
    ensures
        event_name(error_json(msg)) == "error"@,
        text_under(error_json(msg), "msg"@, "attach error"@) == msg,
        text_under(error_json(msg), "msg"@, "create failed"@) == msg,
        text_under(error_json(msg), "msg"@, "kill failed"@) == msg,
{
    let fields = seq![("ev"@, Json::Text("error"@)), ("msg"@, Json::Text(msg))];
    keys_differ();
    object_member(fields, 0);
    object_member(fields, 1);
    assert(fields[0].0 == "ev"@ && fields[1].0 == "msg"@);
}

/// What the server complains about is what a client prints, whatever its command.
pub proof fn complaints_arrive(msg: Seq<char>, m: Bytes, id: u64, a: Verdict, b: Verdict)
    requires
        tells(m, error_json(msg)),
        new_verdict(error_json(msg), a),
        kill_verdict(error_json(msg), id, b),
    ensures
        snap_result(snap_step(snap_start(id), bytes_of(m))) == Err::<Seq<u8>, Seq<char>>(
            "wt: "@ + msg,
        ),
        a matches Verdict::Failed(s) && s@ == "wt: "@ + msg,
        b matches Verdict::Failed(s) && s@ == "wt: "@ + msg,
{
    error_members(msg);
    reveal_strlit("error");
    reveal_strlit("attached");
    reveal_strlit("create_ok");
    reveal_strlit("removed");
    assert("error"@.len() == 5);
    assert("attached"@.len() == 8);
    assert("create_ok"@.len() == 9);
    assert("removed"@.len() == 7);
}

/// A client that kills a terminal is done when everyone is told that it is gone.
pub proof fn removal_is_understood(id: u64, v: Verdict)
    requires
        kill_verdict(event_json(Event::Removed { id }), id, v),
    ensures
        v is Done,
{
    let fields = seq![("ev"@, Json::Text("removed"@)), ("id"@, Json::Int(id as int))];
    keys_differ();
    object_member(fields, 0);
    object_member(fields, 1);
    assert(fields[0].0 == "ev"@ && fields[1].0 == "id"@);
}

proof fn request_keys_apart()
    ensures
        "op"@.len() == 2 && "op"@[0] == 'o',
        "id"@.len() == 2 && "id"@[0] == 'i',
        "cwd"@.len() == 3,
        "rows"@.len() == 4 && "rows"@[0] == 'r',
        "cols"@.len() == 4 && "cols"@[0] == 'c',
{
    reveal_strlit("op");
    reveal_strlit("id");
    reveal_strlit("cwd");
    reveal_strlit("rows");
    reveal_strlit("cols");
}

/// What is typed, and the keys that are named, go to the terminal that the command names, as one frame of
/// terminal bytes that carries all of them; a list with a name in it that is no key sends nothing, and the
/// name is told.
pub proof fn input_is_sent(
    id: u64,
    text: String,
    keys: String,
    a: Result<Option<Vec<u8>>, String>,
    b: Result<Option<Vec<u8>>, String>,
)
    requires
        call_ensures(run, (&Op::Type { id, text },), a),
        call_ensures(run, (&Op::Keys { id, keys },), b),
    ensures
        a matches Ok(Some(m)) && {
            &&& m@[0] == 0
            &&& m@[1] + 0x100 * m@[2] + 0x1_0000 * m@[3] + 0x100_0000 * m@[4] == id % 0x1_0000_0000
            &&& m@.skip(5) == unescaped(text@)
        },
        match keys_rendered(split_on(keys@, ',')) {
            Ok(bytes) => b matches Ok(Some(m)) && {
                &&& m@[0] == 0
                &&& m@[1] + 0x100 * m@[2] + 0x1_0000 * m@[3] + 0x100_0000 * m@[4] == id
                    % 0x1_0000_0000
                &&& m@.skip(5) == bytes
            },
            Err(name) => b matches Err(e) && e@ == "wt: unknown key '"@ + name + "'"@,
        },
{
    frame_reads_back(FT_BYTES, id, unescaped(text@));
    if let Ok(bytes) = keys_rendered(split_on(keys@, ',')) {
        frame_reads_back(FT_BYTES, id, bytes);
    }
}

/// A request says what the command says: which operation, and of which terminal, or of which size and in
/// which directory; a directory only if one is given. The list needs no request.
pub proof fn request_is_sent(
    id: u64,
    cwd: Option<String>,
    rows: u16,
    cols: u16,
    ls: Result<Option<Vec<u8>>, String>,
    new: Result<Option<Vec<u8>>, String>,
    snap: Result<Option<Vec<u8>>, String>,
    kill: Result<Option<Vec<u8>>, String>,
)
    requires
        call_ensures(run, (&Op::Ls,), ls),
        call_ensures(run, (&Op::New { cwd, rows, cols },), new),
        call_ensures(run, (&Op::Snap { id },), snap),
        call_ensures(run, (&Op::Kill { id },), kill),
    ensures
        ls matches Ok(None),
        new matches Ok(Some(m)) && (frame_json(m@) matches Some(j) && {
            &&& member_of(j, "op"@) == Some(Json::Text("create"@))
            &&& member_of(j, "rows"@) == Some(Json::Int(rows as int))
            &&& member_of(j, "cols"@) == Some(Json::Int(cols as int))
            &&& member_of(j, "cwd"@) == match cwd {
                Some(d) => Some(Json::Text(d@)),
                None => None,
            }
        }),
        snap matches Ok(Some(m)) && (frame_json(m@) matches Some(j) && {
            &&& member_of(j, "op"@) == Some(Json::Text("attach"@))
            &&& member_of(j, "id"@) == Some(Json::Int(id as int))
        }),
        kill matches Ok(Some(m)) && (frame_json(m@) matches Some(j) && {
            &&& member_of(j, "op"@) == Some(Json::Text("kill"@))
            &&& member_of(j, "id"@) == Some(Json::Int(id as int))
        }),
{
    request_keys_apart();
    let size = seq![
        ("op"@, Json::Text("create"@)),
        ("rows"@, Json::Int(rows as int)),
        ("cols"@, Json::Int(cols as int)),
    ];
    match cwd {
        Some(d) => {
            let all = size.push(("cwd"@, Json::Text(d@)));
            object_member(all, 0);
            object_member(all, 1);
            object_member(all, 2);
            object_member(all, 3);
        },
        None => {
            object_member(size, 0);
            object_member(size, 1);
            object_member(size, 2);
            assert(size.drop_last().drop_last().drop_last() =~= Seq::empty());
            reveal_with_fuel(crate::json::fields_map, 4);
        },
    }
    let a = seq![("op"@, Json::Text("attach"@)), ("id"@, Json::Int(id as int))];
    let k = seq![("op"@, Json::Text("kill"@)), ("id"@, Json::Int(id as int))];
    object_member(a, 0);
    object_member(a, 1);
    object_member(k, 0);
    object_member(k, 1);
}

/// A command waits while it can still be answered and no longer: for a new terminal three seconds in all,
/// for a removal two, for a snapshot from message to message; the others do not wait.
pub proof fn waiting_is_bounded(op: Op, passed: u64, r: Option<u64>)
    requires
        call_ensures(patience, (&op, passed), r),
    ensures
        match op {
            Op::New { .. } => r is Some <==> passed < 3000,
            Op::Kill { .. } => r is Some <==> passed < 2000,
            Op::Snap { .. } => r is Some,
            _ => r is None,
        },
        r matches Some(ms) ==> (op is New ==> ms == 2000) && (!(op is New) ==> ms == 600),
        HELLO_WAIT_MS == 2000,
        SEND_PAUSE_MS == 80,
{
}

/// The list has a heading and one line for each terminal that the server told, in the server's order; it
/// says so if there is none, and fails only without a hello.
pub proof fn list_is_printed(hello: Option<&Value>, r: Result<Vec<String>, String>)
    requires
        call_ensures(ls, (hello,), r),
    ensures
        r is Ok <==> hello is Some,
        hello matches Some(ev) ==> (member_of(json(*ev), "terminals"@) matches Some(
            Json::List(items),
        ) ==> {
            &&& items.len() == 0 ==> r->Ok_0@.len() == 1 && r->Ok_0@[0]@ == "(no terminals)"@
            &&& items.len() > 0 ==> r->Ok_0@.len() == items.len() + 1
            &&& items.len() > 0 ==> forall|i: int|
                0 <= i < items.len() ==> (#[trigger] r->Ok_0@[i + 1])@ == shown_line(items[i])
        }),
{
    if let Some(ev) = hello {
        let lines = r->Ok_0@;
        let seen = lines_view(lines);
        if let Some(Json::List(items)) = member_of(json(*ev), "terminals"@) {
            assert(seen == listing(items));
            assert(seen.len() == lines.len());
            if items.len() == 0 {
                assert(seen[0] == lines[0]@);
            } else {
                assert forall|i: int| 0 <= i < items.len() implies (#[trigger] lines[i + 1])@
                    == shown_line(items[i]) by {
                    assert(seen[i + 1] == lines[i + 1]@);
                    assert(seen[i + 1] == items.map_values(|t: Json| shown_line(t))[i]);
                }
            }
        }
    }
}

/// The line of a terminal shows its number, its title as far as it fits, its size and its state, each in
/// its column; the columns stand under those of the heading.
pub proof fn line_shows_terminal(t: Value, r: String, info: TermInfo)
    requires
        call_ensures(terminal_row, (&t,), r),
        json(t) == info_json(info),
    ensures
        r@ == right_aligned(decimal(info.id as nat), 4) + "  "@ + left_aligned(
            title_cut(info.title@),
            50,
        ) + "  "@ + (right_aligned(decimal(info.rows as nat), 3) + "x"@ + left_aligned(
            decimal(info.cols as nat),
            2,
        )) + "  "@ + (if info.exited {
            "exited"@
        } else {
            "alive"@
        }),
        heading() == right_aligned("ID"@, 4) + "  "@ + left_aligned("TITLE"@, 50) + "  "@
            + right_aligned("SIZE"@, 6) + "  "@ + "STATUS"@,
        encode_utf8(info.title@).len() <= 50 ==> title_cut(info.title@) == info.title@,
{
    info_members(info);
}

/// Who asks for a terminal prints the number that the server gives it, prints what the server complains
/// about, and goes on waiting at everything else.
pub proof fn new_is_answered(ev: Value, v: Verdict, n: u64, msg: Seq<char>)
    requires
        call_ensures(new_term, (&ev,), v),
    ensures
        ({
            let name = member_of(json(ev), "ev"@);
            let term = member_of(json(ev), "term"@);
            &&& name == Some(Json::Text("create_ok"@)) && term is Some && member_of(term->0, "id"@)
                == Some(Json::Int(n as int)) ==> (v matches Verdict::Done(s) && s@ == decimal(
                n as nat,
            ))
            &&& name == Some(Json::Text("error"@)) && member_of(json(ev), "msg"@) == Some(
                Json::Text(msg),
            ) ==> (v matches Verdict::Failed(s) && s@ == "wt: "@ + msg)
            &&& name != Some(Json::Text("create_ok"@)) && name != Some(Json::Text("error"@)) ==> v
                is Wait
        }),
{
    reveal_strlit("create_ok");
    reveal_strlit("error");
    reveal_strlit("");
    assert("create_ok"@.len() == 9 && "error"@.len() == 5 && ""@.len() == 0);
}

/// Who kills a terminal is done when that terminal is gone, not when another is; prints what the server
/// complains about; and goes on waiting at everything else.
pub proof fn kill_is_answered(ev: Value, id: u64, v: Verdict, n: u64, msg: Seq<char>)
    requires
        call_ensures(kill, (&ev, id), v),
    ensures
        ({
            let name = member_of(json(ev), "ev"@);
            &&& name == Some(Json::Text("removed"@)) && member_of(json(ev), "id"@) == Some(
                Json::Int(n as int),
            ) ==> if n == id {
                v is Done
            } else {
                v is Wait
            }
            &&& name == Some(Json::Text("error"@)) && member_of(json(ev), "msg"@) == Some(
                Json::Text(msg),
            ) ==> (v matches Verdict::Failed(s) && s@ == "wt: "@ + msg)
            &&& name != Some(Json::Text("removed"@)) && name != Some(Json::Text("error"@)) ==> v
                is Wait
        }),
{
    reveal_strlit("removed");
    reveal_strlit("error");
    reveal_strlit("");
    assert("removed"@.len() == 7 && "error"@.len() == 5 && ""@.len() == 0);
}

/// A snapshot takes in every message as it comes: all bytes of its own terminal, in order, and none of
/// another; it is printed once the server said that it comes, and an error of the server is printed in its
/// place.
pub proof fn snapshot_collects(id: u64, fresh: Snap, b: Bytes, ev: Value)
    requires
        call_ensures(Snap::new, (id,), fresh),
    ensures
        fresh@.id == id && fresh@.buf.len() == 0 && !fresh@.attached && fresh@.error is None,
        forall|s: &mut Snap, more: bool| #[trigger]
            call_ensures(Snap::take, (s, &b), more) ==> {
                let m = bytes_of(b);
                &&& final(s)@.id == s@.id
                &&& m.len() >= 5 && m[0] == 0 ==> final(s)@.buf == if m[1] + 0x100 * m[2] + 0x1_0000
                    * m[3] + 0x100_0000 * m[4] == s@.id {
                    s@.buf + m.skip(5)
                } else {
                    s@.buf
                }
                &&& m.len() < 5 || m[0] != 0 ==> final(s)@.buf == s@.buf
                &&& m.len() < 5 ==> more
                &&& m.len() >= 5 && m[0] == 0 ==> final(s)@.attached == s@.attached
                &&& m.len() >= 5 && m[0] == 0 ==> final(s)@.error == s@.error
            },
        forall|s: &mut Snap, more: bool| #[trigger]
            call_ensures(Snap::hear, (s, &ev), more) ==> {
                let name = member_of(json(ev), "ev"@);
                &&& final(s)@.buf == s@.buf
                &&& name == Some(Json::Text("attached"@)) ==> more && final(s)@.attached
                &&& name == Some(Json::Text("error"@)) ==> !more && final(s)@.error is Some
                &&& name != Some(Json::Text("attached"@)) && name != Some(Json::Text("error"@)) ==> {
                    &&& more
                    &&& final(s)@.attached == s@.attached
                    &&& final(s)@.error == s@.error
                }
            },
        forall|s: Snap, r: Result<Vec<u8>, String>| #[trigger]
            call_ensures(Snap::finish, (s,), r) ==> {
                &&& r is Ok <==> s@.error is None && s@.attached
                &&& r matches Ok(bytes) ==> bytes@ == closed_part(s@.buf)
                &&& s@.error matches Some(e) ==> (r matches Err(x) && x@ == "wt: "@ + e)
            },
{
    reveal_strlit("attached");
    reveal_strlit("error");
    reveal_strlit("");
    assert("attached"@.len() == 8 && "error"@.len() == 5 && ""@.len() == 0);
}

/// Who waited for a terminal in vain is told so.
pub proof fn timeout_is_told(r: String)
    requires
        call_ensures(new_timeout, (), r),
    ensures
        r@ == "wt: create timed out waiting for create_ok"@,
{
}

}
