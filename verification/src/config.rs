//! The server's settings, where it listens, and the pages that it serves.

use crate::auth::{alphanumeric, random_alphanumeric, OWNER_ONLY};
use crate::json::{
    as_list, as_number, as_text, field, fields_view, json, json_all, json_lines, json_read, list,
    member, member_of, number, number_of, object, object_member, object_of, parse, render_lines,
    tame, tame_object, text, text_of, Json,
};
use crate::reply::{pairs_view, Body, BodyView, FileWrite, Reply, ReplyView};
use crate::text::{append, chars_of, decimal, decimal_chars, decimal_reads_back, string_of};
use serde_json::Value;
use vstd::prelude::*;
use vstd::utf8::*;

verus! {

/// The settings of the server.
pub struct Config {
    pub password: String,
    pub port: u16,
    pub bind: String,
    /// Pages from elsewhere that may open a connection, beside those that the server itself serves.
    pub allowed_origins: Vec<String>,
}

/// The number of characters in a password that the server makes up.
pub const PASSWORD_LEN: usize = 24;

/// The permissions of the file with the settings.
pub const CONFIG_MODE: u32 = OWNER_ONLY;

/// The port on which the server listens if nothing else is said.
pub fn d_port() -> (r: u16)
    ensures
        r == 8737,
{
    8737
}

/// The address on which the server listens if nothing else is said.
pub fn d_bind() -> (r: String)
    ensures
        r@ == "127.0.0.1"@,
{
    "127.0.0.1".to_string()
}

/// The texts of a vector of strings.
pub open spec fn strings_view(v: Seq<String>) -> Seq<Seq<char>> {
    v.map_values(|s: String| s@)
}

/// Holds of the settings of a first run with the given password.
pub open spec fn first_settings(c: Config, password: Seq<char>) -> bool {
    &&& c.password@ == password
    &&& c.port == 8737
    &&& c.bind@ == "127.0.0.1"@
    &&& c.allowed_origins@.len() == 0
}

/// The settings of a first run with the given password.
pub fn with_password(password: String) -> (c: Config)
    ensures
        first_settings(c, password@),
{
    Config { password, port: d_port(), bind: d_bind(), allowed_origins: Vec::new() }
}

// ---------- The file with the settings ----------

/// The settings as a mathematical value.
pub struct ConfigView {
    pub password: Seq<char>,
    pub port: u16,
    pub bind: Seq<char>,
    pub allowed_origins: Seq<Seq<char>>,
}

impl View for Config {
    type V = ConfigView;

    open spec fn view(&self) -> ConfigView {
        ConfigView {
            password: self.password@,
            port: self.port,
            bind: self.bind@,
            allowed_origins: strings_view(self.allowed_origins@),
        }
    }
}

/// The list of the given texts.
pub open spec fn texts_json(texts: Seq<Seq<char>>) -> Json {
    Json::List(texts.map_values(|t: Seq<char>| Json::Text(t)))
}

/// The members of the document with the settings.
pub open spec fn config_fields(c: ConfigView) -> Seq<(Seq<char>, Json)> {
    seq![
        ("password"@, Json::Text(c.password)),
        ("port"@, Json::Int(c.port as int)),
        ("bind"@, Json::Text(c.bind)),
        ("allowed_origins"@, texts_json(c.allowed_origins)),
    ]
}

/// The document with the settings.
pub open spec fn config_json(c: ConfigView) -> Json {
    object_of(config_fields(c))
}

/// The texts of a list that holds nothing but texts.
pub open spec fn texts_of(j: Json) -> Option<Seq<Seq<char>>> {
    match j {
        Json::List(items) if forall|i: int|
            0 <= i < items.len() ==> #[trigger] items[i] is Text => Some(
            items.map_values(|t: Json| t->Text_0),
        ),
        _ => None,
    }
}

/// A number that can be a port.
pub open spec fn port_of(j: Json) -> Option<u16> {
    match number_of(j) {
        Some(n) if n <= u16::MAX => Some(n as u16),
        _ => None,
    }
}

/// The setting under `key`. In a list of settings without their keys it stands at `place`.
pub open spec fn setting_of(j: Json, place: int, key: Seq<char>) -> Option<Json> {
    match j {
        Json::List(items) => if place < items.len() {
            Some(items[place])
        } else {
            None
        },
        _ => member_of(j, key),
    }
}

/// What a setting says, or the default where there is no such setting. One of another type says
/// nothing.
pub open spec fn or_default<T>(
    setting: Option<Json>,
    reads: spec_fn(Json) -> Option<T>,
    default: Option<T>,
) -> Option<T> {
    match setting {
        Some(j) => reads(j),
        None => default,
    }
}

/// The settings in a document: an object that has a password in it, or a list of at most the four of
/// them. Members under other keys are passed over.
pub open spec fn config_of(j: Json) -> Option<ConfigView> {
    let password = or_default(setting_of(j, 0, "password"@), |t: Json| text_of(t), None);
    let port = or_default(setting_of(j, 1, "port"@), |t: Json| port_of(t), Some(8737u16));
    let bind = or_default(setting_of(j, 2, "bind"@), |t: Json| text_of(t), Some("127.0.0.1"@));
    let origins = or_default(
        setting_of(j, 3, "allowed_origins"@),
        |t: Json| texts_of(t),
        Some(Seq::empty()),
    );
    if j is List && j->List_0.len() > 4 || password is None || port is None || bind is None
        || origins is None {
        None
    } else {
        Some(
            ConfigView {
                password: password->0,
                port: port->0,
                bind: bind->0,
                allowed_origins: origins->0,
            },
        )
    }
}

/// The settings in a text.
pub open spec fn settings_in(text: Seq<char>) -> Option<ConfigView> {
    match json_read(encode_utf8(text)) {
        Some(j) => config_of(j),
        None => None,
    }
}

fn config_value(c: &Config) -> (v: Value)
    ensures
        json(v) == config_json(c@),
{
    let ghost all = c@.allowed_origins.map_values(|t: Seq<char>| Json::Text(t));
    let mut origins: Vec<Value> = Vec::new();
    let mut i: usize = 0;
    while i < c.allowed_origins.len()
        invariant
            i <= c.allowed_origins@.len(),
            all == c@.allowed_origins.map_values(|t: Seq<char>| Json::Text(t)),
            json_all(origins@) =~= all.take(i as int),
        decreases c.allowed_origins@.len() - i,
    {
        let ghost before = origins@;
        origins.push(text(c.allowed_origins[i].clone()));
        assert(json_all(origins@) =~= json_all(before).push(all[i as int]));
        i += 1;
    }
    assert(all.take(i as int) =~= all);
    let mut fields: Vec<(String, Value)> = Vec::new();
    fields.push(field("password", text(c.password.clone())));
    fields.push(field("port", number(c.port as u64)));
    fields.push(field("bind", text(c.bind.clone())));
    fields.push(field("allowed_origins", list(origins)));
    assert(fields_view(fields@) =~= config_fields(c@));
    object(fields)
}

fn setting<'a>(v: &'a Value, place: usize, key: &str) -> (r: Option<&'a Value>)
    ensures
        match r {
            Some(m) => setting_of(json(*v), place as int, key@) == Some(json(*m)),
            None => setting_of(json(*v), place as int, key@) is None,
        },
{
    match as_list(v) {
        Some(items) => if place < items.len() {
            Some(&items[place])
        } else {
            None
        },
        None => member(v, key),
    }
}

fn as_texts(v: &Value) -> (r: Option<Vec<String>>)
    ensures
        match r {
            Some(texts) => texts_of(json(*v)) == Some(strings_view(texts@)),
            None => texts_of(json(*v)) is None,
        },
{
    let items = match as_list(v) {
        Some(items) => items,
        None => return None,
    };
    let ghost all = json_all(items@);
    let mut texts: Vec<String> = Vec::new();
    let mut i: usize = 0;
    while i < items.len()
        invariant
            i <= items@.len(),
            all == json_all(items@),
            json(*v) == Json::List(all),
            texts@.len() == i,
            forall|k: int| 0 <= k < i ==> #[trigger] all[k] == Json::Text(texts@[k]@),
        decreases items@.len() - i,
    {
        match as_text(&items[i]) {
            Some(t) => {
                texts.push(t.to_string());
                assert(all[i as int] == Json::Text(t@));
            },
            None => {
                assert(!(all[i as int] is Text));
                return None;
            },
        }
        i += 1;
    }
    assert(strings_view(texts@) =~= all.map_values(|t: Json| t->Text_0));
    Some(texts)
}

/// Reads the settings of a document.
pub fn config_from(v: &Value) -> (r: Option<Config>)
    ensures
        match r {
            Some(c) => config_of(json(*v)) == Some(c@),
            None => config_of(json(*v)) is None,
        },
{
    if let Some(items) = as_list(v) {
        if items.len() > 4 {
            return None;
        }
    }
    let password = match setting(v, 0, "password") {
        Some(m) => match as_text(m) {
            Some(t) => t.to_string(),
            None => return None,
        },
        None => return None,
    };
    let port: u16 = match setting(v, 1, "port") {
        Some(m) => match as_number(m) {
            Some(n) if n <= u16::MAX as u64 => n as u16,
            _ => return None,
        },
        None => d_port(),
    };
    let bind = match setting(v, 2, "bind") {
        Some(m) => match as_text(m) {
            Some(t) => t.to_string(),
            None => return None,
        },
        None => d_bind(),
    };
    let allowed_origins = match setting(v, 3, "allowed_origins") {
        Some(m) => match as_texts(m) {
            Some(texts) => texts,
            None => return None,
        },
        None => {
            let none: Vec<String> = Vec::new();
            assert(strings_view(none@) =~= Seq::empty());
            none
        },
    };
    Some(Config { password, port, bind, allowed_origins })
}

/// Reads the settings from a text.
pub fn read_config(text: &str) -> (r: Option<Config>)
    ensures
        match r {
            Some(c) => settings_in(text@) == Some(c@),
            None => settings_in(text@) is None,
        },
{
    match parse(text.as_bytes()) {
        Some(v) => config_from(&v),
        None => None,
    }
}

/// Holds of the write that puts settings into a file which only its owner may read, and from which
/// they can be read back.
pub open spec fn stores(w: FileWrite, path: Seq<char>, c: ConfigView) -> bool {
    &&& w.path@ == path
    &&& w.mode == CONFIG_MODE
    &&& w.content@ == json_lines(config_json(c))
    &&& json_read(encode_utf8(w.content@)) == Some(config_json(c))
}

/// The document with the settings can be read back.
pub proof fn config_json_tame(c: ConfigView)
    ensures
        tame(config_json(c), 127),
{
    reveal_strlit("password");
    reveal_strlit("port");
    reveal_strlit("bind");
    reveal_strlit("allowed_origins");
    let items = texts_json(c.allowed_origins)->List_0;
    assert forall|i: int| 0 <= i < items.len() implies tame(#[trigger] items[i], 125) by {
        assert(items[i] == Json::Text(c.allowed_origins[i]));
    }
    assert(tame(texts_json(c.allowed_origins), 126));
    tame_object(config_fields(c), 127);
}

/// Puts settings into a file.
pub fn write_config(c: &Config, path: &str) -> (w: FileWrite)
    ensures
        stores(w, path@, c@),
{
    let v = config_value(c);
    proof {
        config_json_tame(c@);
    }
    FileWrite { path: path.to_string(), content: render_lines(&v), mode: CONFIG_MODE }
}

// ---------- The start ----------

/// What was found where the settings should be.
pub enum Stored {
    /// No file.
    Missing,
    /// A file with this text.
    Text(String),
    /// A file that cannot be read, or holds no text.
    Unreadable,
}

/// The settings to start with, and what a first run does about them.
pub struct Start {
    pub config: Config,
    /// On a first run, what is to be written before all else.
    pub write: Option<FileWrite>,
    /// On a first run, what goes to the log.
    pub notice: Option<String>,
}

/// What the log says on a first run.
pub open spec fn first_notice(path: Seq<char>, password: Seq<char>) -> Seq<char> {
    "wrote "@ + path + ", initial password: "@ + password
}

/// Holds of a first run with the given password: the settings are written, and the log shows the
/// password.
pub open spec fn first_start(s: Start, path: Seq<char>, password: Seq<char>) -> bool {
    &&& first_settings(s.config, password)
    &&& s.write matches Some(w) && stores(w, path, s.config@)
    &&& s.notice matches Some(n) && n@ == first_notice(path, password)
}

/// A first run with the given password.
pub fn start_with(path: &str, password: String) -> (s: Start)
    ensures
        first_start(s, path@, password@),
{
    let mut notice = chars_of("wrote ");
    append(&mut notice, path);
    append(&mut notice, ", initial password: ");
    append(&mut notice, password.as_str());
    let config = with_password(password);
    let write = write_config(&config, path);
    Start { config, write: Some(write), notice: Some(string_of(notice.as_slice())) }
}

/// Holds of what a start makes of the file that it finds. Settings are made up, with a random
/// password, only if there is no file.
pub open spec fn starts(path: Seq<char>, found: Stored, r: Result<Start, String>) -> bool {
    match found {
        Stored::Missing => r matches Ok(s) && exists|password: Seq<char>|
            {
                &&& password.len() == PASSWORD_LEN
                &&& forall|i: int| 0 <= i < PASSWORD_LEN ==> alphanumeric(#[trigger] password[i])
                &&& #[trigger] first_start(s, path, password)
            },
        Stored::Text(t) => match settings_in(t@) {
            Some(c) => r matches Ok(s) && s.config@ == c && s.write is None && s.notice is None,
            None => r matches Err(e) && e@ == "failed to parse config.json"@,
        },
        Stored::Unreadable => r matches Err(e) && e@ == "failed to read config.json"@,
    }
}

/// The settings to start with. A file that cannot be read, or holds no settings, is not written over.
pub fn load_or_create_config(path: &str, found: Stored) -> (r: Result<Start, String>)
    ensures
        starts(path@, found, r),
{
    match found {
        Stored::Missing => {
            let password = random_alphanumeric(PASSWORD_LEN);
            let s = start_with(path, password);
            assert(first_start(s, path@, password@));
            Ok(s)
        },
        Stored::Text(t) => match read_config(t.as_str()) {
            Some(config) => Ok(Start { config, write: None, notice: None }),
            None => Err("failed to parse config.json".to_string()),
        },
        Stored::Unreadable => Err("failed to read config.json".to_string()),
    }
}

/// Settings come back from the document that is written for them.
pub proof fn settings_read_back(c: ConfigView)
    ensures
        config_of(config_json(c)) == Some(c),
{
    reveal_strlit("password");
    reveal_strlit("port");
    reveal_strlit("bind");
    reveal_strlit("allowed_origins");
    let fields = config_fields(c);
    assert("password"@.len() == 8 && "port"@.len() == 4 && "bind"@.len() == 4);
    assert("port"@[0] == 'p' && "bind"@[0] == 'b');
    assert("allowed_origins"@.len() == 15);
    object_member(fields, 0);
    object_member(fields, 1);
    object_member(fields, 2);
    object_member(fields, 3);
    let items = texts_json(c.allowed_origins)->List_0;
    assert(items.map_values(|t: Json| t->Text_0) =~= c.allowed_origins);
}

/// A start without a file has a password of its own and writes it down. The next start, on the file
/// that this one wrote, has the same settings and writes nothing.
pub proof fn second_start_keeps_settings(
    path: Seq<char>,
    first: Result<Start, String>,
    text: String,
    second: Result<Start, String>,
)
    requires
        starts(path, Stored::Missing, first),
        text@ == (first->Ok_0.write->0).content@,
        starts(path, Stored::Text(text), second),
    ensures
        first is Ok,
        first->Ok_0.write matches Some(w) && w.path@ == path && w.mode == CONFIG_MODE,
        second is Ok,
        second->Ok_0.config@ == first->Ok_0.config@,
        second->Ok_0.write is None,
{
    settings_read_back(first->Ok_0.config@);
}

/// A file with a password needs nothing else: what is left out has its default.
pub proof fn settings_default(j: Json, password: Seq<char>)
    requires
        member_of(j, "password"@) == Some(Json::Text(password)),
        member_of(j, "port"@) is Some ==> port_of(member_of(j, "port"@)->0) is Some,
        member_of(j, "bind"@) is Some ==> text_of(member_of(j, "bind"@)->0) is Some,
        member_of(j, "allowed_origins"@) is Some ==> texts_of(
            member_of(j, "allowed_origins"@)->0,
        ) is Some,
    ensures
        config_of(j) matches Some(c) && {
            &&& c.password == password
            &&& member_of(j, "port"@) is None ==> c.port == 8737
            &&& member_of(j, "bind"@) is None ==> c.bind == "127.0.0.1"@
            &&& member_of(j, "allowed_origins"@) is None ==> c.allowed_origins.len() == 0
        },
{
}

/// Why the server does not start with these settings: an empty password would let everyone in.
pub fn refuse_to_start(c: &Config, path: &str) -> (r: Option<String>)
    ensures
        match r {
            Some(msg) => c.password@.len() == 0 && msg@ == "refusing to start: password in "@ + path@
                + " is empty"@,
            None => c.password@.len() > 0,
        },
{
    if chars_of(c.password.as_str()).len() == 0 {
        let mut msg = chars_of("refusing to start: password in ");
        append(&mut msg, path);
        append(&mut msg, " is empty");
        Some(string_of(msg.as_slice()))
    } else {
        None
    }
}

/// A server with the settings of a first run starts.
pub proof fn first_run_starts(c: Config, password: Seq<char>)
    requires
        password.len() == PASSWORD_LEN,
        first_settings(c, password),
    ensures
        c.password@.len() > 0,
{
}

// ---------- The local socket ----------

/// A text without slashes at its end.
pub open spec fn without_slashes(s: Seq<char>) -> Seq<char>
    decreases s.len(),
{
    if s.len() > 0 && s.last() == '/' {
        without_slashes(s.drop_last())
    } else {
        s
    }
}

/// A text without slashes at its start.
pub open spec fn behind_slashes(s: Seq<char>) -> Seq<char>
    decreases s.len(),
{
    if s.len() > 0 && s[0] == '/' {
        behind_slashes(s.skip(1))
    } else {
        s
    }
}

/// Where the local socket is: in the runtime directory, or else under the user's number in `/tmp`.
pub open spec fn socket_at(runtime: Option<Seq<char>>, uid: u32) -> Seq<char> {
    match runtime {
        Some(d) => without_slashes(d) + "/livetty.sock"@,
        None => "/tmp/livetty-"@ + decimal(uid as nat) + ".sock"@,
    }
}

/// Where the local socket is, for the server and its clients alike.
pub fn sock_path(runtime: Option<&str>, uid: u32) -> (r: String)
    ensures
        r@ == socket_at(
            match runtime {
                Some(d) => Some(d@),
                None => None,
            },
            uid,
        ),
{
    match runtime {
        Some(d) => {
            let mut out = chars_of(d);
            while out.len() > 0 && out[out.len() - 1] == '/'
                invariant
                    without_slashes(out@) == without_slashes(d@),
                decreases out@.len(),
            {
                let ghost before = out@;
                out.pop();
                assert(out@ =~= before.drop_last());
            }
            append(&mut out, "/livetty.sock");
            string_of(out.as_slice())
        },
        None => {
            let mut out = chars_of("/tmp/livetty-");
            let mut digits = decimal_chars(uid as u64);
            out.append(&mut digits);
            append(&mut out, ".sock");
            string_of(out.as_slice())
        },
    }
}

// ---------- Pages ----------

/// The page that stands for every path without a page of its own.
pub open spec fn index_page() -> Seq<char> {
    "index.html"@
}

/// The page that belongs to the path of a request.
pub open spec fn page_of(path: Seq<char>) -> Seq<char> {
    let name = behind_slashes(path);
    if name.len() == 0 {
        index_page()
    } else {
        name
    }
}

/// The page that belongs to the path of a request.
pub fn page(path: &str) -> (r: String)
    ensures
        r@ == page_of(path@),
{
    let chars = chars_of(path);
    let mut i: usize = 0;
    assert(chars@.skip(0) =~= chars@);
    while i < chars.len() && chars[i] == '/'
        invariant
            i <= chars@.len(),
            behind_slashes(chars@.skip(i as int)) == behind_slashes(chars@),
        decreases chars@.len() - i,
    {
        assert(chars@.skip(i as int).skip(1) =~= chars@.skip(i + 1));
        i += 1;
    }
    if i == chars.len() {
        assert(chars@.skip(i as int) =~= seq![]);
        "index.html".to_string()
    } else {
        string_of(vstd::slice::slice_subrange(chars.as_slice(), i, chars.len()))
    }
}

/// The media type that `mime_guess` gives for a path.
pub uninterp spec fn media_type(path: Seq<char>) -> Seq<char>;

/// Guesses a media type from a path (`mime_guess::from_path`, and `first_or_octet_stream` on its
/// result). The result is named `media_type`; which type belongs to which ending is left unsaid.
#[verifier::external_body]
fn guess_media_type(path: &str) -> (r: String)
    ensures
        r@ == media_type(path@),
{
    mime_guess::from_path(path).first_or_octet_stream().as_ref().to_string()
}

/// The answer that carries a page.
pub open spec fn page_answer(media: Seq<char>, data: Seq<u8>) -> ReplyView {
    ReplyView {
        status: 200,
        headers: seq![("content-type"@, media)],
        body: BodyView::Bytes(data),
    }
}

/// The answer where there is no page at all.
pub open spec fn no_page() -> ReplyView {
    ReplyView { status: 404, headers: seq![], body: BodyView::Text("not found"@) }
}

/// Answers with a page: the one under the request's own name if there is one, or else the index
/// page, so that the page's own router finds its way. The media type is that of the page that is
/// sent.
pub fn static_handler(path: &str, own: Option<Vec<u8>>, index: Option<Vec<u8>>) -> (r: Reply)
    ensures
        r@ == match (own, index) {
            (Some(data), _) => page_answer(media_type(page_of(path@)), data@),
            (None, Some(data)) => page_answer(media_type(index_page()), data@),
            (None, None) => no_page(),
        },
{
    match (own, index) {
        (Some(data), _) => {
            let media = guess_media_type(page(path).as_str());
            page_reply(media, data)
        },
        (None, Some(data)) => {
            let media = guess_media_type("index.html");
            page_reply(media, data)
        },
        (None, None) => {
            let r = Reply {
                status: 404,
                headers: Vec::new(),
                body: Body::Text("not found".to_string()),
            };
            assert(pairs_view(r.headers@) =~= seq![]);
            r
        },
    }
}

/// Answers with a page of the given media type.
pub fn page_reply(media: String, data: Vec<u8>) -> (r: Reply)
    ensures
        r@ == page_answer(media@, data@),
{
    let mut headers: Vec<(String, String)> = Vec::new();
    headers.push(("content-type".to_string(), media));
    assert(pairs_view(headers@) =~= seq![("content-type"@, media@)]);
    Reply { status: 200, headers, body: Body::Bytes(data) }
}

// ---------- Laws ----------

/// Holds of a list of texts.
pub open spec fn all_texts(j: Json) -> bool {
    j matches Json::List(items) && forall|i: int|
        0 <= i < items.len() ==> (#[trigger] items[i]) is Text
}

/// The settings in an object are read if it has a password that is a text, and what else is there is of
/// the right type: a port from 0 to 65535, an address that is a text, and origins that are texts. Each is
/// read as it stands, and what is missing has its default.
pub proof fn settings_are_read(v: Value, r: Option<Config>)
    requires
        json(v) is Object,
        call_ensures(config_from, (&v,), r),
    ensures
        ({
            let password = member_of(json(v), "password"@);
            let port = member_of(json(v), "port"@);
            let bind = member_of(json(v), "bind"@);
            let origins = member_of(json(v), "allowed_origins"@);
            &&& r is Some <==> {
                &&& password is Some && password->0 is Text
                &&& port is None || (port->0 matches Json::Int(n) && 0 <= n <= 65535)
                &&& bind is None || bind->0 is Text
                &&& origins is None || all_texts(origins->0)
            }
            &&& r matches Some(c) ==> {
                &&& password == Some(Json::Text(c.password@))
                &&& port == Some(Json::Int(c.port as int)) || port is None && c.port == 8737
                &&& bind == Some(Json::Text(c.bind@)) || bind is None && c.bind@ == "127.0.0.1"@
                &&& origins is None ==> c.allowed_origins@.len() == 0
                &&& origins matches Some(Json::List(items)) ==> {
                    &&& items.len() == c.allowed_origins@.len()
                    &&& forall|i: int|
                        0 <= i < items.len() ==> #[trigger] items[i] == Json::Text(
                            c.allowed_origins@[i]@,
                        )
                }
            }
        }),
{
    if let Some(c) = r {
        let origins = member_of(json(v), "allowed_origins"@);
        let seen = strings_view(c.allowed_origins@);
        assert(seen.len() == c.allowed_origins@.len());
        if let Some(Json::List(items)) = origins {
            let texts = items.map_values(|t: Json| t->Text_0);
            assert(seen == texts);
            assert forall|i: int| 0 <= i < items.len() implies #[trigger] items[i] == Json::Text(
                c.allowed_origins@[i]@,
            ) by {
                assert(seen[i] == c.allowed_origins@[i]@);
                assert(texts[i] == items[i]->Text_0);
                assert(items[i] is Text);
            }
        }
    }
}

/// Settings are written under the keys that they are read by, each as it is, into a file that only its
/// owner may read.
pub proof fn settings_are_written(c: Config, path: &str, w: FileWrite)
    requires
        call_ensures(write_config, (&c, path), w),
    ensures
        w.path@ == path@,
        w.mode == 0o600,
        json_read(encode_utf8(w.content@)) matches Some(j) && {
            &&& member_of(j, "password"@) == Some(Json::Text(c.password@))
            &&& member_of(j, "port"@) == Some(Json::Int(c.port as int))
            &&& member_of(j, "bind"@) == Some(Json::Text(c.bind@))
            &&& member_of(j, "allowed_origins"@) matches Some(Json::List(items)) && {
                &&& items.len() == c.allowed_origins@.len()
                &&& forall|i: int|
                    0 <= i < items.len() ==> #[trigger] items[i] == Json::Text(
                        c.allowed_origins@[i]@,
                    )
            }
        },
{
    reveal_strlit("password");
    reveal_strlit("port");
    reveal_strlit("bind");
    reveal_strlit("allowed_origins");
    assert("password"@.len() == 8 && "port"@.len() == 4 && "bind"@.len() == 4);
    assert("port"@[0] == 'p' && "bind"@[0] == 'b');
    assert("allowed_origins"@.len() == 15);
    let fields = config_fields(c@);
    object_member(fields, 0);
    object_member(fields, 1);
    object_member(fields, 2);
    object_member(fields, 3);
    let items = texts_json(c@.allowed_origins)->List_0;
    assert forall|i: int| 0 <= i < items.len() implies #[trigger] items[i] == Json::Text(
        c.allowed_origins@[i]@,
    ) by {
        assert(c@.allowed_origins[i] == c.allowed_origins@[i]@);
    }
}

/// What was written for settings is read as the same settings.
pub proof fn written_settings_return(c: Config, path: &str, w: FileWrite, text: &str, r: Option<Config>)
    requires
        call_ensures(write_config, (&c, path), w),
        text@ == w.content@,
        call_ensures(read_config, (text,), r),
    ensures
        r matches Some(d) && d@ == c@,
{
    settings_read_back(c@);
}

/// A first run makes up a password of 24 letters and digits, listens where the defaults say, writes the
/// settings down, and shows the password in the log. A start on a file that is there writes nothing,
/// whatever is in it.
pub proof fn first_run_is_exact(
    path: &str,
    r: Result<Start, String>,
    found: Stored,
    other: Result<Start, String>,
)
    requires
        call_ensures(load_or_create_config, (path, Stored::Missing), r),
        !(found is Missing),
        call_ensures(load_or_create_config, (path, found), other),
    ensures
        r matches Ok(s) && {
            &&& s.config.password@.len() == 24
            &&& forall|i: int| 0 <= i < 24 ==> alphanumeric(#[trigger] s.config.password@[i])
            &&& s.config.port == 8737
            &&& s.config.bind@ == "127.0.0.1"@
            &&& s.config.allowed_origins@.len() == 0
            &&& s.write matches Some(w)
            &&& w.path@ == path@
            &&& w.mode == 0o600
            &&& settings_in(w.content@) == Some(s.config@)
            &&& s.notice matches Some(n)
            &&& n@ == "wrote "@ + path@ + ", initial password: "@ + s.config.password@
        },
        other matches Ok(s) ==> s.write is None && s.notice is None && (found matches Stored::Text(t)
            && settings_in(t@) == Some(s.config@)),
        found is Unreadable ==> other is Err,
{
    let s = r->Ok_0;
    settings_read_back(s.config@);
}

/// The server starts with any password but an empty one.
pub proof fn empty_password_is_refused(c: Config, path: &str, r: Option<String>)
    requires
        call_ensures(refuse_to_start, (&c, path), r),
    ensures
        r is Some <==> c.password@.len() == 0,
        r matches Some(msg) ==> msg@ == "refusing to start: password in "@ + path@ + " is empty"@,
{
}

/// `n` slashes.
pub open spec fn slashes(n: nat) -> Seq<char> {
    Seq::new(n, |i: int| '/')
}

proof fn end_slashes_go(d: Seq<char>, n: nat)
    requires
        d.len() > 0 ==> d.last() != '/',
    ensures
        without_slashes(d + slashes(n)) == d,
    decreases n,
{
    let all = d + slashes(n);
    if n == 0 {
        assert(all =~= d);
    } else {
        end_slashes_go(d, (n - 1) as nat);
        assert(all.drop_last() =~= d + slashes((n - 1) as nat));
    }
}

proof fn front_slashes_go(n: nat, name: Seq<char>)
    requires
        name.len() > 0 ==> name[0] != '/',
    ensures
        behind_slashes(slashes(n) + name) == name,
    decreases n,
{
    let all = slashes(n) + name;
    if n == 0 {
        assert(all =~= name);
    } else {
        front_slashes_go((n - 1) as nat, name);
        assert(all.skip(1) =~= slashes((n - 1) as nat) + name);
    }
}

/// The server and its clients meet at the same place: in the runtime directory, however many slashes its
/// name ends with, or else at a place in `/tmp` that belongs to one user alone.
pub proof fn socket_is_found(
    d: Seq<char>,
    n: nat,
    runtime: &str,
    uid: u32,
    other: u32,
    a: String,
    b: String,
    c: String,
)
    requires
        d.len() > 0 ==> d.last() != '/',
        runtime@ == d + slashes(n),
        call_ensures(sock_path, (Some(runtime), uid), a),
        call_ensures(sock_path, (None, uid), b),
        call_ensures(sock_path, (None, other), c),
    ensures
        a@ == d + "/livetty.sock"@,
        b@ == "/tmp/livetty-"@ + decimal(uid as nat) + ".sock"@,
        b@ == c@ ==> uid == other,
{
    end_slashes_go(d, n);
    if b@ == c@ {
        let x = decimal(uid as nat);
        let y = decimal(other as nat);
        let k = "/tmp/livetty-"@.len() as int;
        assert(b@.len() == c@.len());
        assert(x.len() == y.len());
        assert(b@.subrange(k, k + x.len()) =~= x);
        assert(c@.subrange(k, k + y.len()) =~= y);
        decimal_reads_back(uid as nat);
        decimal_reads_back(other as nat);
    }
}

/// The page of a request is the one that its path names, whole, however many slashes the path starts with;
/// a path that names none has the index page.
pub proof fn page_is_named(n: nat, name: Seq<char>, path: &str, r: String)
    requires
        name.len() > 0 ==> name[0] != '/',
        path@ == slashes(n) + name,
        call_ensures(page, (path,), r),
    ensures
        r@ == if name.len() > 0 {
            name
        } else {
            "index.html"@
        },
{
    front_slashes_go(n, name);
}

/// A page is sent whole: all bytes of the one that the path names, with its media type; where there is
/// none, all bytes of the index page with the index page's own; and 404 only where there is neither.
pub proof fn page_is_sent_whole(
    path: &str,
    name: String,
    own: Option<Vec<u8>>,
    index: Option<Vec<u8>>,
    r: Reply,
)
    requires
        call_ensures(page, (path,), name),
        call_ensures(static_handler, (path, own, index), r),
    ensures
        match (own, index) {
            (Some(data), _) => r@.status == 200 && r@.body == BodyView::Bytes(data@) && r@.headers
                == seq![("content-type"@, media_type(name@))],
            (None, Some(data)) => r@.status == 200 && r@.body == BodyView::Bytes(data@)
                && r@.headers == seq![("content-type"@, media_type("index.html"@))],
            (None, None) => r@.status == 404 && r@.body == BodyView::Text("not found"@),
        },
{
}

/// Settings may stand in a list, without their keys: the password, the port, the address and the origins,
/// in this order, those at the end left out at will.
pub proof fn settings_may_be_listed(v: Value, r: Option<Config>)
    requires
        json(v) is List,
        call_ensures(config_from, (&v,), r),
    ensures
        ({
            let items = json(v)->List_0;
            let n = items.len();
            &&& r is Some <==> {
                &&& 1 <= n <= 4
                &&& items[0] is Text
                &&& n > 1 ==> (items[1] matches Json::Int(p) && 0 <= p <= 65535)
                &&& n > 2 ==> items[2] is Text
                &&& n > 3 ==> all_texts(items[3])
            }
            &&& r matches Some(c) ==> {
                &&& items[0] == Json::Text(c.password@)
                &&& if n > 1 {
                    items[1] == Json::Int(c.port as int)
                } else {
                    c.port == 8737
                }
                &&& if n > 2 {
                    items[2] == Json::Text(c.bind@)
                } else {
                    c.bind@ == "127.0.0.1"@
                }
                &&& n <= 3 ==> c.allowed_origins@.len() == 0
            }
        }),
{
    if let Some(c) = r {
        assert(strings_view(c.allowed_origins@).len() == c.allowed_origins@.len());
    }
}

/// Settings are seen as they are.
pub proof fn settings_are_seen_whole(c: Config)
    ensures
        c@.password == c.password@,
        c@.port == c.port,
        c@.bind == c.bind@,
        c@.allowed_origins.len() == c.allowed_origins@.len(),
        forall|i: int|
            0 <= i < c.allowed_origins@.len() ==> #[trigger] c@.allowed_origins[i]
                == c.allowed_origins@[i]@,
{
}

/// A first run with a given password has that password, whole, writes it down and shows it.
pub proof fn given_password_is_kept(path: &str, password: String, c: Config, s: Start)
    requires
        call_ensures(with_password, (password,), c),
        call_ensures(start_with, (path, password), s),
    ensures
        c.password@ == password@,
        c.port == 8737,
        c.bind@ == "127.0.0.1"@,
        c.allowed_origins@.len() == 0,
        s.config.password@ == password@,
        s.write matches Some(w) && settings_in(w.content@) == Some(s.config@) && w.path@ == path@
            && w.mode == 0o600,
        s.notice matches Some(n) && n@ == "wrote "@ + path@ + ", initial password: "@ + password@,
{
    settings_read_back(s.config@);
}

}
