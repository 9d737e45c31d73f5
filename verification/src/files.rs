//! Requests on files.
//!
//! A request is a job that goes on in steps: each step asks for one action on the disk, and the
//! outcome of the action leads to the next step, until there is an answer. New content is written
//! beside the file and then moved into place.

use crate::frame::{bytes_from, bytes_of, bytes_slice};
use crate::json::{
    boolean, field, fields_view, json, json_all, list, member_of, number, object, object_member,
    object_of, opt_view, optional_text, text, text_or_null, Json,
};
use crate::order::{
    is_order, names_are_ordered, onto, shown_before, shown_before_is_order, sort, text_before, Key,
};
use crate::paths::{
    absolute, dir, dir_of, file_name, file_name_of, is_absolute, parent_of, temp_beside_target,
    temp_of, temp_path,
};
use crate::reply::{
    err, error_answer, error_member, json_answer, json_reply, ok_json, ok_value, pairs_view, Body,
    BodyView, Reply, ReplyView,
};
use crate::screen::ascii_bytes;
use crate::text::{
    append, chars_of, decimal, decimal_chars, hex_digit_char, hex_pair, string_of,
};
use bytes::Bytes;
use serde_json::Value;
use vstd::prelude::*;
use vstd::utf8::{decode_utf8, encode_utf8, valid_utf8};

verus! {

/// The largest file that can be opened for editing: 2 MiB.
pub const READ_MAX: u64 = 2097152;

/// The largest file that can be downloaded: 500 MiB.
pub const DOWNLOAD_MAX: u64 = 524288000;

/// The largest body of an upload: 500 MiB.
pub const UPLOAD_MAX: usize = 524288000;

/// How many bytes of a file are searched for a zero byte, the sign of a binary file.
pub const HEAD: usize = 8192;

// ---------- Requests ----------

/// A request for a path.
pub struct PathQ {
    pub path: String,
}

/// A request to write a file. The time at which it was last modified, as known to who sends the
/// request, guards against overwriting what someone else wrote.
pub struct WriteReq {
    pub path: String,
    pub content: String,
    pub expect_mtime_ms: Option<u64>,
}

/// A request to change the tree of files.
pub enum FsOp {
    Mkdir { path: String },
    Rename { path: String, to: String },
    Delete { path: String },
    Touch { path: String },
}

// ---------- The disk ----------

/// What is known of a file. The time of the last modification is in milliseconds since the epoch;
/// it is missing where the system has none or it lies before the epoch.
pub struct Meta {
    pub is_file: bool,
    pub is_dir: bool,
    pub len: u64,
    pub modified: Option<u128>,
}

/// One entry of a directory.
pub struct DirEntry {
    pub name: String,
    pub meta: Option<Meta>,
}

/// An action on the disk, or the answer that ends a job.
pub enum Action {
    Answer(Reply),
    ReadDir(String),
    Stat(String),
    Read(String),
    ReadText(String),
    Exists(String),
    IsDir(String),
    CreateDirs(String),
    Write { path: String, content: Bytes },
    Rename { from: String, to: String },
    RemoveFile(String),
    RemoveDir(String),
}

/// The outcome of an action. Errors come as texts.
pub enum Outcome {
    Entries(Result<Vec<DirEntry>, String>),
    Meta(Result<Meta, String>),
    Data(Result<Vec<u8>, String>),
    Text(Option<String>),
    Truth(bool),
    Unit(Result<(), String>),
}

/// New content on its way into a file: the file, the place where the content is prepared, and its
/// size if it is uploaded.
pub struct Save {
    pub path: String,
    pub tmp: String,
    pub size: Option<u64>,
}

/// How far a request has come, named by what it waits for.
pub enum Job {
    /// The entries of a directory.
    Listing { path: String },
    /// What is known of a file that shall be edited.
    Looking { path: String },
    /// The bytes of a file that shall be edited.
    Reading { mtime: u64 },
    /// What is known of a file that shall be written.
    Checking { path: String, content: Bytes, expect: Option<u64>, pid: u32 },
    /// The text of a file that someone else wrote.
    Conflicting { mtime: u64 },
    /// What is known of a file that shall be downloaded.
    Weighing { path: String },
    /// The bytes of a file that shall be downloaded.
    Fetching { path: String },
    /// Whether a file that shall be uploaded exists.
    Probing { path: String, data: Bytes, pid: u32 },
    /// Whether the directory of a file that shall be uploaded exists.
    Placing { path: String, data: Bytes, pid: u32 },
    /// New content being prepared.
    Saving { save: Save },
    /// New content being moved into place.
    Moving { save: Save },
    /// New content being thrown away.
    Clearing { reason: String },
    /// What is known of a file that was written.
    Stamping { size: Option<u64> },
    /// Whether a path that shall be deleted is a directory.
    Deleting { path: String },
    /// Whether a file that shall be made exists.
    Touching { path: String },
    /// A change of the tree.
    Changing,
    /// Nothing more.
    Finished,
}

/// Holds if the outcome is of the form that the job waits for.
pub open spec fn awaits(job: Job, outcome: Outcome) -> bool {
    match job {
        Job::Listing { .. } => outcome is Entries,
        Job::Looking { .. } => outcome is Meta,
        Job::Reading { .. } => outcome is Data,
        Job::Checking { .. } => outcome is Meta,
        Job::Conflicting { .. } => outcome is Text,
        Job::Weighing { .. } => outcome is Meta,
        Job::Fetching { .. } => outcome is Data,
        Job::Probing { .. } => outcome is Truth,
        Job::Placing { .. } => outcome is Truth,
        Job::Saving { .. } => outcome is Unit,
        Job::Moving { .. } => outcome is Unit,
        Job::Clearing { .. } => outcome is Unit,
        Job::Stamping { .. } => outcome is Meta,
        Job::Deleting { .. } => outcome is Truth,
        Job::Touching { .. } => outcome is Truth,
        Job::Changing => outcome is Unit,
        Job::Finished => false,
    }
}

// ---------- Texts ----------

/// Reads bytes as text (`String::from_utf8`): nothing if they are no UTF-8.
#[verifier::external_body]
fn text_from(bytes: Vec<u8>) -> (r: Option<String>)
    ensures
        match r {
            Some(s) => valid_utf8(bytes@) && s@ == decode_utf8(bytes@),
            None => !valid_utf8(bytes@),
        },
{
    String::from_utf8(bytes).ok()
}

/// The time of the last modification, or 0 where it is unknown; of a time beyond 64 bits, the low
/// ones.
pub open spec fn mtime_of(modified: Option<u128>) -> u64 {
    match modified {
        Some(ms) => (ms % 0x1_0000_0000_0000_0000) as u64,
        None => 0,
    }
}

/// The time of the last modification, or 0 where it is unknown.
pub fn mtime_ms(modified: Option<u128>) -> (r: u64)
    ensures
        r == mtime_of(modified),
{
    match modified {
        Some(ms) => (ms % 0x1_0000_0000_0000_0000) as u64,
        None => 0,
    }
}

/// The time of the last modification of a file that may be missing.
pub open spec fn stamp_of(meta: Result<Meta, String>) -> u64 {
    match meta {
        Ok(m) => mtime_of(m.modified),
        Err(_) => 0,
    }
}

/// Says that a file is too large.
pub open spec fn too_large(len: u64, max: u64, end: Seq<char>) -> Seq<char> {
    "file too large ("@ + decimal(len as nat) + " bytes > "@ + decimal(max as nat) + end
}

fn too_large_text(len: u64, max: u64, end: &str) -> (r: String)
    ensures
        r@ == too_large(len, max, end@),
{
    let mut out = chars_of("file too large (");
    let mut digits = decimal_chars(len);
    out.append(&mut digits);
    append(&mut out, " bytes > ");
    let mut digits = decimal_chars(max);
    out.append(&mut digits);
    append(&mut out, end);
    string_of(out.as_slice())
}

fn two_texts(a: &str, b: &str) -> (r: String)
    ensures
        r@ == a@ + b@,
{
    let mut out = chars_of(a);
    append(&mut out, b);
    string_of(out.as_slice())
}

/// A character of a file name between quotation marks.
pub open spec fn quoted(c: char) -> Seq<char> {
    if c == '\\' || c == '"' {
        seq!['\\', c]
    } else {
        seq![c]
    }
}

/// A file name between quotation marks: with a backslash before backslashes and quotation marks.
pub open spec fn quoted_name(name: Seq<char>) -> Seq<char>
    decreases name.len(),
{
    if name.len() == 0 {
        seq![]
    } else {
        quoted_name(name.drop_last()) + quoted(name.last())
    }
}

fn quote_name(name: &[char]) -> (out: Vec<char>)
    ensures
        out@ == quoted_name(name@),
{
    let mut out: Vec<char> = Vec::new();
    let mut i: usize = 0;
    while i < name.len()
        invariant
            i <= name@.len(),
            out@ == quoted_name(name@.take(i as int)),
        decreases name@.len() - i,
    {
        let c = name[i];
        let ghost before = out@;
        if c == '\\' || c == '"' {
            out.push('\\');
        }
        out.push(c);
        assert(name@.take(i + 1).drop_last() =~= name@.take(i as int));
        assert(out@ =~= before + quoted(c));
        i += 1;
    }
    assert(name@.take(i as int) =~= name@);
    out
}

/// Holds of the bytes that stand for themselves in a percent-encoded text.
pub open spec fn unreserved(b: u8) -> bool {
    ||| 65 <= b <= 90
    ||| 97 <= b <= 122
    ||| 48 <= b <= 57
    ||| b == 45 || b == 46 || b == 95 || b == 126
}

/// One byte, percent-encoded.
pub open spec fn percent(b: u8) -> Seq<char> {
    if unreserved(b) {
        seq![b as char]
    } else {
        seq!['%'] + hex_pair(b, true)
    }
}

/// Bytes, percent-encoded.
pub open spec fn percent_all(bytes: Seq<u8>) -> Seq<char>
    decreases bytes.len(),
{
    if bytes.len() == 0 {
        seq![]
    } else {
        percent_all(bytes.drop_last()) + percent(bytes.last())
    }
}

/// Percent-encodes a text.
pub fn urlencode(s: &str) -> (r: String)
    ensures
        r@ == percent_all(encode_utf8(s@)),
{
    let bytes = s.as_bytes();
    let mut out: Vec<char> = Vec::new();
    let mut i: usize = 0;
    while i < bytes.len()
        invariant
            i <= bytes@.len(),
            out@ == percent_all(bytes@.take(i as int)),
        decreases bytes@.len() - i,
    {
        let b: u8 = bytes[i];
        let ghost before = out@;
        if (65 <= b && b <= 90) || (97 <= b && b <= 122) || (48 <= b && b <= 57) || b == 45 || b
            == 46 || b == 95 || b == 126 {
            out.push(b as char);
        } else {
            out.push('%');
            out.push(hex_digit_char(b / 16, true));
            out.push(hex_digit_char(b % 16, true));
        }
        assert(bytes@.take(i + 1).drop_last() =~= bytes@.take(i as int));
        assert(out@ =~= before + percent(b));
        i += 1;
    }
    assert(bytes@.take(i as int) =~= bytes@);
    string_of(out.as_slice())
}

/// What tells a browser to save the answer, and under which name: once between quotation marks, and
/// once percent-encoded.
pub open spec fn disposition(name: Seq<char>) -> Seq<char> {
    "attachment; filename=\""@ + quoted_name(name) + "\"; filename*=UTF-8''"@ + percent_all(
        encode_utf8(name),
    )
}

fn disposition_text(name: &str) -> (r: String)
    ensures
        r@ == disposition(name@),
{
    let chars = chars_of(name);
    let mut out = chars_of("attachment; filename=\"");
    let mut inner = quote_name(chars.as_slice());
    out.append(&mut inner);
    append(&mut out, "\"; filename*=UTF-8''");
    append(&mut out, urlencode(name).as_str());
    string_of(out.as_slice())
}

// ---------- Answers ----------

/// Holds if the job ends with the given answer.
pub open spec fn answers(next: Job, action: Action, answer: ReplyView) -> bool {
    &&& next is Finished
    &&& action matches Action::Answer(r)
    &&& r@ == answer
}

/// Whether an entry is a directory; an entry of which nothing is known is none.
pub open spec fn entry_is_dir(e: DirEntry) -> bool {
    match e.meta {
        Some(m) => m.is_dir,
        None => false,
    }
}

/// What the entries of a directory are ordered by.
pub open spec fn entry_keys(entries: Seq<DirEntry>) -> Seq<Key> {
    entries.map_values(|e: DirEntry| Key { is_dir: entry_is_dir(e), name: e.name })
}

/// The size of an entry; 0 if nothing is known of it.
pub open spec fn entry_size(e: DirEntry) -> u64 {
    match e.meta {
        Some(m) => m.len,
        None => 0,
    }
}

/// The time at which an entry was last modified; 0 if nothing is known of it.
pub open spec fn entry_mtime(e: DirEntry) -> u64 {
    match e.meta {
        Some(m) => mtime_of(m.modified),
        None => 0,
    }
}

/// The JSON form of an entry.
pub open spec fn entry_json(e: DirEntry) -> Json {
    object_of(
        seq![
            ("name"@, Json::Text(e.name@)),
            ("is_dir"@, Json::Bool(entry_is_dir(e))),
            ("size"@, Json::Int(entry_size(e) as int)),
            ("mtime_ms"@, Json::Int(entry_mtime(e) as int)),
        ],
    )
}

/// The JSON form of a directory, its entries in the given order.
pub open spec fn listing_json(path: Seq<char>, entries: Seq<DirEntry>, order: Seq<usize>) -> Json {
    object_of(
        seq![
            ("path"@, Json::Text(path)),
            ("entries"@, Json::List(order.map_values(|i: usize| entry_json(entries[i as int])))),
        ],
    )
}

/// The JSON form of a file that is edited.
pub open spec fn content_json(content: Seq<char>, mtime: u64) -> Json {
    object_of(
        seq![("content"@, Json::Text(content)), ("mtime_ms"@, Json::Int(mtime as int))],
    )
}

/// The answer to who would overwrite what someone else wrote.
pub open spec fn conflict_json(mtime: u64, disk: Option<Seq<char>>) -> Json {
    object_of(
        seq![
            ("error"@, Json::Text("file was modified externally"@)),
            ("mtime_ms"@, Json::Int(mtime as int)),
            ("disk_content"@, text_or_null(disk)),
        ],
    )
}

/// The answer to a write or an upload that is done.
pub open spec fn saved_json(size: Option<u64>, mtime: u64) -> Json {
    match size {
        Some(n) => object_of(
            seq![
                ("ok"@, Json::Bool(true)),
                ("size"@, Json::Int(n as int)),
                ("mtime_ms"@, Json::Int(mtime as int)),
            ],
        ),
        None => object_of(
            seq![("ok"@, Json::Bool(true)), ("mtime_ms"@, Json::Int(mtime as int))],
        ),
    }
}

/// The answer that carries a file.
pub open spec fn download_answer(path: Seq<char>, data: Seq<u8>) -> ReplyView {
    let name = match file_name_of(path) {
        Some(n) => n,
        None => "download"@,
    };
    ReplyView {
        status: 200,
        headers: seq![
            ("content-type"@, "application/octet-stream"@),
            ("content-disposition"@, disposition(name)),
        ],
        body: BodyView::Bytes(data),
    }
}

/// The first bytes of a file, which are searched for a zero byte.
pub open spec fn head(data: Seq<u8>) -> Seq<u8> {
    data.take(if data.len() < HEAD {
        data.len() as int
    } else {
        HEAD as int
    })
}

/// Marks the place where new content of a file is prepared.
pub open spec fn write_mark() -> Seq<char> {
    ".remote-tmp-"@
}

/// Marks the place where an upload is prepared.
pub open spec fn upload_mark() -> Seq<char> {
    ".remote-upload-"@
}

/// Why new content could not be prepared.
pub open spec fn save_failure(size: Option<u64>, reason: Seq<char>) -> Seq<char> {
    match size {
        Some(_) => "write failed: "@ + reason,
        None => "temp file write failed: "@ + reason,
    }
}

/// Holds if the job prepares `content` for the file at `path`.
pub open spec fn saves(
    next: Job,
    action: Action,
    path: Seq<char>,
    mark: Seq<char>,
    pid: u32,
    content: Seq<u8>,
    size: Option<u64>,
) -> bool {
    &&& next matches Job::Saving { save }
    &&& save.path@ == path
    &&& save.tmp@ == temp_of(path, mark, pid)
    &&& save.size == size
    &&& action matches Action::Write { path: p, content: c }
    &&& p@ == save.tmp@
    &&& bytes_of(c) == content
}

// ---------- Steps ----------

/// Holds if, on the given outcome, the job goes on as `next` with `action`.
pub open spec fn steps(job: Job, outcome: Outcome, next: Job, action: Action) -> bool {
    match (job, outcome) {
        (Job::Listing { path }, Outcome::Entries(read)) => match read {
            Ok(entries) => exists|order: Seq<usize>| #[trigger]
                is_order(entry_keys(entries@), order) && answers(
                    next,
                    action,
                    json_answer(200, listing_json(path@, entries@, order)),
                ),
            Err(e) => answers(next, action, error_answer(404, e@)),
        },
        (Job::Looking { path }, Outcome::Meta(meta)) => match meta {
            Ok(m) => if !m.is_file {
                answers(next, action, error_answer(400, "not a regular file"@))
            } else if m.len > READ_MAX {
                answers(
                    next,
                    action,
                    error_answer(
                        413,
                        too_large(m.len, READ_MAX, "), open it in the terminal instead"@),
                    ),
                )
            } else {
                &&& next == (Job::Reading { mtime: mtime_of(m.modified) })
                &&& action matches Action::Read(p) && p@ == path@
            },
            Err(e) => answers(next, action, error_answer(404, e@)),
        },
        (Job::Reading { mtime }, Outcome::Data(read)) => match read {
            Ok(data) => answers(
                next,
                action,
                if head(data@).contains(0) {
                    error_answer(415, "binary file, cannot edit"@)
                } else if !valid_utf8(data@) {
                    error_answer(415, "not valid UTF-8"@)
                } else {
                    json_answer(200, content_json(decode_utf8(data@), mtime))
                },
            ),
            Err(e) => answers(next, action, error_answer(500, e@)),
        },
        (Job::Checking { path, content, expect, pid }, Outcome::Meta(meta)) => match (
            expect,
            meta,
        ) {
            (Some(t), Ok(m)) if mtime_of(m.modified) != t => {
                &&& next == (Job::Conflicting { mtime: mtime_of(m.modified) })
                &&& action matches Action::ReadText(p) && p@ == path@
            },
            _ => saves(next, action, path@, write_mark(), pid, bytes_of(content), None),
        },
        (Job::Conflicting { mtime }, Outcome::Text(disk)) => answers(
            next,
            action,
            json_answer(409, conflict_json(mtime, opt_view(disk))),
        ),
        (Job::Weighing { path }, Outcome::Meta(meta)) => match meta {
            Ok(m) => if !m.is_file {
                answers(next, action, error_answer(400, "not a regular file"@))
            } else if m.len > DOWNLOAD_MAX {
                answers(next, action, error_answer(413, too_large(m.len, DOWNLOAD_MAX, ")"@)))
            } else {
                &&& next matches Job::Fetching { path: q } && q@ == path@
                &&& action matches Action::Read(p) && p@ == path@
            },
            Err(e) => answers(next, action, error_answer(404, e@)),
        },
        (Job::Fetching { path }, Outcome::Data(read)) => match read {
            Ok(data) => answers(next, action, download_answer(path@, data@)),
            Err(e) => answers(next, action, error_answer(500, e@)),
        },
        (Job::Probing { path, data, pid }, Outcome::Truth(exists)) => if exists {
            answers(next, action, error_answer(409, "file already exists: "@ + path@))
        } else {
            &&& next matches Job::Placing { path: q, data: d, pid: n }
            &&& q@ == path@
            &&& bytes_of(d) == bytes_of(data)
            &&& n == pid
            &&& action matches Action::Exists(p)
            &&& p@ == dir_of(path@)
        },
        (Job::Placing { path, data, pid }, Outcome::Truth(exists)) => if exists {
            saves(
                next,
                action,
                path@,
                upload_mark(),
                pid,
                bytes_of(data),
                Some(bytes_of(data).len() as u64),
            )
        } else {
            answers(
                next,
                action,
                error_answer(404, "target directory does not exist: "@ + dir_of(path@)),
            )
        },
        (Job::Saving { save }, Outcome::Unit(done)) => match done {
            Ok(_) => {
                &&& next matches Job::Moving { save: s }
                &&& s.path@ == save.path@
                &&& s.tmp@ == save.tmp@
                &&& s.size == save.size
                &&& action matches Action::Rename { from, to }
                &&& from@ == save.tmp@
                &&& to@ == save.path@
            },
            Err(e) => answers(next, action, error_answer(500, save_failure(save.size, e@))),
        },
        (Job::Moving { save }, Outcome::Unit(done)) => match done {
            Ok(_) => {
                &&& next == (Job::Stamping { size: save.size })
                &&& action matches Action::Stat(p) && p@ == save.path@
            },
            Err(e) => {
                &&& next matches Job::Clearing { reason } && reason@ == e@
                &&& action matches Action::RemoveFile(p) && p@ == save.tmp@
            },
        },
        (Job::Clearing { reason }, Outcome::Unit(_)) => answers(
            next,
            action,
            error_answer(500, "rename failed: "@ + reason@),
        ),
        (Job::Stamping { size }, Outcome::Meta(meta)) => answers(
            next,
            action,
            json_answer(200, saved_json(size, stamp_of(meta))),
        ),
        (Job::Deleting { path }, Outcome::Truth(is_dir)) => {
            &&& next is Changing
            &&& if is_dir {
                action matches Action::RemoveDir(p) && p@ == path@
            } else {
                action matches Action::RemoveFile(p) && p@ == path@
            }
        },
        (Job::Touching { path }, Outcome::Truth(exists)) => if exists {
            answers(next, action, error_answer(500, "file already exists"@))
        } else {
            &&& next is Changing
            &&& action matches Action::Write { path: p, content }
            &&& p@ == path@
            &&& bytes_of(content) == Seq::<u8>::empty()
        },
        (Job::Changing, Outcome::Unit(done)) => match done {
            Ok(_) => answers(next, action, json_answer(200, ok_json())),
            Err(e) => answers(next, action, error_answer(500, e@)),
        },
        _ => false,
    }
}

fn finish(reply: Reply) -> (r: (Job, Action))
    ensures
        answers(r.0, r.1, reply@),
{
    (Job::Finished, Action::Answer(reply))
}

fn entry_value(e: &DirEntry) -> (v: Value)
    ensures
        json(v) == entry_json(*e),
{
    let (is_dir, size, mtime) = match &e.meta {
        Some(m) => (m.is_dir, m.len, mtime_ms(m.modified)),
        None => (false, 0, 0),
    };
    let mut fields: Vec<(String, Value)> = Vec::new();
    fields.push(field("name", text(e.name.clone())));
    fields.push(field("is_dir", boolean(is_dir)));
    fields.push(field("size", number(size)));
    fields.push(field("mtime_ms", number(mtime)));
    assert(fields_view(fields@) =~= seq![
        ("name"@, Json::Text(e.name@)),
        ("is_dir"@, Json::Bool(is_dir)),
        ("size"@, Json::Int(size as int)),
        ("mtime_ms"@, Json::Int(mtime as int)),
    ]);
    object(fields)
}

fn keys_of(entries: &Vec<DirEntry>) -> (keys: Vec<Key>)
    ensures
        keys@ == entry_keys(entries@),
{
    let mut keys: Vec<Key> = Vec::new();
    let mut i: usize = 0;
    while i < entries.len()
        invariant
            i <= entries@.len(),
            keys@ =~= entry_keys(entries@).take(i as int),
        decreases entries@.len() - i,
    {
        let is_dir = match &entries[i].meta {
            Some(m) => m.is_dir,
            None => false,
        };
        keys.push(Key { is_dir, name: entries[i].name.clone() });
        i += 1;
    }
    keys
}

fn listed(path: &str, read: Result<Vec<DirEntry>, String>) -> (r: (Job, Action))
    ensures
        match read {
            Ok(entries) => exists|order: Seq<usize>| #[trigger]
                is_order(entry_keys(entries@), order) && answers(
                    r.0,
                    r.1,
                    json_answer(200, listing_json(path@, entries@, order)),
                ),
            Err(e) => answers(r.0, r.1, error_answer(404, e@)),
        },
{
    match read {
        Ok(entries) => {
            let order = sort(&keys_of(&entries));
            let ghost all = order@.map_values(|i: usize| entry_json(entries@[i as int]));
            let mut items: Vec<Value> = Vec::new();
            let mut i: usize = 0;
            while i < order.len()
                invariant
                    i <= order@.len(),
                    is_order(entry_keys(entries@), order@),
                    all == order@.map_values(|i: usize| entry_json(entries@[i as int])),
                    json_all(items@) =~= all.take(i as int),
                decreases order@.len() - i,
            {
                assert(order@[i as int] < entry_keys(entries@).len());
                let ghost before = items@;
                items.push(entry_value(&entries[order[i]]));
                assert(json_all(items@) =~= json_all(before).push(all[i as int]));
                i += 1;
            }
            assert(all.take(i as int) =~= all);
            let mut fields: Vec<(String, Value)> = Vec::new();
            fields.push(field("path", text(path.to_string())));
            fields.push(field("entries", list(items)));
            assert(fields_view(fields@) =~= seq![
                ("path"@, Json::Text(path@)),
                ("entries"@, Json::List(all)),
            ]);
            finish(json_reply(200, object(fields)))
        },
        Err(e) => finish(err(404, e)),
    }
}

fn binary(data: &Vec<u8>) -> (r: bool)
    ensures
        r == head(data@).contains(0),
{
    let n: usize = if data.len() < HEAD { data.len() } else { HEAD };
    let mut i: usize = 0;
    while i < n
        invariant
            i <= n <= data@.len(),
            n == head(data@).len(),
            forall|k: int| 0 <= k < i ==> head(data@)[k] != 0,
        decreases n - i,
    {
        if data[i] == 0 {
            assert(head(data@)[i as int] == 0);
            return true;
        }
        i += 1;
    }
    false
}

fn content_reply(data: Vec<u8>, mtime: u64) -> (r: Reply)
    ensures
        r@ == if head(data@).contains(0) {
            error_answer(415, "binary file, cannot edit"@)
        } else if !valid_utf8(data@) {
            error_answer(415, "not valid UTF-8"@)
        } else {
            json_answer(200, content_json(decode_utf8(data@), mtime))
        },
{
    if binary(&data) {
        return err(415, "binary file, cannot edit".to_string());
    }
    match text_from(data) {
        Some(content) => {
            let mut fields: Vec<(String, Value)> = Vec::new();
            fields.push(field("content", text(content)));
            fields.push(field("mtime_ms", number(mtime)));
            assert(fields_view(fields@) =~= seq![
                ("content"@, Json::Text(content@)),
                ("mtime_ms"@, Json::Int(mtime as int)),
            ]);
            json_reply(200, object(fields))
        },
        None => err(415, "not valid UTF-8".to_string()),
    }
}

fn conflict_reply(mtime: u64, disk: Option<String>) -> (r: Reply)
    ensures
        r@ == json_answer(409, conflict_json(mtime, opt_view(disk))),
{
    let mut fields: Vec<(String, Value)> = Vec::new();
    fields.push(field("error", text("file was modified externally".to_string())));
    fields.push(field("mtime_ms", number(mtime)));
    fields.push(field("disk_content", optional_text(disk)));
    assert(fields_view(fields@) =~= seq![
        ("error"@, Json::Text("file was modified externally"@)),
        ("mtime_ms"@, Json::Int(mtime as int)),
        ("disk_content"@, text_or_null(opt_view(disk))),
    ]);
    json_reply(409, object(fields))
}

fn saved_reply(size: Option<u64>, mtime: u64) -> (r: Reply)
    ensures
        r@ == json_answer(200, saved_json(size, mtime)),
{
    let mut fields: Vec<(String, Value)> = Vec::new();
    fields.push(field("ok", boolean(true)));
    match size {
        Some(n) => {
            fields.push(field("size", number(n)));
            fields.push(field("mtime_ms", number(mtime)));
            assert(fields_view(fields@) =~= seq![
                ("ok"@, Json::Bool(true)),
                ("size"@, Json::Int(n as int)),
                ("mtime_ms"@, Json::Int(mtime as int)),
            ]);
        },
        None => {
            fields.push(field("mtime_ms", number(mtime)));
            assert(fields_view(fields@) =~= seq![
                ("ok"@, Json::Bool(true)),
                ("mtime_ms"@, Json::Int(mtime as int)),
            ]);
        },
    }
    json_reply(200, object(fields))
}

fn download_reply(path: &str, data: Vec<u8>) -> (r: Reply)
    ensures
        r@ == download_answer(path@, data@),
{
    let name = match file_name(path) {
        Some(n) => string_of(n.as_slice()),
        None => "download".to_string(),
    };
    let disp = disposition_text(name.as_str());
    let mut headers: Vec<(String, String)> = Vec::new();
    headers.push(("content-type".to_string(), "application/octet-stream".to_string()));
    headers.push(("content-disposition".to_string(), disp));
    assert(pairs_view(headers@) =~= seq![
        ("content-type"@, "application/octet-stream"@),
        ("content-disposition"@, disposition(name@)),
    ]);
    Reply { status: 200, headers, body: Body::Bytes(data) }
}

fn prepare(
    path: String,
    content: Bytes,
    mark: &str,
    pid: u32,
    size: Option<u64>,
) -> (r: (Job, Action))
    ensures
        saves(r.0, r.1, path@, mark@, pid, bytes_of(content), size),
{
    let tmp = temp_path(path.as_str(), mark, pid);
    let target = tmp.clone();
    (Job::Saving { save: Save { path, tmp, size } }, Action::Write { path: target, content })
}

impl Job {
    /// Goes on with the outcome of the last action.
    pub fn step(self, outcome: Outcome) -> (r: (Job, Action))
        requires
            awaits(self, outcome),
        ensures
            steps(self, outcome, r.0, r.1),
    {
        match (self, outcome) {
            (Job::Listing { path }, Outcome::Entries(read)) => listed(path.as_str(), read),
            (Job::Looking { path }, Outcome::Meta(meta)) => match meta {
                Ok(m) => if !m.is_file {
                    finish(err(400, "not a regular file".to_string()))
                } else if m.len > READ_MAX {
                    finish(
                        err(
                            413,
                            too_large_text(m.len, READ_MAX, "), open it in the terminal instead"),
                        ),
                    )
                } else {
                    (Job::Reading { mtime: mtime_ms(m.modified) }, Action::Read(path))
                },
                Err(e) => finish(err(404, e)),
            },
            (Job::Reading { mtime }, Outcome::Data(read)) => match read {
                Ok(data) => finish(content_reply(data, mtime)),
                Err(e) => finish(err(500, e)),
            },
            (Job::Checking { path, content, expect, pid }, Outcome::Meta(meta)) => {
                let conflict: Option<u64> = match (expect, meta) {
                    (Some(t), Ok(m)) => {
                        let mtime: u64 = mtime_ms(m.modified);
                        if mtime != t {
                            Some(mtime)
                        } else {
                            None
                        }
                    },
                    _ => None,
                };
                match conflict {
                    Some(mtime) => (Job::Conflicting { mtime }, Action::ReadText(path)),
                    None => prepare(path, content, ".remote-tmp-", pid, None),
                }
            },
            (Job::Conflicting { mtime }, Outcome::Text(disk)) => finish(
                conflict_reply(mtime, disk),
            ),
            (Job::Weighing { path }, Outcome::Meta(meta)) => match meta {
                Ok(m) => if !m.is_file {
                    finish(err(400, "not a regular file".to_string()))
                } else if m.len > DOWNLOAD_MAX {
                    finish(err(413, too_large_text(m.len, DOWNLOAD_MAX, ")")))
                } else {
                    let from = path.clone();
                    (Job::Fetching { path }, Action::Read(from))
                },
                Err(e) => finish(err(404, e)),
            },
            (Job::Fetching { path }, Outcome::Data(read)) => match read {
                Ok(data) => finish(download_reply(path.as_str(), data)),
                Err(e) => finish(err(500, e)),
            },
            (Job::Probing { path, data, pid }, Outcome::Truth(exists)) => if exists {
                finish(err(409, two_texts("file already exists: ", path.as_str())))
            } else {
                let place = dir(path.as_str());
                (Job::Placing { path, data, pid }, Action::Exists(place))
            },
            (Job::Placing { path, data, pid }, Outcome::Truth(exists)) => if exists {
                let size: u64 = bytes_slice(&data).len() as u64;
                prepare(path, data, ".remote-upload-", pid, Some(size))
            } else {
                let place = dir(path.as_str());
                finish(err(404, two_texts("target directory does not exist: ", place.as_str())))
            },
            (Job::Saving { save }, Outcome::Unit(done)) => match done {
                Ok(_) => {
                    let from = save.tmp.clone();
                    let to = save.path.clone();
                    (Job::Moving { save }, Action::Rename { from, to })
                },
                Err(e) => {
                    let msg = match save.size {
                        Some(_) => two_texts("write failed: ", e.as_str()),
                        None => two_texts("temp file write failed: ", e.as_str()),
                    };
                    finish(err(500, msg))
                },
            },
            (Job::Moving { save }, Outcome::Unit(done)) => match done {
                Ok(_) => (Job::Stamping { size: save.size }, Action::Stat(save.path)),
                Err(e) => (Job::Clearing { reason: e }, Action::RemoveFile(save.tmp)),
            },
            (Job::Clearing { reason }, Outcome::Unit(_)) => finish(
                err(500, two_texts("rename failed: ", reason.as_str())),
            ),
            (Job::Stamping { size }, Outcome::Meta(meta)) => {
                let mtime: u64 = match meta {
                    Ok(m) => mtime_ms(m.modified),
                    Err(_) => 0,
                };
                finish(saved_reply(size, mtime))
            },
            (Job::Deleting { path }, Outcome::Truth(is_dir)) => if is_dir {
                (Job::Changing, Action::RemoveDir(path))
            } else {
                (Job::Changing, Action::RemoveFile(path))
            },
            (Job::Touching { path }, Outcome::Truth(exists)) => if exists {
                finish(err(500, "file already exists".to_string()))
            } else {
                let content = bytes_from(Vec::new());
                (Job::Changing, Action::Write { path, content })
            },
            (Job::Changing, Outcome::Unit(done)) => match done {
                Ok(_) => finish(json_reply(200, ok_value())),
                Err(e) => finish(err(500, e)),
            },
            _ => vstd::pervasive::unreached(),
        }
    }
}

// ---------- First steps ----------

/// Takes a path that starts at the root, and refuses any other.
pub fn require_abs(p: &str) -> (r: Result<String, Reply>)
    ensures
        match r {
            Ok(path) => absolute(p@) && path@ == p@,
            Err(reply) => !absolute(p@) && reply@ == error_answer(400, "path must be absolute"@),
        },
{
    if is_absolute(p) {
        Ok(p.to_string())
    } else {
        Err(err(400, "path must be absolute".to_string()))
    }
}

/// Holds if a request is refused because its path does not start at the root.
pub open spec fn refused(next: Job, action: Action) -> bool {
    answers(next, action, error_answer(400, "path must be absolute"@))
}

/// Lists a directory.
pub fn list_dir(q: &PathQ) -> (r: (Job, Action))
    ensures
        if absolute(q.path@) {
            &&& r.0 matches Job::Listing { path } && path@ == q.path@
            &&& r.1 matches Action::ReadDir(p) && p@ == q.path@
        } else {
            refused(r.0, r.1)
        },
{
    match require_abs(q.path.as_str()) {
        Ok(path) => {
            let at = path.clone();
            (Job::Listing { path }, Action::ReadDir(at))
        },
        Err(reply) => finish(reply),
    }
}

/// Opens a file for editing.
pub fn read_file(q: &PathQ) -> (r: (Job, Action))
    ensures
        if absolute(q.path@) {
            &&& r.0 matches Job::Looking { path } && path@ == q.path@
            &&& r.1 matches Action::Stat(p) && p@ == q.path@
        } else {
            refused(r.0, r.1)
        },
{
    match require_abs(q.path.as_str()) {
        Ok(path) => {
            let at = path.clone();
            (Job::Looking { path }, Action::Stat(at))
        },
        Err(reply) => finish(reply),
    }
}

/// Writes a file.
pub fn write_file(body: &WriteReq, pid: u32) -> (r: (Job, Action))
    ensures
        if absolute(body.path@) {
            &&& r.0 matches Job::Checking { path, content, expect, pid: n }
            &&& path@ == body.path@
            &&& bytes_of(content) == encode_utf8(body.content@)
            &&& expect == body.expect_mtime_ms
            &&& n == pid
            &&& r.1 matches Action::Stat(p)
            &&& p@ == body.path@
        } else {
            refused(r.0, r.1)
        },
        absolute(body.path@) ==> save_state(
            r.0,
            r.1,
            body.path@,
            temp_of(body.path@, write_mark(), pid),
            encode_utf8(body.content@),
        ),
{
    match require_abs(body.path.as_str()) {
        Ok(path) => {
            let at = path.clone();
            let content = bytes_from(
                vstd::slice::slice_to_vec(body.content.as_str().as_bytes()),
            );
            let expect = body.expect_mtime_ms;
            (Job::Checking { path, content, expect, pid }, Action::Stat(at))
        },
        Err(reply) => finish(reply),
    }
}

/// Downloads a file.
pub fn download(q: &PathQ) -> (r: (Job, Action))
    ensures
        if absolute(q.path@) {
            &&& r.0 matches Job::Weighing { path } && path@ == q.path@
            &&& r.1 matches Action::Stat(p) && p@ == q.path@
        } else {
            refused(r.0, r.1)
        },
{
    match require_abs(q.path.as_str()) {
        Ok(path) => {
            let at = path.clone();
            (Job::Weighing { path }, Action::Stat(at))
        },
        Err(reply) => finish(reply),
    }
}

/// Uploads a file; one that exists is not overwritten.
pub fn upload(q: &PathQ, body: Bytes, pid: u32) -> (r: (Job, Action))
    ensures
        if absolute(q.path@) {
            &&& r.0 matches Job::Probing { path, data, pid: n }
            &&& path@ == q.path@
            &&& bytes_of(data) == bytes_of(body)
            &&& n == pid
            &&& r.1 matches Action::Exists(p)
            &&& p@ == q.path@
        } else {
            refused(r.0, r.1)
        },
        absolute(q.path@) ==> save_state(
            r.0,
            r.1,
            q.path@,
            temp_of(q.path@, upload_mark(), pid),
            bytes_of(body),
        ),
{
    match require_abs(q.path.as_str()) {
        Ok(path) => {
            let at = path.clone();
            (Job::Probing { path, data: body, pid }, Action::Exists(at))
        },
        Err(reply) => finish(reply),
    }
}

/// Changes the tree of files.
pub fn fs_op(op: &FsOp) -> (r: (Job, Action))
    ensures
        match *op {
            FsOp::Mkdir { path } => if absolute(path@) {
                &&& r.0 is Changing
                &&& r.1 matches Action::CreateDirs(p)
                &&& p@ == path@
            } else {
                refused(r.0, r.1)
            },
            FsOp::Rename { path, to } => if absolute(path@) && absolute(to@) {
                &&& r.0 is Changing
                &&& r.1 matches Action::Rename { from: a, to: b }
                &&& a@ == path@
                &&& b@ == to@
            } else {
                refused(r.0, r.1)
            },
            FsOp::Delete { path } => if absolute(path@) {
                &&& r.0 matches Job::Deleting { path: q } && q@ == path@
                &&& r.1 matches Action::IsDir(p) && p@ == path@
            } else {
                refused(r.0, r.1)
            },
            FsOp::Touch { path } => if absolute(path@) {
                &&& r.0 matches Job::Touching { path: q } && q@ == path@
                &&& r.1 matches Action::Exists(p) && p@ == path@
            } else {
                refused(r.0, r.1)
            },
        },
{
    match op {
        FsOp::Mkdir { path } => match require_abs(path.as_str()) {
            Ok(p) => (Job::Changing, Action::CreateDirs(p)),
            Err(reply) => finish(reply),
        },
        FsOp::Rename { path, to } => match (require_abs(path.as_str()), require_abs(to.as_str())) {
            (Ok(a), Ok(b)) => (Job::Changing, Action::Rename { from: a, to: b }),
            (Err(reply), _) => finish(reply),
            (_, Err(reply)) => finish(reply),
        },
        FsOp::Delete { path } => match require_abs(path.as_str()) {
            Ok(p) => {
                let at = p.clone();
                (Job::Deleting { path: p }, Action::IsDir(at))
            },
            Err(reply) => finish(reply),
        },
        FsOp::Touch { path } => match require_abs(path.as_str()) {
            Ok(p) => {
                let at = p.clone();
                (Job::Touching { path: p }, Action::Exists(at))
            },
            Err(reply) => finish(reply),
        },
    }
}

// ---------- Laws on names ----------

/// The value of a hexadecimal digit with a capital letter.
pub open spec fn hex_value(c: char) -> int {
    if c <= '9' {
        c as int - 48
    } else {
        c as int - 55
    }
}

/// The bytes of a percent-encoded text.
pub open spec fn percent_decoded(s: Seq<char>) -> Seq<u8>
    decreases s.len(),
{
    if s.len() == 0 {
        seq![]
    } else if s[0] == '%' && s.len() >= 3 {
        seq![(16 * hex_value(s[1]) + hex_value(s[2])) as u8] + percent_decoded(s.skip(3))
    } else {
        seq![s[0] as u8] + percent_decoded(s.skip(1))
    }
}

proof fn percent_front(b: u8, rest: Seq<u8>)
    ensures
        percent_all(seq![b] + rest) == percent(b) + percent_all(rest),
    decreases rest.len(),
{
    let all = seq![b] + rest;
    if rest.len() == 0 {
        assert(all.drop_last() =~= seq![]);
        assert(all.last() == b);
        assert(percent_all(all.drop_last()) =~= seq![]);
        assert(percent_all(rest) =~= seq![]);
        assert(percent_all(all) =~= percent(b) + percent_all(rest));
    } else {
        percent_front(b, rest.drop_last());
        assert(all.drop_last() =~= seq![b] + rest.drop_last());
        assert(all.last() == rest.last());
        assert(percent(b) + percent_all(rest) =~= percent(b) + percent_all(rest.drop_last())
            + percent(rest.last()));
    }
}

/// A percent-encoded text loses nothing, and holds only characters that can stand in a header.
pub proof fn percent_reads_back(bytes: Seq<u8>)
    ensures
        percent_decoded(percent_all(bytes)) == bytes,
        forall|i: int|
            0 <= i < percent_all(bytes).len() ==> '%' <= #[trigger] percent_all(bytes)[i] <= '~',
    decreases bytes.len(),
{
    if bytes.len() > 0 {
        let b = bytes[0];
        let rest = bytes.skip(1);
        percent_reads_back(rest);
        percent_front(b, rest);
        assert(seq![b] + rest =~= bytes);
        let text = percent_all(bytes);
        let tail = percent_all(rest);
        assert(text =~= percent(b) + tail);
        if unreserved(b) {
            assert(text[0] == b as char);
            assert(text.skip(1) =~= tail);
        } else {
            let pair = hex_pair(b, true);
            assert(text[1] == pair[0] && text[2] == pair[1]);
            assert(text.skip(3) =~= tail);
            assert(hex_value(pair[0]) == b / 16);
            assert(hex_value(pair[1]) == b % 16);
        }
        assert forall|i: int| 0 <= i < text.len() implies '%' <= #[trigger] text[i] <= '~' by {
            let n = percent(b).len();
            if i >= n {
                assert(text[i] == tail[i - n]);
            } else {
                assert(text[i] == percent(b)[i]);
            }
        }
    } else {
        assert(bytes =~= seq![]);
    }
}

/// The name that a text between quotation marks stands for.
pub open spec fn unquoted(s: Seq<char>) -> Seq<char>
    decreases s.len(),
{
    if s.len() == 0 {
        seq![]
    } else if s[0] == '\\' && s.len() >= 2 {
        seq![s[1]] + unquoted(s.skip(2))
    } else {
        seq![s[0]] + unquoted(s.skip(1))
    }
}

proof fn quoted_front(c: char, rest: Seq<char>)
    ensures
        quoted_name(seq![c] + rest) == quoted(c) + quoted_name(rest),
    decreases rest.len(),
{
    let all = seq![c] + rest;
    if rest.len() == 0 {
        assert(all.drop_last() =~= seq![]);
        assert(all.last() == c);
        assert(quoted_name(all.drop_last()) =~= seq![]);
        assert(quoted_name(rest) =~= seq![]);
        assert(quoted_name(all) =~= quoted(c) + quoted_name(rest));
    } else {
        quoted_front(c, rest.drop_last());
        assert(all.drop_last() =~= seq![c] + rest.drop_last());
        assert(all.last() == rest.last());
        assert(quoted(c) + quoted_name(rest) =~= quoted(c) + quoted_name(rest.drop_last())
            + quoted(rest.last()));
    }
}

/// A name between quotation marks loses nothing.
pub proof fn quoted_reads_back(name: Seq<char>)
    ensures
        unquoted(quoted_name(name)) == name,
    decreases name.len(),
{
    if name.len() > 0 {
        let c = name[0];
        let rest = name.skip(1);
        quoted_reads_back(rest);
        quoted_front(c, rest);
        assert(seq![c] + rest =~= name);
        let text = quoted_name(name);
        assert(text =~= quoted(c) + quoted_name(rest));
        assert(text.skip(quoted(c).len() as int) =~= quoted_name(rest));
        assert(text[0] == quoted(c)[0]);
        if quoted(c).len() == 2 {
            assert(text[1] == c);
        }
    } else {
        assert(name =~= seq![]);
    }
}

// ---------- Laws on runs ----------

/// Holds of a run: the states of a job, the outcomes between them, and the action that goes with
/// each state.
pub open spec fn run(jobs: Seq<Job>, outcomes: Seq<Outcome>, actions: Seq<Action>) -> bool {
    &&& jobs.len() == outcomes.len() + 1
    &&& actions.len() == jobs.len()
    &&& forall|i: int|
        0 <= i < outcomes.len() ==> awaits(jobs[i], #[trigger] outcomes[i]) && steps(
            jobs[i],
            outcomes[i],
            jobs[i + 1],
            actions[i + 1],
        )
}

/// Holds of actions that change nothing on the disk.
pub open spec fn harmless(action: Action) -> bool {
    match action {
        Action::CreateDirs(_) => false,
        Action::Write { .. } => false,
        Action::Rename { .. } => false,
        Action::RemoveFile(_) => false,
        Action::RemoveDir(_) => false,
        _ => true,
    }
}

/// Holds of what goes with a state of a job that saves `content` in the file at `path` by way of
/// `tmp`.
pub open spec fn save_state(
    job: Job,
    action: Action,
    path: Seq<char>,
    tmp: Seq<char>,
    content: Seq<u8>,
) -> bool {
    match job {
        Job::Checking { path: p, content: c, expect, pid } => {
            &&& p@ == path
            &&& bytes_of(c) == content
            &&& tmp == temp_of(path, write_mark(), pid)
            &&& harmless(action)
        },
        Job::Probing { path: p, data, pid } => {
            &&& p@ == path
            &&& bytes_of(data) == content
            &&& tmp == temp_of(path, upload_mark(), pid)
            &&& harmless(action)
        },
        Job::Placing { path: p, data, pid } => {
            &&& p@ == path
            &&& bytes_of(data) == content
            &&& tmp == temp_of(path, upload_mark(), pid)
            &&& harmless(action)
        },
        Job::Saving { save } => {
            &&& save.path@ == path
            &&& save.tmp@ == tmp
            &&& action matches Action::Write { path: p, content: c }
            &&& p@ == tmp
            &&& bytes_of(c) == content
        },
        Job::Moving { save } => {
            &&& save.path@ == path
            &&& save.tmp@ == tmp
            &&& action matches Action::Rename { from, to }
            &&& from@ == tmp
            &&& to@ == path
        },
        Job::Clearing { .. } => {
            &&& action matches Action::RemoveFile(p)
            &&& p@ == tmp
        },
        Job::Conflicting { .. } => harmless(action),
        Job::Stamping { .. } => harmless(action),
        Job::Finished => harmless(action),
        _ => false,
    }
}

proof fn save_states(
    jobs: Seq<Job>,
    outcomes: Seq<Outcome>,
    actions: Seq<Action>,
    path: Seq<char>,
    tmp: Seq<char>,
    content: Seq<u8>,
    i: int,
)
    requires
        run(jobs, outcomes, actions),
        save_state(jobs[0], actions[0], path, tmp, content),
        0 <= i < jobs.len(),
    ensures
        save_state(jobs[i], actions[i], path, tmp, content),
    decreases i,
{
    if i > 0 {
        save_states(jobs, outcomes, actions, path, tmp, content, i - 1);
        let o = outcomes[i - 1];
        assert(awaits(jobs[i - 1], o));
        assert(steps(jobs[i - 1], o, jobs[i], actions[i]));
    }
}

/// A file is replaced in one go: however far a write or an upload gets, what it writes, it writes
/// beside the file; it moves that into place only right after all of the new content was written
/// there; what it removes is that alone, and only when it could not be moved; and it changes nothing
/// else.
pub proof fn saving_is_atomic(
    jobs: Seq<Job>,
    outcomes: Seq<Outcome>,
    actions: Seq<Action>,
    path: Seq<char>,
    tmp: Seq<char>,
    content: Seq<u8>,
    i: int,
)
    requires
        run(jobs, outcomes, actions),
        jobs[0] is Checking || jobs[0] is Probing,
        save_state(jobs[0], actions[0], path, tmp, content),
        0 <= i < actions.len(),
    ensures
        match actions[i] {
            Action::Write { path: p, content: c } => p@ == tmp && bytes_of(c) == content,
            Action::Rename { from, to } => {
                &&& from@ == tmp
                &&& to@ == path
                &&& i > 0
                &&& outcomes[i - 1] matches Outcome::Unit(done)
                &&& done is Ok
                &&& actions[i - 1] matches Action::Write { path: p, content: c }
                &&& p@ == tmp
                &&& bytes_of(c) == content
            },
            Action::RemoveFile(p) => {
                &&& p@ == tmp
                &&& i > 0
                &&& outcomes[i - 1] matches Outcome::Unit(done)
                &&& done is Err
                &&& actions[i - 1] is Rename
            },
            other => harmless(other),
        },
{
    save_states(jobs, outcomes, actions, path, tmp, content, i);
    if i > 0 {
        save_states(jobs, outcomes, actions, path, tmp, content, i - 1);
        let o = outcomes[i - 1];
        assert(awaits(jobs[i - 1], o));
        assert(steps(jobs[i - 1], o, jobs[i], actions[i]));
    }
}

/// New content is prepared in the directory that the file is in, and not in the file itself.
pub proof fn prepared_beside(p: Seq<char>, pid: u32)
    requires
        absolute(p),
    ensures
        parent_of(temp_of(p, write_mark(), pid)) == Some(dir_of(p)),
        parent_of(temp_of(p, upload_mark(), pid)) == Some(dir_of(p)),
        temp_of(p, write_mark(), pid) != p,
        temp_of(p, upload_mark(), pid) != p,
{
    reveal_strlit(".remote-tmp-");
    reveal_strlit(".remote-upload-");
    assert(!write_mark().contains('/'));
    assert(!upload_mark().contains('/'));
    temp_beside_target(p, write_mark(), pid);
    temp_beside_target(p, upload_mark(), pid);
}

/// What someone else wrote is not lost: where the file was modified at another time than expected,
/// a write changes nothing and answers with what is on the disk.
pub proof fn conflict_writes_nothing(
    job: Job,
    meta: Meta,
    next: Job,
    action: Action,
    disk: Option<String>,
    last: Job,
    answer: Action,
)
    requires
        job matches Job::Checking { path, content, expect: Some(t), pid } && mtime_of(
            meta.modified,
        ) != t,
        steps(job, Outcome::Meta(Ok(meta)), next, action),
        steps(next, Outcome::Text(disk), last, answer),
    ensures
        harmless(action),
        answers(
            last,
            answer,
            json_answer(409, conflict_json(mtime_of(meta.modified), opt_view(disk))),
        ),
{
}

/// An upload never overwrites: where the path exists, it changes nothing.
pub proof fn upload_never_overwrites(job: Job, next: Job, action: Action)
    requires
        job is Probing,
        steps(job, Outcome::Truth(true), next, action),
    ensures
        next is Finished,
        harmless(action),
{
}

/// What was saved is what is read: a text that a write turned into bytes, and that is not taken for
/// a binary file, is the text that opening the file gives.
pub proof fn written_text_reads_back(
    text: Seq<char>,
    mtime: u64,
    data: Vec<u8>,
    next: Job,
    action: Action,
)
    requires
        data@ == encode_utf8(text),
        !head(data@).contains(0),
        steps(Job::Reading { mtime }, Outcome::Data(Ok(data)), next, action),
    ensures
        answers(next, action, json_answer(200, content_json(text, mtime))),
{
    vstd::utf8::encode_utf8_valid_utf8(text);
    vstd::utf8::encode_utf8_decode_utf8(text);
}

/// A directory that is not empty is safe: a directory is only ever removed by the action that
/// removes empty ones.
pub proof fn directories_go_empty(job: Job, next: Job, action: Action)
    requires
        job is Deleting,
        steps(job, Outcome::Truth(true), next, action),
    ensures
        action is RemoveDir,
{
}

/// How many steps a job has left at most.
pub open spec fn steps_left(job: Job) -> nat {
    match job {
        Job::Finished => 0,
        Job::Probing { .. } => 5,
        Job::Placing { .. } => 4,
        Job::Checking { .. } => 4,
        Job::Saving { .. } => 3,
        Job::Moving { .. } => 2,
        Job::Looking { .. } => 2,
        Job::Weighing { .. } => 2,
        Job::Deleting { .. } => 2,
        Job::Touching { .. } => 2,
        _ => 1,
    }
}

/// Every request is answered: each step brings a job nearer to its end, and it ends with an answer.
pub proof fn jobs_end(job: Job, outcome: Outcome, next: Job, action: Action)
    requires
        steps(job, outcome, next, action),
    ensures
        steps_left(next) < steps_left(job),
        next is Finished <==> action is Answer,
{
}

// ---------- Laws on answers ----------

proof fn keys_apart()
    ensures
        "ok"@.len() == 2,
        "name"@.len() == 4 && "name"@[0] == 'n',
        "path"@.len() == 4 && "path"@[0] == 'p',
        "size"@.len() == 4 && "size"@[0] == 's',
        "error"@.len() == 5,
        "is_dir"@.len() == 6,
        "content"@.len() == 7 && "content"@[0] == 'c',
        "entries"@.len() == 7 && "entries"@[0] == 'e',
        "mtime_ms"@.len() == 8,
        "disk_content"@.len() == 12,
{
    reveal_strlit("ok");
    reveal_strlit("name");
    reveal_strlit("path");
    reveal_strlit("size");
    reveal_strlit("error");
    reveal_strlit("is_dir");
    reveal_strlit("content");
    reveal_strlit("entries");
    reveal_strlit("mtime_ms");
    reveal_strlit("disk_content");
}

/// The status of the answer that a job ends with.
pub open spec fn status_of(r: (Job, Action)) -> u16 {
    r.1->Answer_0@.status
}

/// What the answer that a job ends with says under a key.
pub open spec fn said(r: (Job, Action), key: Seq<char>) -> Option<Json> {
    member_of(r.1->Answer_0@.body->Json_0, key)
}

/// Holds of a job that ends with an answer in JSON.
pub open spec fn replies(r: (Job, Action)) -> bool {
    r.0 is Finished && r.1 is Answer && r.1->Answer_0@.body is Json
}

/// Holds of the time that is told of a file: that of its last modification, to the millisecond, as long
/// as it fits in 64 bits; 0 where it is unknown.
pub open spec fn time_told(modified: Option<u128>, told: Option<Json>) -> bool {
    match modified {
        Some(ms) => ms < 0x1_0000_0000_0000_0000 ==> told == Some(Json::Int(ms as int)),
        None => told == Some(Json::Int(0)),
    }
}

/// The time of the last modification is told to the millisecond, as long as it fits in 64 bits; an
/// unknown one is told as 0.
pub proof fn time_is_told(modified: Option<u128>, r: u64)
    requires
        call_ensures(mtime_ms, (modified,), r),
    ensures
        match modified {
            Some(ms) => ms < 0x1_0000_0000_0000_0000 ==> r == ms,
            None => r == 0,
        },
{
}

proof fn content_members(content: Seq<char>, mtime: u64)
    ensures
        member_of(content_json(content, mtime), "content"@) == Some(Json::Text(content)),
        member_of(content_json(content, mtime), "mtime_ms"@) == Some(Json::Int(mtime as int)),
{
    keys_apart();
    let fields = seq![("content"@, Json::Text(content)), ("mtime_ms"@, Json::Int(mtime as int))];
    object_member(fields, 0);
    object_member(fields, 1);
}

proof fn head_is_front(data: Seq<u8>)
    ensures
        head(data).contains(0) <==> exists|i: int|
            0 <= i < data.len() && i < 8192 && #[trigger] data[i] == 0,
{
    let h = head(data);
    if h.contains(0) {
        let i = choose|i: int| 0 <= i < h.len() && h[i] == 0;
        assert(data[i] == 0);
    }
    if exists|i: int| 0 <= i < data.len() && i < 8192 && #[trigger] data[i] == 0 {
        let i = choose|i: int| 0 <= i < data.len() && i < 8192 && #[trigger] data[i] == 0;
        assert(h[i] == 0);
    }
}

/// A text file of at most 2 MiB opens: the answer has all of its text, and the time of its last
/// modification, as they are on the disk. What has a zero byte within the first 8 KiB is refused as
/// binary, and so is what is no UTF-8.
pub proof fn text_file_opens(
    path: String,
    m: Meta,
    first: (Job, Action),
    data: Vec<u8>,
    last: (Job, Action),
)
    requires
        m.is_file,
        m.len <= 2097152,
        call_ensures(Job::step, (Job::Looking { path }, Outcome::Meta(Ok(m))), first),
        call_ensures(Job::step, (first.0, Outcome::Data(Ok(data))), last),
    ensures
        first.1 matches Action::Read(p) && p@ == path@,
        replies(last),
        ({
            let binary = exists|i: int|
                0 <= i < data@.len() && i < 8192 && #[trigger] data@[i] == 0;
            &&& !binary && valid_utf8(data@) ==> {
                &&& status_of(last) == 200
                &&& said(last, "content"@) matches Some(Json::Text(text)) && encode_utf8(text)
                    == data@
                &&& time_told(m.modified, said(last, "mtime_ms"@))
            }
            &&& binary ==> status_of(last) == 415 && said(last, "error"@) == Some(
                Json::Text("binary file, cannot edit"@),
            )
            &&& !binary && !valid_utf8(data@) ==> status_of(last) == 415 && said(last, "error"@)
                == Some(Json::Text("not valid UTF-8"@))
        }),
{
    head_is_front(data@);
    content_members(decode_utf8(data@), mtime_of(m.modified));
    error_member(415, "binary file, cannot edit"@);
    error_member(415, "not valid UTF-8"@);
    if valid_utf8(data@) {
        vstd::utf8::decode_utf8_encode_utf8(data@);
    }
}

/// What cannot be opened is not read: what is no regular file is refused with 400, what is larger than
/// 2 MiB with 413, and what is not there with 404 and the reason.
pub proof fn opening_is_refused(path: String, found: Result<Meta, String>, r: (Job, Action))
    requires
        call_ensures(Job::step, (Job::Looking { path }, Outcome::Meta(found)), r),
    ensures
        match found {
            Ok(m) => if !m.is_file {
                replies(r) && status_of(r) == 400 && said(r, "error"@) == Some(
                    Json::Text("not a regular file"@),
                )
            } else if m.len > 2097152 {
                replies(r) && status_of(r) == 413 && said(r, "error"@) == Some(
                    Json::Text(
                        "file too large ("@ + decimal(m.len as nat) + " bytes > "@ + decimal(2097152)
                            + "), open it in the terminal instead"@,
                    ),
                )
            } else {
                r.1 is Read
            },
            Err(e) => replies(r) && status_of(r) == 404 && said(r, "error"@) == Some(
                Json::Text(e@),
            ),
        },
{
    error_member(400, "not a regular file"@);
    match found {
        Ok(m) => error_member(413, too_large(m.len, READ_MAX, "), open it in the terminal instead"@)),
        Err(e) => error_member(404, e@),
    }
}

/// Who opens a file can save it: as long as the file is not modified in between, a write that sends back
/// the time that opening it told goes on to save, and meets no conflict.
pub proof fn opened_file_can_be_saved(
    path: String,
    m: Meta,
    first: (Job, Action),
    data: Vec<u8>,
    last: (Job, Action),
    t: u64,
    target: String,
    content: Bytes,
    pid: u32,
    saved: (Job, Action),
)
    requires
        call_ensures(Job::step, (Job::Looking { path }, Outcome::Meta(Ok(m))), first),
        call_ensures(Job::step, (first.0, Outcome::Data(Ok(data))), last),
        status_of(last) == 200,
        said(last, "mtime_ms"@) == Some(Json::Int(t as int)),
        call_ensures(
            Job::step,
            (
                Job::Checking { path: target, content, expect: Some(t), pid },
                Outcome::Meta(Ok(m)),
            ),
            saved,
        ),
    ensures
        saved.1 matches Action::Write { path: p, content: c } && bytes_of(c) == bytes_of(content),
{
    content_members(decode_utf8(data@), mtime_of(m.modified));
}

/// A write goes on unless the file is there and was modified at another time than the one that was sent:
/// where no time was sent, where the file is new, and where the times are the same.
pub proof fn write_meets_conflicts(
    path: String,
    content: Bytes,
    expect: Option<u64>,
    pid: u32,
    found: Result<Meta, String>,
    r: (Job, Action),
    disk: Option<String>,
    last: (Job, Action),
)
    requires
        call_ensures(
            Job::step,
            (Job::Checking { path, content, expect, pid }, Outcome::Meta(found)),
            r,
        ),
        r.0 is Conflicting ==> call_ensures(Job::step, (r.0, Outcome::Text(disk)), last),
    ensures
        expect is None || found is Err ==> r.1 is Write,
        expect matches Some(t) ==> (found matches Ok(m) ==> (m.modified matches Some(ms) ==> (ms
            < 0x1_0000_0000_0000_0000 ==> (r.1 is Write <==> t == ms)))),
        r.1 is Write || r.0 is Conflicting,
        r.0 is Conflicting ==> {
            &&& r.1 matches Action::ReadText(p) && p@ == path@
            &&& replies(last)
            &&& status_of(last) == 409
            &&& said(last, "error"@) == Some(Json::Text("file was modified externally"@))
            &&& said(last, "disk_content"@) == Some(
                match disk {
                    Some(s) => Json::Text(s@),
                    None => Json::Null,
                },
            )
            &&& found matches Ok(m) && time_told(m.modified, said(last, "mtime_ms"@))
        },
{
    keys_apart();
    if r.0 is Conflicting {
        let mtime = r.0->Conflicting_mtime;
        let fields = seq![
            ("error"@, Json::Text("file was modified externally"@)),
            ("mtime_ms"@, Json::Int(mtime as int)),
            ("disk_content"@, text_or_null(opt_view(disk))),
        ];
        object_member(fields, 0);
        object_member(fields, 1);
        object_member(fields, 2);
    }
}

proof fn saved_members(size: Option<u64>, mtime: u64)
    ensures
        member_of(saved_json(size, mtime), "ok"@) == Some(Json::Bool(true)),
        member_of(saved_json(size, mtime), "mtime_ms"@) == Some(Json::Int(mtime as int)),
        size matches Some(n) ==> member_of(saved_json(size, mtime), "size"@) == Some(
            Json::Int(n as int),
        ),
{
    keys_apart();
    match size {
        Some(n) => {
            let fields = seq![
                ("ok"@, Json::Bool(true)),
                ("size"@, Json::Int(n as int)),
                ("mtime_ms"@, Json::Int(mtime as int)),
            ];
            object_member(fields, 0);
            object_member(fields, 1);
            object_member(fields, 2);
        },
        None => {
            let fields = seq![("ok"@, Json::Bool(true)), ("mtime_ms"@, Json::Int(mtime as int))];
            object_member(fields, 0);
            object_member(fields, 1);
        },
    }
}

/// A write puts all of the text that was sent into the file that was named: it is written beside the file,
/// moved over it, and answered with the time that the file then has, which the next write may send.
pub proof fn written_file_holds_text(
    body: WriteReq,
    pid: u32,
    start: (Job, Action),
    found: Result<Meta, String>,
    s1: (Job, Action),
    s2: (Job, Action),
    s3: (Job, Action),
    m: Meta,
    s4: (Job, Action),
)
    requires
        body.path@.len() > 0 && body.path@[0] == '/',
        body.expect_mtime_ms is None || found is Err,
        call_ensures(write_file, (&body, pid), start),
        call_ensures(Job::step, (start.0, Outcome::Meta(found)), s1),
        call_ensures(Job::step, (s1.0, Outcome::Unit(Ok(()))), s2),
        call_ensures(Job::step, (s2.0, Outcome::Unit(Ok(()))), s3),
        call_ensures(Job::step, (s3.0, Outcome::Meta(Ok(m))), s4),
    ensures
        start.1 matches Action::Stat(p) && p@ == body.path@,
        s1.1 matches Action::Write { path: tmp, content: c } && {
            &&& bytes_of(c) == encode_utf8(body.content@)
            &&& tmp@ != body.path@
            &&& parent_of(tmp@) == Some(dir_of(body.path@))
            &&& s2.1 matches Action::Rename { from, to }
            &&& from@ == tmp@
            &&& to@ == body.path@
        },
        s3.1 matches Action::Stat(p) && p@ == body.path@,
        replies(s4),
        status_of(s4) == 200,
        said(s4, "ok"@) == Some(Json::Bool(true)),
        time_told(m.modified, said(s4, "mtime_ms"@)),
{
    prepared_beside(body.path@, pid);
    saved_members(None, mtime_of(m.modified));
}

/// An upload puts all of the bytes that were sent into the file that was named, which must not be there
/// yet, in a directory that must; it is answered with their number and with the file's time.
pub proof fn uploaded_file_holds_bytes(
    q: PathQ,
    body: Bytes,
    pid: u32,
    start: (Job, Action),
    s1: (Job, Action),
    s2: (Job, Action),
    s3: (Job, Action),
    s4: (Job, Action),
    m: Meta,
    s5: (Job, Action),
)
    requires
        q.path@.len() > 0 && q.path@[0] == '/',
        bytes_of(body).len() <= u64::MAX,
        call_ensures(upload, (&q, body, pid), start),
        call_ensures(Job::step, (start.0, Outcome::Truth(false)), s1),
        call_ensures(Job::step, (s1.0, Outcome::Truth(true)), s2),
        call_ensures(Job::step, (s2.0, Outcome::Unit(Ok(()))), s3),
        call_ensures(Job::step, (s3.0, Outcome::Unit(Ok(()))), s4),
        call_ensures(Job::step, (s4.0, Outcome::Meta(Ok(m))), s5),
    ensures
        start.1 matches Action::Exists(p) && p@ == q.path@,
        s1.1 matches Action::Exists(p) && p@ == dir_of(q.path@),
        s2.1 matches Action::Write { path: tmp, content: c } && {
            &&& bytes_of(c) == bytes_of(body)
            &&& tmp@ != q.path@
            &&& parent_of(tmp@) == Some(dir_of(q.path@))
            &&& s3.1 matches Action::Rename { from, to }
            &&& from@ == tmp@
            &&& to@ == q.path@
        },
        s4.1 matches Action::Stat(p) && p@ == q.path@,
        replies(s5),
        status_of(s5) == 200,
        said(s5, "ok"@) == Some(Json::Bool(true)),
        said(s5, "size"@) == Some(Json::Int(bytes_of(body).len() as int)),
        time_told(m.modified, said(s5, "mtime_ms"@)),
{
    prepared_beside(q.path@, pid);
    saved_members(Some(bytes_of(body).len() as u64), mtime_of(m.modified));
}

/// An upload is refused where the file is there already, with 409, and where its directory is not, with
/// 404; nothing is written then.
pub proof fn upload_is_refused(
    q: PathQ,
    body: Bytes,
    pid: u32,
    start: (Job, Action),
    taken: (Job, Action),
    free: (Job, Action),
    nowhere: (Job, Action),
)
    requires
        q.path@.len() > 0 && q.path@[0] == '/',
        call_ensures(upload, (&q, body, pid), start),
        call_ensures(Job::step, (start.0, Outcome::Truth(true)), taken),
        call_ensures(Job::step, (start.0, Outcome::Truth(false)), free),
        call_ensures(Job::step, (free.0, Outcome::Truth(false)), nowhere),
    ensures
        replies(taken),
        status_of(taken) == 409,
        said(taken, "error"@) == Some(Json::Text("file already exists: "@ + q.path@)),
        replies(nowhere),
        status_of(nowhere) == 404,
        said(nowhere, "error"@) == Some(
            Json::Text("target directory does not exist: "@ + dir_of(q.path@)),
        ),
{
    error_member(409, "file already exists: "@ + q.path@);
    error_member(404, "target directory does not exist: "@ + dir_of(q.path@));
}

/// A download carries the file: the answer has all of its bytes, each as it is on the disk, whatever their
/// number up to 500 MiB; and it tells the browser to save them under the name that the file has.
pub proof fn download_carries_file(
    q: PathQ,
    start: (Job, Action),
    m: Meta,
    s1: (Job, Action),
    data: Vec<u8>,
    s2: (Job, Action),
)
    requires
        q.path@.len() > 0 && q.path@[0] == '/',
        m.is_file,
        m.len <= 524288000,
        call_ensures(download, (&q,), start),
        call_ensures(Job::step, (start.0, Outcome::Meta(Ok(m))), s1),
        call_ensures(Job::step, (s1.0, Outcome::Data(Ok(data))), s2),
    ensures
        start.1 matches Action::Stat(p) && p@ == q.path@,
        s1.1 matches Action::Read(p) && p@ == q.path@,
        s2.0 is Finished,
        s2.1 matches Action::Answer(reply) && {
            &&& reply@.status == 200
            &&& reply@.body matches BodyView::Bytes(sent)
            &&& sent.len() == data@.len()
            &&& forall|i: int| 0 <= i < data@.len() ==> sent[i] == data@[i]
            &&& reply@.headers.len() == 2
            &&& reply@.headers[0] == ("content-type"@, "application/octet-stream"@)
            &&& reply@.headers[1].0 == "content-disposition"@
        },
        ({
            let name = match file_name_of(q.path@) {
                Some(n) => n,
                None => "download"@,
            };
            let value = s2.1->Answer_0@.headers[1].1;
            let a = "attachment; filename=\""@;
            let b = "\"; filename*=UTF-8''"@;
            exists|short: Seq<char>, full: Seq<char>|
                {
                    &&& value == #[trigger] (a + short + b + full)
                    &&& unquoted(short) == name
                    &&& percent_decoded(full) == encode_utf8(name)
                }
        }),
{
    let name = match file_name_of(q.path@) {
        Some(n) => n,
        None => "download"@,
    };
    let short = quoted_name(name);
    let full = percent_all(encode_utf8(name));
    quoted_reads_back(name);
    percent_reads_back(encode_utf8(name));
    let a = "attachment; filename=\""@;
    let b = "\"; filename*=UTF-8''"@;
    assert(s2.1->Answer_0@.headers[1].1 == a + short + b + full);
}

/// What was uploaded is what is downloaded, byte for byte.
pub proof fn upload_comes_back(
    q: PathQ,
    body: Bytes,
    pid: u32,
    start: (Job, Action),
    s1: (Job, Action),
    s2: (Job, Action),
    path: String,
    data: Vec<u8>,
    got: (Job, Action),
)
    requires
        q.path@.len() > 0 && q.path@[0] == '/',
        call_ensures(upload, (&q, body, pid), start),
        call_ensures(Job::step, (start.0, Outcome::Truth(false)), s1),
        call_ensures(Job::step, (s1.0, Outcome::Truth(true)), s2),
        s2.1 matches Action::Write { path: tmp, content } && data@ == bytes_of(content),
        call_ensures(Job::step, (Job::Fetching { path }, Outcome::Data(Ok(data))), got),
    ensures
        got.1 matches Action::Answer(reply) && reply@.body == BodyView::Bytes(bytes_of(body)),
{
}

/// What was saved in the editor is what the editor opens, character for character, unless it has a zero
/// character near its start.
pub proof fn saved_text_comes_back(
    body: WriteReq,
    pid: u32,
    start: (Job, Action),
    found: Result<Meta, String>,
    s1: (Job, Action),
    mtime: u64,
    data: Vec<u8>,
    got: (Job, Action),
)
    requires
        body.path@.len() > 0 && body.path@[0] == '/',
        call_ensures(write_file, (&body, pid), start),
        call_ensures(Job::step, (start.0, Outcome::Meta(found)), s1),
        s1.1 matches Action::Write { path: tmp, content } && data@ == bytes_of(content),
        forall|i: int| 0 <= i < data@.len() && i < 8192 ==> data@[i] != 0,
        call_ensures(Job::step, (Job::Reading { mtime }, Outcome::Data(Ok(data))), got),
    ensures
        replies(got),
        status_of(got) == 200,
        said(got, "content"@) == Some(Json::Text(body.content@)),
{
    head_is_front(data@);
    vstd::utf8::encode_utf8_valid_utf8(body.content@);
    vstd::utf8::encode_utf8_decode_utf8(body.content@);
    content_members(body.content@, mtime);
}

/// A download is refused without reading: what is no regular file with 400, what is larger than 500 MiB
/// with 413, and what is not there with 404 and the reason.
pub proof fn download_is_refused(path: String, found: Result<Meta, String>, r: (Job, Action))
    requires
        call_ensures(Job::step, (Job::Weighing { path }, Outcome::Meta(found)), r),
    ensures
        match found {
            Ok(m) => if !m.is_file {
                replies(r) && status_of(r) == 400 && said(r, "error"@) == Some(
                    Json::Text("not a regular file"@),
                )
            } else if m.len > 524288000 {
                replies(r) && status_of(r) == 413 && said(r, "error"@) == Some(
                    Json::Text(
                        "file too large ("@ + decimal(m.len as nat) + " bytes > "@ + decimal(
                            524288000,
                        ) + ")"@,
                    ),
                )
            } else {
                r.1 matches Action::Read(p) && p@ == path@
            },
            Err(e) => replies(r) && status_of(r) == 404 && said(r, "error"@) == Some(
                Json::Text(e@),
            ),
        },
{
    error_member(400, "not a regular file"@);
    match found {
        Ok(m) => error_member(413, too_large(m.len, DOWNLOAD_MAX, ")"@)),
        Err(e) => error_member(404, e@),
    }
}

/// What goes wrong on the disk is told to who asked, in the words of the system.
pub proof fn failures_are_told(
    e: String,
    path: String,
    mtime: u64,
    save: Save,
    a: (Job, Action),
    b: (Job, Action),
    c: (Job, Action),
    d: (Job, Action),
    f: (Job, Action),
    g: (Job, Action),
)
    requires
        call_ensures(Job::step, (Job::Listing { path }, Outcome::Entries(Err(e))), a),
        call_ensures(Job::step, (Job::Reading { mtime }, Outcome::Data(Err(e))), b),
        call_ensures(Job::step, (Job::Fetching { path }, Outcome::Data(Err(e))), c),
        call_ensures(Job::step, (Job::Changing, Outcome::Unit(Err(e))), d),
        call_ensures(Job::step, (Job::Saving { save }, Outcome::Unit(Err(e))), f),
        call_ensures(Job::step, (Job::Clearing { reason: e }, Outcome::Unit(Ok(()))), g),
    ensures
        replies(a) && status_of(a) == 404 && said(a, "error"@) == Some(Json::Text(e@)),
        replies(b) && status_of(b) == 500 && said(b, "error"@) == Some(Json::Text(e@)),
        replies(c) && status_of(c) == 500 && said(c, "error"@) == Some(Json::Text(e@)),
        replies(d) && status_of(d) == 500 && said(d, "error"@) == Some(Json::Text(e@)),
        replies(f) && status_of(f) == 500 && said(f, "error"@) == Some(
            Json::Text(
                if save.size is Some {
                    "write failed: "@ + e@
                } else {
                    "temp file write failed: "@ + e@
                },
            ),
        ),
        replies(g) && status_of(g) == 500 && said(g, "error"@) == Some(
            Json::Text("rename failed: "@ + e@),
        ),
{
    error_member(404, e@);
    error_member(500, e@);
    error_member(500, save_failure(save.size, e@));
    error_member(500, "rename failed: "@ + e@);
}

/// Changes of the tree do what they say to the path that they name: a rename moves the one path to the
/// other, a new directory is made, a deletion removes a directory as one and a file as one, and a new file
/// is empty and never takes the place of another. What worked is answered with `ok`.
pub proof fn tree_changes_as_asked(
    path: String,
    to: String,
    rename: (Job, Action),
    mkdir: (Job, Action),
    delete: (Job, Action),
    gone_dir: (Job, Action),
    gone_file: (Job, Action),
    touch: (Job, Action),
    taken: (Job, Action),
    made: (Job, Action),
    done: (Job, Action),
)
    requires
        path@.len() > 0 && path@[0] == '/',
        to@.len() > 0 && to@[0] == '/',
        call_ensures(fs_op, (&FsOp::Rename { path, to },), rename),
        call_ensures(fs_op, (&FsOp::Mkdir { path },), mkdir),
        call_ensures(fs_op, (&FsOp::Delete { path },), delete),
        call_ensures(Job::step, (delete.0, Outcome::Truth(true)), gone_dir),
        call_ensures(Job::step, (delete.0, Outcome::Truth(false)), gone_file),
        call_ensures(fs_op, (&FsOp::Touch { path },), touch),
        call_ensures(Job::step, (touch.0, Outcome::Truth(true)), taken),
        call_ensures(Job::step, (touch.0, Outcome::Truth(false)), made),
        call_ensures(Job::step, (rename.0, Outcome::Unit(Ok(()))), done),
    ensures
        rename.1 matches Action::Rename { from: a, to: b } && a@ == path@ && b@ == to@,
        mkdir.1 matches Action::CreateDirs(p) && p@ == path@,
        delete.1 matches Action::IsDir(p) && p@ == path@,
        gone_dir.1 matches Action::RemoveDir(p) && p@ == path@,
        gone_file.1 matches Action::RemoveFile(p) && p@ == path@,
        touch.1 matches Action::Exists(p) && p@ == path@,
        replies(taken) && status_of(taken) == 500 && said(taken, "error"@) == Some(
            Json::Text("file already exists"@),
        ),
        made.1 matches Action::Write { path: p, content } && p@ == path@ && bytes_of(content).len()
            == 0,
        mkdir.0 is Changing && rename.0 is Changing && made.0 is Changing && gone_dir.0 is Changing
            && gone_file.0 is Changing,
        replies(done) && status_of(done) == 200 && said(done, "ok"@) == Some(Json::Bool(true)),
{
    object_member(seq![("ok"@, Json::Bool(true))], 0);
    error_member(500, "file already exists"@);
}

/// A path that does not start at the root is refused with 400, whatever is asked of it, and nothing is
/// done on the disk; one that does is taken as it is.
pub proof fn relative_paths_are_refused(
    q: PathQ,
    body: WriteReq,
    bytes: Bytes,
    pid: u32,
    to: String,
    a: (Job, Action),
    b: (Job, Action),
    c: (Job, Action),
    d: (Job, Action),
    e: (Job, Action),
    f: (Job, Action),
    g: (Job, Action),
)
    requires
        body.path@ == q.path@,
        call_ensures(list_dir, (&q,), a),
        call_ensures(read_file, (&q,), b),
        call_ensures(write_file, (&body, pid), c),
        call_ensures(download, (&q,), d),
        call_ensures(upload, (&q, bytes, pid), e),
        call_ensures(fs_op, (&FsOp::Rename { path: q.path, to },), f),
        call_ensures(fs_op, (&FsOp::Delete { path: q.path },), g),
    ensures
        if q.path@.len() > 0 && q.path@[0] == '/' {
            &&& a.1 matches Action::ReadDir(p) && p@ == q.path@
            &&& a.0 matches Job::Listing { path } && path@ == q.path@
            &&& b.1 matches Action::Stat(p) && p@ == q.path@
            &&& b.0 matches Job::Looking { path } && path@ == q.path@
            &&& c.1 matches Action::Stat(p) && p@ == q.path@
            &&& c.0 matches Job::Checking { path, content, expect, pid: n } && path@ == q.path@
                && bytes_of(content) == encode_utf8(body.content@) && expect
                == body.expect_mtime_ms && n == pid
            &&& d.1 matches Action::Stat(p) && p@ == q.path@
            &&& d.0 matches Job::Weighing { path } && path@ == q.path@
            &&& e.1 matches Action::Exists(p) && p@ == q.path@
            &&& e.0 matches Job::Probing { path, data, pid: n } && path@ == q.path@ && bytes_of(data)
                == bytes_of(bytes) && n == pid
            &&& g.1 matches Action::IsDir(p) && p@ == q.path@
            &&& g.0 matches Job::Deleting { path } && path@ == q.path@
        } else {
            &&& replies(a) && status_of(a) == 400 && said(a, "error"@) == Some(
                Json::Text("path must be absolute"@),
            )
            &&& replies(b) && status_of(b) == 400
            &&& replies(c) && status_of(c) == 400
            &&& replies(d) && status_of(d) == 400
            &&& replies(e) && status_of(e) == 400
            &&& replies(f) && status_of(f) == 400
            &&& replies(g) && status_of(g) == 400
        },
        !(to@.len() > 0 && to@[0] == '/') ==> replies(f) && status_of(f) == 400,
{
    error_member(400, "path must be absolute"@);
}

proof fn entry_members(e: DirEntry)
    ensures
        member_of(entry_json(e), "name"@) == Some(Json::Text(e.name@)),
        member_of(entry_json(e), "is_dir"@) == Some(Json::Bool(entry_is_dir(e))),
        member_of(entry_json(e), "size"@) == Some(Json::Int(entry_size(e) as int)),
        member_of(entry_json(e), "mtime_ms"@) == Some(Json::Int(entry_mtime(e) as int)),
{
    keys_apart();
    let fields = seq![
        ("name"@, Json::Text(e.name@)),
        ("is_dir"@, Json::Bool(entry_is_dir(e))),
        ("size"@, Json::Int(entry_size(e) as int)),
        ("mtime_ms"@, Json::Int(entry_mtime(e) as int)),
    ];
    object_member(fields, 0);
    object_member(fields, 1);
    object_member(fields, 2);
    object_member(fields, 3);
}

/// Holds of what a list says of an entry: its whole name, whether it is a directory, its size and its
/// time.
pub open spec fn entry_shown(j: Json, e: DirEntry) -> bool {
    &&& member_of(j, "name"@) == Some(Json::Text(e.name@))
    &&& match e.meta {
        Some(m) => {
            &&& member_of(j, "is_dir"@) == Some(Json::Bool(m.is_dir))
            &&& member_of(j, "size"@) == Some(Json::Int(m.len as int))
            &&& time_told(m.modified, member_of(j, "mtime_ms"@))
        },
        None => {
            &&& member_of(j, "is_dir"@) == Some(Json::Bool(false))
            &&& member_of(j, "size"@) == Some(Json::Int(0))
            &&& member_of(j, "mtime_ms"@) == Some(Json::Int(0))
        },
    }
}

/// The items of a directory's list.
pub open spec fn shown_items(r: (Job, Action)) -> Seq<Json> {
    said(r, "entries"@)->0->List_0
}

/// Holds of what a list says of one of the entries.
pub open spec fn some_entry(j: Json, entries: Seq<DirEntry>) -> bool {
    exists|n: int| 0 <= n < entries.len() && entry_shown(j, #[trigger] entries[n])
}

/// A directory is shown whole: the list has as many items as the directory has entries, each entry is one
/// of them with all that is known of it, and each item is an entry.
pub proof fn directory_is_shown_whole(
    path: String,
    entries: Vec<DirEntry>,
    r: (Job, Action),
    k: int,
)
    requires
        call_ensures(Job::step, (Job::Listing { path }, Outcome::Entries(Ok(entries))), r),
        0 <= k < entries@.len() <= usize::MAX,
    ensures
        replies(r),
        status_of(r) == 200,
        said(r, "path"@) == Some(Json::Text(path@)),
        said(r, "entries"@) == Some(Json::List(shown_items(r))),
        shown_items(r).len() == entries@.len(),
        exists|i: int|
            0 <= i < shown_items(r).len() && entry_shown(#[trigger] shown_items(r)[i], entries@[k]),
        forall|i: int|
            0 <= i < shown_items(r).len() ==> some_entry(#[trigger] shown_items(r)[i], entries@),
{
    let order = choose|order: Seq<usize>| #[trigger]
        is_order(entry_keys(entries@), order) && answers(
            r.0,
            r.1,
            json_answer(200, listing_json(path@, entries@, order)),
        );
    let items = listing_items(path@, entries@, order);
    onto(entry_keys(entries@), order);
    assert(order.contains(k as usize));
    assert(said(r, "entries"@) == Some(Json::List(items)));
    assert(shown_items(r) == items);
    let at = choose|i: int| 0 <= i < order.len() && order[i] == k as usize;
    assert(entry_shown(items[at], entries@[k])) by {
        entry_members(entries@[k]);
    }
    assert(entry_shown(shown_items(r)[at], entries@[k]));
    assert forall|i: int| 0 <= i < shown_items(r).len() implies some_entry(
        #[trigger] shown_items(r)[i],
        entries@,
    ) by {
        assert(order[i] < entry_keys(entries@).len());
        let n = order[i] as int;
        entry_members(entries@[n]);
        assert(items[i] == entry_json(entries@[n]));
        assert(entry_shown(items[i], entries@[n]));
    }
}

proof fn listing_items(path: Seq<char>, entries: Seq<DirEntry>, order: Seq<usize>) -> (items: Seq<
    Json,
>)
    ensures
        items.len() == order.len(),
        forall|i: int|
            0 <= i < order.len() ==> #[trigger] items[i] == entry_json(entries[order[i] as int]),
        member_of(listing_json(path, entries, order), "path"@) == Some(Json::Text(path)),
        member_of(listing_json(path, entries, order), "entries"@) == Some(Json::List(items)),
{
    keys_apart();
    let items = order.map_values(|i: usize| entry_json(entries[i as int]));
    let fields = seq![("path"@, Json::Text(path)), ("entries"@, Json::List(items))];
    object_member(fields, 0);
    object_member(fields, 1);
    items
}

/// A directory is shown in order: directories before files, and within each the names in the order of
/// their characters.
pub proof fn directory_is_shown_in_order(
    path: String,
    entries: Vec<DirEntry>,
    r: (Job, Action),
    i: int,
    j: int,
)
    requires
        call_ensures(Job::step, (Job::Listing { path }, Outcome::Entries(Ok(entries))), r),
        0 <= i < j < entries@.len(),
    ensures
        said(r, "entries"@) matches Some(Json::List(items)) && {
            &&& items.len() == entries@.len()
            &&& member_of(items[j], "is_dir"@) == Some(Json::Bool(true)) ==> member_of(
                items[i],
                "is_dir"@,
            ) == Some(Json::Bool(true))
            &&& member_of(items[i], "name"@) matches Some(Json::Text(a)) && (member_of(
                items[j],
                "name"@,
            ) matches Some(Json::Text(b)) && (member_of(items[i], "is_dir"@) == member_of(
                items[j],
                "is_dir"@,
            ) ==> !text_before(b, a)))
        },
{
    let order = choose|order: Seq<usize>| #[trigger]
        is_order(entry_keys(entries@), order) && answers(
            r.0,
            r.1,
            json_answer(200, listing_json(path@, entries@, order)),
        );
    let items = listing_items(path@, entries@, order);
    let keys = entry_keys(entries@);
    let x = order[i] as int;
    let y = order[j] as int;
    assert(shown_before(keys, x, y));
    shown_before_is_order(keys, x, y, x);
    shown_before_is_order(keys, x, x, x);
    entry_members(entries@[x]);
    entry_members(entries@[y]);
    assert(keys[x].name@ == entries@[x].name@ && keys[y].name@ == entries@[y].name@);
    names_are_ordered(keys, x, y);
}

/// What could not be moved into place is thrown away, and who asked is told why; what was saved is answered
/// with `ok` even where its time cannot be found out.
pub proof fn failed_move_is_told(
    save: Save,
    e: String,
    a: (Job, Action),
    done: Result<(), String>,
    b: (Job, Action),
    c: (Job, Action),
    d: (Job, Action),
)
    requires
        call_ensures(Job::step, (Job::Moving { save }, Outcome::Unit(Err(e))), a),
        call_ensures(Job::step, (a.0, Outcome::Unit(done)), b),
        call_ensures(Job::step, (Job::Moving { save }, Outcome::Unit(Ok(()))), c),
        call_ensures(Job::step, (c.0, Outcome::Meta(Err(e))), d),
    ensures
        a.1 matches Action::RemoveFile(p) && p@ == save.tmp@,
        replies(b) && status_of(b) == 500 && said(b, "error"@) == Some(
            Json::Text("rename failed: "@ + e@),
        ),
        c.1 matches Action::Stat(p) && p@ == save.path@,
        replies(d) && status_of(d) == 200 && said(d, "ok"@) == Some(Json::Bool(true)) && said(
            d,
            "mtime_ms"@,
        ) == Some(Json::Int(0)),
{
    error_member(500, "rename failed: "@ + e@);
    saved_members(save.size, 0);
}

/// A percent-encoded text is made of letters, digits, `-`, `.`, `_`, `~` and percent signs alone.
pub proof fn percent_is_plain(s: &str, r: String, i: int)
    requires
        call_ensures(urlencode, (s,), r),
        0 <= i < r@.len(),
    ensures
        ({
            let c = r@[i];
            ||| 'a' <= c <= 'z' || 'A' <= c <= 'Z' || '0' <= c <= '9'
            ||| c == '-' || c == '.' || c == '_' || c == '~' || c == '%'
        }),
        percent_decoded(r@) == encode_utf8(s@),
{
    percent_reads_back(encode_utf8(s@));
    percent_chars(encode_utf8(s@), i);
}

proof fn percent_chars(bytes: Seq<u8>, i: int)
    requires
        0 <= i < percent_all(bytes).len(),
    ensures
        ({
            let c = percent_all(bytes)[i];
            ||| 'a' <= c <= 'z' || 'A' <= c <= 'Z' || '0' <= c <= '9'
            ||| c == '-' || c == '.' || c == '_' || c == '~' || c == '%'
        }),
    decreases bytes.len(),
{
    if bytes.len() > 0 {
        let front = percent_all(bytes.drop_last());
        if i < front.len() {
            percent_chars(bytes.drop_last(), i);
            assert(percent_all(bytes)[i] == front[i]);
        } else {
            assert(percent_all(bytes)[i] == percent(bytes.last())[i - front.len()]);
        }
    }
}

/// Uploads of up to 500 MiB are taken.
pub proof fn uploads_are_large()
    ensures
        UPLOAD_MAX == 500 * 1024 * 1024,
{
}

/// A job that meets nothing in its way goes on, and takes along what it was given: to the bytes of a file
/// that may be read, to the place of an upload, from new content to moving it into place, from there to
/// the file's new time, and from there to the answer; whatever the paths, the sizes and the bytes.
pub proof fn jobs_go_on(path: String, data: Bytes, pid: u32, save: Save, m: Meta, size: Option<u64>)
    ensures
        forall|r: (Job, Action)| #[trigger]
            call_ensures(Job::step, (Job::Looking { path }, Outcome::Meta(Ok(m))), r) && m.is_file
                && m.len <= 2097152 ==> {
                &&& r.0 matches Job::Reading { mtime } && match m.modified {
                    Some(ms) => ms < 0x1_0000_0000_0000_0000 ==> mtime == ms,
                    None => mtime == 0,
                }
                &&& r.1 matches Action::Read(p) && p@ == path@
            },
        forall|r: (Job, Action)| #[trigger]
            call_ensures(Job::step, (Job::Weighing { path }, Outcome::Meta(Ok(m))), r) && m.is_file
                && m.len <= 524288000 ==> {
                &&& r.0 matches Job::Fetching { path: q } && q@ == path@
                &&& r.1 matches Action::Read(p) && p@ == path@
            },
        forall|r: (Job, Action)| #[trigger]
            call_ensures(Job::step, (Job::Probing { path, data, pid }, Outcome::Truth(false)), r) ==> {
                &&& r.0 matches Job::Placing { path: q, data: d, pid: n } && q@ == path@ && bytes_of(d)
                    == bytes_of(data) && n == pid
                &&& r.1 matches Action::Exists(p) && p@ == dir_of(path@)
            },
        forall|r: (Job, Action)| #[trigger]
            call_ensures(Job::step, (Job::Placing { path, data, pid }, Outcome::Truth(true)), r) ==> {
                &&& r.0 matches Job::Saving { save: s } && s.path@ == path@ && (bytes_of(data).len()
                    <= u64::MAX ==> s.size == Some(bytes_of(data).len() as u64))
                &&& r.1 matches Action::Write { path: p, content } && p@ == r.0->Saving_save.tmp@
                    && bytes_of(content) == bytes_of(data)
            },
        forall|r: (Job, Action)| #[trigger]
            call_ensures(Job::step, (Job::Saving { save }, Outcome::Unit(Ok(()))), r) ==> {
                &&& r.0 matches Job::Moving { save: s } && s.path@ == save.path@ && s.tmp@
                    == save.tmp@ && s.size == save.size
                &&& r.1 matches Action::Rename { from, to } && from@ == save.tmp@ && to@
                    == save.path@
            },
        forall|r: (Job, Action)| #[trigger]
            call_ensures(Job::step, (Job::Moving { save }, Outcome::Unit(Ok(()))), r) ==> {
                &&& r.0 matches Job::Stamping { size: n } && n == save.size
                &&& r.1 matches Action::Stat(p) && p@ == save.path@
            },
        forall|r: (Job, Action)| #[trigger]
            call_ensures(Job::step, (Job::Stamping { size }, Outcome::Meta(Ok(m))), r) ==> {
                &&& replies(r)
                &&& status_of(r) == 200
                &&& said(r, "ok"@) == Some(Json::Bool(true))
                &&& time_told(m.modified, said(r, "mtime_ms"@))
                &&& size matches Some(n) ==> said(r, "size"@) == Some(Json::Int(n as int))
            },
{
    saved_members(size, mtime_of(m.modified));
}

/// A job that writes goes on to write all of the new content beside the file, and keeps the file's path.
pub proof fn writes_go_on(
    path: String,
    content: Bytes,
    expect: Option<u64>,
    pid: u32,
    found: Result<Meta, String>,
    r: (Job, Action),
)
    requires
        absolute(path@),
        call_ensures(
            Job::step,
            (Job::Checking { path, content, expect, pid }, Outcome::Meta(found)),
            r,
        ),
        expect is None || found is Err || (found matches Ok(m) && (m.modified matches Some(ms) && ms
            < 0x1_0000_0000_0000_0000 && expect == Some(ms as u64))),
    ensures
        r.0 matches Job::Saving { save } && save.path@ == path@ && save.size is None && save.tmp@
            != path@ && parent_of(save.tmp@) == Some(dir_of(path@)),
        r.1 matches Action::Write { path: p, content: c } && p@ == r.0->Saving_save.tmp@ && bytes_of(c)
            == bytes_of(content),
{
    prepared_beside(path@, pid);
}

/// A tree that is changed is changed at the path that was named, and the answer says `ok`.
pub proof fn changes_go_on(path: String)
    ensures
        forall|dir: bool, r: (Job, Action)| #[trigger]
            call_ensures(Job::step, (Job::Deleting { path }, Outcome::Truth(dir)), r) ==> {
                &&& r.0 is Changing
                &&& dir ==> (r.1 matches Action::RemoveDir(p) && p@ == path@)
                &&& !dir ==> (r.1 matches Action::RemoveFile(p) && p@ == path@)
            },
        forall|r: (Job, Action)| #[trigger]
            call_ensures(Job::step, (Job::Touching { path }, Outcome::Truth(false)), r) ==> {
                &&& r.0 is Changing
                &&& r.1 matches Action::Write { path: p, content } && p@ == path@ && bytes_of(
                    content,
                ).len() == 0
            },
        forall|r: (Job, Action)| #[trigger]
            call_ensures(Job::step, (Job::Changing, Outcome::Unit(Ok(()))), r) ==> {
                &&& replies(r)
                &&& status_of(r) == 200
                &&& said(r, "ok"@) == Some(Json::Bool(true))
            },
        forall|r: (Job, Action)| #[trigger]
            call_ensures(fs_op, (&FsOp::Touch { path },), r) && absolute(path@) ==> {
                &&& r.0 matches Job::Touching { path: q } && q@ == path@
                &&& r.1 matches Action::Exists(p) && p@ == path@
            },
{
    object_member(seq![("ok"@, Json::Bool(true))], 0);
}

/// All bytes of a file that is downloaded are in the answer, whatever the file is called and however long
/// it is.
pub proof fn fetched_bytes_are_sent(path: String, data: Vec<u8>, r: (Job, Action))
    requires
        call_ensures(Job::step, (Job::Fetching { path }, Outcome::Data(Ok(data))), r),
    ensures
        r.0 is Finished,
        r.1 matches Action::Answer(reply) && {
            &&& reply@.status == 200
            &&& reply@.body matches BodyView::Bytes(sent)
            &&& sent.len() == data@.len()
            &&& forall|i: int| 0 <= i < data@.len() ==> sent[i] == data@[i]
        },
{
}

/// The text of a file that is opened is in the answer, all of it, with the time that was found before.
pub proof fn read_text_is_sent(mtime: u64, data: Vec<u8>, r: (Job, Action))
    requires
        call_ensures(Job::step, (Job::Reading { mtime }, Outcome::Data(Ok(data))), r),
        valid_utf8(data@),
        forall|i: int| 0 <= i < data@.len() && i < 8192 ==> data@[i] != 0,
    ensures
        replies(r),
        status_of(r) == 200,
        said(r, "content"@) matches Some(Json::Text(text)) && encode_utf8(text) == data@,
        said(r, "mtime_ms"@) == Some(Json::Int(mtime as int)),
{
    head_is_front(data@);
    content_members(decode_utf8(data@), mtime);
    vstd::utf8::decode_utf8_encode_utf8(data@);
}

/// Holds of letters, digits, `-`, `.`, `_` and `~`.
pub open spec fn plain_char(c: char) -> bool {
    ||| 'a' <= c <= 'z' || 'A' <= c <= 'Z' || '0' <= c <= '9'
    ||| c == '-' || c == '.' || c == '_' || c == '~'
}

proof fn plain_bytes_stay(name: Seq<char>)
    requires
        forall|i: int| 0 <= i < name.len() ==> plain_char(#[trigger] name[i]),
    ensures
        percent_all(name.map_values(|c: char| c as u8)) == name,
    decreases name.len(),
{
    let bytes = name.map_values(|c: char| c as u8);
    if name.len() > 0 {
        let rest = name.drop_last();
        assert forall|i: int| 0 <= i < rest.len() implies plain_char(#[trigger] rest[i]) by {
            assert(rest[i] == name[i]);
        }
        plain_bytes_stay(rest);
        assert(bytes.drop_last() =~= rest.map_values(|c: char| c as u8));
        assert(plain_char(name[name.len() - 1]));
        assert(percent(bytes.last()) =~= seq![name.last()]);
        assert(rest + seq![name.last()] =~= name);
    } else {
        assert(percent_all(bytes) =~= name);
    }
}

proof fn quoted_stays(name: Seq<char>)
    requires
        !name.contains('\\'),
        !name.contains('"'),
    ensures
        quoted_name(name) == name,
    decreases name.len(),
{
    if name.len() > 0 {
        let rest = name.drop_last();
        assert(name.contains(name[name.len() - 1]));
        assert(!rest.contains('\\')) by {
            if rest.contains('\\') {
                let i = choose|i: int| 0 <= i < rest.len() && rest[i] == '\\';
                assert(name[i] == '\\');
            }
        }
        assert(!rest.contains('"')) by {
            if rest.contains('"') {
                let i = choose|i: int| 0 <= i < rest.len() && rest[i] == '"';
                assert(name[i] == '"');
            }
        }
        quoted_stays(rest);
        assert(rest + seq![name.last()] =~= name);
    } else {
        assert(quoted_name(name) =~= name);
    }
}

/// A plain file name stands in a download's header as it is, twice.
pub proof fn plain_names_stay(name: Seq<char>)
    requires
        forall|i: int| 0 <= i < name.len() ==> plain_char(#[trigger] name[i]),
    ensures
        disposition(name) == "attachment; filename=\""@ + name + "\"; filename*=UTF-8''"@ + name,
{
    assert(!name.contains('\\')) by {
        if name.contains('\\') {
            let i = choose|i: int| 0 <= i < name.len() && name[i] == '\\';
            assert(plain_char(name[i]));
        }
    }
    assert(!name.contains('"')) by {
        if name.contains('"') {
            let i = choose|i: int| 0 <= i < name.len() && name[i] == '"';
            assert(plain_char(name[i]));
        }
    }
    quoted_stays(name);
    plain_bytes_stay(name);
    assert forall|i: int| 0 <= i < name.len() implies (#[trigger] name[i]) < '\x7f' by {
        assert(plain_char(name[i]));
    }
    ascii_bytes(name);
}

/// A path is taken as it is if it starts at the root, and refused otherwise.
pub proof fn absolute_paths_are_taken(p: &str, r: Result<String, Reply>)
    requires
        call_ensures(require_abs, (p,), r),
    ensures
        r is Ok <==> p@.len() > 0 && p@[0] == '/',
        r matches Ok(path) ==> path@ == p@,
        r matches Err(reply) ==> reply@.status == 400,
{
}

}
