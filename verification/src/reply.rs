//! What the server answers to a request.

use crate::json::{
    boolean, field, fields_view, json, member_of, object, object_member, object_of, text, Json,
};
use serde_json::Value;
use vstd::prelude::*;

verus! {

/// The body of an answer.
pub enum Body {
    Json(Value),
    Text(String),
    Bytes(Vec<u8>),
}

/// An answer: its status, its headers beside those that the body implies, and its body.
pub struct Reply {
    pub status: u16,
    pub headers: Vec<(String, String)>,
    pub body: Body,
}

/// The body of an answer as a mathematical value.
pub enum BodyView {
    Json(Json),
    Text(Seq<char>),
    Bytes(Seq<u8>),
}

/// An answer as a mathematical value.
pub struct ReplyView {
    pub status: u16,
    pub headers: Seq<(Seq<char>, Seq<char>)>,
    pub body: BodyView,
}

/// The pairs of a vector of string pairs.
pub open spec fn pairs_view(v: Seq<(String, String)>) -> Seq<(Seq<char>, Seq<char>)> {
    v.map_values(|p: (String, String)| (p.0@, p.1@))
}

impl View for Reply {
    type V = ReplyView;

    open spec fn view(&self) -> ReplyView {
        ReplyView {
            status: self.status,
            headers: pairs_view(self.headers@),
            body: match self.body {
                Body::Json(v) => BodyView::Json(json(v)),
                Body::Text(s) => BodyView::Text(s@),
                Body::Bytes(b) => BodyView::Bytes(b@),
            },
        }
    }
}

/// A file to be written, with the permissions that it shall have.
pub struct FileWrite {
    pub path: String,
    pub content: String,
    pub mode: u32,
}

/// An answer that is a JSON document.
pub open spec fn json_answer(status: u16, j: Json) -> ReplyView {
    ReplyView { status, headers: seq![], body: BodyView::Json(j) }
}

/// An answer that says what went wrong.
pub open spec fn error_answer(status: u16, msg: Seq<char>) -> ReplyView {
    json_answer(status, object_of(seq![("error"@, Json::Text(msg))]))
}

/// The document `{"ok": true}`.
pub open spec fn ok_json() -> Json {
    object_of(seq![("ok"@, Json::Bool(true))])
}

/// Answers with a JSON document.
pub fn json_reply(status: u16, v: Value) -> (r: Reply)
    ensures
        r@ == json_answer(status, json(v)),
{
    let r = Reply { status, headers: Vec::new(), body: Body::Json(v) };
    assert(pairs_view(r.headers@) =~= seq![]);
    r
}

/// Answers with an error.
pub fn err(status: u16, msg: String) -> (r: Reply)
    ensures
        r@ == error_answer(status, msg@),
{
    let mut fields: Vec<(String, Value)> = Vec::new();
    fields.push(field("error", text(msg)));
    assert(fields_view(fields@) =~= seq![("error"@, Json::Text(msg@))]);
    json_reply(status, object(fields))
}

/// The document `{"ok": true}`.
pub fn ok_value() -> (v: Value)
    ensures
        json(v) == ok_json(),
{
    let mut fields: Vec<(String, Value)> = Vec::new();
    fields.push(field("ok", boolean(true)));
    assert(fields_view(fields@) =~= seq![("ok"@, Json::Bool(true))]);
    object(fields)
}

// ---------- Laws ----------

/// An error is answered with its status and with all that there is to say about it.
pub proof fn error_is_told(status: u16, msg: String, r: Reply)
    requires
        call_ensures(err, (status, msg), r),
    ensures
        r@.status == status,
        r@.headers.len() == 0,
        r@.body matches BodyView::Json(j) && member_of(j, "error"@) == Some(Json::Text(msg@)),
{
    error_member(status, msg@);
}

/// The members of an answer that says what went wrong.
pub proof fn error_member(status: u16, msg: Seq<char>)
    ensures
        error_answer(status, msg).status == status,
        error_answer(status, msg).body matches BodyView::Json(j) && member_of(j, "error"@) == Some(
            Json::Text(msg),
        ),
{
    object_member(seq![("error"@, Json::Text(msg))], 0);
}

/// A document is answered as it is.
pub proof fn document_is_sent(status: u16, v: Value, r: Reply)
    requires
        call_ensures(json_reply, (status, v), r),
    ensures
        r@.status == status,
        r@.headers.len() == 0,
        r@.body == BodyView::Json(json(v)),
{
}

/// What is done is answered with `ok`.
pub proof fn success_is_told(v: Value)
    requires
        call_ensures(ok_value, (), v),
    ensures
        member_of(json(v), "ok"@) == Some(Json::Bool(true)),
{
    object_member(seq![("ok"@, Json::Bool(true))], 0);
}

/// An answer is seen as it is: its status, all of its headers in order, and its whole body.
pub proof fn answer_is_seen_whole(r: Reply)
    ensures
        r@.status == r.status,
        r@.headers.len() == r.headers@.len(),
        forall|i: int|
            0 <= i < r.headers@.len() ==> #[trigger] r@.headers[i] == (
                r.headers@[i].0@,
                r.headers@[i].1@,
            ),
        match r.body {
            Body::Json(v) => r@.body == BodyView::Json(json(v)),
            Body::Text(s) => r@.body == BodyView::Text(s@),
            Body::Bytes(b) => r@.body == BodyView::Bytes(b@),
        },
{
}

}
