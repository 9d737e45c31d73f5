//! Terminals: who is listed, who watches, and what everyone is told.
//!
//! A terminal is listed from its creation until it is killed. A killed one is no longer found, but
//! those who watch it still get its output until its process ends.

use crate::frame::{frame_json, json_frame, json_frame_bytes};
use crate::json::{
    boolean, field, fields_view, json, member_of, number, object, object_member, object_of, tame,
    tame_deeper, tame_object, text, Json,
};
use bytes::Bytes;
use serde_json::Value;
use vstd::prelude::*;

verus! {

// ---------- Global events (sent to every connection) ----------

/// What a terminal looks like from outside.
pub struct TermInfo {
    pub id: u64,
    pub title: String,
    pub rows: u16,
    pub cols: u16,
    pub exited: bool,
}

impl Clone for TermInfo {
    fn clone(&self) -> (r: Self)
        ensures
            r == *self,
    {
        TermInfo {
            id: self.id,
            title: self.title.clone(),
            rows: self.rows,
            cols: self.cols,
            exited: self.exited,
        }
    }
}

/// Something that every connection is told.
pub enum Event {
    Created { term: TermInfo },
    Removed { id: u64 },
    Exited { id: u64 },
    Title { id: u64, title: String },
    Resized { id: u64, rows: u16, cols: u16 },
}

/// What one watcher of a terminal gets.
pub enum SubMsg {
    Output { data: Bytes },
    Exited,
}

/// The JSON form of a terminal.
pub open spec fn info_json(t: TermInfo) -> Json {
    object_of(
        seq![
            ("id"@, Json::Int(t.id as int)),
            ("title"@, Json::Text(t.title@)),
            ("rows"@, Json::Int(t.rows as int)),
            ("cols"@, Json::Int(t.cols as int)),
            ("exited"@, Json::Bool(t.exited)),
        ],
    )
}

/// Writes a terminal as JSON.
pub fn info_value(t: &TermInfo) -> (v: Value)
    ensures
        json(v) == info_json(*t),
{
    let mut fields: Vec<(String, Value)> = Vec::new();
    fields.push(field("id", number(t.id)));
    fields.push(field("title", text(t.title.clone())));
    fields.push(field("rows", number(t.rows as u64)));
    fields.push(field("cols", number(t.cols as u64)));
    fields.push(field("exited", boolean(t.exited)));
    assert(fields_view(fields@) =~= seq![
        ("id"@, Json::Int(t.id as int)),
        ("title"@, Json::Text(t.title@)),
        ("rows"@, Json::Int(t.rows as int)),
        ("cols"@, Json::Int(t.cols as int)),
        ("exited"@, Json::Bool(t.exited)),
    ]);
    object(fields)
}

/// The JSON form of an event: its name under `ev`, then what it says.
pub open spec fn event_json(ev: Event) -> Json {
    match ev {
        Event::Created { term } => object_of(
            seq![("ev"@, Json::Text("created"@)), ("term"@, info_json(term))],
        ),
        Event::Removed { id } => object_of(
            seq![("ev"@, Json::Text("removed"@)), ("id"@, Json::Int(id as int))],
        ),
        Event::Exited { id } => object_of(
            seq![("ev"@, Json::Text("exited"@)), ("id"@, Json::Int(id as int))],
        ),
        Event::Title { id, title } => object_of(
            seq![
                ("ev"@, Json::Text("title"@)),
                ("id"@, Json::Int(id as int)),
                ("title"@, Json::Text(title@)),
            ],
        ),
        Event::Resized { id, rows, cols } => object_of(
            seq![
                ("ev"@, Json::Text("resized"@)),
                ("id"@, Json::Int(id as int)),
                ("rows"@, Json::Int(rows as int)),
                ("cols"@, Json::Int(cols as int)),
            ],
        ),
    }
}

fn event_name(name: &str) -> (fields: Vec<(String, Value)>)
    ensures
        fields_view(fields@) == seq![("ev"@, Json::Text(name@))],
{
    let mut fields: Vec<(String, Value)> = Vec::new();
    fields.push(field("ev", text(name.to_string())));
    assert(fields_view(fields@) =~= seq![("ev"@, Json::Text(name@))]);
    fields
}

fn add_field(fields: &mut Vec<(String, Value)>, key: &str, v: Value)
    ensures
        fields_view(final(fields)@) == fields_view(old(fields)@).push((key@, json(v))),
{
    fields.push(field(key, v));
    assert(fields_view(fields@) =~= fields_view(old(fields)@).push((key@, json(v))));
}

/// Writes an event as JSON.
pub fn event_value(ev: &Event) -> (v: Value)
    ensures
        json(v) == event_json(*ev),
{
    let fields = match ev {
        Event::Created { term } => {
            let mut f = event_name("created");
            add_field(&mut f, "term", info_value(term));
            assert(fields_view(f@) =~= seq![
                ("ev"@, Json::Text("created"@)),
                ("term"@, info_json(*term)),
            ]);
            f
        },
        Event::Removed { id } => {
            let mut f = event_name("removed");
            add_field(&mut f, "id", number(*id));
            assert(fields_view(f@) =~= seq![
                ("ev"@, Json::Text("removed"@)),
                ("id"@, Json::Int(*id as int)),
            ]);
            f
        },
        Event::Exited { id } => {
            let mut f = event_name("exited");
            add_field(&mut f, "id", number(*id));
            assert(fields_view(f@) =~= seq![
                ("ev"@, Json::Text("exited"@)),
                ("id"@, Json::Int(*id as int)),
            ]);
            f
        },
        Event::Title { id, title } => {
            let mut f = event_name("title");
            add_field(&mut f, "id", number(*id));
            add_field(&mut f, "title", text(title.clone()));
            assert(fields_view(f@) =~= seq![
                ("ev"@, Json::Text("title"@)),
                ("id"@, Json::Int(*id as int)),
                ("title"@, Json::Text(title@)),
            ]);
            f
        },
        Event::Resized { id, rows, cols } => {
            let mut f = event_name("resized");
            add_field(&mut f, "id", number(*id));
            add_field(&mut f, "rows", number(*rows as u64));
            add_field(&mut f, "cols", number(*cols as u64));
            assert(fields_view(f@) =~= seq![
                ("ev"@, Json::Text("resized"@)),
                ("id"@, Json::Int(*id as int)),
                ("rows"@, Json::Int(*rows as int)),
                ("cols"@, Json::Int(*cols as int)),
            ]);
            f
        },
    };
    object(fields)
}

/// A terminal's JSON form can be read back.
pub proof fn info_json_tame(t: TermInfo)
    ensures
        tame(info_json(t), 1),
{
    reveal_strlit("id");
    reveal_strlit("title");
    reveal_strlit("rows");
    reveal_strlit("cols");
    reveal_strlit("exited");
    tame_object(
        seq![
            ("id"@, Json::Int(t.id as int)),
            ("title"@, Json::Text(t.title@)),
            ("rows"@, Json::Int(t.rows as int)),
            ("cols"@, Json::Int(t.cols as int)),
            ("exited"@, Json::Bool(t.exited)),
        ],
        1,
    );
}

/// An event's JSON form can be read back.
pub proof fn event_json_tame(ev: Event)
    ensures
        tame(event_json(ev), 127),
{
    reveal_strlit("ev");
    reveal_strlit("term");
    reveal_strlit("id");
    reveal_strlit("title");
    reveal_strlit("rows");
    reveal_strlit("cols");
    match ev {
        Event::Created { term } => {
            info_json_tame(term);
            tame_deeper(info_json(term), 1, 126);
            tame_object(seq![("ev"@, Json::Text("created"@)), ("term"@, info_json(term))], 127);
        },
        Event::Removed { id } => tame_object(
            seq![("ev"@, Json::Text("removed"@)), ("id"@, Json::Int(id as int))],
            127,
        ),
        Event::Exited { id } => tame_object(
            seq![("ev"@, Json::Text("exited"@)), ("id"@, Json::Int(id as int))],
            127,
        ),
        Event::Title { id, title } => tame_object(
            seq![
                ("ev"@, Json::Text("title"@)),
                ("id"@, Json::Int(id as int)),
                ("title"@, Json::Text(title@)),
            ],
            127,
        ),
        Event::Resized { id, rows, cols } => tame_object(
            seq![
                ("ev"@, Json::Text("resized"@)),
                ("id"@, Json::Int(id as int)),
                ("rows"@, Json::Int(rows as int)),
                ("cols"@, Json::Int(cols as int)),
            ],
            127,
        ),
    }
}

/// Writes an event as a frame, from which it can be read back.
pub fn event_frame(ev: &Event) -> (v: Vec<u8>)
    ensures
        v@ == json_frame_bytes(event_json(*ev)),
        frame_json(v@) == Some(event_json(*ev)),
{
    let value = event_value(ev);
    proof {
        event_json_tame(*ev);
    }
    json_frame(&value)
}

// ---------- Laws ----------

/// The JSON form of a terminal tells all that is known of it, unchanged: its number, its whole title, its
/// size, and whether its process has ended.
pub proof fn info_tells_all(t: TermInfo, v: Value)
    requires
        call_ensures(info_value, (&t,), v),
    ensures
        member_of(json(v), "id"@) == Some(Json::Int(t.id as int)),
        member_of(json(v), "title"@) == Some(Json::Text(t.title@)),
        member_of(json(v), "rows"@) == Some(Json::Int(t.rows as int)),
        member_of(json(v), "cols"@) == Some(Json::Int(t.cols as int)),
        member_of(json(v), "exited"@) == Some(Json::Bool(t.exited)),
{
    info_members(t);
}

/// The members of a terminal's JSON form.
pub proof fn info_members(t: TermInfo)
    ensures
        member_of(info_json(t), "id"@) == Some(Json::Int(t.id as int)),
        member_of(info_json(t), "title"@) == Some(Json::Text(t.title@)),
        member_of(info_json(t), "rows"@) == Some(Json::Int(t.rows as int)),
        member_of(info_json(t), "cols"@) == Some(Json::Int(t.cols as int)),
        member_of(info_json(t), "exited"@) == Some(Json::Bool(t.exited)),
{
    keys_apart();
    let fields = seq![
        ("id"@, Json::Int(t.id as int)),
        ("title"@, Json::Text(t.title@)),
        ("rows"@, Json::Int(t.rows as int)),
        ("cols"@, Json::Int(t.cols as int)),
        ("exited"@, Json::Bool(t.exited)),
    ];
    object_member(fields, 0);
    object_member(fields, 1);
    object_member(fields, 2);
    object_member(fields, 3);
    object_member(fields, 4);
}

proof fn keys_apart()
    ensures
        "id"@.len() == 2 && "id"@[0] == 'i',
        "ev"@.len() == 2 && "ev"@[0] == 'e',
        "title"@.len() == 5,
        "rows"@.len() == 4 && "rows"@[0] == 'r',
        "cols"@.len() == 4 && "cols"@[0] == 'c',
        "term"@.len() == 4 && "term"@[0] == 't',
        "exited"@.len() == 6,
{
    reveal_strlit("id");
    reveal_strlit("ev");
    reveal_strlit("title");
    reveal_strlit("rows");
    reveal_strlit("cols");
    reveal_strlit("term");
    reveal_strlit("exited");
}

/// An event tells under its name what happened to which terminal, unchanged.
pub proof fn event_tells_all(ev: Event, v: Value)
    requires
        call_ensures(event_value, (&ev,), v),
    ensures
        match ev {
            Event::Created { term } => {
                &&& member_of(json(v), "ev"@) == Some(Json::Text("created"@))
                &&& member_of(json(v), "term"@) is Some
                &&& member_of(member_of(json(v), "term"@)->0, "id"@) == Some(
                    Json::Int(term.id as int),
                )
                &&& member_of(member_of(json(v), "term"@)->0, "title"@) == Some(
                    Json::Text(term.title@),
                )
                &&& member_of(member_of(json(v), "term"@)->0, "rows"@) == Some(
                    Json::Int(term.rows as int),
                )
                &&& member_of(member_of(json(v), "term"@)->0, "cols"@) == Some(
                    Json::Int(term.cols as int),
                )
                &&& member_of(member_of(json(v), "term"@)->0, "exited"@) == Some(
                    Json::Bool(term.exited),
                )
            },
            Event::Removed { id } => {
                &&& member_of(json(v), "ev"@) == Some(Json::Text("removed"@))
                &&& member_of(json(v), "id"@) == Some(Json::Int(id as int))
            },
            Event::Exited { id } => {
                &&& member_of(json(v), "ev"@) == Some(Json::Text("exited"@))
                &&& member_of(json(v), "id"@) == Some(Json::Int(id as int))
            },
            Event::Title { id, title } => {
                &&& member_of(json(v), "ev"@) == Some(Json::Text("title"@))
                &&& member_of(json(v), "id"@) == Some(Json::Int(id as int))
                &&& member_of(json(v), "title"@) == Some(Json::Text(title@))
            },
            Event::Resized { id, rows, cols } => {
                &&& member_of(json(v), "ev"@) == Some(Json::Text("resized"@))
                &&& member_of(json(v), "id"@) == Some(Json::Int(id as int))
                &&& member_of(json(v), "rows"@) == Some(Json::Int(rows as int))
                &&& member_of(json(v), "cols"@) == Some(Json::Int(cols as int))
            },
        },
{
    keys_apart();
    match ev {
        Event::Created { term } => {
            let fields = seq![("ev"@, Json::Text("created"@)), ("term"@, info_json(term))];
            object_member(fields, 0);
            object_member(fields, 1);
            info_members(term);
        },
        Event::Removed { id } => {
            let fields = seq![("ev"@, Json::Text("removed"@)), ("id"@, Json::Int(id as int))];
            object_member(fields, 0);
            object_member(fields, 1);
        },
        Event::Exited { id } => {
            let fields = seq![("ev"@, Json::Text("exited"@)), ("id"@, Json::Int(id as int))];
            object_member(fields, 0);
            object_member(fields, 1);
        },
        Event::Title { id, title } => {
            let fields = seq![
                ("ev"@, Json::Text("title"@)),
                ("id"@, Json::Int(id as int)),
                ("title"@, Json::Text(title@)),
            ];
            object_member(fields, 0);
            object_member(fields, 1);
            object_member(fields, 2);
        },
        Event::Resized { id, rows, cols } => {
            let fields = seq![
                ("ev"@, Json::Text("resized"@)),
                ("id"@, Json::Int(id as int)),
                ("rows"@, Json::Int(rows as int)),
                ("cols"@, Json::Int(cols as int)),
            ];
            object_member(fields, 0);
            object_member(fields, 1);
            object_member(fields, 2);
            object_member(fields, 3);
        },
    }
}

/// An event that goes out in a frame is the event that is read from it.
pub proof fn event_arrives(ev: Event, v: Vec<u8>)
    requires
        call_ensures(event_frame, (&ev,), v),
    ensures
        frame_json(v@) == Some(event_json(ev)),
        v@[0] == 1,
{
}

}
