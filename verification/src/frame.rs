//! Frames of the wire protocol: `[type: u8][terminal: u32, little endian][payload]`.
//!
//! Type 0 carries raw terminal bytes, type 1 carries JSON. Long output is cut into slices, so that
//! no single frame holds up the connection that all terminals share.

use crate::json::{json, json_read, json_text, parse, render, tame, Json};
use bytes::Bytes;
use serde_json::Value;
use vstd::prelude::*;
use vstd::utf8::encode_utf8;

verus! {

/// The kind of a frame of terminal bytes.
pub const FT_BYTES: u8 = 0;

/// The kind of a frame of JSON.
pub const FT_JSON: u8 = 1;

/// The most payload bytes in one frame of output.
pub const SLICE: usize = 32768;

// ---------- Shared byte buffers ----------

/// An opaque shared byte buffer (`bytes::Bytes`).
#[verifier::external_type_specification]
#[verifier::external_body]
pub struct ExBytes(Bytes);

/// The bytes in a buffer.
pub uninterp spec fn bytes_of(b: Bytes) -> Seq<u8>;

/// Makes a buffer of a vector (`Bytes::from`): it holds the vector's bytes.
#[verifier::external_body]
pub(crate) fn bytes_from(v: Vec<u8>) -> (b: Bytes)
    ensures
        bytes_of(b) == v@,
{
    Bytes::from(v)
}

/// The bytes in a buffer as a slice (`Bytes` dereferenced).
#[verifier::external_body]
pub(crate) fn bytes_slice(b: &Bytes) -> (s: &[u8])
    ensures
        s@ == bytes_of(*b),
{
    &b[..]
}

/// The buffer behind the first `start` bytes (`Bytes::slice`), which panics if there are fewer.
#[verifier::external_body]
pub(crate) fn bytes_behind(b: &Bytes, start: usize) -> (rest: Bytes)
    requires
        start <= bytes_of(*b).len(),
    ensures
        bytes_of(rest) == bytes_of(*b).skip(start as int),
{
    b.slice(start..)
}

// ---------- Writing frames ----------

/// The low 32 bits of a terminal's number, least significant byte first.
pub open spec fn id_bytes(id: int) -> Seq<u8> {
    seq![
        (id % 256) as u8,
        (id / 256 % 256) as u8,
        (id / 65536 % 256) as u8,
        (id / 16777216 % 256) as u8,
    ]
}

/// The bytes of a frame.
pub open spec fn frame_bytes(kind: u8, id: int, payload: Seq<u8>) -> Seq<u8> {
    seq![kind] + id_bytes(id) + payload
}

/// Writes a frame.
pub fn frame(ft: u8, id: u64, payload: &[u8]) -> (v: Vec<u8>)
    ensures
        v@ == frame_bytes(ft, id as int, payload@),
{
    let mut v: Vec<u8> = Vec::new();
    v.push(ft);
    v.push((id % 256) as u8);
    v.push((id / 256 % 256) as u8);
    v.push((id / 65536 % 256) as u8);
    v.push((id / 16777216 % 256) as u8);
    v.extend_from_slice(payload);
    assert(v@ =~= frame_bytes(ft, id as int, payload@));
    v
}

/// The bytes of a frame that carries a JSON document.
pub open spec fn json_frame_bytes(j: Json) -> Seq<u8> {
    frame_bytes(FT_JSON, 0, encode_utf8(json_text(j)))
}

/// Writes a JSON document as a frame; the terminal's number is 0.
pub fn json_frame(value: &Value) -> (v: Vec<u8>)
    ensures
        v@ == json_frame_bytes(json(*value)),
        tame(json(*value), 127) ==> frame_json(v@) == Some(json(*value)),
{
    let s = render(value);
    let v = frame(FT_JSON, 0, s.as_str().as_bytes());
    proof {
        frame_reads_back(FT_JSON, 0, encode_utf8(s@));
    }
    v
}

/// Writes terminal bytes as a frame.
pub fn bytes_frame(term_id: u64, data: &[u8]) -> (v: Vec<u8>)
    ensures
        v@ == frame_bytes(FT_BYTES, term_id as int, data@),
{
    frame(FT_BYTES, term_id, data)
}

// ---------- Reading frames ----------

/// A frame taken apart.
pub struct Frame {
    pub kind: u8,
    pub id: u64,
    pub payload: Bytes,
}

/// The terminal's number in a message of at least five bytes.
pub open spec fn frame_id(msg: Seq<u8>) -> int {
    msg[1] + 256 * msg[2] + 65536 * msg[3] + 16777216 * msg[4]
}

/// Takes a frame apart; a message of fewer than five bytes is no frame.
pub fn decode(b: &Bytes) -> (r: Option<Frame>)
    ensures
        match r {
            Some(f) => {
                &&& bytes_of(*b).len() >= 5
                &&& f.kind == bytes_of(*b)[0]
                &&& f.id == frame_id(bytes_of(*b))
                &&& bytes_of(f.payload) == bytes_of(*b).skip(5)
            },
            None => bytes_of(*b).len() < 5,
        },
{
    let s = bytes_slice(b);
    if s.len() < 5 {
        return None;
    }
    let id: u64 = s[1] as u64 + 256 * (s[2] as u64) + 65536 * (s[3] as u64) + 16777216 * (
    s[4] as u64);
    Some(Frame { kind: s[0], id, payload: bytes_behind(b, 5) })
}

/// The JSON document that a message carries: nothing if it is no frame, another kind of frame, or
/// no JSON.
pub open spec fn frame_json(msg: Seq<u8>) -> Option<Json> {
    if msg.len() >= 5 && msg[0] == FT_JSON {
        json_read(msg.skip(5))
    } else {
        None
    }
}

/// Reads the JSON document out of a message.
pub fn decode_json(b: &Bytes) -> (r: Option<Value>)
    ensures
        match r {
            Some(v) => frame_json(bytes_of(*b)) == Some(json(v)),
            None => frame_json(bytes_of(*b)) is None,
        },
{
    match decode(b) {
        Some(f) => if f.kind == FT_JSON {
            parse(bytes_slice(&f.payload))
        } else {
            None
        },
        None => None,
    }
}

/// A frame is read back as it was written: its kind, its payload, and the low 32 bits of the
/// terminal's number, which is the whole number as long as that is below 2^32.
pub proof fn frame_reads_back(kind: u8, id: u64, payload: Seq<u8>)
    ensures
        frame_bytes(kind, id as int, payload).len() == 5 + payload.len(),
        frame_bytes(kind, id as int, payload)[0] == kind,
        frame_id(frame_bytes(kind, id as int, payload)) == id % 0x1_0000_0000,
        frame_bytes(kind, id as int, payload).skip(5) == payload,
{
    let msg = frame_bytes(kind, id as int, payload);
    assert(msg.skip(5) =~= payload);
    assert(msg[1] == id % 256);
    assert(msg[2] == id / 256 % 256);
    assert(msg[3] == id / 65536 % 256);
    assert(msg[4] == id / 16777216 % 256);
    low_bytes(id as int);
}

proof fn low_bytes(id: int)
    requires
        0 <= id,
    ensures
        id % 256 + 256 * (id / 256 % 256) + 65536 * (id / 65536 % 256) + 16777216 * (id / 16777216
            % 256) == id % 0x1_0000_0000,
{
    let a = id / 256;
    let b = a / 256;
    let c = b / 256;
    let d = c / 256;
    assert(id == 256 * a + id % 256);
    assert(a == 256 * b + a % 256);
    assert(b == 256 * c + b % 256);
    assert(c == 256 * d + c % 256);
    assert(id / 65536 == b);
    assert(id / 16777216 == c);
    assert(id == 0x1_0000_0000 * d + (id % 256 + 256 * (a % 256) + 65536 * (b % 256) + 16777216 * (c
        % 256)));
}

/// Every message of at least five bytes is a frame: written again from its parts, it is the same.
pub proof fn frame_writes_back(msg: Seq<u8>)
    requires
        msg.len() >= 5,
    ensures
        frame_bytes(msg[0], frame_id(msg), msg.skip(5)) == msg,
{
    let id = frame_id(msg);
    assert(id % 256 == msg[1]);
    assert(id / 256 % 256 == msg[2]);
    assert(id / 65536 % 256 == msg[3]);
    assert(id / 16777216 % 256 == msg[4]);
    assert(frame_bytes(msg[0], id, msg.skip(5)) =~= msg);
}

// ---------- Slicing ----------

/// `data` cut into slices of `SLICE` bytes, with what is left in the last one.
pub open spec fn slices(data: Seq<u8>) -> Seq<Seq<u8>>
    decreases data.len(),
{
    if data.len() == 0 {
        seq![]
    } else if data.len() <= SLICE {
        seq![data]
    } else {
        seq![data.take(SLICE as int)] + slices(data.skip(SLICE as int))
    }
}

/// The frames that carry `data` for terminal `id`.
pub open spec fn output_frames(id: int, data: Seq<u8>) -> Seq<Seq<u8>> {
    slices(data).map_values(|s: Seq<u8>| frame_bytes(FT_BYTES, id, s))
}

/// The bytes of the messages in a vector.
pub open spec fn messages(v: Seq<Bytes>) -> Seq<Seq<u8>> {
    v.map_values(|b: Bytes| bytes_of(b))
}

/// Writes terminal output as frames, each with at most `SLICE` bytes of it.
pub fn slice_frames(id: u64, data: &[u8]) -> (out: Vec<Bytes>)
    ensures
        messages(out@) == output_frames(id as int, data@),
{
    let mut out: Vec<Bytes> = Vec::new();
    let mut at: usize = 0;
    assert(data@.skip(0) == data@);
    assert(messages(out@) + output_frames(id as int, data@) =~= output_frames(id as int, data@));
    while at < data.len()
        invariant
            at <= data@.len(),
            messages(out@) + output_frames(id as int, data@.skip(at as int)) == output_frames(
                id as int,
                data@,
            ),
        decreases data@.len() - at,
    {
        let ghost rest = data@.skip(at as int);
        let ghost before = messages(out@);
        let end: usize = if data.len() - at <= SLICE {
            data.len()
        } else {
            at + SLICE
        };
        let piece = vstd::slice::slice_subrange(data, at, end);
        let b = bytes_from(frame(FT_BYTES, id, piece));
        let ghost old_out = out@;
        out.push(b);
        proof {
            assert(messages(out@) =~= before.push(bytes_of(b)));
            assert(rest.skip(end - at) =~= data@.skip(end as int));
            if rest.len() <= SLICE {
                assert(piece@ =~= rest);
                assert(slices(data@.skip(end as int)) =~= seq![]);
            } else {
                assert(piece@ =~= rest.take(SLICE as int));
            }
            assert(slices(rest) =~= seq![piece@] + slices(data@.skip(end as int)));
            assert(output_frames(id as int, rest) =~= seq![bytes_of(b)] + output_frames(
                id as int,
                data@.skip(end as int),
            ));
            assert(messages(out@) + output_frames(id as int, data@.skip(end as int)) =~= before
                + output_frames(id as int, rest));
        }
        at = end;
    }
    assert(output_frames(id as int, data@.skip(at as int)) =~= seq![]);
    assert(messages(out@) + output_frames(id as int, data@.skip(at as int)) =~= messages(out@));
    out
}

/// Slicing loses nothing and keeps the order: the slices in a row are the data again. No slice is
/// empty or longer than `SLICE`.
pub proof fn slices_rejoin(data: Seq<u8>)
    ensures
        slices(data).flatten() == data,
        forall|i: int|
            0 <= i < slices(data).len() ==> 0 < (#[trigger] slices(data)[i]).len() <= SLICE,
    decreases data.len(),
{
    let parts = slices(data);
    if data.len() > SLICE {
        let rest = data.skip(SLICE as int);
        slices_rejoin(rest);
        assert(parts.first() == data.take(SLICE as int));
        assert(parts.drop_first() =~= slices(rest));
        assert(data.take(SLICE as int) + rest =~= data);
        assert forall|i: int| 0 <= i < parts.len() implies 0 < (#[trigger] parts[i]).len()
            <= SLICE by {
            if i > 0 {
                assert(parts[i] == slices(rest)[i - 1]);
            }
        }
    } else if data.len() > 0 {
        assert(parts.drop_first() =~= seq![]);
        assert(parts.first() == data);
        assert(parts.drop_first().flatten() =~= seq![]);
        assert(data + Seq::<u8>::empty() =~= data);
    }
}

/// All slices are full but for the last, which holds what is left.
pub proof fn slices_full(data: Seq<u8>)
    ensures
        forall|i: int|
            0 <= i < slices(data).len() - 1 ==> (#[trigger] slices(data)[i]).len() == SLICE,
        data.len() > 0 ==> slices(data).len() > 0 && slices(data).last().len() == if data.len()
            % (SLICE as nat) == 0 {
            SLICE as nat
        } else {
            data.len() % (SLICE as nat)
        },
    decreases data.len(),
{
    let parts = slices(data);
    if data.len() > SLICE {
        let rest = data.skip(SLICE as int);
        slices_full(rest);
        assert(parts =~= seq![data.take(SLICE as int)] + slices(rest));
        assert(parts.last() == slices(rest).last());
        assert(rest.len() % (SLICE as nat) == data.len() % (SLICE as nat));
        assert forall|i: int| 0 <= i < parts.len() - 1 implies (#[trigger] parts[i]).len()
            == SLICE by {
            if i > 0 {
                assert(parts[i] == slices(rest)[i - 1]);
            }
        }
    }
}

/// A frame on the wire: one byte for the kind, four for the low 32 bits of the terminal's number with the
/// least significant first, and then the payload, whole.
pub proof fn frame_layout(ft: u8, id: u64, payload: &[u8], v: Vec<u8>)
    requires
        call_ensures(frame, (ft, id, payload), v),
    ensures
        v@.len() == 5 + payload@.len(),
        v@[0] == ft,
        v@[1] + 0x100 * v@[2] + 0x1_0000 * v@[3] + 0x100_0000 * v@[4] == id % 0x1_0000_0000,
        v@.skip(5) == payload@,
{
    frame_reads_back(ft, id, payload@);
}

/// Terminal bytes go in frames of kind 0, and JSON in frames of kind 1 without a terminal.
pub proof fn frame_kinds(id: u64, data: &[u8], v: Vec<u8>, value: Value, w: Vec<u8>)
    requires
        call_ensures(bytes_frame, (id, data), v),
        call_ensures(json_frame, (&value,), w),
    ensures
        v@[0] == 0,
        v@[1] + 0x100 * v@[2] + 0x1_0000 * v@[3] + 0x100_0000 * v@[4] == id % 0x1_0000_0000,
        v@.skip(5) == data@,
        w@.take(5) == seq![1u8, 0u8, 0u8, 0u8, 0u8],
        w@.skip(5) == encode_utf8(json_text(json(value))),
{
    frame_reads_back(FT_BYTES, id, data@);
    frame_reads_back(FT_JSON, 0, encode_utf8(json_text(json(value))));
    assert(w@.take(5) =~= seq![1u8, 0u8, 0u8, 0u8, 0u8]);
}

/// What was written as a frame is taken apart into what went into it.
pub proof fn frame_comes_apart(ft: u8, id: u64, payload: &[u8], v: Vec<u8>, b: Bytes, r: Option<Frame>)
    requires
        call_ensures(frame, (ft, id, payload), v),
        bytes_of(b) == v@,
        call_ensures(decode, (&b,), r),
    ensures
        r matches Some(f) && f.kind == ft && f.id == id % 0x1_0000_0000 && bytes_of(f.payload)
            == payload@,
{
    frame_reads_back(ft, id, payload@);
}

/// A message is taken apart byte by byte: the kind first, then the terminal's number with its least
/// significant byte first, then the rest. A message of fewer than five bytes is no frame.
pub proof fn message_comes_apart(b: Bytes, r: Option<Frame>)
    requires
        call_ensures(decode, (&b,), r),
    ensures
        r is Some <==> bytes_of(b).len() >= 5,
        r matches Some(f) ==> {
            let m = bytes_of(b);
            &&& f.kind == m[0]
            &&& f.id == m[1] + 0x100 * m[2] + 0x1_0000 * m[3] + 0x100_0000 * m[4]
            &&& m == m.take(5) + bytes_of(f.payload)
        },
{
    let m = bytes_of(b);
    if m.len() >= 5 {
        assert(m =~= m.take(5) + m.skip(5));
    }
}

/// A document that goes into a frame comes out of it again.
pub proof fn document_comes_back(v: Value, w: Vec<u8>, b: Bytes, r: Option<Value>)
    requires
        tame(json(v), 127),
        call_ensures(json_frame, (&v,), w),
        bytes_of(b) == w@,
        call_ensures(decode_json, (&b,), r),
    ensures
        r matches Some(x) && json(x) == json(v),
{
}

/// What a row of messages carries behind the five bytes in front of each.
pub open spec fn payloads(msgs: Seq<Seq<u8>>) -> Seq<u8> {
    msgs.map_values(|m: Seq<u8>| m.skip(5)).flatten()
}

/// All output of a terminal arrives, once and in order: the frames that it is written as are of kind 0,
/// name the terminal, carry 32 KiB each but for the last, which carries what is left, and carry the output
/// when put together, whatever its length.
pub proof fn output_is_carried(id: u64, data: &[u8], out: Vec<Bytes>)
    requires
        call_ensures(slice_frames, (id, data), out),
    ensures
        payloads(messages(out@)) == data@,
        forall|i: int|
            0 <= i < out@.len() ==> {
                let m = bytes_of(#[trigger] out@[i]);
                &&& 5 < m.len() <= 5 + 32768
                &&& m[0] == 0
                &&& m[1] + 0x100 * m[2] + 0x1_0000 * m[3] + 0x100_0000 * m[4] == id % 0x1_0000_0000
                &&& i < out@.len() - 1 ==> m.len() == 5 + 32768
            },
{
    output_payloads(id, data@);
    slices_rejoin(data@);
    slices_full(data@);
    let parts = slices(data@);
    assert forall|i: int| 0 <= i < out@.len() implies {
        let m = bytes_of(#[trigger] out@[i]);
        &&& 5 < m.len() <= 5 + 32768
        &&& m[0] == 0
        &&& m[1] + 0x100 * m[2] + 0x1_0000 * m[3] + 0x100_0000 * m[4] == id % 0x1_0000_0000
        &&& i < out@.len() - 1 ==> m.len() == 5 + 32768
    } by {
        assert(messages(out@)[i] == bytes_of(out@[i]));
        assert(output_frames(id as int, data@)[i] == frame_bytes(FT_BYTES, id as int, parts[i]));
        frame_reads_back(FT_BYTES, id, parts[i]);
    }
}

/// The frames that carry some output carry all of it.
pub proof fn output_payloads(id: u64, data: Seq<u8>)
    ensures
        payloads(output_frames(id as int, data)) == data,
{
    let parts = slices(data);
    let msgs = output_frames(id as int, data);
    assert forall|i: int| 0 <= i < parts.len() implies #[trigger] msgs[i].skip(5) == parts[i] by {
        frame_reads_back(FT_BYTES, id, parts[i]);
    }
    assert(msgs.map_values(|m: Seq<u8>| m.skip(5)) =~= parts);
    slices_rejoin(data);
}

/// A row of messages is seen as it is.
pub proof fn messages_are_seen_whole(v: Seq<Bytes>)
    ensures
        messages(v).len() == v.len(),
        forall|i: int| 0 <= i < v.len() ==> #[trigger] messages(v)[i] == bytes_of(v[i]),
{
}

}
