use bytes::Bytes;
use livetty::frame::{
    bytes_frame, decode, decode_json, frame, json_frame, slice_frames, FT_BYTES, FT_JSON, SLICE,
};
use serde_json::Value;

#[test]
fn frame_layout() {
    assert_eq!(frame(1, 0x0403_0201, b"ab"), vec![1, 1, 2, 3, 4, b'a', b'b']);
    assert_eq!(frame(0, 0x1_0000_0007, b""), vec![0, 7, 0, 0, 0]);
    assert_eq!(bytes_frame(258, b"x"), vec![FT_BYTES, 2, 1, 0, 0, b'x']);
}

#[test]
fn frames_are_read_back() {
    for id in [0u64, 1, 255, 256, 65536, 0xffff_ffff] {
        let f = decode(&Bytes::from(frame(7, id, b"payload"))).unwrap();
        assert_eq!(f.kind, 7);
        assert_eq!(f.id, id);
        assert_eq!(&f.payload[..], b"payload");
    }
    let wrapped = decode(&Bytes::from(frame(0, 0x1_0000_0005, b""))).unwrap();
    assert_eq!(wrapped.id, 5);
}

#[test]
fn short_messages_are_no_frames() {
    assert!(decode(&Bytes::from_static(b"")).is_none());
    assert!(decode(&Bytes::from_static(b"\x00\x01\x02\x03")).is_none());
    assert!(decode(&Bytes::from_static(b"\x00\x01\x02\x03\x04")).is_some());
}

#[test]
fn json_frames() {
    let v: Value = serde_json::from_str("{\"b\":[1,null,true],\"a\":\"x\\n\u{e9}\"}").unwrap();
    let f = json_frame(&v);
    assert_eq!(&f[..5], &[FT_JSON, 0, 0, 0, 0]);
    assert_eq!(std::str::from_utf8(&f[5..]).unwrap(), "{\"a\":\"x\\n\u{e9}\",\"b\":[1,null,true]}");
    assert_eq!(decode_json(&Bytes::from(f)), Some(v));
    assert_eq!(decode_json(&Bytes::from(frame(FT_JSON, 0, b"{nope"))), None);
    assert_eq!(decode_json(&Bytes::from(frame(FT_BYTES, 0, b"{}"))), None);
    assert_eq!(decode_json(&Bytes::from_static(b"\x01{}")), None);
}

#[test]
fn reserved_key_is_not_read_back() {
    let mut v = Value::Object(serde_json::Map::new());
    v["$serde_json::private::RawValue"] = Value::from("7");
    let f = json_frame(&v);
    assert_eq!(&f[5..], b"{\"$serde_json::private::RawValue\":\"7\"}");
    assert_eq!(decode_json(&Bytes::from(f)), Some(Value::from(7u64)));
}

#[test]
fn output_is_sliced() {
    assert!(slice_frames(3, b"").is_empty());
    for n in [1usize, SLICE - 1, SLICE, SLICE + 1, 3 * SLICE, 3 * SLICE + 5] {
        let data: Vec<u8> = (0..n).map(|i| (i % 251) as u8).collect();
        let frames = slice_frames(3, &data);
        assert_eq!(frames.len(), n.div_ceil(SLICE));
        let mut joined = Vec::new();
        for m in &frames {
            let f = decode(m).unwrap();
            assert_eq!((f.kind, f.id), (FT_BYTES, 3));
            assert!(!f.payload.is_empty() && f.payload.len() <= SLICE);
            joined.extend_from_slice(&f.payload);
        }
        assert_eq!(joined, data);
    }
}
