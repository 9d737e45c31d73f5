//! What the command line client types into a terminal: escapes in text, and named keys.

use crate::text::{
    behind_prefix, char_bytes, chars_of, hex_pair, spells, split, split_on, strip_prefix, trim, trimmed,
    utf8_bytes,
};
use vstd::prelude::*;
use vstd::utf8::*;

verus! {

pub const ESC: u8 = 0x1b;

// ---------- Escapes ----------

/// The value of a hexadecimal digit.
pub open spec fn hex_value(c: char) -> Option<int> {
    let n = c as int;
    if 48 <= n <= 57 {
        Some(n - 48)
    } else if 97 <= n <= 102 {
        Some(n - 87)
    } else if 65 <= n <= 70 {
        Some(n - 55)
    } else {
        None
    }
}

/// The byte that two characters stand for in hexadecimal, where a plus sign may take the place of
/// the first digit; anything else stands for a question mark.
pub open spec fn hex_byte(h1: char, h2: char) -> u8 {
    match (hex_value(h1), hex_value(h2)) {
        (Some(a), Some(b)) => (16 * a + b) as u8,
        (None, Some(b)) => if h1 == '+' {
            b as u8
        } else {
            0x3f
        },
        _ => 0x3f,
    }
}

/// What a backslash and `c` stand for, `c` being no `x`: an unknown escape stands for itself.
pub open spec fn escape_bytes(c: char) -> Seq<u8> {
    if c == 'n' {
        seq![0x0a]
    } else if c == 'r' {
        seq![0x0d]
    } else if c == 't' {
        seq![0x09]
    } else if c == '\\' {
        seq![0x5c]
    } else if c == '0' {
        seq![0x00]
    } else if c == 'e' {
        seq![0x1b]
    } else {
        seq![0x5c] + encode_scalar(c as u32)
    }
}

/// Text with its escapes expanded, as bytes. Missing digits of a hexadecimal escape count as
/// zeros; a backslash at the end stands for itself.
pub open spec fn unescaped(s: Seq<char>) -> Seq<u8>
    decreases s.len(),
{
    if s.len() == 0 {
        seq![]
    } else if s[0] != '\\' {
        encode_scalar(s[0] as u32) + unescaped(s.skip(1))
    } else if s.len() == 1 {
        seq![0x5c]
    } else if s[1] != 'x' {
        escape_bytes(s[1]) + unescaped(s.skip(2))
    } else {
        let h1 = if s.len() > 2 { s[2] } else { '0' };
        let h2 = if s.len() > 3 { s[3] } else { '0' };
        seq![hex_byte(h1, h2)] + unescaped(s.skip(if s.len() > 4 { 4 } else { s.len() as int }))
    }
}

fn hex_digit_value(c: char) -> (r: Option<u8>)
    ensures
        match r {
            Some(v) => v < 16 && hex_value(c) == Some(v as int),
            None => hex_value(c) is None,
        },
{
    let n: u32 = c as u32;
    if 48 <= n && n <= 57 {
        Some((n - 48) as u8)
    } else if 97 <= n && n <= 102 {
        Some((n - 87) as u8)
    } else if 65 <= n && n <= 70 {
        Some((n - 55) as u8)
    } else {
        None
    }
}

fn hex_byte_value(h1: char, h2: char) -> (b: u8)
    ensures
        b == hex_byte(h1, h2),
{
    match (hex_digit_value(h1), hex_digit_value(h2)) {
        (Some(a), Some(b)) => 16 * a + b,
        (None, Some(b)) => if h1 == '+' {
            b
        } else {
            0x3f
        },
        _ => 0x3f,
    }
}

fn escape_value(c: char) -> (out: Vec<u8>)
    ensures
        out@ == escape_bytes(c),
{
    let mut out: Vec<u8> = Vec::new();
    if c == 'n' {
        out.push(0x0a);
    } else if c == 'r' {
        out.push(0x0d);
    } else if c == 't' {
        out.push(0x09);
    } else if c == '\\' {
        out.push(0x5c);
    } else if c == '0' {
        out.push(0x00);
    } else if c == 'e' {
        out.push(0x1b);
    } else {
        out.push(0x5c);
        let mut more = char_bytes(c);
        out.append(&mut more);
    }
    assert(out@ =~= escape_bytes(c));
    out
}

/// Expands a small set of C-style escapes (`\n \r \t \\ \0 \e \xHH`) in `s`.
pub fn unescape(s: &str) -> (out: Vec<u8>)
    ensures
        out@ == unescaped(s@),
{
    let chars = chars_of(s);
    let mut out: Vec<u8> = Vec::new();
    let mut i: usize = 0;
    assert(chars@.skip(0) =~= chars@);
    assert(out@ + unescaped(chars@) =~= unescaped(chars@));
    while i < chars.len()
        invariant
            i <= chars@.len(),
            out@ + unescaped(chars@.skip(i as int)) == unescaped(chars@),
        decreases chars@.len() - i,
    {
        let ghost rest = chars@.skip(i as int);
        let ghost before = out@;
        let left: usize = chars.len() - i;
        let mut piece: Vec<u8>;
        let used: usize;
        if chars[i] != '\\' {
            piece = char_bytes(chars[i]);
            used = 1;
        } else if left == 1 {
            piece = Vec::new();
            piece.push(0x5c);
            used = 1;
            assert(rest.skip(1) =~= seq![]);
            assert(unescaped(rest) =~= piece@ + unescaped(rest.skip(1)));
        } else if chars[i + 1] != 'x' {
            piece = escape_value(chars[i + 1]);
            used = 2;
        } else {
            let h1: char = if left > 2 { chars[i + 2] } else { '0' };
            let h2: char = if left > 3 { chars[i + 3] } else { '0' };
            piece = Vec::new();
            piece.push(hex_byte_value(h1, h2));
            used = if left > 4 { 4 } else { left };
            assert(piece@ =~= seq![hex_byte(h1, h2)]);
        }
        assert(unescaped(rest) == piece@ + unescaped(rest.skip(used as int)));
        assert(rest.skip(used as int) =~= chars@.skip(i + used));
        let ghost got = piece@;
        out.append(&mut piece);
        assert(before + (got + unescaped(chars@.skip(i + used))) =~= (before + got) + unescaped(
            chars@.skip(i + used),
        ));
        i += used;
    }
    assert(chars@.skip(i as int) =~= seq![]);
    assert(out@ + unescaped(chars@.skip(i as int)) =~= out@);
    out
}

/// Text without a backslash is sent as it is, in UTF-8.
pub proof fn plain_text_unchanged(s: Seq<char>)
    requires
        !s.contains('\\'),
    ensures
        unescaped(s) == encode_utf8(s),
    decreases s.len(),
{
    if s.len() > 0 {
        assert(s[0] != '\\');
        assert(s.skip(1) =~= s.drop_first());
        assert(!s.skip(1).contains('\\')) by {
            if s.skip(1).contains('\\') {
                let k = choose|k: int| 0 <= k < s.skip(1).len() && s.skip(1)[k] == '\\';
                assert(s[k + 1] == '\\');
            }
        }
        plain_text_unchanged(s.skip(1));
    }
}

/// Text with every backslash doubled.
pub open spec fn doubled(s: Seq<char>) -> Seq<char>
    decreases s.len(),
{
    if s.len() == 0 {
        seq![]
    } else if s[0] == '\\' {
        seq!['\\', '\\'] + doubled(s.skip(1))
    } else {
        seq![s[0]] + doubled(s.skip(1))
    }
}

/// Any text can be sent: with its backslashes doubled it arrives unchanged.
pub proof fn doubled_arrives(s: Seq<char>)
    ensures
        unescaped(doubled(s)) == encode_utf8(s),
    decreases s.len(),
{
    if s.len() > 0 {
        doubled_arrives(s.skip(1));
        assert(s.skip(1) =~= s.drop_first());
        let d = doubled(s);
        if s[0] == '\\' {
            assert(d.skip(2) =~= doubled(s.skip(1)));
            assert(encode_scalar('\\' as u32) =~= seq![0x5cu8]) by {
                assert('\\' as u32 == 0x5cu32);
                assert(0x5cu32 & 0x7f == 0x5cu32) by (bit_vector);
            }
        } else {
            assert(d.skip(1) =~= doubled(s.skip(1)));
        }
    }
}

// ---------- Named keys ----------

/// What follows `C-` or `Ctrl-`.
pub open spec fn behind_ctrl(k: Seq<char>) -> Option<Seq<char>> {
    match behind_prefix(k, seq!['C', '-']) {
        Some(rest) => Some(rest),
        None => behind_prefix(k, seq!['C', 't', 'r', 'l', '-']),
    }
}

/// What follows `M-` or `Alt-`.
pub open spec fn behind_alt(k: Seq<char>) -> Option<Seq<char>> {
    match behind_prefix(k, seq!['M', '-']) {
        Some(rest) => Some(rest),
        None => behind_prefix(k, seq!['A', 'l', 't', '-']),
    }
}

/// The byte that a character gives together with the control key: the place of a letter in the
/// alphabet, in either case, and the usual codes for a few others.
pub open spec fn control_byte(c: char) -> Option<u8> {
    let n = c as int;
    if 97 <= n <= 122 {
        Some((n - 96) as u8)
    } else if 65 <= n <= 90 {
        Some((n - 64) as u8)
    } else if c == '@' || c == ' ' {
        Some(0x00)
    } else if c == '[' {
        Some(0x1b)
    } else if c == '\\' {
        Some(0x1c)
    } else if c == ']' {
        Some(0x1d)
    } else if c == '^' {
        Some(0x1e)
    } else if c == '_' {
        Some(0x1f)
    } else if c == '?' {
        Some(0x7f)
    } else {
        None
    }
}

/// The bytes of a key that has a name of its own.
pub open spec fn named_key(k: Seq<char>) -> Option<Seq<u8>> {
    if k == "Enter"@ || k == "Return"@ || k == "CR"@ {
        Some(seq![0x0d])
    } else if k == "Tab"@ {
        Some(seq![0x09])
    } else if k == "Backspace"@ || k == "BS"@ {
        Some(seq![0x7f])
    } else if k == "Space"@ {
        Some(seq![0x20])
    } else if k == "Esc"@ || k == "Escape"@ {
        Some(seq![0x1b])
    } else if k == "Up"@ {
        Some(seq![0x1b, 0x5b, 0x41])
    } else if k == "Down"@ {
        Some(seq![0x1b, 0x5b, 0x42])
    } else if k == "Right"@ {
        Some(seq![0x1b, 0x5b, 0x43])
    } else if k == "Left"@ {
        Some(seq![0x1b, 0x5b, 0x44])
    } else if k == "Home"@ {
        Some(seq![0x1b, 0x5b, 0x48])
    } else if k == "End"@ {
        Some(seq![0x1b, 0x5b, 0x46])
    } else if k == "PgUp"@ || k == "PageUp"@ {
        Some(seq![0x1b, 0x5b, 0x35, 0x7e])
    } else if k == "PgDn"@ || k == "PageDown"@ {
        Some(seq![0x1b, 0x5b, 0x36, 0x7e])
    } else if k == "Delete"@ || k == "Del"@ {
        Some(seq![0x1b, 0x5b, 0x33, 0x7e])
    } else {
        function_key(k)
    }
}

/// The bytes of a function key.
pub open spec fn function_key(k: Seq<char>) -> Option<Seq<u8>> {
    if k == "F1"@ {
        Some(seq![0x1b, 0x4f, 0x50])
    } else if k == "F2"@ {
        Some(seq![0x1b, 0x4f, 0x51])
    } else if k == "F3"@ {
        Some(seq![0x1b, 0x4f, 0x52])
    } else if k == "F4"@ {
        Some(seq![0x1b, 0x4f, 0x53])
    } else if k == "F5"@ {
        Some(seq![0x1b, 0x5b, 0x31, 0x35, 0x7e])
    } else if k == "F6"@ {
        Some(seq![0x1b, 0x5b, 0x31, 0x37, 0x7e])
    } else if k == "F7"@ {
        Some(seq![0x1b, 0x5b, 0x31, 0x38, 0x7e])
    } else if k == "F8"@ {
        Some(seq![0x1b, 0x5b, 0x31, 0x39, 0x7e])
    } else if k == "F9"@ {
        Some(seq![0x1b, 0x5b, 0x32, 0x30, 0x7e])
    } else if k == "F10"@ {
        Some(seq![0x1b, 0x5b, 0x32, 0x31, 0x7e])
    } else if k == "F11"@ {
        Some(seq![0x1b, 0x5b, 0x32, 0x33, 0x7e])
    } else if k == "F12"@ {
        Some(seq![0x1b, 0x5b, 0x32, 0x34, 0x7e])
    } else {
        None
    }
}

/// The bytes that a terminal expects for a key or a key combination. A control combination has one
/// character behind its prefix; behind the alt prefix stands a key, or else any text.
pub open spec fn key_bytes(k: Seq<char>) -> Option<Seq<u8>>
    decreases k.len(),
{
    if behind_ctrl(k) matches Some(rest) && rest.len() == 1 {
        match control_byte(behind_ctrl(k)->0[0]) {
            Some(b) => Some(seq![b]),
            None => None,
        }
    } else {
        match behind_alt(k) {
            Some(rest) => match key_bytes(rest) {
                Some(inner) => Some(seq![ESC] + inner),
                None => Some(seq![ESC] + encode_utf8(rest)),
            },
            None => named_key(k),
        }
    }
}

fn control_value(c: char) -> (r: Option<u8>)
    ensures
        r == control_byte(c),
{
    let n: u32 = c as u32;
    if 97 <= n && n <= 122 {
        Some((n - 96) as u8)
    } else if 65 <= n && n <= 90 {
        Some((n - 64) as u8)
    } else if c == '@' || c == ' ' {
        Some(0x00)
    } else if c == '[' {
        Some(0x1b)
    } else if c == '\\' {
        Some(0x1c)
    } else if c == ']' {
        Some(0x1d)
    } else if c == '^' {
        Some(0x1e)
    } else if c == '_' {
        Some(0x1f)
    } else if c == '?' {
        Some(0x7f)
    } else {
        None
    }
}

/// The bytes `seq` as an optional view.
pub open spec fn bytes_view(b: Option<Vec<u8>>) -> Option<Seq<u8>> {
    match b {
        Some(v) => Some(v@),
        None => None,
    }
}

fn function_key_value(k: &[char]) -> (r: Option<Vec<u8>>)
    ensures
        bytes_view(r) == function_key(k@),
{
    let r = if spells(k, "F1") {
        Some(vec![0x1bu8, 0x4f, 0x50])
    } else if spells(k, "F2") {
        Some(vec![0x1bu8, 0x4f, 0x51])
    } else if spells(k, "F3") {
        Some(vec![0x1bu8, 0x4f, 0x52])
    } else if spells(k, "F4") {
        Some(vec![0x1bu8, 0x4f, 0x53])
    } else if spells(k, "F5") {
        Some(vec![0x1bu8, 0x5b, 0x31, 0x35, 0x7e])
    } else if spells(k, "F6") {
        Some(vec![0x1bu8, 0x5b, 0x31, 0x37, 0x7e])
    } else if spells(k, "F7") {
        Some(vec![0x1bu8, 0x5b, 0x31, 0x38, 0x7e])
    } else if spells(k, "F8") {
        Some(vec![0x1bu8, 0x5b, 0x31, 0x39, 0x7e])
    } else if spells(k, "F9") {
        Some(vec![0x1bu8, 0x5b, 0x32, 0x30, 0x7e])
    } else if spells(k, "F10") {
        Some(vec![0x1bu8, 0x5b, 0x32, 0x31, 0x7e])
    } else if spells(k, "F11") {
        Some(vec![0x1bu8, 0x5b, 0x32, 0x33, 0x7e])
    } else if spells(k, "F12") {
        Some(vec![0x1bu8, 0x5b, 0x32, 0x34, 0x7e])
    } else {
        None
    };
    assert(r is Some ==> r->0@ =~= function_key(k@)->0);
    r
}

fn named_key_value(k: &[char]) -> (r: Option<Vec<u8>>)
    ensures
        bytes_view(r) == named_key(k@),
{
    let r = if spells(k, "Enter") || spells(k, "Return") || spells(k, "CR") {
        Some(vec![0x0du8])
    } else if spells(k, "Tab") {
        Some(vec![0x09u8])
    } else if spells(k, "Backspace") || spells(k, "BS") {
        Some(vec![0x7fu8])
    } else if spells(k, "Space") {
        Some(vec![0x20u8])
    } else if spells(k, "Esc") || spells(k, "Escape") {
        Some(vec![0x1bu8])
    } else if spells(k, "Up") {
        Some(vec![0x1bu8, 0x5b, 0x41])
    } else if spells(k, "Down") {
        Some(vec![0x1bu8, 0x5b, 0x42])
    } else if spells(k, "Right") {
        Some(vec![0x1bu8, 0x5b, 0x43])
    } else if spells(k, "Left") {
        Some(vec![0x1bu8, 0x5b, 0x44])
    } else if spells(k, "Home") {
        Some(vec![0x1bu8, 0x5b, 0x48])
    } else if spells(k, "End") {
        Some(vec![0x1bu8, 0x5b, 0x46])
    } else if spells(k, "PgUp") || spells(k, "PageUp") {
        Some(vec![0x1bu8, 0x5b, 0x35, 0x7e])
    } else if spells(k, "PgDn") || spells(k, "PageDown") {
        Some(vec![0x1bu8, 0x5b, 0x36, 0x7e])
    } else if spells(k, "Delete") || spells(k, "Del") {
        Some(vec![0x1bu8, 0x5b, 0x33, 0x7e])
    } else {
        function_key_value(k)
    };
    assert(r is Some ==> r->0@ =~= named_key(k@)->0);
    r
}

fn strip_ctrl(k: &[char]) -> (r: Option<Vec<char>>)
    ensures
        match r {
            Some(rest) => behind_ctrl(k@) == Some(rest@),
            None => behind_ctrl(k@) is None,
        },
{
    proof {
        reveal_strlit("C-");
        reveal_strlit("Ctrl-");
        assert("C-"@ =~= seq!['C', '-']);
        assert("Ctrl-"@ =~= seq!['C', 't', 'r', 'l', '-']);
    }
    match strip_prefix(k, "C-") {
        Some(rest) => Some(rest),
        None => strip_prefix(k, "Ctrl-"),
    }
}

fn strip_alt(k: &[char]) -> (r: Option<Vec<char>>)
    ensures
        match r {
            Some(rest) => behind_alt(k@) == Some(rest@) && rest@.len() < k@.len(),
            None => behind_alt(k@) is None,
        },
{
    proof {
        reveal_strlit("M-");
        reveal_strlit("Alt-");
        assert("M-"@ =~= seq!['M', '-']);
        assert("Alt-"@ =~= seq!['A', 'l', 't', '-']);
    }
    match strip_prefix(k, "M-") {
        Some(rest) => Some(rest),
        None => strip_prefix(k, "Alt-"),
    }
}

fn key_value(k: &[char]) -> (r: Option<Vec<u8>>)
    ensures
        bytes_view(r) == key_bytes(k@),
    decreases k@.len(),
{
    if let Some(rest) = strip_ctrl(k) {
        if rest.len() == 1 {
            return match control_value(rest[0]) {
                Some(b) => {
                    let out = vec![b];
                    assert(out@ =~= seq![b]);
                    Some(out)
                },
                None => None,
            };
        }
    }
    if let Some(rest) = strip_alt(k) {
        let mut out: Vec<u8> = Vec::new();
        out.push(ESC);
        let mut inner = match key_value(rest.as_slice()) {
            Some(inner) => inner,
            None => utf8_bytes(rest.as_slice()),
        };
        out.append(&mut inner);
        assert(out@ =~= key_bytes(k@)->0);
        return Some(out);
    }
    named_key_value(k)
}

/// Renders a named key or a key combination into the byte sequence that a terminal expects.
pub fn render_key(k: &str) -> (r: Option<Vec<u8>>)
    ensures
        bytes_view(r) == key_bytes(k@),
{
    let chars = chars_of(k);
    key_value(chars.as_slice())
}

/// A key that can be rendered sends at least one byte.
pub proof fn rendered_key_not_empty(k: Seq<char>)
    ensures
        key_bytes(k) matches Some(b) ==> b.len() > 0,
{
}

/// Alt together with anything sends an escape byte, then what the rest sends as a key, or the rest
/// itself if it is none.
pub proof fn alt_prefixes_escape(rest: Seq<char>)
    ensures
        key_bytes(seq!['M', '-'] + rest) == Some(
            seq![ESC] + match key_bytes(rest) {
                Some(inner) => inner,
                None => encode_utf8(rest),
            },
        ),
        key_bytes(seq!['A', 'l', 't', '-'] + rest) == key_bytes(seq!['M', '-'] + rest),
{
    let m = seq!['M', '-'] + rest;
    let a = seq!['A', 'l', 't', '-'] + rest;
    assert(m[0] == 'M' && a[0] == 'A');
    assert(!seq!['C', '-'].is_prefix_of(m)) by {
        assert(seq!['C', '-'][0] != m[0]);
    }
    assert(!seq!['C', 't', 'r', 'l', '-'].is_prefix_of(m)) by {
        assert(seq!['C', 't', 'r', 'l', '-'][0] != m[0]);
    }
    assert(!seq!['C', '-'].is_prefix_of(a)) by {
        assert(seq!['C', '-'][0] != a[0]);
    }
    assert(!seq!['C', 't', 'r', 'l', '-'].is_prefix_of(a)) by {
        assert(seq!['C', 't', 'r', 'l', '-'][0] != a[0]);
    }
    assert(!seq!['M', '-'].is_prefix_of(a)) by {
        assert(seq!['M', '-'][0] != a[0]);
    }
    assert(seq!['M', '-'].is_prefix_of(m)) by {
        assert(m.subrange(0, 2) =~= seq!['M', '-']);
    }
    assert(seq!['A', 'l', 't', '-'].is_prefix_of(a)) by {
        assert(a.subrange(0, 4) =~= seq!['A', 'l', 't', '-']);
    }
    assert(m.skip(2) =~= rest);
    assert(a.skip(4) =~= rest);
}

/// Control together with a letter sends the letter's place in the alphabet, in either case and
/// under either prefix.
pub proof fn control_letter(c: char)
    requires
        'a' <= c <= 'z',
    ensures
        key_bytes(seq!['C', '-', c]) == Some(seq![(c as int - 96) as u8]),
        key_bytes(seq!['C', '-', (c as int - 32) as char]) == Some(seq![(c as int - 96) as u8]),
        key_bytes(seq!['C', 't', 'r', 'l', '-', c]) == Some(seq![(c as int - 96) as u8]),
        key_bytes(seq!['C', 't', 'r', 'l', '-', (c as int - 32) as char]) == Some(
            seq![(c as int - 96) as u8],
        ),
{
    let u = (c as int - 32) as char;
    let k1 = seq!['C', '-', c];
    let k2 = seq!['C', '-', u];
    let k3 = seq!['C', 't', 'r', 'l', '-', c];
    assert(k1.subrange(0, 2) =~= seq!['C', '-']);
    assert(k2.subrange(0, 2) =~= seq!['C', '-']);
    assert(k3.subrange(0, 5) =~= seq!['C', 't', 'r', 'l', '-']);
    assert(!seq!['C', '-'].is_prefix_of(k3)) by {
        assert(seq!['C', '-'][1] != k3[1]);
    }
    assert(k1.skip(2) =~= seq![c]);
    assert(k2.skip(2) =~= seq![u]);
    assert(k3.skip(5) =~= seq![c]);
    let k4 = seq!['C', 't', 'r', 'l', '-', u];
    assert(k4.subrange(0, 5) =~= seq!['C', 't', 'r', 'l', '-']);
    assert(!seq!['C', '-'].is_prefix_of(k4)) by {
        assert(seq!['C', '-'][1] != k4[1]);
    }
    assert(k4.skip(5) =~= seq![u]);
}

// ---------- Lists of keys ----------

/// The bytes of the keys that the parts of a list name, or the first name that is no key. White
/// space round a name does not count, and a part with nothing else in it is passed over.
pub open spec fn keys_rendered(parts: Seq<Seq<char>>) -> Result<Seq<u8>, Seq<char>>
    decreases parts.len(),
{
    if parts.len() == 0 {
        Ok(seq![])
    } else {
        match keys_rendered(parts.drop_last()) {
            Err(unknown) => Err(unknown),
            Ok(bytes) => {
                let name = trimmed(parts.last());
                if name.len() == 0 {
                    Ok(bytes)
                } else {
                    match key_bytes(name) {
                        Some(more) => Ok(bytes + more),
                        None => Err(name),
                    }
                }
            },
        }
    }
}

proof fn unknown_key_stays(parts: Seq<Seq<char>>, n: int)
    requires
        0 <= n <= parts.len(),
        keys_rendered(parts.take(n)) is Err,
    ensures
        keys_rendered(parts) == keys_rendered(parts.take(n)),
    decreases parts.len() - n,
{
    if n < parts.len() {
        assert(parts.take(n + 1).drop_last() =~= parts.take(n));
        unknown_key_stays(parts, n + 1);
    } else {
        assert(parts.take(n) =~= parts);
    }
}

/// Renders a list of keys with commas between them; the error is the first name that is no key.
pub fn render_keys(keys: &str) -> (r: Result<Vec<u8>, Vec<char>>)
    ensures
        match r {
            Ok(bytes) => keys_rendered(split_on(keys@, ',')) == Ok::<Seq<u8>, Seq<char>>(bytes@),
            Err(unknown) => keys_rendered(split_on(keys@, ',')) == Err::<Seq<u8>, Seq<char>>(
                unknown@,
            ),
        },
{
    let chars = chars_of(keys);
    let parts = split(chars.as_slice(), ',');
    let ghost all = split_on(keys@, ',');
    let mut buf: Vec<u8> = Vec::new();
    let mut i: usize = 0;
    while i < parts.len()
        invariant
            i <= parts@.len(),
            all == split_on(keys@, ','),
            all.len() == parts@.len(),
            forall|k: int| 0 <= k < parts@.len() ==> (#[trigger] parts@[k])@ == all[k],
            keys_rendered(all.take(i as int)) == Ok::<Seq<u8>, Seq<char>>(buf@),
        decreases parts@.len() - i,
    {
        assert(parts@[i as int]@ == all[i as int]);
        assert(all.take(i + 1).drop_last() =~= all.take(i as int));
        assert(all.take(i + 1).last() == all[i as int]);
        let name = trim(parts[i].as_slice());
        if name.len() > 0 {
            match key_value(name.as_slice()) {
                Some(more) => {
                    let mut more = more;
                    buf.append(&mut more);
                },
                None => {
                    proof {
                        unknown_key_stays(all, i + 1);
                    }
                    return Err(name);
                },
            }
        }
        i += 1;
    }
    assert(all.take(i as int) =~= all);
    Ok(buf)
}

// ---------- Laws on escapes and names ----------

/// A backslash and a letter give the control byte that the letter stands for, one byte, and what comes
/// behind is read as if it stood alone.
pub proof fn escapes_give_bytes(c: char, rest: Seq<char>)
    requires
        c != 'x',
    ensures
        c == 'n' ==> unescaped(seq!['\\', c] + rest) == seq![10u8] + unescaped(rest),
        c == 'r' ==> unescaped(seq!['\\', c] + rest) == seq![13u8] + unescaped(rest),
        c == 't' ==> unescaped(seq!['\\', c] + rest) == seq![9u8] + unescaped(rest),
        c == '0' ==> unescaped(seq!['\\', c] + rest) == seq![0u8] + unescaped(rest),
        c == 'e' ==> unescaped(seq!['\\', c] + rest) == seq![27u8] + unescaped(rest),
        c == '\\' ==> unescaped(seq!['\\', c] + rest) == seq![92u8] + unescaped(rest),
        c != 'n' && c != 'r' && c != 't' && c != '0' && c != 'e' && c != '\\' ==> unescaped(
            seq!['\\', c] + rest,
        ) == seq![92u8] + encode_scalar(c as u32) + unescaped(rest),
{
    let s = seq!['\\', c] + rest;
    assert(s[0] == '\\' && s[1] == c);
    assert(s.skip(2) =~= rest);
    assert(seq![0x5cu8] + encode_scalar(c as u32) + unescaped(rest) =~= (seq![0x5cu8]
        + encode_scalar(c as u32)) + unescaped(rest));
}

/// Any byte can be sent: two hexadecimal digits behind `\x`, in either case, give the byte that they are,
/// and what comes behind is read as if it stood alone.
pub proof fn hex_escape_gives_byte(b: u8, capital: bool, rest: Seq<char>)
    ensures
        unescaped(seq!['\\', 'x'] + hex_pair(b, capital) + rest) == seq![b] + unescaped(rest),
{
    let digits = hex_pair(b, capital);
    let s = seq!['\\', 'x'] + digits + rest;
    assert(s[0] == '\\' && s[1] == 'x' && s[2] == digits[0] && s[3] == digits[1]);
    assert(s.skip(4) =~= rest);
    assert(hex_value(digits[0]) == Some((b / 16) as int));
    assert(hex_value(digits[1]) == Some((b % 16) as int));
    assert(hex_byte(s[2], s[3]) == b);
    if s.len() == 4 {
        assert(rest =~= seq![]);
        assert(s.skip(s.len() as int) =~= rest);
    }
}

/// Text that is no escape is sent as it is, and what comes behind is read as if it stood alone.
pub proof fn letters_are_sent(c: char, rest: Seq<char>)
    requires
        c != '\\',
    ensures
        unescaped(seq![c] + rest) == encode_scalar(c as u32) + unescaped(rest),
{
    let s = seq![c] + rest;
    assert(s[0] == c);
    assert(s.skip(1) =~= rest);
}

/// What the client types is what the text says, escapes and all, from its start to its end.
pub proof fn typed_text_is_expanded(s: &str, out: Vec<u8>)
    requires
        call_ensures(unescape, (s,), out),
    ensures
        out@ == unescaped(s@),
        !s@.contains('\\') ==> out@ == encode_utf8(s@),
{
    if !s@.contains('\\') {
        plain_text_unchanged(s@);
    }
}

/// A name without a hyphen in its second, fourth or fifth place is no combination.
proof fn plain_name_is_key(k: Seq<char>)
    requires
        k.len() >= 2,
        k[1] != '-',
        k.len() > 3 ==> k[3] != '-',
        k.len() > 4 ==> k[4] != '-',
    ensures
        key_bytes(k) == named_key(k),
{
    if seq!['C', '-'].is_prefix_of(k) {
        assert(k[1] == seq!['C', '-'][1]);
    }
    if seq!['C', 't', 'r', 'l', '-'].is_prefix_of(k) {
        assert(k[4] == seq!['C', 't', 'r', 'l', '-'][4]);
    }
    if seq!['M', '-'].is_prefix_of(k) {
        assert(k[1] == seq!['M', '-'][1]);
    }
    if seq!['A', 'l', 't', '-'].is_prefix_of(k) {
        assert(k[3] == seq!['A', 'l', 't', '-'][3]);
    }
}

/// The function keys, in the order of their numbers.
pub open spec fn function_names() -> Seq<Seq<char>> {
    seq![
        "F1"@,
        "F2"@,
        "F3"@,
        "F4"@,
        "F5"@,
        "F6"@,
        "F7"@,
        "F8"@,
        "F9"@,
        "F10"@,
        "F11"@,
        "F12"@,
    ]
}

/// The number that stands in the sequence of a function key from the fifth on: terminals leave out 16
/// and 22.
pub open spec fn function_number(n: int) -> int {
    if n <= 5 {
        10 + n
    } else if n <= 10 {
        11 + n
    } else {
        12 + n
    }
}

/// The function keys send what terminals with twelve of them send: the first four a letter from `P` on
/// behind `ESC O`, the others their number between `ESC [` and `~`.
pub proof fn function_keys_are_numbered(n: int)
    requires
        1 <= n <= 12,
    ensures
        n <= 4 ==> key_bytes(function_names()[n - 1]) == Some(
            seq![0x1bu8, 0x4fu8, (0x4f + n) as u8],
        ),
        n > 4 ==> key_bytes(function_names()[n - 1]) == Some(
            seq![
                0x1bu8,
                0x5bu8,
                (48 + function_number(n) / 10) as u8,
                (48 + function_number(n) % 10) as u8,
                0x7eu8,
            ],
        ),
{
    names_revealed();
    let k = function_names()[n - 1];
    plain_name_is_key(k);
}

proof fn names_revealed()
    ensures
        "F1"@ =~= seq!['F', '1'],
        "F2"@ =~= seq!['F', '2'],
        "F3"@ =~= seq!['F', '3'],
        "F4"@ =~= seq!['F', '4'],
        "F5"@ =~= seq!['F', '5'],
        "F6"@ =~= seq!['F', '6'],
        "F7"@ =~= seq!['F', '7'],
        "F8"@ =~= seq!['F', '8'],
        "F9"@ =~= seq!['F', '9'],
        "F10"@ =~= seq!['F', '1', '0'],
        "F11"@ =~= seq!['F', '1', '1'],
        "F12"@ =~= seq!['F', '1', '2'],
        "Enter"@ =~= seq!['E', 'n', 't', 'e', 'r'],
        "Return"@ =~= seq!['R', 'e', 't', 'u', 'r', 'n'],
        "CR"@ =~= seq!['C', 'R'],
        "Tab"@ =~= seq!['T', 'a', 'b'],
        "Backspace"@ =~= seq!['B', 'a', 'c', 'k', 's', 'p', 'a', 'c', 'e'],
        "BS"@ =~= seq!['B', 'S'],
        "Space"@ =~= seq!['S', 'p', 'a', 'c', 'e'],
        "Esc"@ =~= seq!['E', 's', 'c'],
        "Escape"@ =~= seq!['E', 's', 'c', 'a', 'p', 'e'],
        "Up"@ =~= seq!['U', 'p'],
        "Down"@ =~= seq!['D', 'o', 'w', 'n'],
        "Right"@ =~= seq!['R', 'i', 'g', 'h', 't'],
        "Left"@ =~= seq!['L', 'e', 'f', 't'],
        "Home"@ =~= seq!['H', 'o', 'm', 'e'],
        "End"@ =~= seq!['E', 'n', 'd'],
        "PgUp"@ =~= seq!['P', 'g', 'U', 'p'],
        "PageUp"@ =~= seq!['P', 'a', 'g', 'e', 'U', 'p'],
        "PgDn"@ =~= seq!['P', 'g', 'D', 'n'],
        "PageDown"@ =~= seq!['P', 'a', 'g', 'e', 'D', 'o', 'w', 'n'],
        "Delete"@ =~= seq!['D', 'e', 'l', 'e', 't', 'e'],
        "Del"@ =~= seq!['D', 'e', 'l'],
{
    reveal_strlit("F1");
    reveal_strlit("F2");
    reveal_strlit("F3");
    reveal_strlit("F4");
    reveal_strlit("F5");
    reveal_strlit("F6");
    reveal_strlit("F7");
    reveal_strlit("F8");
    reveal_strlit("F9");
    reveal_strlit("F10");
    reveal_strlit("F11");
    reveal_strlit("F12");
    reveal_strlit("Enter");
    reveal_strlit("Return");
    reveal_strlit("CR");
    reveal_strlit("Tab");
    reveal_strlit("Backspace");
    reveal_strlit("BS");
    reveal_strlit("Space");
    reveal_strlit("Esc");
    reveal_strlit("Escape");
    reveal_strlit("Up");
    reveal_strlit("Down");
    reveal_strlit("Right");
    reveal_strlit("Left");
    reveal_strlit("Home");
    reveal_strlit("End");
    reveal_strlit("PgUp");
    reveal_strlit("PageUp");
    reveal_strlit("PgDn");
    reveal_strlit("PageDown");
    reveal_strlit("Delete");
    reveal_strlit("Del");
}

/// The keys that have a name, each with what a terminal expects for it.
pub open spec fn key_table() -> Seq<(Seq<char>, Seq<u8>)> {
    seq![
        ("Enter"@, seq![13u8]),
        ("Return"@, seq![13u8]),
        ("CR"@, seq![13u8]),
        ("Tab"@, seq![9u8]),
        ("Backspace"@, seq![127u8]),
        ("BS"@, seq![127u8]),
        ("Space"@, seq![32u8]),
        ("Esc"@, seq![27u8]),
        ("Escape"@, seq![27u8]),
        ("Up"@, seq![27u8, 91u8, 65u8]),
        ("Down"@, seq![27u8, 91u8, 66u8]),
        ("Right"@, seq![27u8, 91u8, 67u8]),
        ("Left"@, seq![27u8, 91u8, 68u8]),
        ("Home"@, seq![27u8, 91u8, 72u8]),
        ("End"@, seq![27u8, 91u8, 70u8]),
        ("PgUp"@, seq![27u8, 91u8, 53u8, 126u8]),
        ("PageUp"@, seq![27u8, 91u8, 53u8, 126u8]),
        ("PgDn"@, seq![27u8, 91u8, 54u8, 126u8]),
        ("PageDown"@, seq![27u8, 91u8, 54u8, 126u8]),
        ("Delete"@, seq![27u8, 91u8, 51u8, 126u8]),
        ("Del"@, seq![27u8, 91u8, 51u8, 126u8]),
    ]
}

/// Every key that has a name sends what a terminal expects for it, alone and behind the alt prefix.
#[verifier::rlimit(60)]
pub proof fn named_keys_send(i: int)
    requires
        0 <= i < key_table().len(),
    ensures
        key_bytes(key_table()[i].0) == Some(key_table()[i].1),
        key_bytes(seq!['M', '-'] + key_table()[i].0) == Some(seq![27u8] + key_table()[i].1),
{
    names_revealed();
    let k = key_table()[i].0;
    plain_name_is_key(k);
    alt_prefixes_escape(k);
}

/// Control together with a character from `@` to `_` sends the character's place behind `@`, with a small
/// letter what it sends with the capital one, with a space what it sends with `@`, and with a question mark
/// a delete; with any other character it is no key.
pub proof fn control_keys_send(c: char)
    ensures
        ({
            let sent = key_bytes(seq!['C', '-', c]);
            if '@' <= c <= '_' {
                sent == Some(seq![(c as int - 64) as u8])
            } else if 'a' <= c <= 'z' {
                sent == key_bytes(seq!['C', '-', (c as int - 32) as char]) && sent == Some(
                    seq![(c as int - 96) as u8],
                )
            } else if c == ' ' {
                sent == Some(seq![0u8])
            } else if c == '?' {
                sent == Some(seq![127u8])
            } else {
                sent is None
            }
        }),
        key_bytes(seq!['C', 't', 'r', 'l', '-', c]) == key_bytes(seq!['C', '-', c]),
{
    let k = seq!['C', '-', c];
    assert(k.subrange(0, 2) =~= seq!['C', '-']);
    assert(k.skip(2) =~= seq![c]);
    let l = seq!['C', 't', 'r', 'l', '-', c];
    assert(l.subrange(0, 5) =~= seq!['C', 't', 'r', 'l', '-']);
    assert(!seq!['C', '-'].is_prefix_of(l)) by {
        assert(seq!['C', '-'][1] != l[1]);
    }
    assert(l.skip(5) =~= seq![c]);
    if 'a' <= c <= 'z' {
        control_letter(c);
    }
}

/// A key is rendered by its name alone.
pub proof fn key_is_rendered(k: &str, r: Option<Vec<u8>>)
    requires
        call_ensures(render_key, (k,), r),
    ensures
        r is Some <==> key_bytes(k@) is Some,
        r matches Some(b) ==> key_bytes(k@) == Some(b@),
{
}

/// A list of keys sends what its keys send, in order, each as if it stood alone: with one more key behind
/// it, it sends what that sends behind what it sent before. White space round a name, and parts with
/// nothing in them, do not count. The first name that is no key is told, and nothing is sent.
pub proof fn key_lists_grow(parts: Seq<Seq<char>>, part: Seq<char>)
    ensures
        keys_rendered(Seq::empty()) == Ok::<Seq<u8>, Seq<char>>(Seq::empty()),
        keys_rendered(parts.push(part)) == match keys_rendered(parts) {
            Err(unknown) => Err::<Seq<u8>, Seq<char>>(unknown),
            Ok(sent) => if trimmed(part).len() == 0 {
                Ok(sent)
            } else {
                match key_bytes(trimmed(part)) {
                    Some(more) => Ok(sent + more),
                    None => Err(trimmed(part)),
                }
            },
        },
{
    assert(parts.push(part).drop_last() =~= parts);
}

/// The client sends all keys of a list whose names are known, one after the other.
pub proof fn key_list_is_sent(keys: &str, r: Result<Vec<u8>, Vec<char>>)
    requires
        call_ensures(render_keys, (keys,), r),
    ensures
        (forall|i: int|
            0 <= i < split_on(keys@, ',').len() ==> key_bytes(
                trimmed(#[trigger] split_on(keys@, ',')[i]),
            ) is Some) ==> (r matches Ok(sent) && sent@ == split_on(keys@, ',').map_values(
            |p: Seq<char>| key_bytes(trimmed(p))->0,
        ).flatten()),
        r matches Err(name) ==> exists|i: int|
            0 <= i < split_on(keys@, ',').len() && #[trigger] trimmed(split_on(keys@, ',')[i])
                == name@ && key_bytes(name@) is None,
{
    let parts = split_on(keys@, ',');
    if forall|i: int| 0 <= i < parts.len() ==> key_bytes(trimmed(#[trigger] parts[i])) is Some {
        known_keys_flatten(parts);
    }
    unknown_is_one_of(parts);
}

proof fn known_keys_flatten(parts: Seq<Seq<char>>)
    requires
        forall|i: int| 0 <= i < parts.len() ==> key_bytes(trimmed(#[trigger] parts[i])) is Some,
    ensures
        keys_rendered(parts) == Ok::<Seq<u8>, Seq<char>>(
            parts.map_values(|p: Seq<char>| key_bytes(trimmed(p))->0).flatten(),
        ),
    decreases parts.len(),
{
    let f = |p: Seq<char>| key_bytes(trimmed(p))->0;
    let all = parts.map_values(f);
    if parts.len() == 0 {
        assert(all.flatten() =~= seq![]);
    } else {
        let before = parts.drop_last();
        assert forall|i: int| 0 <= i < before.len() implies key_bytes(
            trimmed(#[trigger] before[i]),
        ) is Some by {
            assert(before[i] == parts[i]);
        }
        known_keys_flatten(before);
        assert(all.drop_last() =~= before.map_values(f));
        all.lemma_flatten_and_flatten_alt_are_equivalent();
        all.drop_last().lemma_flatten_and_flatten_alt_are_equivalent();
        assert(key_bytes(trimmed(parts[parts.len() - 1])) is Some);
        let name = trimmed(parts.last());
        if name.len() == 0 {
            empty_is_no_key(name);
        }
    }
}

proof fn empty_is_no_key(k: Seq<char>)
    requires
        k.len() == 0,
    ensures
        key_bytes(k) is None,
{
    names_revealed();
    assert(!seq!['C', '-'].is_prefix_of(k));
    assert(!seq!['C', 't', 'r', 'l', '-'].is_prefix_of(k));
    assert(!seq!['M', '-'].is_prefix_of(k));
    assert(!seq!['A', 'l', 't', '-'].is_prefix_of(k));
}

proof fn unknown_is_one_of(parts: Seq<Seq<char>>)
    ensures
        keys_rendered(parts) matches Err(name) ==> exists|i: int|
            0 <= i < parts.len() && #[trigger] trimmed(parts[i]) == name && key_bytes(name) is None,
    decreases parts.len(),
{
    if parts.len() > 0 {
        let before = parts.drop_last();
        unknown_is_one_of(before);
        if let Err(name) = keys_rendered(parts) {
            if keys_rendered(before) is Err {
                let i = choose|i: int|
                    0 <= i < before.len() && #[trigger] trimmed(before[i]) == name && key_bytes(
                        name,
                    ) is None;
                assert(trimmed(parts[i]) == name);
            } else {
                assert(trimmed(parts[parts.len() - 1]) == name);
            }
        }
    }
}

}
