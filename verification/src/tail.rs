//! Where output breaks off: the control sequence or the character at its end that is not complete yet.
//!
//! Output comes in pieces that end anywhere. Who starts to read between two pieces needs the open end
//! of the first, or else takes the rest of a control sequence for text.

use vstd::prelude::*;
use vstd::utf8::*;

verus! {

/// What the bytes at the end of some output belong to.
#[derive(Clone, Copy, PartialEq, Eq, Structural)]
pub enum Mode {
    /// Nothing that is open.
    Ground,
    /// A character in UTF-8.
    Letter,
    /// A sequence that starts with an escape byte.
    Escape,
    /// An escape sequence with intermediate bytes.
    EscapeMore,
    /// A control sequence.
    Csi,
    /// An operating system command.
    Osc,
    /// A device control string.
    Dcs,
    /// Another string: of a start of string, a privacy message or an application command.
    Other,
}

/// The state behind some output: what is open, and its bytes so far.
pub struct Scan {
    pub mode: Mode,
    pub tail: Seq<u8>,
}

/// Nothing is open.
pub open spec fn ground() -> Scan {
    Scan { mode: Mode::Ground, tail: seq![] }
}

/// The state behind one byte where nothing was open.
pub open spec fn first_byte(b: u8) -> Scan {
    if b == 0x1b {
        Scan { mode: Mode::Escape, tail: seq![b] }
    } else if 0xc2 <= b <= 0xf4 {
        Scan { mode: Mode::Letter, tail: seq![b] }
    } else {
        ground()
    }
}

/// How many bytes the character has that starts with `lead`.
pub open spec fn letter_len(lead: u8) -> nat {
    if lead < 0xe0 {
        2
    } else if lead < 0xf0 {
        3
    } else {
        4
    }
}

/// Holds if `b` goes on with the character that starts with `lead` and has `n` bytes so far.
pub open spec fn letter_goes_on(lead: u8, n: nat, b: u8) -> bool {
    if n == 1 && lead == 0xe0 {
        0xa0 <= b <= 0xbf
    } else if n == 1 && lead == 0xed {
        0x80 <= b <= 0x9f
    } else if n == 1 && lead == 0xf0 {
        0x90 <= b <= 0xbf
    } else if n == 1 && lead == 0xf4 {
        0x80 <= b <= 0x8f
    } else {
        0x80 <= b <= 0xbf
    }
}

/// What is open after a byte within a sequence that starts with an escape byte, if the byte belongs to
/// the sequence; `Ground` if the byte ends it.
pub open spec fn mode_behind(mode: Mode, b: u8) -> Option<Mode> {
    match mode {
        Mode::Escape => if 0x20 <= b <= 0x2f {
            Some(Mode::EscapeMore)
        } else if b == 0x5b {
            Some(Mode::Csi)
        } else if b == 0x5d {
            Some(Mode::Osc)
        } else if b == 0x50 {
            Some(Mode::Dcs)
        } else if b == 0x58 || b == 0x5e || b == 0x5f {
            Some(Mode::Other)
        } else if 0x30 <= b <= 0x7e {
            Some(Mode::Ground)
        } else {
            None
        },
        Mode::EscapeMore => if 0x20 <= b <= 0x2f {
            Some(Mode::EscapeMore)
        } else if 0x30 <= b <= 0x7e {
            Some(Mode::Ground)
        } else {
            None
        },
        Mode::Csi => if 0x20 <= b <= 0x3f {
            Some(Mode::Csi)
        } else if 0x40 <= b <= 0x7e {
            Some(Mode::Ground)
        } else {
            None
        },
        Mode::Osc => if b == 0x07 {
            Some(Mode::Ground)
        } else {
            Some(Mode::Osc)
        },
        Mode::Dcs => if b == 0x9c {
            Some(Mode::Ground)
        } else {
            Some(Mode::Dcs)
        },
        other => Some(other),
    }
}

/// The state behind one more byte. An escape byte starts anew wherever it stands, and a cancel or a
/// substitute ends what is open. Other control bytes within a short sequence act at once: they are no
/// part of it.
pub open spec fn step(s: Scan, b: u8) -> Scan {
    if s.mode == Mode::Ground {
        first_byte(b)
    } else if s.mode == Mode::Letter {
        if !letter_goes_on(s.tail[0], s.tail.len(), b) {
            first_byte(b)
        } else if s.tail.len() + 1 == letter_len(s.tail[0]) {
            ground()
        } else {
            Scan { mode: Mode::Letter, tail: s.tail.push(b) }
        }
    } else if b == 0x1b {
        first_byte(b)
    } else if b == 0x18 || b == 0x1a {
        ground()
    } else {
        match mode_behind(s.mode, b) {
            Some(Mode::Ground) => ground(),
            Some(mode) => Scan { mode, tail: s.tail.push(b) },
            None => s,
        }
    }
}

/// The state behind some more output.
pub open spec fn scan_from(s: Scan, data: Seq<u8>) -> Scan
    decreases data.len(),
{
    if data.len() == 0 {
        s
    } else {
        step(scan_from(s, data.drop_last()), data.last())
    }
}

/// The state behind some output.
pub open spec fn scan(data: Seq<u8>) -> Scan {
    scan_from(ground(), data)
}

/// The open end of some output: the bytes of the control sequence or the character that it breaks off
/// in, and nothing if it breaks off in none.
pub open spec fn open_tail(data: Seq<u8>) -> Seq<u8> {
    scan(data).tail
}

/// Output up to the last point at which nothing is open.
pub open spec fn closed_part(data: Seq<u8>) -> Seq<u8>
    decreases data.len(),
{
    if data.len() == 0 || scan(data).mode == Mode::Ground {
        data
    } else {
        closed_part(data.drop_last())
    }
}

/// The open end of output, kept while it comes in.
pub struct Tail {
    mode: Mode,
    bytes: Vec<u8>,
}

impl Tail {
    /// The bytes of the open end.
    pub closed spec fn view(&self) -> Seq<u8> {
        self.bytes@
    }

    /// The bytes tell what is open.
    pub closed spec fn wf(&self) -> bool {
        scan(self.bytes@) == (Scan { mode: self.mode, tail: self.bytes@ })
    }

    /// Before any output.
    pub fn new() -> (r: Self)
        ensures
            r.wf(),
            r@ == Seq::<u8>::empty(),
    {
        let r = Tail { mode: Mode::Ground, bytes: Vec::new() };
        assert(r.bytes@ =~= Seq::<u8>::empty());
        r
    }

    fn start(&mut self, b: u8)
        ensures
            (Scan { mode: final(self).mode, tail: final(self).bytes@ }) == first_byte(b),
    {
        self.bytes = Vec::new();
        if b == 0x1b {
            self.bytes.push(b);
            self.mode = Mode::Escape;
        } else if 0xc2 <= b && b <= 0xf4 {
            self.bytes.push(b);
            self.mode = Mode::Letter;
        } else {
            self.mode = Mode::Ground;
        }
        assert(self.bytes@ =~= first_byte(b).tail);
    }

    fn clear(&mut self)
        ensures
            (Scan { mode: final(self).mode, tail: final(self).bytes@ }) == ground(),
    {
        self.bytes = Vec::new();
        self.mode = Mode::Ground;
        assert(self.bytes@ =~= seq![]);
    }

    fn byte(&mut self, b: u8)
        requires
            old(self).mode == Mode::Letter ==> old(self).bytes@.len() > 0,
        ensures
            (Scan { mode: final(self).mode, tail: final(self).bytes@ }) == step(
                Scan { mode: old(self).mode, tail: old(self).bytes@ },
                b,
            ),
            final(self).mode == Mode::Letter ==> final(self).bytes@.len() > 0,
    {
        match self.mode {
            Mode::Ground => self.start(b),
            Mode::Letter => {
                let lead: u8 = self.bytes[0];
                let n: usize = self.bytes.len();
                let low: u8 = if n == 1 && lead == 0xe0 {
                    0xa0
                } else if n == 1 && lead == 0xf0 {
                    0x90
                } else {
                    0x80
                };
                let high: u8 = if n == 1 && lead == 0xed {
                    0x9f
                } else if n == 1 && lead == 0xf4 {
                    0x8f
                } else {
                    0xbf
                };
                let len: usize = if lead < 0xe0 {
                    2
                } else if lead < 0xf0 {
                    3
                } else {
                    4
                };
                if b < low || b > high {
                    self.start(b);
                } else if n < len && n + 1 == len {
                    self.clear();
                } else {
                    self.bytes.push(b);
                }
            },
            _ => if b == 0x1b {
                self.start(b);
            } else if b == 0x18 || b == 0x1a {
                self.clear();
            } else {
                match mode_after(self.mode, b) {
                    Some(Mode::Ground) => self.clear(),
                    Some(mode) => {
                        self.mode = mode;
                        self.bytes.push(b);
                    },
                    None => {},
                }
            },
        }
    }

    /// Takes in more output.
    pub fn feed(&mut self, data: &[u8])
        requires
            old(self).wf(),
        ensures
            final(self).wf(),
            final(self)@ == open_tail(old(self)@ + data@),
    {
        let ghost start = self.bytes@;
        let mut i: usize = 0;
        proof {
            scan_has_bytes(start);
            assert(start + data@.take(0) =~= start);
        }
        while i < data.len()
            invariant
                i <= data@.len(),
                scan(start + data@.take(i as int)) == (Scan { mode: self.mode, tail: self.bytes@ }),
                self.mode == Mode::Letter ==> self.bytes@.len() > 0,
            decreases data@.len() - i,
        {
            self.byte(data[i]);
            proof {
                let upto = start + data@.take(i + 1);
                assert(upto.drop_last() =~= start + data@.take(i as int));
                assert(upto.last() == data@[i as int]);
            }
            i += 1;
        }
        proof {
            assert(data@.take(i as int) =~= data@);
            tail_is_open(start + data@);
        }
    }

    /// The bytes of the open end.
    pub fn bytes(&self) -> (r: Vec<u8>)
        ensures
            r@ == self@,
    {
        vstd::slice::slice_to_vec(self.bytes.as_slice())
    }
}

/// Output up to the last point at which nothing is open.
pub fn complete(data: &[u8]) -> (r: Vec<u8>)
    ensures
        r@ == closed_part(data@),
{
    let mut t = Tail::new();
    let mut end: usize = 0;
    let mut i: usize = 0;
    assert(data@.take(0) =~= Seq::<u8>::empty());
    while i < data.len()
        invariant
            end <= i <= data@.len(),
            scan(data@.take(i as int)) == (Scan { mode: t.mode, tail: t.bytes@ }),
            t.mode == Mode::Letter ==> t.bytes@.len() > 0,
            data@.take(end as int) == closed_part(data@.take(i as int)),
        decreases data@.len() - i,
    {
        let ghost upto = data@.take(i + 1);
        assert(upto.drop_last() =~= data@.take(i as int));
        assert(upto.last() == data@[i as int]);
        t.byte(data[i]);
        i += 1;
        if t.mode == Mode::Ground {
            end = i;
        }
    }
    assert(data@.take(i as int) =~= data@);
    vstd::slice::slice_to_vec(vstd::slice::slice_subrange(data, 0, end))
}

fn mode_after(mode: Mode, b: u8) -> (r: Option<Mode>)
    ensures
        r == mode_behind(mode, b),
{
    match mode {
        Mode::Escape => if 0x20 <= b && b <= 0x2f {
            Some(Mode::EscapeMore)
        } else if b == 0x5b {
            Some(Mode::Csi)
        } else if b == 0x5d {
            Some(Mode::Osc)
        } else if b == 0x50 {
            Some(Mode::Dcs)
        } else if b == 0x58 || b == 0x5e || b == 0x5f {
            Some(Mode::Other)
        } else if 0x30 <= b && b <= 0x7e {
            Some(Mode::Ground)
        } else {
            None
        },
        Mode::EscapeMore => if 0x20 <= b && b <= 0x2f {
            Some(Mode::EscapeMore)
        } else if 0x30 <= b && b <= 0x7e {
            Some(Mode::Ground)
        } else {
            None
        },
        Mode::Csi => if 0x20 <= b && b <= 0x3f {
            Some(Mode::Csi)
        } else if 0x40 <= b && b <= 0x7e {
            Some(Mode::Ground)
        } else {
            None
        },
        Mode::Osc => if b == 0x07 {
            Some(Mode::Ground)
        } else {
            Some(Mode::Osc)
        },
        Mode::Dcs => if b == 0x9c {
            Some(Mode::Ground)
        } else {
            Some(Mode::Dcs)
        },
        other => Some(other),
    }
}

proof fn scan_has_bytes(data: Seq<u8>)
    ensures
        scan(data).mode == Mode::Letter ==> scan(data).tail.len() > 0,
        scan(data).mode == Mode::Ground ==> scan(data).tail == Seq::<u8>::empty(),
    decreases data.len(),
{
    if data.len() > 0 {
        scan_has_bytes(data.drop_last());
    }
}

// ---------- Laws ----------

/// Output in two pieces is read like output in one.
pub proof fn scan_in_pieces(s: Scan, a: Seq<u8>, b: Seq<u8>)
    ensures
        scan_from(s, a + b) == scan_from(scan_from(s, a), b),
    decreases b.len(),
{
    if b.len() == 0 {
        assert(a + b =~= a);
    } else {
        scan_in_pieces(s, a, b.drop_last());
        assert((a + b).drop_last() =~= a + b.drop_last());
        assert((a + b).last() == b.last());
    }
}

/// The open end alone leaves the reader where all of the output does.
pub proof fn tail_is_open(data: Seq<u8>)
    ensures
        scan(open_tail(data)) == scan(data),
    decreases data.len(),
{
    let empty = Seq::<u8>::empty();
    assert(scan(empty) == ground());
    if data.len() > 0 {
        let before = data.drop_last();
        let b = data.last();
        tail_is_open(before);
        scan_has_bytes(before);
        let s = scan(before);
        let t = scan(data);
        if t == ground() {
            assert(scan(t.tail) == ground());
        } else if t.tail == s.tail.push(b) {
            assert(s.tail.push(b).drop_last() =~= s.tail);
        } else if t == first_byte(b) {
            assert(seq![b].drop_last() =~= empty);
            assert(scan_from(ground(), seq![b]) == step(ground(), b));
        }
    }
}

/// Who starts to read at some point reads the rest as who has read everything, if the open end of what
/// came before comes first.
pub proof fn tail_resumes(data: Seq<u8>, rest: Seq<u8>)
    ensures
        scan(open_tail(data) + rest) == scan(data + rest),
        open_tail(open_tail(data) + rest) == open_tail(data + rest),
{
    tail_is_open(data);
    scan_in_pieces(ground(), open_tail(data), rest);
    scan_in_pieces(ground(), data, rest);
}

proof fn tail_stays_open(data: Seq<u8>)
    ensures
        forall|k: int|
            1 <= k <= open_tail(data).len() ==> scan(#[trigger] open_tail(data).take(k)).mode
                != Mode::Ground,
    decreases data.len(),
{
    if data.len() > 0 {
        let before = data.drop_last();
        let b = data.last();
        tail_stays_open(before);
        tail_is_open(data);
        scan_has_bytes(data);
        let old_tail = open_tail(before);
        let tail = open_tail(data);
        assert forall|k: int| 1 <= k <= tail.len() implies scan(#[trigger] tail.take(k)).mode
            != Mode::Ground by {
            if k == tail.len() {
                assert(tail.take(k) =~= tail);
            } else if tail == old_tail.push(b) {
                assert(tail.take(k) =~= old_tail.take(k));
            } else {
                assert(tail == old_tail || tail.len() <= 1);
            }
        }
    }
}

/// Behind output that leaves nothing open, an open end is all that is cut off.
pub proof fn open_end_is_cut_off(data: Seq<u8>, other: Seq<u8>)
    requires
        scan(data) == ground(),
    ensures
        closed_part(data + open_tail(other)) == data,
{
    tail_stays_open(other);
    cut_back(data, open_tail(other), open_tail(other).len() as int);
    let tail = open_tail(other);
    assert(tail.take(tail.len() as int) =~= tail);
}

proof fn cut_back(data: Seq<u8>, tail: Seq<u8>, n: int)
    requires
        scan(data) == ground(),
        0 <= n <= tail.len(),
        forall|k: int| 1 <= k <= tail.len() ==> scan(#[trigger] tail.take(k)).mode != Mode::Ground,
    ensures
        closed_part(data + tail.take(n)) == data,
    decreases n,
{
    let all = data + tail.take(n);
    scan_in_pieces(ground(), data, tail.take(n));
    if n == 0 {
        assert(all =~= data);
    } else {
        cut_back(data, tail, n - 1);
        assert(all.drop_last() =~= data + tail.take(n - 1));
    }
}

/// What is cut off is what is open, and no more: the complete part is the longest start of the output
/// behind which nothing is open.
pub proof fn complete_is_longest(data: &[u8], r: Vec<u8>, n: int)
    requires
        call_ensures(complete, (data,), r),
        0 <= n <= data@.len(),
    ensures
        r@.len() <= data@.len(),
        r@ == data@.take(r@.len() as int),
        scan(r@).mode == Mode::Ground,
        scan(data@.take(n)).mode == Mode::Ground ==> n <= r@.len(),
{
    closed_is_longest(data@, n);
}

proof fn closed_is_longest(data: Seq<u8>, n: int)
    requires
        0 <= n <= data.len(),
    ensures
        closed_part(data).len() <= data.len(),
        closed_part(data) == data.take(closed_part(data).len() as int),
        scan(closed_part(data)).mode == Mode::Ground,
        scan(data.take(n)).mode == Mode::Ground ==> n <= closed_part(data).len(),
    decreases data.len(),
{
    if data.len() == 0 || scan(data).mode == Mode::Ground {
        assert(data.take(data.len() as int) =~= data);
    } else {
        let before = data.drop_last();
        if n < data.len() {
            closed_is_longest(before, n);
            assert(before.take(n) =~= data.take(n));
        } else {
            closed_is_longest(before, 0);
            assert(data.take(n) =~= data);
        }
        let k = closed_part(before).len() as int;
        assert(before.take(k) =~= data.take(k));
    }
}

/// Plain text leaves nothing open, wherever it breaks off: bytes of ASCII without an escape byte.
pub proof fn plain_bytes_stay_closed(before: Seq<u8>, data: Seq<u8>)
    requires
        scan(before) == ground(),
        forall|i: int| 0 <= i < data.len() ==> (#[trigger] data[i]) < 0x80 && data[i] != 0x1b,
    ensures
        scan(before + data) == ground(),
    decreases data.len(),
{
    if data.len() == 0 {
        assert(before + data =~= before);
    } else {
        let rest = data.drop_last();
        assert forall|i: int| 0 <= i < rest.len() implies (#[trigger] rest[i]) < 0x80 && rest[i]
            != 0x1b by {
            assert(rest[i] == data[i]);
        }
        plain_bytes_stay_closed(before, rest);
        assert((before + data).drop_last() =~= before + rest);
        assert((before + data).last() == data[data.len() - 1]);
    }
}

proof fn opened_by(before: Seq<u8>, b: u8)
    requires
        scan(before) == ground(),
        b == 0x5b || b == 0x5d || b == 0x50,
    ensures
        scan(before + seq![0x1bu8, b]).tail == seq![0x1bu8, b],
        scan(before + seq![0x1bu8, b]).mode == if b == 0x5b {
            Mode::Csi
        } else if b == 0x5d {
            Mode::Osc
        } else {
            Mode::Dcs
        },
{
    let one = before + seq![0x1bu8];
    let two = before + seq![0x1bu8, b];
    assert(one.drop_last() =~= before);
    assert(two.drop_last() =~= one);
    assert(one.last() == 0x1b && two.last() == b);
    assert(scan(one) == first_byte(0x1b));
    assert(seq![0x1bu8].push(b) =~= seq![0x1bu8, b]);
}

/// A control sequence is open from its first byte until the letter that ends it: what breaks off within it
/// has all of its bytes so far for its open end, and with the letter nothing is open.
pub proof fn control_sequence_opens_and_closes(before: Seq<u8>, params: Seq<u8>, last: u8)
    requires
        scan(before) == ground(),
        forall|i: int| 0 <= i < params.len() ==> 0x20 <= #[trigger] params[i] <= 0x3f,
        0x40 <= last <= 0x7e,
    ensures
        open_tail(before + seq![0x1bu8]) == seq![0x1bu8],
        open_tail(before + seq![0x1bu8, 0x5bu8] + params) == seq![0x1bu8, 0x5bu8] + params,
        scan((before + seq![0x1bu8, 0x5bu8] + params).push(last)) == ground(),
{
    assert((before + seq![0x1bu8]).drop_last() =~= before);
    assert(scan(before + seq![0x1bu8]) == first_byte(0x1b));
    control_collects(before, params);
    let all = before + seq![0x1bu8, 0x5bu8] + params;
    assert(all.push(last).drop_last() =~= all);
}

proof fn control_collects(before: Seq<u8>, params: Seq<u8>)
    requires
        scan(before) == ground(),
        forall|i: int| 0 <= i < params.len() ==> 0x20 <= #[trigger] params[i] <= 0x3f,
    ensures
        scan(before + seq![0x1bu8, 0x5bu8] + params).mode == Mode::Csi,
        scan(before + seq![0x1bu8, 0x5bu8] + params).tail == seq![0x1bu8, 0x5bu8] + params,
    decreases params.len(),
{
    let start = before + seq![0x1bu8, 0x5bu8];
    if params.len() == 0 {
        opened_by(before, 0x5b);
        assert(start + params =~= start);
        assert(seq![0x1bu8, 0x5bu8] + params =~= seq![0x1bu8, 0x5bu8]);
    } else {
        let rest = params.drop_last();
        assert forall|i: int| 0 <= i < rest.len() implies 0x20 <= #[trigger] rest[i] <= 0x3f by {
            assert(rest[i] == params[i]);
        }
        control_collects(before, rest);
        assert((start + params).drop_last() =~= start + rest);
        assert((start + params).last() == params[params.len() - 1]);
        assert((seq![0x1bu8, 0x5bu8] + rest).push(params.last()) =~= seq![0x1bu8, 0x5bu8]
            + params);
    }
}

/// An operating system command, such as one that sets the title, is open until the byte that ends it,
/// whatever text it holds: a bell, or an escape byte and a backslash.
pub proof fn command_opens_and_closes(before: Seq<u8>, text: Seq<u8>)
    requires
        scan(before) == ground(),
        forall|i: int|
            0 <= i < text.len() ==> (#[trigger] text[i]) != 0x07 && text[i] != 0x18 && text[i] != 0x1a
                && text[i] != 0x1b,
    ensures
        open_tail(before + seq![0x1bu8, 0x5du8] + text) == seq![0x1bu8, 0x5du8] + text,
        scan((before + seq![0x1bu8, 0x5du8] + text).push(0x07)) == ground(),
        scan((before + seq![0x1bu8, 0x5du8] + text).push(0x1b).push(0x5c)) == ground(),
{
    command_collects(before, text);
    let all = before + seq![0x1bu8, 0x5du8] + text;
    assert(all.push(0x07).drop_last() =~= all);
    assert(all.push(0x1b).drop_last() =~= all);
    assert(scan(all.push(0x1b)) == first_byte(0x1b));
    assert(all.push(0x1b).push(0x5c).drop_last() =~= all.push(0x1b));
}

proof fn command_collects(before: Seq<u8>, text: Seq<u8>)
    requires
        scan(before) == ground(),
        forall|i: int|
            0 <= i < text.len() ==> (#[trigger] text[i]) != 0x07 && text[i] != 0x18 && text[i] != 0x1a
                && text[i] != 0x1b,
    ensures
        scan(before + seq![0x1bu8, 0x5du8] + text).mode == Mode::Osc,
        scan(before + seq![0x1bu8, 0x5du8] + text).tail == seq![0x1bu8, 0x5du8] + text,
    decreases text.len(),
{
    let start = before + seq![0x1bu8, 0x5du8];
    if text.len() == 0 {
        opened_by(before, 0x5d);
        assert(start + text =~= start);
        assert(seq![0x1bu8, 0x5du8] + text =~= seq![0x1bu8, 0x5du8]);
    } else {
        let rest = text.drop_last();
        assert forall|i: int| 0 <= i < rest.len() implies (#[trigger] rest[i]) != 0x07 && rest[i]
            != 0x18 && rest[i] != 0x1a && rest[i] != 0x1b by {
            assert(rest[i] == text[i]);
        }
        command_collects(before, rest);
        assert((start + text).drop_last() =~= start + rest);
        assert((start + text).last() == text[text.len() - 1]);
        assert((seq![0x1bu8, 0x5du8] + rest).push(text.last()) =~= seq![0x1bu8, 0x5du8] + text);
    }
}

/// Output that comes in pieces has, for its open end, that of all of it.
pub proof fn pieces_keep_open_end(data: &[u8], sofar: Seq<u8>)
    ensures
        forall|t: &mut Tail, r: ()|
            t@ == open_tail(sofar) && #[trigger] call_ensures(Tail::feed, (t, data), r) ==> final(t)@
                == open_tail(sofar + data@),
{
    tail_resumes(sofar, data@);
}

/// The bytes of a character, as far as a reader needs to know them to tell where it ends.
proof fn character_bytes(c: char)
    ensures
        ({
            let bytes = encode_scalar(c as u32);
            let n = bytes.len();
            &&& 1 <= n <= 4
            &&& n == 1 ==> bytes[0] < 0x80 && bytes[0] == c as u32
            &&& n > 1 ==> 0xc2 <= bytes[0] <= 0xf4 && letter_len(bytes[0]) == n
            &&& forall|k: int|
                1 <= k < n ==> letter_goes_on(bytes[0], k as nat, #[trigger] bytes[k])
        }),
{
    let v = c as u32;
    let bytes = encode_scalar(v);
    let x = 0xC0 | ((v >> 6) & 0x1F) as u8;
    let y = 0xE0 | ((v >> 12) & 0x0F) as u8;
    let z = 0xF0 | ((v >> 18) & 0x7) as u8;
    let l = 0x80 | (v & 0x3F) as u8;
    let m = 0x80 | ((v >> 6) & 0x3F) as u8;
    let h = 0x80 | ((v >> 12) & 0x3F) as u8;
    assert(v <= 0x7f ==> (v & 0x7F) as u8 == v) by (bit_vector);
    assert(0x80 <= l <= 0xbf) by (bit_vector)
        requires
            l == 0x80 | (v & 0x3F) as u8,
    ;
    assert(0x80 <= m <= 0xbf) by (bit_vector)
        requires
            m == 0x80 | ((v >> 6) & 0x3F) as u8,
    ;
    assert(0x80 <= h <= 0xbf) by (bit_vector)
        requires
            h == 0x80 | ((v >> 12) & 0x3F) as u8,
    ;
    assert(0x80 <= v <= 0x7ff ==> 0xc2 <= x <= 0xdf) by (bit_vector)
        requires
            x == 0xC0 | ((v >> 6) & 0x1F) as u8,
    ;
    assert(0x800 <= v <= 0xffff && !(0xd800 <= v <= 0xdfff) ==> 0xe0 <= y <= 0xef && (y == 0xe0 ==> m
        >= 0xa0) && (y == 0xed ==> m <= 0x9f)) by (bit_vector)
        requires
            y == 0xE0 | ((v >> 12) & 0x0F) as u8,
            m == 0x80 | ((v >> 6) & 0x3F) as u8,
    ;
    assert(0x10000 <= v <= 0x10ffff ==> 0xf0 <= z <= 0xf4 && (z == 0xf0 ==> h >= 0x90) && (z == 0xf4
        ==> h <= 0x8f)) by (bit_vector)
        requires
            z == 0xF0 | ((v >> 18) & 0x7) as u8,
            h == 0x80 | ((v >> 12) & 0x3F) as u8,
    ;
}

/// A character is open from its first byte to the one before its last, however many it has: what breaks
/// off within it has its bytes so far for its open end, and with its last byte nothing is open.
pub proof fn character_opens_and_closes(before: Seq<u8>, c: char, k: int)
    requires
        scan(before) == ground(),
        c != '\x1b',
        0 < k <= encode_scalar(c as u32).len(),
    ensures
        k < encode_scalar(c as u32).len() ==> open_tail(before + encode_scalar(c as u32).take(k))
            == encode_scalar(c as u32).take(k),
        k == encode_scalar(c as u32).len() ==> scan(before + encode_scalar(c as u32)) == ground(),
{
    let bytes = encode_scalar(c as u32);
    let n = bytes.len() as int;
    character_bytes(c);
    if k == n {
        let front = before + bytes.take(n - 1);
        assert((before + bytes).drop_last() =~= front);
        assert((before + bytes).last() == bytes[n - 1]);
        if n == 1 {
            assert(front =~= before);
        } else {
            character_collects(before, c, n - 1);
            assert(letter_goes_on(bytes[0], (n - 1) as nat, bytes[n - 1]));
            assert(bytes.take(n - 1)[0] == bytes[0]);
        }
    } else {
        character_collects(before, c, k);
    }
}

proof fn character_collects(before: Seq<u8>, c: char, k: int)
    requires
        scan(before) == ground(),
        0 < k < encode_scalar(c as u32).len(),
    ensures
        scan(before + encode_scalar(c as u32).take(k)).mode == Mode::Letter,
        scan(before + encode_scalar(c as u32).take(k)).tail == encode_scalar(c as u32).take(k),
    decreases k,
{
    let bytes = encode_scalar(c as u32);
    character_bytes(c);
    let part = bytes.take(k);
    assert((before + part).drop_last() =~= before + bytes.take(k - 1));
    assert((before + part).last() == bytes[k - 1]);
    if k == 1 {
        assert(before + bytes.take(0) =~= before);
        assert(part =~= seq![bytes[0]]);
    } else {
        character_collects(before, c, k - 1);
        assert(letter_goes_on(bytes[0], (k - 1) as nat, bytes[k - 1]));
        assert(bytes.take(k - 1)[0] == bytes[0]);
        assert(bytes.take(k - 1).push(bytes[k - 1]) =~= part);
    }
}

/// An escape sequence with marks is open until the byte that ends it.
pub proof fn escape_sequence_opens_and_closes(before: Seq<u8>, marks: Seq<u8>, last: u8)
    requires
        scan(before) == ground(),
        marks.len() > 0,
        forall|i: int| 0 <= i < marks.len() ==> 0x20 <= #[trigger] marks[i] <= 0x2f,
        0x30 <= last <= 0x7e,
    ensures
        open_tail(before + seq![0x1bu8] + marks) == seq![0x1bu8] + marks,
        scan((before + seq![0x1bu8] + marks).push(last)) == ground(),
{
    escape_collects(before, marks);
    let all = before + seq![0x1bu8] + marks;
    assert(all.push(last).drop_last() =~= all);
}

proof fn escape_collects(before: Seq<u8>, marks: Seq<u8>)
    requires
        scan(before) == ground(),
        marks.len() > 0,
        forall|i: int| 0 <= i < marks.len() ==> 0x20 <= #[trigger] marks[i] <= 0x2f,
    ensures
        scan(before + seq![0x1bu8] + marks).mode == Mode::EscapeMore,
        scan(before + seq![0x1bu8] + marks).tail == seq![0x1bu8] + marks,
    decreases marks.len(),
{
    let start = before + seq![0x1bu8];
    let rest = marks.drop_last();
    assert(start.drop_last() =~= before);
    assert(scan(start) == first_byte(0x1b));
    assert((start + marks).drop_last() =~= start + rest);
    assert((start + marks).last() == marks[marks.len() - 1]);
    assert((seq![0x1bu8] + rest).push(marks.last()) =~= seq![0x1bu8] + marks);
    if rest.len() == 0 {
        assert(start + rest =~= start);
        assert(seq![0x1bu8] + rest =~= seq![0x1bu8]);
    } else {
        assert forall|i: int| 0 <= i < rest.len() implies 0x20 <= #[trigger] rest[i] <= 0x2f by {
            assert(rest[i] == marks[i]);
        }
        escape_collects(before, rest);
    }
}

/// A device control string, and the other strings that only an escape byte and a backslash end, are open
/// until then, whatever text they hold.
pub proof fn string_opens_and_closes(before: Seq<u8>, kind: u8, text: Seq<u8>)
    requires
        scan(before) == ground(),
        kind == 0x50 || kind == 0x58 || kind == 0x5e || kind == 0x5f,
        forall|i: int|
            0 <= i < text.len() ==> (#[trigger] text[i]) != 0x9c && text[i] != 0x18 && text[i] != 0x1a
                && text[i] != 0x1b,
    ensures
        open_tail(before + seq![0x1bu8, kind] + text) == seq![0x1bu8, kind] + text,
        scan((before + seq![0x1bu8, kind] + text).push(0x1b).push(0x5c)) == ground(),
{
    string_collects(before, kind, text);
    let all = before + seq![0x1bu8, kind] + text;
    assert(all.push(0x1b).drop_last() =~= all);
    assert(scan(all.push(0x1b)) == first_byte(0x1b));
    assert(all.push(0x1b).push(0x5c).drop_last() =~= all.push(0x1b));
}

proof fn string_collects(before: Seq<u8>, kind: u8, text: Seq<u8>)
    requires
        scan(before) == ground(),
        kind == 0x50 || kind == 0x58 || kind == 0x5e || kind == 0x5f,
        forall|i: int|
            0 <= i < text.len() ==> (#[trigger] text[i]) != 0x9c && text[i] != 0x18 && text[i] != 0x1a
                && text[i] != 0x1b,
    ensures
        scan(before + seq![0x1bu8, kind] + text).mode == if kind == 0x50 {
            Mode::Dcs
        } else {
            Mode::Other
        },
        scan(before + seq![0x1bu8, kind] + text).tail == seq![0x1bu8, kind] + text,
    decreases text.len(),
{
    let one = before + seq![0x1bu8];
    let start = before + seq![0x1bu8, kind];
    assert(one.drop_last() =~= before);
    assert(scan(one) == first_byte(0x1b));
    assert(start.drop_last() =~= one);
    assert(start.last() == kind);
    assert(seq![0x1bu8].push(kind) =~= seq![0x1bu8, kind]);
    if text.len() == 0 {
        assert(start + text =~= start);
        assert(seq![0x1bu8, kind] + text =~= seq![0x1bu8, kind]);
    } else {
        let rest = text.drop_last();
        assert forall|i: int| 0 <= i < rest.len() implies (#[trigger] rest[i]) != 0x9c && rest[i]
            != 0x18 && rest[i] != 0x1a && rest[i] != 0x1b by {
            assert(rest[i] == text[i]);
        }
        string_collects(before, kind, rest);
        assert((start + text).drop_last() =~= start + rest);
        assert((start + text).last() == text[text.len() - 1]);
        assert((seq![0x1bu8, kind] + rest).push(text.last()) =~= seq![0x1bu8, kind] + text);
    }
}

}
