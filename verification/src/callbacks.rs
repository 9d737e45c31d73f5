//! What a program tells its terminal beside what it shows: the window title, and sequences that
//! the screen does not know. Each unknown sequence is worth one note per terminal.

use crate::json::opt_view;
use crate::paths::split_joined;
use crate::text::{
    append, chars_of, decimal, decimal_chars, decimal_plain, hex_digit_char, hex_number, hex_pair,
    hex_pair_reads_back, hex_upper, hex_upper_chars, hex_upper_reads_back, join, join_with, parts_view,
    split_on, string_of,
};
use vstd::hash_set::StringHashSet;
use vstd::prelude::*;
use vstd::utf8::{decode_utf8, valid_utf8};

verus! {

// ---------- From std ----------

/// The text that `String::from_utf8_lossy` makes of bytes.
pub uninterp spec fn lossy_text(bytes: Seq<u8>) -> Seq<char>;

/// Reads bytes as UTF-8, with replacement characters where they are none
/// (`String::from_utf8_lossy`). The result is named `lossy_text`; on valid UTF-8 it is the text
/// that the bytes encode.
#[verifier::external_body]
pub(crate) fn lossy(bytes: &[u8]) -> (s: String)
    ensures
        s@ == lossy_text(bytes@),
        valid_utf8(bytes@) ==> s@ == decode_utf8(bytes@),
{
    String::from_utf8_lossy(bytes).into_owned()
}

/// The text that a `char`'s `Debug` gives: the character, escaped where need be, in quotes.
pub uninterp spec fn quoted_char(c: char) -> Seq<char>;

/// Writes a character for a log (`{:?}` of a `char`). The result is named `quoted_char`; which
/// characters are escaped is left unsaid.
#[verifier::external_body]
fn quote_char(c: char) -> (s: String)
    ensures
        s@ == quoted_char(c),
{
    format!("{:?}", c)
}

// ---------- Signatures of unknown sequences ----------

/// Names a character that the screen does not show, by its quoted form and its number.
pub open spec fn char_signature(quoted: Seq<char>, c: char) -> Seq<char> {
    "char "@ + quoted + " (U+"@ + hex_upper(c as nat, 4) + ")"@
}

/// Names a control byte.
pub open spec fn control_signature(b: u8) -> Seq<char> {
    "control 0x"@ + hex_pair(b, false)
}

/// The character with the number of an intermediate byte, if there is one.
pub open spec fn intermediate(b: Option<u8>) -> Seq<char> {
    match b {
        Some(x) => seq![x as char],
        None => seq![],
    }
}

/// Names an escape sequence.
pub open spec fn escape_signature(i1: Option<u8>, i2: Option<u8>, b: u8) -> Seq<char> {
    "ESC "@ + intermediate(i1) + intermediate(i2) + seq![b as char]
}

/// The numbers of one parameter, in decimal.
pub open spec fn numbers_text(p: Seq<u16>) -> Seq<char> {
    join_with(p.map_values(|n: u16| decimal(n as nat)), ':')
}

/// Names a control sequence with its parameters.
pub open spec fn csi_signature(
    i1: Option<u8>,
    i2: Option<u8>,
    params: Seq<&[u16]>,
    c: char,
) -> Seq<char> {
    "CSI "@ + intermediate(i1) + intermediate(i2) + join_with(
        params.map_values(|p: &[u16]| numbers_text(p@)),
        ';',
    ) + seq![c]
}

/// Names an operating system command with its parameters.
pub open spec fn osc_signature(params: Seq<Seq<char>>) -> Seq<char> {
    "OSC "@ + join_with(params, ';')
}

fn push_intermediate(out: &mut Vec<char>, b: Option<u8>)
    ensures
        final(out)@ == old(out)@ + intermediate(b),
{
    match b {
        Some(x) => out.push(x as char),
        None => (),
    }
}

fn numbers_chars(p: &[u16]) -> (out: Vec<char>)
    ensures
        out@ == numbers_text(p@),
{
    let mut parts: Vec<Vec<char>> = Vec::new();
    let mut i: usize = 0;
    let ghost all = p@.map_values(|n: u16| decimal(n as nat));
    while i < p.len()
        invariant
            i <= p@.len(),
            all == p@.map_values(|n: u16| decimal(n as nat)),
            parts_view(parts@) == all.take(i as int),
        decreases p@.len() - i,
    {
        let ghost before = parts@;
        parts.push(decimal_chars(p[i] as u64));
        assert(parts_view(parts@) == parts_view(before).push(all[i as int]));
        i += 1;
    }
    assert(all.take(i as int) == all);
    join(&parts, ':')
}

// ---------- The callbacks ----------

/// What a terminal has been told so far.
pub struct Cb {
    title: Option<String>,
    title_dirty: bool,
    seen_unhandled: StringHashSet,
}

/// The title, if one was ever set; whether it was set since it was last taken; and the signatures
/// of the unknown sequences so far.
pub struct CbView {
    pub title: Option<Seq<char>>,
    pub title_dirty: bool,
    pub seen: Set<Seq<char>>,
}

impl View for Cb {
    type V = CbView;

    closed spec fn view(&self) -> CbView {
        CbView {
            title: opt_view(self.title),
            title_dirty: self.title_dirty,
            seen: self.seen_unhandled@,
        }
    }
}

impl Default for Cb {
    fn default() -> (r: Self)
        ensures
            r@ == (CbView { title: None, title_dirty: false, seen: Set::empty() }),
    {
        Cb { title: None, title_dirty: false, seen_unhandled: StringHashSet::new() }
    }
}

/// The effect of a sequence that the screen does not know: it is remembered, and noted if it is
/// new.
pub open spec fn noted(
    before: CbView,
    sig: Seq<char>,
    after: CbView,
    r: Option<Seq<char>>,
) -> bool {
    &&& after == CbView { seen: before.seen.insert(sig), ..before }
    &&& r == if before.seen.contains(sig) {
        None
    } else {
        Some(sig)
    }
}

impl Cb {
    /// The program sets the window title.
    pub fn set_window_title(&mut self, t: &[u8])
        ensures
            final(self)@ == (CbView {
                title: Some(lossy_text(t@)),
                title_dirty: true,
                ..old(self)@
            }),
    {
        self.title = Some(lossy(t));
        self.title_dirty = true;
    }

    /// The title, if it was set since it was last taken.
    pub fn take_title(&mut self) -> (r: Option<String>)
        ensures
            opt_view(r) == if old(self)@.title_dirty {
                old(self)@.title
            } else {
                None
            },
            final(self)@ == (CbView { title_dirty: false, ..old(self)@ }),
    {
        if self.title_dirty {
            self.title_dirty = false;
            match &self.title {
                Some(t) => Some(t.clone()),
                None => None,
            }
        } else {
            None
        }
    }

    /// Remembers a signature, and gives it back if it is new.
    pub fn note_unhandled(&mut self, sig: String) -> (r: Option<String>)
        ensures
            noted(old(self)@, sig@, final(self)@, opt_view(r)),
    {
        if self.seen_unhandled.insert(sig.clone()) {
            Some(sig)
        } else {
            assert(self@.seen == old(self)@.seen.insert(sig@));
            None
        }
    }

    /// A character that the screen does not show.
    pub fn unhandled_char(&mut self, c: char) -> (r: Option<String>)
        ensures
            noted(old(self)@, char_signature(quoted_char(c), c), final(self)@, opt_view(r)),
    {
        self.note_char(quote_char(c).as_str(), c)
    }

    /// A character that the screen does not show, with its quoted form.
    pub fn note_char(&mut self, quoted: &str, c: char) -> (r: Option<String>)
        ensures
            noted(old(self)@, char_signature(quoted@, c), final(self)@, opt_view(r)),
    {
        let mut sig = chars_of("char ");
        append(&mut sig, quoted);
        append(&mut sig, " (U+");
        let mut hex = hex_upper_chars(c as u32, 4);
        sig.append(&mut hex);
        append(&mut sig, ")");
        self.note_unhandled(string_of(sig.as_slice()))
    }

    /// A control byte without a meaning.
    pub fn unhandled_control(&mut self, b: u8) -> (r: Option<String>)
        ensures
            noted(old(self)@, control_signature(b), final(self)@, opt_view(r)),
    {
        let mut sig = chars_of("control 0x");
        sig.push(hex_digit_char(b / 16, false));
        sig.push(hex_digit_char(b % 16, false));
        assert(sig@ =~= control_signature(b));
        self.note_unhandled(string_of(sig.as_slice()))
    }

    /// An escape sequence without a meaning.
    pub fn unhandled_escape(&mut self, i1: Option<u8>, i2: Option<u8>, b: u8) -> (r: Option<String>)
        ensures
            noted(old(self)@, escape_signature(i1, i2, b), final(self)@, opt_view(r)),
    {
        let mut sig = chars_of("ESC ");
        push_intermediate(&mut sig, i1);
        push_intermediate(&mut sig, i2);
        sig.push(b as char);
        assert(sig@ =~= escape_signature(i1, i2, b));
        self.note_unhandled(string_of(sig.as_slice()))
    }

    /// A control sequence without a meaning.
    pub fn unhandled_csi(
        &mut self,
        i1: Option<u8>,
        i2: Option<u8>,
        params: &[&[u16]],
        c: char,
    ) -> (r: Option<String>)
        ensures
            noted(old(self)@, csi_signature(i1, i2, params@, c), final(self)@, opt_view(r)),
    {
        let mut parts: Vec<Vec<char>> = Vec::new();
        let mut i: usize = 0;
        let ghost all = params@.map_values(|p: &[u16]| numbers_text(p@));
        while i < params.len()
            invariant
                i <= params@.len(),
                all == params@.map_values(|p: &[u16]| numbers_text(p@)),
                parts_view(parts@) == all.take(i as int),
            decreases params@.len() - i,
        {
            let ghost before = parts@;
            parts.push(numbers_chars(params[i]));
            assert(parts_view(parts@) == parts_view(before).push(all[i as int]));
            i += 1;
        }
        assert(all.take(i as int) == all);
        let mut sig = chars_of("CSI ");
        push_intermediate(&mut sig, i1);
        push_intermediate(&mut sig, i2);
        let mut joined = join(&parts, ';');
        sig.append(&mut joined);
        sig.push(c);
        assert(sig@ =~= csi_signature(i1, i2, params@, c));
        self.note_unhandled(string_of(sig.as_slice()))
    }

    /// An operating system command without a meaning.
    pub fn unhandled_osc(&mut self, params: &[&[u8]]) -> (r: Option<String>)
        ensures
            noted(
                old(self)@,
                osc_signature(params@.map_values(|p: &[u8]| lossy_text(p@))),
                final(self)@,
                opt_view(r),
            ),
    {
        let mut parts: Vec<Vec<char>> = Vec::new();
        let mut i: usize = 0;
        let ghost all = params@.map_values(|p: &[u8]| lossy_text(p@));
        while i < params.len()
            invariant
                i <= params@.len(),
                all == params@.map_values(|p: &[u8]| lossy_text(p@)),
                parts_view(parts@) == all.take(i as int),
            decreases params@.len() - i,
        {
            let ghost before = parts@;
            parts.push(chars_of(lossy(params[i]).as_str()));
            assert(parts_view(parts@) == parts_view(before).push(all[i as int]));
            i += 1;
        }
        assert(all.take(i as int) == all);
        self.note_osc(&parts)
    }

    /// An operating system command without a meaning, with its parameters as texts.
    pub fn note_osc(&mut self, params: &Vec<Vec<char>>) -> (r: Option<String>)
        ensures
            noted(old(self)@, osc_signature(parts_view(params@)), final(self)@, opt_view(r)),
    {
        let mut sig = chars_of("OSC ");
        let mut joined = join(params, ';');
        sig.append(&mut joined);
        self.note_unhandled(string_of(sig.as_slice()))
    }
}

/// Each unknown sequence is noted once: after it was met, it is not noted again.
pub proof fn noted_once(
    a: CbView,
    sig: Seq<char>,
    b: CbView,
    first: Option<Seq<char>>,
    c: CbView,
    second: Option<Seq<char>>,
)
    requires
        noted(a, sig, b, first),
        noted(b, sig, c, second),
    ensures
        second is None,
        c == b,
{
    assert(c.seen =~= b.seen);
}

// ---------- Laws ----------

/// A title that was set is taken once, whole: what is valid UTF-8 comes out as the text that it is, and a
/// later title takes the place of an earlier one.
pub proof fn title_is_taken_once(t: &[u8])
    ensures
        forall|cb: &mut Cb, r: ()| #[trigger]
            call_ensures(Cb::set_window_title, (cb, t), r) ==> final(cb)@.title == Some(
                lossy_text(t@),
            ) && final(cb)@.title_dirty && final(cb)@.seen == cb@.seen,
        forall|cb: &mut Cb, r: Option<String>| #[trigger]
            call_ensures(Cb::take_title, (cb,), r) ==> {
                &&& cb@.title_dirty ==> opt_view(r) == cb@.title
                &&& !cb@.title_dirty ==> r is None
                &&& !final(cb)@.title_dirty
                &&& final(cb)@.title == cb@.title
                &&& final(cb)@.seen == cb@.seen
            },
{
}

/// What a terminal does not know is noted when it comes for the first time, in full, and never again; the
/// title has nothing to do with it.
pub proof fn unknown_is_noted(sig: String)
    ensures
        forall|cb: &mut Cb, r: Option<String>| #[trigger]
            call_ensures(Cb::note_unhandled, (cb, sig), r) ==> {
                &&& cb@.seen.contains(sig@) ==> r is None
                &&& !cb@.seen.contains(sig@) ==> (r matches Some(s) && s@ == sig@)
                &&& final(cb)@.seen.contains(sig@)
                &&& forall|other: Seq<char>|
                    other != sig@ ==> (final(cb)@.seen.contains(other) <==> cb@.seen.contains(other))
                &&& final(cb)@.title == cb@.title
                &&& final(cb)@.title_dirty == cb@.title_dirty
            },
{
}

/// The notes of control bytes tell the byte: in two hexadecimal digits at their end, so that different
/// bytes have different notes.
pub proof fn control_note_tells_byte(b: u8)
    ensures
        forall|cb: &mut Cb, r: Option<String>| #[trigger]
            call_ensures(Cb::unhandled_control, (cb, b), r) ==> (r matches Some(s) ==> {
                &&& s@.len() == 12
                &&& s@.take(10) == "control 0x"@
                &&& hex_number(s@.skip(10)) == b
            }),
{
    reveal_strlit("control 0x");
    hex_pair_reads_back(b, false);
    let sig = control_signature(b);
    assert(sig.take(10) =~= "control 0x"@);
    assert(sig.skip(10) =~= hex_pair(b, false));
}

/// The note of a character tells it twice: as it is quoted, and by its number in at least four
/// hexadecimal digits.
pub proof fn char_note_tells_number(quoted: &str, c: char)
    ensures
        forall|cb: &mut Cb, r: Option<String>| #[trigger]
            call_ensures(Cb::note_char, (cb, quoted, c), r) ==> (r matches Some(s) ==> {
                let front = "char "@ + quoted@ + " (U+"@;
                let digits = s@.subrange(front.len() as int, s@.len() - 1);
                &&& s@.take(front.len() as int) == front
                &&& s@.last() == ')'
                &&& digits.len() >= 4
                &&& hex_number(digits) == c as int
            }),
{
    reveal_strlit(")");
    let front = "char "@ + quoted@ + " (U+"@;
    let digits = hex_upper(c as nat, 4);
    let sig = char_signature(quoted@, c);
    hex_upper_reads_back(c as nat, 4);
    assert(sig =~= front + digits + seq![')']);
    assert(sig.take(front.len() as int) =~= front);
    assert(sig.subrange(front.len() as int, sig.len() - 1) =~= digits);
}

/// The note of an escape sequence tells its bytes, in order.
pub proof fn escape_note_tells_bytes(a: u8, b: u8, c: u8)
    ensures
        forall|cb: &mut Cb, r: Option<String>| #[trigger]
            call_ensures(Cb::unhandled_escape, (cb, Some(a), Some(b), c), r) ==> (
            r matches Some(s) ==> s@ == "ESC "@ + seq![a as char, b as char, c as char]),
        forall|cb: &mut Cb, r: Option<String>| #[trigger]
            call_ensures(Cb::unhandled_escape, (cb, Some(a), None, c), r) ==> (
            r matches Some(s) ==> s@ == "ESC "@ + seq![a as char, c as char]),
        forall|cb: &mut Cb, r: Option<String>| #[trigger]
            call_ensures(Cb::unhandled_escape, (cb, None, None, c), r) ==> (
            r matches Some(s) ==> s@ == "ESC "@ + seq![c as char]),
{
    assert(escape_signature(Some(a), Some(b), c) =~= "ESC "@ + seq![
        a as char,
        b as char,
        c as char,
    ]);
    assert(escape_signature(Some(a), None, c) =~= "ESC "@ + seq![a as char, c as char]);
    assert(escape_signature(None, None, c) =~= "ESC "@ + seq![c as char]);
}

proof fn numbers_read_back(p: Seq<u16>)
    requires
        p.len() > 0,
    ensures
        split_on(numbers_text(p), ':') == p.map_values(|n: u16| decimal(n as nat)),
        forall|i: int| 0 <= i < numbers_text(p).len() ==> numbers_text(p)[i] != ';',
{
    let parts = p.map_values(|n: u16| decimal(n as nat));
    assert forall|i: int| 0 <= i < parts.len() implies !(#[trigger] parts[i]).contains(':')
        && !parts[i].contains(';') by {
        decimal_plain(p[i] as nat);
    }
    split_joined(parts, ':');
    join_avoids(parts, ':', ';');
}

proof fn join_avoids(parts: Seq<Seq<char>>, sep: char, c: char)
    requires
        sep != c,
        forall|i: int| 0 <= i < parts.len() ==> !(#[trigger] parts[i]).contains(c),
    ensures
        forall|i: int| 0 <= i < join_with(parts, sep).len() ==> join_with(parts, sep)[i] != c,
    decreases parts.len(),
{
    let all = join_with(parts, sep);
    if parts.len() == 1 {
        assert(!parts[0].contains(c));
        assert forall|i: int| 0 <= i < all.len() implies all[i] != c by {
            assert(all[i] == parts[0][i]);
        }
    } else if parts.len() > 1 {
        let before = parts.drop_last();
        assert forall|i: int| 0 <= i < before.len() implies !(#[trigger] before[i]).contains(c) by {
            assert(before[i] == parts[i]);
        }
        join_avoids(before, sep, c);
        let front = join_with(before, sep);
        let last = parts[parts.len() - 1];
        assert(!last.contains(c));
        assert forall|i: int| 0 <= i < all.len() implies all[i] != c by {
            if i < front.len() {
                assert(all[i] == front[i]);
            } else if i > front.len() {
                assert(all[i] == last[i - front.len() - 1]);
            }
        }
    }
}

/// The note of a control sequence tells its parameters, all of them and in order: between the marks that
/// it starts with and the letter that it ends with, parted by semicolons, the numbers of one parameter
/// parted by colons.
pub proof fn csi_note_tells_parameters(params: &[&[u16]], c: char)
    requires
        params@.len() > 0,
        forall|i: int| 0 <= i < params@.len() ==> (#[trigger] params@[i])@.len() > 0,
    ensures
        forall|cb: &mut Cb, r: Option<String>| #[trigger]
            call_ensures(Cb::unhandled_csi, (cb, None, None, params, c), r) ==> (
            r matches Some(s) ==> {
                let middle = s@.subrange(4, s@.len() - 1);
                let parts = split_on(middle, ';');
                &&& s@.take(4) == "CSI "@
                &&& s@.last() == c
                &&& parts.len() == params@.len()
                &&& forall|i: int|
                    0 <= i < parts.len() ==> #[trigger] split_on(parts[i], ':')
                        == params@[i]@.map_values(|n: u16| decimal(n as nat))
            }),
{
    reveal_strlit("CSI ");
    let all = params@.map_values(|p: &[u16]| numbers_text(p@));
    let sig = csi_signature(None, None, params@, c);
    let middle = join_with(all, ';');
    assert forall|i: int| 0 <= i < all.len() implies !(#[trigger] all[i]).contains(';')
        && split_on(all[i], ':') == params@[i]@.map_values(|n: u16| decimal(n as nat)) by {
        assert(params@[i]@.len() > 0);
        numbers_read_back(params@[i]@);
    }
    split_joined(all, ';');
    assert(sig =~= "CSI "@ + middle + seq![c]);
    assert(sig.take(4) =~= "CSI "@);
    assert(sig.subrange(4, sig.len() - 1) =~= middle);
}

/// The note of an operating system command tells its parameters, all of them and in order.
pub proof fn osc_note_tells_parameters(params: Vec<Vec<char>>)
    requires
        params@.len() > 0,
        forall|i: int| 0 <= i < params@.len() ==> !(#[trigger] params@[i])@.contains(';'),
    ensures
        forall|cb: &mut Cb, r: Option<String>| #[trigger]
            call_ensures(Cb::note_osc, (cb, &params), r) ==> (r matches Some(s) ==> {
                &&& s@.take(4) == "OSC "@
                &&& split_on(s@.skip(4), ';') == parts_view(params@)
            }),
{
    reveal_strlit("OSC ");
    let all = parts_view(params@);
    assert forall|i: int| 0 <= i < all.len() implies !(#[trigger] all[i]).contains(';') by {
        assert(!params@[i]@.contains(';'));
    }
    split_joined(all, ';');
    let sig = osc_signature(all);
    assert(sig.take(4) =~= "OSC "@);
    assert(sig.skip(4) =~= join_with(all, ';'));
}

/// The marks that a control sequence starts with stand in its note, in order, before the parameters.
pub proof fn csi_note_tells_marks(a: u8, b: u8, params: &[&[u16]], c: char)
    ensures
        forall|cb: &mut Cb, r: Option<String>| #[trigger]
            call_ensures(Cb::unhandled_csi, (cb, Some(a), Some(b), params, c), r) ==> (
            r matches Some(s) ==> s@.take(6) == "CSI "@ + seq![a as char, b as char] && s@.last()
                == c),
        forall|cb: &mut Cb, r: Option<String>| #[trigger]
            call_ensures(Cb::unhandled_csi, (cb, Some(a), None, params, c), r) ==> (
            r matches Some(s) ==> s@.take(5) == "CSI "@ + seq![a as char] && s@.last() == c),
{
    reveal_strlit("CSI ");
    let x = csi_signature(Some(a), Some(b), params@, c);
    let y = csi_signature(Some(a), None, params@, c);
    assert(x.take(6) =~= "CSI "@ + seq![a as char, b as char]);
    assert(y.take(5) =~= "CSI "@ + seq![a as char]);
}

/// What is noted of a character and of a command is noted of what came: of the character itself in its
/// quoted form, and of the parameters as texts.
pub proof fn notes_are_of_what_came(c: char, params: &[&[u8]])
    ensures
        forall|cb: &mut Cb, r: Option<String>| #[trigger]
            call_ensures(Cb::unhandled_char, (cb, c), r) ==> {
                let sig = "char "@ + quoted_char(c) + " (U+"@ + hex_upper(c as nat, 4) + ")"@;
                &&& final(cb)@.seen.contains(sig)
                &&& r is Some <==> !cb@.seen.contains(sig)
                &&& r matches Some(s) ==> s@ == sig
            },
        forall|cb: &mut Cb, r: Option<String>| #[trigger]
            call_ensures(Cb::unhandled_osc, (cb, params), r) ==> {
                let sig = "OSC "@ + join_with(
                    params@.map_values(|p: &[u8]| lossy_text(p@)),
                    ';',
                );
                &&& final(cb)@.seen.contains(sig)
                &&& r is Some <==> !cb@.seen.contains(sig)
                &&& r matches Some(s) ==> s@ == sig
            },
{
}

}
