//! Strings as sequences of characters: building, cutting, comparing, and writing numbers.

use vstd::prelude::*;
use vstd::utf8::*;

verus! {

/// Adds one character at the end of a string (`String::push`): the characters become the old ones
/// followed by `ch`.
pub assume_specification[ String::push ](s: &mut String, ch: char)
    ensures
        final(s)@ == old(s)@.push(ch),
;

// ---------- Between strings and character vectors ----------

/// The characters of `s`, in order.
pub fn chars_of(s: &str) -> (out: Vec<char>)
    ensures
        out@ == s@,
{
    let mut out: Vec<char> = Vec::new();
    for c in it: s.chars()
        invariant
            it.seq() == s@,
            out@ == s@.take(it.index() as int),
    {
        out.push(c);
    }
    out
}

/// The string made of the characters of `chars`.
pub fn string_of(chars: &[char]) -> (out: String)
    ensures
        out@ == chars@,
{
    let mut out = String::new();
    let mut i: usize = 0;
    while i < chars.len()
        invariant
            i <= chars@.len(),
            out@ == chars@.take(i as int),
        decreases chars@.len() - i,
    {
        out.push(chars[i]);
        i += 1;
    }
    assert(chars@.take(i as int) == chars@);
    out
}

/// Adds the characters of `s` at the end of `out`.
pub fn append(out: &mut Vec<char>, s: &str)
    ensures
        final(out)@ == old(out)@ + s@,
{
    let mut more = chars_of(s);
    out.append(&mut more);
}

/// The UTF-8 bytes of a character vector.
pub fn utf8_bytes(chars: &[char]) -> (out: Vec<u8>)
    ensures
        out@ == encode_utf8(chars@),
{
    let s = string_of(chars);
    vstd::slice::slice_to_vec(s.as_str().as_bytes())
}

// ---------- Comparing ----------

/// Whether two character vectors are the same.
pub fn same_chars(a: &[char], b: &[char]) -> (r: bool)
    ensures
        r == (a@ == b@),
{
    if a.len() != b.len() {
        return false;
    }
    let mut i: usize = 0;
    while i < a.len()
        invariant
            i <= a@.len(),
            a@.len() == b@.len(),
            a@.take(i as int) == b@.take(i as int),
        decreases a@.len() - i,
    {
        if a[i] != b[i] {
            return false;
        }
        i += 1;
        assert(a@.take(i as int) == a@.take(i - 1).push(a@[i - 1]));
        assert(b@.take(i as int) == b@.take(i - 1).push(b@[i - 1]));
    }
    assert(a@.take(i as int) == a@);
    assert(b@.take(i as int) == b@);
    true
}

/// Whether a character vector spells `s`.
pub fn spells(a: &[char], s: &str) -> (r: bool)
    ensures
        r == (a@ == s@),
{
    let b = chars_of(s);
    same_chars(a, b.as_slice())
}

/// Whether two strings are the same.
pub fn same_str(a: &str, b: &str) -> (r: bool)
    ensures
        r == (a@ == b@),
{
    let x = chars_of(a);
    spells(x.as_slice(), b)
}

/// What is left of `chars` behind `prefix`, if `chars` starts with it.
pub open spec fn behind_prefix(chars: Seq<char>, prefix: Seq<char>) -> Option<Seq<char>> {
    if prefix.is_prefix_of(chars) {
        Some(chars.skip(prefix.len() as int))
    } else {
        None
    }
}

/// The characters behind `prefix`, or nothing if `chars` does not start with it.
pub fn strip_prefix(chars: &[char], prefix: &str) -> (r: Option<Vec<char>>)
    ensures
        match r {
            Some(rest) => behind_prefix(chars@, prefix@) == Some(rest@),
            None => behind_prefix(chars@, prefix@) is None,
        },
{
    let p = chars_of(prefix);
    if p.len() > chars.len() {
        return None;
    }
    let head = vstd::slice::slice_subrange(chars, 0, p.len());
    if same_chars(head, p.as_slice()) {
        let rest = vstd::slice::slice_subrange(chars, p.len(), chars.len());
        Some(vstd::slice::slice_to_vec(rest))
    } else {
        assert(!prefix@.is_prefix_of(chars@)) by {
            if prefix@.is_prefix_of(chars@) {
                assert(chars@.subrange(0, prefix@.len() as int) == prefix@);
            }
        }
        None
    }
}

/// The parts of `chars` between the separators: one more than there are separators.
pub open spec fn split_on(chars: Seq<char>, sep: char) -> Seq<Seq<char>>
    decreases chars.len(),
{
    if chars.len() == 0 {
        seq![seq![]]
    } else {
        let before = split_on(chars.drop_last(), sep);
        if chars.last() == sep {
            before.push(seq![])
        } else {
            before.drop_last().push(before.last().push(chars.last()))
        }
    }
}

/// The views of a vector of character vectors.
pub open spec fn parts_view(parts: Seq<Vec<char>>) -> Seq<Seq<char>> {
    parts.map_values(|p: Vec<char>| p@)
}

/// Cuts `chars` at every `sep`.
pub fn split(chars: &[char], sep: char) -> (parts: Vec<Vec<char>>)
    ensures
        parts_view(parts@) == split_on(chars@, sep),
{
    let mut parts: Vec<Vec<char>> = Vec::new();
    let mut current: Vec<char> = Vec::new();
    let mut i: usize = 0;
    assert(parts_view(parts@).push(current@) == split_on(chars@.take(0), sep));
    while i < chars.len()
        invariant
            i <= chars@.len(),
            parts_view(parts@).push(current@) == split_on(chars@.take(i as int), sep),
        decreases chars@.len() - i,
    {
        let c = chars[i];
        let ghost before = parts_view(parts@).push(current@);
        assert(chars@.take(i + 1).drop_last() == chars@.take(i as int));
        if c == sep {
            let ghost old_parts = parts@;
            parts.push(current);
            assert(parts_view(parts@) == parts_view(old_parts).push(current@));
            current = Vec::new();
            assert(parts_view(parts@).push(current@) == before.push(seq![]));
        } else {
            current.push(c);
            assert(parts_view(parts@).push(current@) == before.drop_last().push(
                before.last().push(c),
            ));
        }
        i += 1;
    }
    assert(chars@.take(i as int) == chars@);
    let ghost old_parts = parts@;
    parts.push(current);
    assert(parts_view(parts@) == parts_view(old_parts).push(current@));
    parts
}

/// The parts of a cut, put together again with the separator between them.
pub open spec fn join_with(parts: Seq<Seq<char>>, sep: char) -> Seq<char>
    decreases parts.len(),
{
    if parts.len() == 0 {
        seq![]
    } else if parts.len() == 1 {
        parts[0]
    } else {
        join_with(parts.drop_last(), sep).push(sep) + parts.last()
    }
}

/// Puts the parts together with the separator between them.
pub fn join(parts: &Vec<Vec<char>>, sep: char) -> (out: Vec<char>)
    ensures
        out@ == join_with(parts_view(parts@), sep),
{
    let mut out: Vec<char> = Vec::new();
    let mut i: usize = 0;
    while i < parts.len()
        invariant
            i <= parts@.len(),
            out@ == join_with(parts_view(parts@).take(i as int), sep),
        decreases parts@.len() - i,
    {
        let ghost upto = parts_view(parts@).take(i + 1);
        assert(upto.drop_last() == parts_view(parts@).take(i as int));
        if i > 0 {
            out.push(sep);
        }
        let mut part = vstd::slice::slice_to_vec(parts[i].as_slice());
        out.append(&mut part);
        assert(out@ == join_with(upto, sep));
        i += 1;
    }
    assert(parts_view(parts@).take(i as int) == parts_view(parts@));
    out
}

/// Cutting loses nothing: the parts joined by the separator are the text again, and no part
/// holds the separator.
pub proof fn split_join(chars: Seq<char>, sep: char)
    ensures
        split_on(chars, sep).len() > 0,
        join_with(split_on(chars, sep), sep) == chars,
        forall|k: int|
            0 <= k < split_on(chars, sep).len() ==> !(#[trigger] split_on(chars, sep)[k]).contains(
                sep,
            ),
    decreases chars.len(),
{
    let parts = split_on(chars, sep);
    if chars.len() > 0 {
        split_join(chars.drop_last(), sep);
        let before = split_on(chars.drop_last(), sep);
        assert(chars.drop_last().push(chars.last()) == chars);
        if chars.last() == sep {
            assert(parts.drop_last() == before);
            assert(join_with(parts, sep) == chars);
        } else {
            assert(parts.drop_last() == before.drop_last());
            let grown = before.last().push(chars.last());
            assert(parts.last() == grown);
            assert(join_with(parts, sep) == join_with(before, sep).push(chars.last()));
            assert forall|k: int| 0 <= k < parts.len() implies !(#[trigger] parts[k]).contains(
                sep,
            ) by {
                if k < parts.len() - 1 {
                    assert(parts[k] == before[k]);
                } else {
                    assert(!before[k].contains(sep));
                    if grown.contains(sep) {
                        let j = choose|j: int| 0 <= j < grown.len() && grown[j] == sep;
                        assert(before[k][j] == sep);
                    }
                }
            }
        }
    }
}

/// A text without the separator is one part.
pub proof fn split_plain(chars: Seq<char>, sep: char)
    requires
        !chars.contains(sep),
    ensures
        split_on(chars, sep) == seq![chars],
    decreases chars.len(),
{
    if chars.len() > 0 {
        let before = chars.drop_last();
        assert(!before.contains(sep)) by {
            if before.contains(sep) {
                let i = choose|i: int| 0 <= i < before.len() && before[i] == sep;
                assert(chars[i] == sep);
            }
        }
        split_plain(before, sep);
        assert(chars[chars.len() - 1] != sep);
        assert(before.push(chars.last()) =~= chars);
        assert(seq![before].drop_last().push(before.push(chars.last())) =~= seq![chars]);
    } else {
        assert(chars =~= seq![]);
    }
}

/// The characters with the Unicode property `White_Space`.
pub open spec fn is_white(c: char) -> bool {
    let n = c as u32;
    ||| 0x9 <= n <= 0xd
    ||| n == 0x20 || n == 0x85 || n == 0xa0 || n == 0x1680
    ||| 0x2000 <= n <= 0x200a
    ||| n == 0x2028 || n == 0x2029 || n == 0x202f || n == 0x205f || n == 0x3000
}

/// Whether `c` has the Unicode property `White_Space`.
pub fn white_space(c: char) -> (r: bool)
    ensures
        r == is_white(c),
{
    let n: u32 = c as u32;
    (0x9 <= n && n <= 0xd) || n == 0x20 || n == 0x85 || n == 0xa0 || n == 0x1680 || (0x2000 <= n
        && n <= 0x200a) || n == 0x2028 || n == 0x2029 || n == 0x202f || n == 0x205f || n == 0x3000
}

/// `chars` without white space at its end.
pub open spec fn trimmed_end(chars: Seq<char>) -> Seq<char>
    decreases chars.len(),
{
    if chars.len() > 0 && is_white(chars.last()) {
        trimmed_end(chars.drop_last())
    } else {
        chars
    }
}

/// `chars` without white space at its start.
pub open spec fn trimmed_start(chars: Seq<char>) -> Seq<char>
    decreases chars.len(),
{
    if chars.len() > 0 && is_white(chars[0]) {
        trimmed_start(chars.skip(1))
    } else {
        chars
    }
}

/// `chars` without white space at either end.
pub open spec fn trimmed(chars: Seq<char>) -> Seq<char> {
    trimmed_end(trimmed_start(chars))
}

/// Takes the white space off both ends.
pub fn trim(chars: &[char]) -> (out: Vec<char>)
    ensures
        out@ == trimmed(chars@),
{
    let mut i: usize = 0;
    assert(chars@.skip(0) == chars@);
    while i < chars.len() && white_space(chars[i])
        invariant
            i <= chars@.len(),
            trimmed_start(chars@.skip(i as int)) == trimmed_start(chars@),
        decreases chars@.len() - i,
    {
        assert(chars@.skip(i as int).skip(1) == chars@.skip(i + 1));
        i += 1;
    }
    assert(trimmed_start(chars@) == chars@.skip(i as int));
    let mut j: usize = chars.len();
    assert(chars@.subrange(i as int, j as int) == chars@.skip(i as int));
    while j > i && white_space(chars[j - 1])
        invariant
            i <= j <= chars@.len(),
            trimmed_end(chars@.subrange(i as int, j as int)) == trimmed(chars@),
        decreases j,
    {
        assert(chars@.subrange(i as int, j as int).drop_last() == chars@.subrange(
            i as int,
            j - 1,
        ));
        j -= 1;
    }
    vstd::slice::slice_to_vec(vstd::slice::slice_subrange(chars, i, j))
}

// ---------- Numbers ----------

/// The character of a decimal digit.
pub open spec fn digit(d: nat) -> char {
    (48 + d) as char
}

/// A number in decimal, without leading zeros.
pub open spec fn decimal(n: nat) -> Seq<char>
    decreases n,
{
    if n < 10 {
        seq![digit(n)]
    } else {
        decimal(n / 10).push(digit(n % 10))
    }
}

/// The number that a sequence of decimal digits stands for.
pub open spec fn decimal_value(s: Seq<char>) -> int
    decreases s.len(),
{
    if s.len() == 0 {
        0
    } else {
        decimal_value(s.drop_last()) * 10 + (s.last() as int - 48)
    }
}

/// A number in decimal is made of digits.
pub proof fn decimal_plain(n: nat)
    ensures
        decimal(n).len() > 0,
        forall|i: int| 0 <= i < decimal(n).len() ==> '0' <= #[trigger] decimal(n)[i] <= '9',
    decreases n,
{
    if n >= 10 {
        decimal_plain(n / 10);
    }
}

/// A number is read back from its decimal form: different numbers are written differently.
pub proof fn decimal_reads_back(n: nat)
    ensures
        decimal_value(decimal(n)) == n,
        decimal(n).len() > 0,
    decreases n,
{
    if n < 10 {
        assert(seq![digit(n)].drop_last() == Seq::<char>::empty());
        assert(decimal_value(Seq::<char>::empty()) == 0);
        assert(seq![digit(n)].last() as int == 48 + n);
    } else {
        decimal_reads_back(n / 10);
        assert(decimal(n).drop_last() == decimal(n / 10));
        assert(decimal(n).last() as int == 48 + n % 10);
    }
}

fn digit_char(d: u8) -> (c: char)
    requires
        d < 10,
    ensures
        c == digit(d as nat),
{
    (48 + d) as char
}

/// Writes a number in decimal.
pub fn decimal_chars(n: u64) -> (out: Vec<char>)
    ensures
        out@ == decimal(n as nat),
    decreases n,
{
    if n < 10 {
        let mut out: Vec<char> = Vec::new();
        out.push(digit_char(n as u8));
        out
    } else {
        let mut out = decimal_chars(n / 10);
        out.push(digit_char((n % 10) as u8));
        out
    }
}

/// The character of a hexadecimal digit, with capital letters or small ones.
pub open spec fn hex_digit(d: nat, capital: bool) -> char {
    if d < 10 {
        digit(d)
    } else if capital {
        (55 + d) as char
    } else {
        (87 + d) as char
    }
}

/// A byte as two hexadecimal digits.
pub open spec fn hex_pair(b: u8, capital: bool) -> Seq<char> {
    seq![hex_digit((b / 16) as nat, capital), hex_digit((b % 16) as nat, capital)]
}

/// A number in hexadecimal with capital letters, with zeros in front up to `width` digits.
pub open spec fn hex_upper(n: nat, width: nat) -> Seq<char>
    decreases n, width,
{
    if n < 16 && width <= 1 {
        seq![hex_digit(n, true)]
    } else {
        hex_upper(n / 16, if width > 0 { (width - 1) as nat } else { 0 }).push(
            hex_digit(n % 16, true),
        )
    }
}

pub fn hex_digit_char(d: u8, capital: bool) -> (c: char)
    requires
        d < 16,
    ensures
        c == hex_digit(d as nat, capital),
{
    if d < 10 {
        digit_char(d)
    } else if capital {
        (55 + d) as char
    } else {
        (87 + d) as char
    }
}

/// Writes a number in hexadecimal with capital letters, at least `width` digits long.
pub fn hex_upper_chars(n: u32, width: u32) -> (out: Vec<char>)
    ensures
        out@ == hex_upper(n as nat, width as nat),
    decreases n, width,
{
    if n < 16 && width <= 1 {
        let mut out: Vec<char> = Vec::new();
        out.push(hex_digit_char(n as u8, true));
        out
    } else {
        let rest: u32 = if width > 0 { width - 1 } else { 0 };
        let mut out = hex_upper_chars(n / 16, rest);
        out.push(hex_digit_char((n % 16) as u8, true));
        out
    }
}

// ---------- Columns ----------

/// `n` spaces.
pub open spec fn blanks(n: int) -> Seq<char> {
    Seq::new(if n > 0 { n as nat } else { 0 }, |i: int| ' ')
}

/// `chars` with spaces behind it up to `width` characters.
pub open spec fn left_aligned(chars: Seq<char>, width: int) -> Seq<char> {
    chars + blanks(width - chars.len())
}

/// `chars` with spaces in front of it up to `width` characters.
pub open spec fn right_aligned(chars: Seq<char>, width: int) -> Seq<char> {
    blanks(width - chars.len()) + chars
}

fn blank_chars(len: usize, width: usize) -> (out: Vec<char>)
    ensures
        out@ == blanks(width - len),
{
    let mut out: Vec<char> = Vec::new();
    let mut i: usize = len;
    while i < width
        invariant
            out@ == blanks(i - len),
            i == len || len <= i <= width,
        decreases width - i,
    {
        out.push(' ');
        i += 1;
    }
    out
}

/// Puts `chars` at the left of a column of `width` characters.
pub fn align_left(chars: &[char], width: usize) -> (out: Vec<char>)
    ensures
        out@ == left_aligned(chars@, width as int),
{
    let mut out = vstd::slice::slice_to_vec(chars);
    let mut pad = blank_chars(chars.len(), width);
    out.append(&mut pad);
    out
}

/// Puts `chars` at the right of a column of `width` characters.
pub fn align_right(chars: &[char], width: usize) -> (out: Vec<char>)
    ensures
        out@ == right_aligned(chars@, width as int),
{
    let mut out = blank_chars(chars.len(), width);
    let mut body = vstd::slice::slice_to_vec(chars);
    out.append(&mut body);
    out
}

// ---------- UTF-8 ----------

/// The bytes of one character.
pub proof fn encode_one(c: char)
    ensures
        encode_utf8(seq![c]) == encode_scalar(c as u32),
{
    reveal_with_fuel(encode_utf8, 2);
    assert(seq![c].drop_first() =~= seq![]);
    assert(encode_utf8(seq![c]) =~= encode_scalar(c as u32));
}

/// The UTF-8 bytes of one character.
pub fn char_bytes(c: char) -> (out: Vec<u8>)
    ensures
        out@ == encode_scalar(c as u32),
{
    let mut one: Vec<char> = Vec::new();
    one.push(c);
    proof {
        assert(one@ =~= seq![c]);
        encode_one(c);
    }
    utf8_bytes(one.as_slice())
}

/// The bytes of two texts in a row are the bytes of the one, then those of the other.
pub proof fn encode_concat(a: Seq<char>, b: Seq<char>)
    ensures
        encode_utf8(a + b) == encode_utf8(a) + encode_utf8(b),
    decreases a.len(),
{
    if a.len() == 0 {
        assert(a + b == b);
        assert(encode_utf8(a) + encode_utf8(b) == encode_utf8(b));
    } else {
        encode_concat(a.drop_first(), b);
        assert((a + b).drop_first() == a.drop_first() + b);
        assert((a + b)[0] == a[0]);
    }
}

/// Texts with the same bytes are the same.
pub proof fn encode_injective(a: Seq<char>, b: Seq<char>)
    requires
        encode_utf8(a) == encode_utf8(b),
    ensures
        a == b,
{
    encode_utf8_decode_utf8(a);
    encode_utf8_decode_utf8(b);
}

// ---------- Laws ----------

/// A prefix that was put in front of a text comes off it again, and nothing else does.
pub proof fn prefix_comes_off(prefix: Seq<char>, rest: Seq<char>, chars: Seq<char>)
    ensures
        behind_prefix(prefix + rest, prefix) == Some(rest),
        behind_prefix(chars, prefix) == Some(rest) ==> chars == prefix + rest,
{
    let all = prefix + rest;
    assert(all.subrange(0, prefix.len() as int) =~= prefix);
    assert(all.skip(prefix.len() as int) =~= rest);
    if behind_prefix(chars, prefix) == Some(rest) {
        assert(chars =~= prefix + rest);
    }
}

/// Of the ASCII characters, the space is white, and so are the five from tab to carriage return.
pub proof fn white_ascii(c: char)
    requires
        c < '\x7f',
    ensures
        is_white(c) <==> c == ' ' || '\t' <= c <= '\r',
{
}

proof fn start_cut(chars: Seq<char>) -> (i: int)
    ensures
        0 <= i <= chars.len(),
        trimmed_start(chars) == chars.skip(i),
        forall|k: int| 0 <= k < i ==> is_white(#[trigger] chars[k]),
        i < chars.len() ==> !is_white(chars[i]),
    decreases chars.len(),
{
    if chars.len() > 0 && is_white(chars[0]) {
        let rest = chars.skip(1);
        let j = start_cut(rest);
        assert(chars.skip(j + 1) =~= rest.skip(j));
        assert forall|k: int| 0 <= k < j + 1 implies is_white(#[trigger] chars[k]) by {
            if k > 0 {
                assert(chars[k] == rest[k - 1]);
            }
        }
        if j < rest.len() {
            assert(chars[j + 1] == rest[j]);
        }
        j + 1
    } else {
        assert(chars.skip(0) =~= chars);
        0
    }
}

proof fn end_cut(chars: Seq<char>) -> (j: int)
    ensures
        0 <= j <= chars.len(),
        trimmed_end(chars) == chars.take(j),
        forall|k: int| j <= k < chars.len() ==> is_white(#[trigger] chars[k]),
        j > 0 ==> !is_white(chars[j - 1]),
    decreases chars.len(),
{
    if chars.len() > 0 && is_white(chars.last()) {
        let rest = chars.drop_last();
        let j = end_cut(rest);
        assert(chars.take(j) =~= rest.take(j));
        assert forall|k: int| j <= k < chars.len() implies is_white(#[trigger] chars[k]) by {
            if k < rest.len() {
                assert(chars[k] == rest[k]);
            }
        }
        if j > 0 {
            assert(chars[j - 1] == rest[j - 1]);
        }
        j
    } else {
        assert(chars.take(chars.len() as int) =~= chars);
        chars.len() as int
    }
}

/// Trimming takes white space off the two ends, all of it and nothing else: what is left is one
/// stretch of the text, all that goes is white, and what is left neither starts nor ends with white.
pub proof fn trimmed_is_middle(chars: Seq<char>)
    ensures
        exists|i: int, j: int|
            {
                &&& 0 <= i <= j <= chars.len()
                &&& trimmed(chars) == #[trigger] chars.subrange(i, j)
                &&& forall|k: int|
                    0 <= k < i || j <= k < chars.len() ==> is_white(#[trigger] chars[k])
            },
        trimmed(chars).len() > 0 ==> !is_white(trimmed(chars)[0]) && !is_white(
            trimmed(chars).last(),
        ),
{
    let i = start_cut(chars);
    let mid = chars.skip(i);
    let n = end_cut(mid);
    let j = i + n;
    assert(mid.take(n) =~= chars.subrange(i, j));
    assert forall|k: int| 0 <= k < i || j <= k < chars.len() implies is_white(
        #[trigger] chars[k],
    ) by {
        if k >= j {
            assert(chars[k] == mid[k - i]);
        }
    }
    let out = trimmed(chars);
    if out.len() > 0 {
        assert(out[0] == chars[i]);
        assert(out.last() == mid[n - 1]);
    }
}

/// A text with something white round it is trimmed to itself, if it has no white ends of its own.
pub proof fn trimmed_undoes(left: Seq<char>, chars: Seq<char>, right: Seq<char>)
    requires
        forall|i: int| 0 <= i < left.len() ==> is_white(#[trigger] left[i]),
        forall|i: int| 0 <= i < right.len() ==> is_white(#[trigger] right[i]),
        chars.len() > 0,
        !is_white(chars[0]),
        !is_white(chars.last()),
    ensures
        trimmed(left + chars + right) == chars,
{
    let all = left + chars + right;
    let i = start_cut(all);
    let mid = all.skip(i);
    let n = end_cut(mid);
    let a = left.len() as int;
    let b = chars.len() as int;
    assert(all[a] == chars[0]);
    assert(all[a + b - 1] == chars.last());
    if i < a {
        assert(all[i] == left[i]);
    }
    if i > a {
        assert(is_white(all[a]));
    }
    assert(mid[b - 1] == chars.last());
    if n > b {
        assert(mid[n - 1] == right[n - 1 - b]);
    }
    if n < b {
        assert(is_white(mid[b - 1]));
    }
    assert(mid.take(n) =~= chars);
}

/// A number in decimal has no zeros in front.
pub proof fn decimal_has_no_zeros(n: nat)
    ensures
        decimal(n).len() > 0,
        decimal(n)[0] == '0' ==> n == 0,
    decreases n,
{
    if n >= 10 {
        decimal_has_no_zeros(n / 10);
        assert(decimal(n)[0] == decimal(n / 10)[0]);
    }
}

/// The number that a sequence of hexadecimal digits stands for, with letters of either case.
pub open spec fn hex_number(s: Seq<char>) -> int
    decreases s.len(),
{
    if s.len() == 0 {
        0
    } else {
        hex_number(s.drop_last()) * 16 + if s.last() <= '9' {
            s.last() as int - 48
        } else if s.last() <= 'F' {
            s.last() as int - 55
        } else {
            s.last() as int - 87
        }
    }
}

/// A number is read back from its hexadecimal form, which has at least the digits asked for, and no
/// more than the number needs beyond that.
pub proof fn hex_upper_reads_back(n: nat, width: nat)
    ensures
        hex_number(hex_upper(n, width)) == n,
        hex_upper(n, width).len() >= width,
        hex_upper(n, width).len() > width && hex_upper(n, width).len() > 1 ==> hex_upper(n, width)[0]
            != '0',
        forall|i: int|
            0 <= i < hex_upper(n, width).len() ==> '0' <= #[trigger] hex_upper(n, width)[i] <= '9'
                || 'A' <= hex_upper(n, width)[i] <= 'F',
    decreases n, width,
{
    let s = hex_upper(n, width);
    if n < 16 && width <= 1 {
        assert(s.drop_last() =~= seq![]);
        assert(hex_number(s.drop_last()) == 0);
    } else {
        let w = if width > 0 { (width - 1) as nat } else { 0 };
        hex_upper_reads_back(n / 16, w);
        let rest = hex_upper(n / 16, w);
        assert(s.drop_last() =~= rest);
        assert(s[0] == rest[0]) by {
            assert(rest.len() > 0) by {
                if rest.len() == 0 {
                    assert(w == 0);
                    assert(hex_upper(n / 16, w).len() > 0);
                }
            }
        }
        if s.len() > width && s.len() > 1 && rest.len() == 1 {
            assert(n >= 16);
            assert(hex_number(rest) == n / 16);
            assert(rest.drop_last() =~= seq![]);
            assert(hex_number(rest.drop_last()) == 0);
            assert(rest.last() == rest[0]);
        }
    }
}

/// A byte is read back from its two hexadecimal digits.
pub proof fn hex_pair_reads_back(b: u8, capital: bool)
    ensures
        hex_pair(b, capital).len() == 2,
        hex_number(hex_pair(b, capital)) == b,
{
    let s = hex_pair(b, capital);
    assert(s.drop_last() =~= seq![s[0]]);
    assert(seq![s[0]].drop_last() =~= seq![]);
    assert(hex_number(seq![]) == 0);
    assert(hex_number(seq![s[0]]) == b / 16);
}

/// A text in a column stands there whole: at the left of it or at the right, with spaces on the other
/// side, as many as it takes to fill the column.
pub proof fn columns_fill(chars: Seq<char>, width: int)
    requires
        width >= 0,
    ensures
        left_aligned(chars, width).len() == if chars.len() < width {
            width
        } else {
            chars.len() as int
        },
        left_aligned(chars, width).take(chars.len() as int) == chars,
        forall|i: int|
            chars.len() <= i < left_aligned(chars, width).len() ==> #[trigger] left_aligned(
                chars,
                width,
            )[i] == ' ',
        right_aligned(chars, width).len() == left_aligned(chars, width).len(),
        right_aligned(chars, width).skip(right_aligned(chars, width).len() - chars.len()) == chars,
        forall|i: int|
            0 <= i < right_aligned(chars, width).len() - chars.len() ==> #[trigger] right_aligned(
                chars,
                width,
            )[i] == ' ',
{
    let l = left_aligned(chars, width);
    let r = right_aligned(chars, width);
    assert(l.take(chars.len() as int) =~= chars);
    assert(r.skip(r.len() - chars.len()) =~= chars);
}

/// The parts of a text are seen as they are.
pub proof fn parts_are_seen_whole(parts: Seq<Vec<char>>)
    ensures
        parts_view(parts).len() == parts.len(),
        forall|i: int| 0 <= i < parts.len() ==> #[trigger] parts_view(parts)[i] == parts[i]@,
{
}

/// A text is cut at every separator and nowhere else: the parts, with separators between them, are the
/// text, and no part has one in it.
pub proof fn cut_is_exact(chars: &[char], sep: char, parts: Vec<Vec<char>>, out: Vec<char>)
    requires
        call_ensures(split, (chars, sep), parts),
        call_ensures(join, (&parts, sep), out),
    ensures
        out@ == chars@,
        parts@.len() > 0,
        forall|i: int| 0 <= i < parts@.len() ==> !(#[trigger] parts@[i])@.contains(sep),
{
    split_join(chars@, sep);
    assert forall|i: int| 0 <= i < parts@.len() implies !(#[trigger] parts@[i])@.contains(sep) by {
        assert(parts_view(parts@)[i] == parts@[i]@);
    }
}

/// What is made of texts keeps all of their characters, in order: read, written, put behind each other,
/// compared, trimmed, and stripped of a prefix.
pub proof fn texts_stay_whole(
    s: &str,
    chars: Vec<char>,
    slice: &[char],
    text: String,
    prefix: &str,
    rest: Option<Vec<char>>,
    mid: Vec<char>,
    same: bool,
)
    requires
        call_ensures(chars_of, (s,), chars),
        call_ensures(string_of, (slice,), text),
        call_ensures(strip_prefix, (slice, prefix), rest),
        call_ensures(trim, (slice,), mid),
        call_ensures(same_str, (s, prefix), same),
    ensures
        chars@ == s@,
        text@ == slice@,
        rest matches Some(x) ==> slice@ == prefix@ + x@,
        rest is None ==> !prefix@.is_prefix_of(slice@),
        exists|i: int, j: int|
            0 <= i <= j <= slice@.len() && mid@ == #[trigger] slice@.subrange(i, j),
        same <==> s@ == prefix@,
{
    if let Some(x) = rest {
        prefix_comes_off(prefix@, x@, slice@);
    }
    trimmed_is_middle(slice@);
}

/// Numbers are written so that they can be read: in decimal, and in hexadecimal with the digits asked for.
pub proof fn numbers_are_written(n: u64, a: Vec<char>, m: u32, width: u32, b: Vec<char>)
    requires
        call_ensures(decimal_chars, (n,), a),
        call_ensures(hex_upper_chars, (m, width), b),
    ensures
        decimal_value(a@) == n,
        a@.len() > 0 && (a@[0] == '0' ==> n == 0),
        hex_number(b@) == m,
        b@.len() >= width,
{
    decimal_reads_back(n as nat);
    decimal_has_no_zeros(n as nat);
    hex_upper_reads_back(m as nat, width as nat);
}

}
