//! The replay of a terminal: the bytes that make another terminal show the same picture.

use crate::tail::{
    first_byte, ground, open_tail, scan, scan_from, scan_in_pieces, tail_resumes, Mode, Scan,
};
use crate::text::{decimal, decimal_chars, decimal_plain, utf8_bytes};
use vstd::prelude::*;
use vstd::utf8::*;
use vt100::Screen;

verus! {

/// An opaque terminal screen (`vt100::Screen`).
#[verifier::external_type_specification]
#[verifier::external_body]
pub struct ExScreen(Screen);

/// The rows that have scrolled off the top of a screen, oldest first, each as the bytes that draw
/// it.
pub uninterp spec fn screen_history(s: Screen) -> Seq<Seq<u8>>;

/// How many cells each of these rows has. A row keeps the width that the screen had when the row
/// scrolled off.
pub uninterp spec fn screen_widths(s: Screen) -> Seq<nat>;

/// How many rows a screen is scrolled back.
pub uninterp spec fn screen_offset(s: Screen) -> nat;

/// The bytes that draw the visible rows of a screen that is not scrolled back, and set its
/// attributes, its cursor and its input modes.
pub uninterp spec fn screen_live(s: Screen) -> Seq<u8>;

/// The row and the column of a screen's cursor, counted from 0.
pub uninterp spec fn screen_cursor(s: Screen) -> (u16, u16);

/// The rows and the columns of a screen.
pub uninterp spec fn screen_size(s: Screen) -> (u16, u16);

/// Whether a screen shows its alternate picture, which full-screen programs use.
pub uninterp spec fn screen_alternate(s: Screen) -> bool;

/// Holds of two screens that differ in nothing but how far they are scrolled back.
pub open spec fn same_screen(a: Screen, b: Screen) -> bool {
    &&& screen_history(a) == screen_history(b)
    &&& screen_widths(a) == screen_widths(b)
    &&& screen_live(a) == screen_live(b)
    &&& screen_cursor(a) == screen_cursor(b)
    &&& screen_size(a) == screen_size(b)
    &&& screen_alternate(a) == screen_alternate(b)
}

/// Scrolls back by `rows`, or to the oldest row if there are not so many
/// (`Screen::set_scrollback`). The rows are items of one collection, so a machine word counts them.
#[verifier::external_body]
fn scroll_to(s: &mut Screen, rows: usize)
    ensures
        screen_offset(*final(s)) == if rows <= screen_history(*old(s)).len() {
            rows as nat
        } else {
            screen_history(*old(s)).len()
        },
        same_screen(*final(s), *old(s)),
        screen_history(*final(s)).len() <= usize::MAX,
{
    s.set_scrollback(rows);
}

/// How many rows the screen is scrolled back (`Screen::scrollback`).
#[verifier::external_body]
fn scrolled(s: &Screen) -> (rows: usize)
    ensures
        rows == screen_offset(*s),
{
    s.scrollback()
}

/// Whether the topmost visible row has a first cell (`Screen::cell`). Scrolled back by `n`, that is
/// the `n`th row from the end of the history. There is nothing to draw of a row without cells.
#[verifier::external_body]
fn top_has_cells(s: &Screen) -> (r: bool)
    requires
        screen_size(*s).0 > 0,
    ensures
        0 < screen_offset(*s) <= screen_history(*s).len() ==> r == (screen_widths(
            *s,
        )[screen_history(*s).len() - screen_offset(*s)] > 0),
        0 < screen_offset(*s) <= screen_history(*s).len() && !r ==> screen_history(
            *s,
        )[screen_history(*s).len() - screen_offset(*s)] == Seq::<u8>::empty(),
{
    s.cell(0, 0).is_some()
}

/// The bytes that draw the topmost visible row at full width (the first of
/// `Screen::rows_formatted`). Scrolled back by `n`, that is the `n`th row from the end of the
/// history. A row without cells cannot be drawn.
#[verifier::external_body]
fn top_row(s: &Screen) -> (row: Option<Vec<u8>>)
    requires
        screen_size(*s).0 > 0,
        0 < screen_offset(*s) <= screen_history(*s).len(),
        screen_widths(*s)[screen_history(*s).len() - screen_offset(*s)] > 0,
    ensures
        row is Some && row->0@ == screen_history(*s)[screen_history(*s).len() - screen_offset(*s)],
{
    s.rows_formatted(0, s.size().1).next()
}

/// The bytes that draw the screen, not scrolled back (`Screen::state_formatted`).
#[verifier::external_body]
fn live_bytes(s: &Screen) -> (out: Vec<u8>)
    requires
        screen_offset(*s) == 0,
        screen_size(*s).0 > 0,
        screen_size(*s).1 > 0,
    ensures
        out@ == screen_live(*s),
{
    s.state_formatted()
}

/// Where the cursor is (`Screen::cursor_position`).
#[verifier::external_body]
fn cursor(s: &Screen) -> (pos: (u16, u16))
    ensures
        pos == screen_cursor(*s),
{
    s.cursor_position()
}

/// The size of the screen (`Screen::size`).
#[verifier::external_body]
fn size(s: &Screen) -> (size: (u16, u16))
    ensures
        size == screen_size(*s),
{
    s.size()
}

/// Whether the screen shows its alternate picture (`Screen::alternate_screen`).
#[verifier::external_body]
fn alternate(s: &Screen) -> (r: bool)
    ensures
        r == screen_alternate(*s),
{
    s.alternate_screen()
}

/// Whether a screen has rows and columns, so that it can be drawn.
pub fn drawable(s: &Screen) -> (r: bool)
    ensures
        r == (screen_size(*s).0 > 0 && screen_size(*s).1 > 0),
{
    let (rows, cols) = size(s);
    rows > 0 && cols > 0
}

// ---------- The replay ----------

/// The history rows, each followed by a reset of the attributes and a new line.
pub open spec fn history_bytes(rows: Seq<Seq<u8>>) -> Seq<u8>
    decreases rows.len(),
{
    if rows.len() == 0 {
        seq![]
    } else {
        history_bytes(rows.drop_last()) + rows.last() + seq![0x1b, 0x5b, 0x6d, 0x0d, 0x0a]
    }
}

/// The sequence that puts the cursor into a row and a column, both counted from 0.
pub open spec fn cursor_bytes(row: int, col: int) -> Seq<u8> {
    encode_utf8(
        seq!['\x1b', '['] + decimal((row + 1) as nat) + seq![';'] + decimal((col + 1) as nat)
            + seq!['H'],
    )
}

/// The sequence that changes to the alternate picture.
pub open spec fn enter_alternate() -> Seq<u8> {
    seq![0x1b, 0x5b, 0x3f, 0x31, 0x30, 0x34, 0x39, 0x68]
}

/// The replay of a screen: a full reset; the history, and then as many line feeds as carry the
/// last of it off the screen; the change to the alternate picture, where that is shown; the visible
/// rows; the cursor.
pub open spec fn replay(
    history: Seq<Seq<u8>>,
    live: Seq<u8>,
    rows: int,
    cursor: (u16, u16),
    alternate: bool,
) -> Seq<u8> {
    let feeds: Seq<u8> = if history.len() > 0 && rows > 0 {
        Seq::new((rows - 1) as nat, |i: int| 0x0au8)
    } else {
        seq![]
    };
    let enter = if alternate {
        enter_alternate()
    } else {
        seq![]
    };
    seq![0x1b, 0x63] + history_bytes(history) + feeds + enter + live + cursor_bytes(
        cursor.0 as int,
        cursor.1 as int,
    )
}

/// The replay of what a screen shows.
pub open spec fn screen_replay(s: Screen) -> Seq<u8> {
    replay(
        screen_history(s),
        screen_live(s),
        screen_size(s).0 as int,
        screen_cursor(s),
        screen_alternate(s),
    )
}

/// Writes the sequence that puts the cursor into a row and a column.
pub fn cursor_sequence(row: u16, col: u16) -> (out: Vec<u8>)
    ensures
        out@ == cursor_bytes(row as int, col as int),
{
    let mut chars: Vec<char> = Vec::new();
    chars.push('\x1b');
    chars.push('[');
    let mut digits = decimal_chars(row as u64 + 1);
    chars.append(&mut digits);
    chars.push(';');
    let mut digits = decimal_chars(col as u64 + 1);
    chars.append(&mut digits);
    chars.push('H');
    assert(chars@ =~= seq!['\x1b', '['] + decimal((row + 1) as nat) + seq![';'] + decimal(
        (col + 1) as nat,
    ) + seq!['H']);
    utf8_bytes(chars.as_slice())
}

fn push_enter(out: &mut Vec<u8>)
    ensures
        final(out)@ == old(out)@ + enter_alternate(),
{
    out.push(0x1b);
    out.push(0x5b);
    out.push(0x3f);
    out.push(0x31);
    out.push(0x30);
    out.push(0x34);
    out.push(0x39);
    out.push(0x68);
    assert(out@ =~= old(out)@ + enter_alternate());
}

/// The bytes of the rows in a vector.
pub open spec fn rows_view(rows: Seq<Vec<u8>>) -> Seq<Seq<u8>> {
    rows.map_values(|r: Vec<u8>| r@)
}

/// Puts a replay together: of the rows of the history, of what draws the visible rows, of the number
/// of these, of the cursor, and of which picture is shown.
pub fn assemble(
    history: &Vec<Vec<u8>>,
    live: &[u8],
    rows: u16,
    cursor: (u16, u16),
    alternate: bool,
) -> (out: Vec<u8>)
    ensures
        out@ == replay(rows_view(history@), live@, rows as int, cursor, alternate),
{
    let ghost all = rows_view(history@);
    let mut out: Vec<u8> = Vec::new();
    out.push(0x1b);
    out.push(0x63);
    let ghost reset = out@;
    assert(reset =~= seq![0x1b, 0x63]);
    let mut i: usize = 0;
    assert(all.take(0) =~= seq![]);
    assert(out@ =~= reset + history_bytes(all.take(0)));
    while i < history.len()
        invariant
            i <= history@.len(),
            all == rows_view(history@),
            out@ =~= reset + history_bytes(all.take(i as int)),
        decreases history@.len() - i,
    {
        let ghost before = out@;
        out.extend_from_slice(history[i].as_slice());
        out.push(0x1b);
        out.push(0x5b);
        out.push(0x6d);
        out.push(0x0d);
        out.push(0x0a);
        proof {
            assert(all.take(i + 1).drop_last() =~= all.take(i as int));
            assert(out@ =~= before + all[i as int] + seq![0x1b, 0x5b, 0x6d, 0x0d, 0x0a]);
        }
        i += 1;
    }
    assert(all.take(i as int) =~= all);
    let ghost above = out@;
    if history.len() > 0 && rows > 0 {
        let mut k: u16 = 1;
        while k < rows
            invariant
                1 <= k <= rows,
                out@ =~= above + Seq::new((k - 1) as nat, |j: int| 0x0au8),
            decreases rows - k,
        {
            out.push(0x0a);
            k += 1;
        }
    }
    if alternate {
        push_enter(&mut out);
    }
    out.extend_from_slice(live);
    let mut last = cursor_sequence(cursor.0, cursor.1);
    out.append(&mut last);
    assert(out@ =~= replay(all, live@, rows as int, cursor, alternate));
    out
}

/// Draws the history of a screen, and leaves the screen not scrolled back.
fn history_rows(screen: &mut Screen) -> (out: Vec<Vec<u8>>)
    requires
        screen_size(*old(screen)).0 > 0,
    ensures
        rows_view(out@) == screen_history(*old(screen)),
        same_screen(*final(screen), *old(screen)),
        screen_offset(*final(screen)) == 0,
{
    let ghost rows = screen_history(*screen);
    let ghost start = *screen;
    let mut out: Vec<Vec<u8>> = Vec::new();
    scroll_to(screen, usize::MAX);
    let mut left: usize = scrolled(screen);
    while left > 0
        invariant
            same_screen(*screen, start),
            rows == screen_history(start),
            left <= rows.len(),
            screen_size(start).0 > 0,
            rows_view(out@) =~= rows.take(rows.len() - left),
        decreases left,
    {
        scroll_to(screen, left);
        let mut row: Vec<u8> = Vec::new();
        if top_has_cells(screen) {
            if let Some(drawn) = top_row(screen) {
                row = drawn;
            }
        }
        assert(row@ =~= rows[rows.len() - left]);
        let ghost before = out@;
        out.push(row);
        assert(rows_view(out@) =~= rows_view(before).push(row@));
        left -= 1;
    }
    scroll_to(screen, 0);
    assert(rows.take(rows.len() as int) =~= rows);
    out
}

/// Serializes a screen into an ANSI byte stream that reproduces the same picture: scrollback,
/// visible rows, attributes, input modes and cursor.
///
/// The cursor comes last, in screen coordinates: the replay leaves the origin at the top.
pub fn dump(screen: &mut Screen) -> (out: Vec<u8>)
    requires
        screen_size(*old(screen)).0 > 0,
        screen_size(*old(screen)).1 > 0,
    ensures
        out@ == screen_replay(*old(screen)),
        same_screen(*final(screen), *old(screen)),
        screen_offset(*final(screen)) == 0,
{
    let above = history_rows(screen);
    let live = live_bytes(screen);
    assemble(&above, live.as_slice(), size(screen).0, cursor(screen), alternate(screen))
}

// ---------- Laws ----------

proof fn ascii_byte(c: char)
    requires
        c < '\x7f',
    ensures
        encode_scalar(c as u32) == seq![c as u8],
{
    let n = c as u32;
    assert(n < 0x80 ==> n & 0x7f == n) by (bit_vector);
    assert((n & 0x7f) as u8 == c as u8);
}

/// ASCII text has one byte for each character.
pub proof fn ascii_bytes(s: Seq<char>)
    requires
        forall|i: int| 0 <= i < s.len() ==> (#[trigger] s[i]) < '\x7f',
    ensures
        encode_utf8(s) == s.map_values(|c: char| c as u8),
    decreases s.len(),
{
    if s.len() > 0 {
        let rest = s.drop_first();
        assert forall|i: int| 0 <= i < rest.len() implies (#[trigger] rest[i]) < '\x7f' by {
            assert(rest[i] == s[i + 1]);
        }
        ascii_bytes(rest);
        assert(s[0] < '\x7f');
        ascii_byte(s[0]);
        assert(encode_utf8(s) =~= seq![s[0] as u8] + encode_utf8(rest));
    } else {
        assert(encode_utf8(s) =~= s.map_values(|c: char| c as u8));
    }
}

proof fn csi_collects(s: Scan, data: Seq<u8>)
    requires
        s.mode == Mode::Csi,
        forall|i: int| 0 <= i < data.len() ==> 0x20 <= #[trigger] data[i] <= 0x3f,
    ensures
        scan_from(s, data).mode == Mode::Csi,
    decreases data.len(),
{
    if data.len() > 0 {
        let before = data.drop_last();
        assert forall|i: int| 0 <= i < before.len() implies 0x20 <= #[trigger] before[i]
            <= 0x3f by {
            assert(before[i] == data[i]);
        }
        csi_collects(s, before);
        assert(0x20 <= data[data.len() - 1] <= 0x3f);
    }
}

/// The sequence that puts the cursor somewhere leaves nothing open, whatever came before it.
proof fn cursor_closes(s: Scan, row: int, col: int)
    requires
        row >= 0,
        col >= 0,
    ensures
        scan_from(s, cursor_bytes(row, col)) == ground(),
{
    let a = decimal((row + 1) as nat);
    let b = decimal((col + 1) as nat);
    let text = seq!['\x1b', '['] + a + seq![';'] + b + seq!['H'];
    decimal_plain((row + 1) as nat);
    decimal_plain((col + 1) as nat);
    assert forall|i: int| 0 <= i < text.len() implies (#[trigger] text[i]) < '\x7f' by {
        if 2 <= i < 2 + a.len() {
            assert(text[i] == a[i - 2]);
        } else if 3 + a.len() <= i < 3 + a.len() + b.len() {
            assert(text[i] == b[i - 3 - a.len()]);
        }
    }
    ascii_bytes(text);
    let bytes = cursor_bytes(row, col);
    let head = seq![0x1bu8, 0x5bu8];
    let middle = bytes.subrange(2, bytes.len() - 1);
    assert forall|i: int| 0 <= i < middle.len() implies 0x20 <= #[trigger] middle[i] <= 0x3f by {
        assert(middle[i] == text[i + 2] as u8);
        if i < a.len() {
            assert(text[i + 2] == a[i]);
        } else if i > a.len() {
            assert(text[i + 2] == b[i - 1 - a.len()]);
        }
    }
    assert(bytes[0] == 0x1b && bytes[1] == 0x5b && bytes.last() == 0x48);
    assert(bytes.drop_last() =~= head + middle);
    scan_in_pieces(s, head, middle);
    assert(head.drop_last() =~= seq![0x1bu8]);
    assert(seq![0x1bu8].drop_last() =~= seq![]);
    reveal_with_fuel(scan_from, 3);
    assert(scan_from(s, seq![0x1bu8]) == first_byte(0x1b));
    assert(scan_from(s, head).mode == Mode::Csi);
    csi_collects(scan_from(s, head), middle);
}

/// A replay leaves nothing open.
pub proof fn replay_is_closed(screen: Screen)
    ensures
        scan(screen_replay(screen)) == ground(),
{
    let snap = screen_replay(screen);
    let cursor = screen_cursor(screen);
    let last = cursor_bytes(cursor.0 as int, cursor.1 as int);
    let start = snap.take(snap.len() - last.len());
    assert(snap =~= start + last);
    scan_in_pieces(ground(), start, last);
    cursor_closes(scan(start), cursor.0 as int, cursor.1 as int);
}

/// No control sequence is split for who attaches: behind a replay, the open end of what the terminal
/// wrote before, and what it writes from then on, a reader stands where one stands who has read all
/// that the terminal ever wrote.
pub proof fn replay_in_step(screen: Screen, before: Seq<u8>, rest: Seq<u8>)
    ensures
        scan(screen_replay(screen) + open_tail(before) + rest) == scan(before + rest),
{
    let snap = screen_replay(screen);
    replay_is_closed(screen);
    let tail = open_tail(before);
    assert(snap + tail + rest =~= snap + (tail + rest));
    scan_in_pieces(ground(), snap, tail + rest);
    tail_resumes(before, rest);
}

/// Where a row of the history starts in a replay: behind the reset, and behind the rows before it, each
/// of which has five bytes more than its own.
pub open spec fn row_start(history: Seq<Seq<u8>>, i: int) -> int
    decreases i,
{
    if i <= 0 {
        2
    } else {
        row_start(history, i - 1) + history[i - 1].len() + 5
    }
}

proof fn history_splits(rows: Seq<Seq<u8>>, i: int)
    requires
        0 <= i <= rows.len(),
    ensures
        history_bytes(rows.take(i)).len() == row_start(rows, i) - 2,
        history_bytes(rows).len() == row_start(rows, rows.len() as int) - 2,
        row_start(rows, i) <= row_start(rows, rows.len() as int),
        history_bytes(rows.take(i)) == history_bytes(rows).take(row_start(rows, i) - 2),
        i > 0 ==> row_start(rows, i - 1) >= 2,
    decreases rows.len() - i, i,
{
    history_len(rows, rows.len() as int);
    history_len(rows, i);
    assert(rows.take(rows.len() as int) =~= rows);
    if i < rows.len() {
        history_splits(rows, i + 1);
        let upto = rows.take(i + 1);
        assert(upto.drop_last() =~= rows.take(i));
        let n = row_start(rows, i) - 2;
        assert(history_bytes(upto).take(n) =~= history_bytes(rows.take(i)));
        assert(history_bytes(rows).take(row_start(rows, i + 1) - 2).take(n) =~= history_bytes(
            rows,
        ).take(n));
    } else {
        assert(history_bytes(rows).take(row_start(rows, i) - 2) =~= history_bytes(rows));
    }
    if i > 0 {
        history_len(rows, i - 1);
    }
}

proof fn history_len(rows: Seq<Seq<u8>>, i: int)
    requires
        0 <= i <= rows.len(),
    ensures
        history_bytes(rows.take(i)).len() == row_start(rows, i) - 2,
    decreases i,
{
    if i > 0 {
        history_len(rows, i - 1);
        assert(rows.take(i).drop_last() =~= rows.take(i - 1));
    }
}

/// Every row of the history is in the replay, whatever their number: the oldest right behind a full
/// reset, each whole, each followed by a reset of the attributes and a new line, and the next right
/// behind that.
pub proof fn replay_holds_history(
    history: Seq<Seq<u8>>,
    live: Seq<u8>,
    rows: int,
    cursor: (u16, u16),
    alternate: bool,
    i: int,
)
    requires
        0 <= i < history.len(),
    ensures
        ({
            let out = replay(history, live, rows, cursor, alternate);
            let at = row_start(history, i);
            let end = at + history[i].len();
            &&& out.take(2) == seq![0x1bu8, 0x63u8]
            &&& 2 <= at <= end < row_start(history, history.len() as int) <= out.len()
            &&& out.subrange(at, end) == history[i]
            &&& out.subrange(end, end + 5) == seq![0x1bu8, 0x5bu8, 0x6du8, 0x0du8, 0x0au8]
            &&& row_start(history, i + 1) == end + 5
        }),
{
    let out = replay(history, live, rows, cursor, alternate);
    let all = history_bytes(history);
    let at = row_start(history, i);
    let end = at + history[i].len();
    history_splits(history, i);
    history_splits(history, i + 1);
    let before = history_bytes(history.take(i));
    let upto = history_bytes(history.take(i + 1));
    assert(history.take(i + 1).drop_last() =~= history.take(i));
    assert(upto == before + history[i] + seq![0x1bu8, 0x5bu8, 0x6du8, 0x0du8, 0x0au8]);
    assert(out.take(2) =~= seq![0x1bu8, 0x63u8]);
    let n = upto.len() as int;
    assert(out.subrange(2, 2 + all.len() as int) =~= all);
    assert(out.subrange(2, 2 + n) =~= all.take(n));
    assert(out.subrange(at, end) =~= out.subrange(2, 2 + n).subrange(at - 2, end - 2));
    assert(upto.subrange(at - 2, end - 2) =~= history[i]);
    assert(out.subrange(end, end + 5) =~= out.subrange(2, 2 + n).subrange(end - 2, end + 3));
    assert(upto.subrange(end - 2, end + 3) =~= seq![0x1bu8, 0x5bu8, 0x6du8, 0x0du8, 0x0au8]);
}

/// Behind the history come as many line feeds as carry the last of it off a screen of `rows` rows, or
/// none where there is no history; then the change to the alternate picture, where that is shown; then
/// all that draws the visible rows; and at the very end the cursor, in numbers that count from 1.
pub proof fn replay_holds_screen(
    history: Seq<Seq<u8>>,
    live: Seq<u8>,
    rows: int,
    cursor: (u16, u16),
    alternate: bool,
)
    requires
        rows > 0,
    ensures
        ({
            let out = replay(history, live, rows, cursor, alternate);
            let top = row_start(history, history.len() as int);
            let feeds = if history.len() > 0 {
                rows - 1
            } else {
                0
            };
            let enter = if alternate {
                8int
            } else {
                0
            };
            let at = top + feeds + enter;
            let end = at + live.len();
            &&& top <= end <= out.len()
            &&& forall|k: int| top <= k < top + feeds ==> #[trigger] out[k] == 0x0a
            &&& alternate ==> out.subrange(top + feeds, at) == seq![
                0x1bu8,
                0x5bu8,
                0x3fu8,
                0x31u8,
                0x30u8,
                0x34u8,
                0x39u8,
                0x68u8,
            ]
            &&& out.subrange(at, end) == live
            &&& out.skip(end) == encode_utf8(
                seq!['\x1b', '['] + decimal((cursor.0 + 1) as nat) + seq![';'] + decimal(
                    (cursor.1 + 1) as nat,
                ) + seq!['H'],
            )
        }),
{
    let out = replay(history, live, rows, cursor, alternate);
    let n = history.len() as int;
    history_splits(history, n);
    let top = row_start(history, n);
    let feeds = if history.len() > 0 { rows - 1 } else { 0 };
    let enter = if alternate { 8int } else { 0 };
    let at = top + feeds + enter;
    let end = at + live.len();
    let last = cursor_bytes(cursor.0 as int, cursor.1 as int);
    if alternate {
        assert(out.subrange(top + feeds, at) =~= enter_alternate());
    }
    assert(out.subrange(at, end) =~= live);
    assert(out.skip(end) =~= last);
}

/// What is put together is the replay of its parts: every row that goes in comes out, in order, and so
/// does all that draws the visible rows.
pub proof fn assembled_rows_stay(
    history: Vec<Vec<u8>>,
    live: &[u8],
    rows: u16,
    cursor: (u16, u16),
    alternate: bool,
    out: Vec<u8>,
    i: int,
)
    requires
        call_ensures(assemble, (&history, live, rows, cursor, alternate), out),
        0 <= i < history@.len(),
        rows > 0,
    ensures
        ({
            let all = rows_view(history@);
            let at = row_start(all, i);
            let shown = row_start(all, all.len() as int) + rows - 1 + if alternate {
                8int
            } else {
                0
            };
            &&& all.len() == history@.len()
            &&& out@.subrange(at, at + history@[i]@.len()) == history@[i]@
            &&& out@.subrange(shown, shown + live@.len()) == live@
        }),
{
    let all = rows_view(history@);
    replay_holds_history(all, live@, rows as int, cursor, alternate, i);
    replay_holds_screen(all, live@, rows as int, cursor, alternate);
    assert(all[i] == history@[i]@);
}

/// Who attaches can scroll back to the oldest row that the screen keeps: the replay of a screen has
/// every row of its history, in order, and then all that draws what is visible.
pub proof fn screen_is_replayed(s: Screen, i: int)
    requires
        0 <= i < screen_history(s).len(),
        screen_size(s).0 > 0,
    ensures
        ({
            let history = screen_history(s);
            let out = screen_replay(s);
            let at = row_start(history, i);
            let shown = row_start(history, history.len() as int) + screen_size(s).0 - 1
                + if screen_alternate(s) {
                8int
            } else {
                0
            };
            &&& out.subrange(at, at + history[i].len()) == history[i]
            &&& out.subrange(shown, shown + screen_live(s).len()) == screen_live(s)
        }),
{
    let rows = screen_size(s).0 as int;
    replay_holds_history(
        screen_history(s),
        screen_live(s),
        rows,
        screen_cursor(s),
        screen_alternate(s),
        i,
    );
    replay_holds_screen(screen_history(s), screen_live(s), rows, screen_cursor(s), screen_alternate(s));
}

/// A screen can be drawn if it has rows and columns.
pub proof fn drawable_has_size(s: Screen, r: bool)
    requires
        call_ensures(drawable, (&s,), r),
    ensures
        r <==> screen_size(s).0 >= 1 && screen_size(s).1 >= 1,
{
}

/// What is taken of a screen is its replay, and the screen stays as it is, not scrolled back.
pub proof fn dump_is_replay()
    ensures
        forall|screen: &mut Screen, out: Vec<u8>| #[trigger]
            call_ensures(dump, (screen,), out) ==> {
                &&& out@ == screen_replay(*screen)
                &&& screen_history(*final(screen)) == screen_history(*screen)
                &&& screen_live(*final(screen)) == screen_live(*screen)
                &&& screen_cursor(*final(screen)) == screen_cursor(*screen)
                &&& screen_size(*final(screen)) == screen_size(*screen)
                &&& screen_offset(*final(screen)) == 0
            },
{
}

}
