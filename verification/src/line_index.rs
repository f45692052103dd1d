//! Converting between LSP positions and byte offsets.
//!
//! LSP addresses text as a line number plus a character offset, where
//! "character" means whatever encoding was negotiated at startup: UTF-16 by
//! default, because that is what the protocol was originally specified against.
//! Everything below this layer counts bytes.
//!
//! On ASCII the units agree and any conversion looks correct. They come apart
//! on anything else: an emoji is one codepoint, two UTF-16 code units and four
//! UTF-8 bytes. A server that conflates them returns ranges that are plausible,
//! off by a character, and wrong in a way no type checker catches.
//!
//! The representation: line starts, plus a per-line list of the non-ASCII
//! characters. Lines that are pure ASCII, nearly all of them, carry no extra
//! data and convert by identity.
//!
//! Contracts count characters: a text is a `Seq<char>`, a place in it is a
//! character index, and [`units`] says how many bytes or code units stand before
//! it.
use rustc_hash::FxHashMap;
use vstd::prelude::*;

use crate::table::{no_numbers, position_of_number, set_number};

pub mod laws;

verus! {

/// Which unit an LSP `character` offset counts.
#[derive(Copy, Clone, Debug, PartialEq, Eq, Structural)]
pub enum PositionEncoding {
    /// Byte offsets. Requires the client to have opted in during `initialize`.
    Utf8,
    /// UTF-16 code units. The protocol default, so the fallback.
    Utf16,
}

/// A zero-based line and character offset, as LSP sends them.
#[derive(Copy, Clone, Debug, PartialEq, Eq, Structural)]
pub struct LinePosition {
    pub line: u32,
    pub character: u32,
}

impl LinePosition {
    /// The position with this line and character.
    pub fn new(line: u32, character: u32) -> (position: LinePosition)
        ensures
            position.line == line,
            position.character == character,
    {
        LinePosition { line, character }
    }
}

/// How many units a character takes.
pub open spec fn width(c: char, encoding: PositionEncoding) -> nat {
    match encoding {
        PositionEncoding::Utf8 => if (c as u32) < 0x80 {
            1
        } else if (c as u32) < 0x800 {
            2
        } else if (c as u32) < 0x10000 {
            3
        } else {
            4
        },
        PositionEncoding::Utf16 => if (c as u32) < 0x10000 {
            1
        } else {
            2
        },
    }
}

/// How many units a text takes.
pub open spec fn units(text: Seq<char>, encoding: PositionEncoding) -> nat
    decreases text.len(),
{
    if text.len() == 0 {
        0
    } else {
        units(text.drop_last(), encoding) + width(text.last(), encoding)
    }
}

/// The byte offset of the character at index `k`.
pub open spec fn offset_of(text: Seq<char>, k: int) -> nat {
    units(text.take(k), PositionEncoding::Utf8)
}

/// The character indices at which lines start: the start of the text, and every
/// place behind a newline.
pub open spec fn line_starts(text: Seq<char>) -> Seq<int>
    decreases text.len(),
{
    if text.len() == 0 {
        seq![0int]
    } else if text.last() == '\n' {
        line_starts(text.drop_last()).push(text.len() as int)
    } else {
        line_starts(text.drop_last())
    }
}

/// The character index at which a line ends, its newline excluded.
pub open spec fn line_end(text: Seq<char>, line: int) -> int {
    if line + 1 < line_starts(text).len() {
        line_starts(text)[line + 1] - 1
    } else {
        text.len() as int
    }
}

/// The characters of a line, its newline excluded.
pub open spec fn line_text(text: Seq<char>, line: int) -> Seq<char> {
    text.subrange(line_starts(text)[line], line_end(text, line))
}

/// The last character index up to which `text` takes at most `col` units.
pub open spec fn floor_index(text: Seq<char>, encoding: PositionEncoding, col: int) -> int
    decreases text.len(),
{
    if text.len() == 0 || units(text, encoding) <= col {
        text.len() as int
    } else {
        floor_index(text.drop_last(), encoding, col)
    }
}

/// The character index that a position addresses.
///
/// A column past the end of its line addresses the line's end: clients routinely
/// send a column derived from a stale buffer. A column inside a character
/// addresses its start. A line past the end of the text addresses nothing.
pub open spec fn index_at(
    text: Seq<char>,
    line: int,
    character: int,
    encoding: PositionEncoding,
) -> Option<int> {
    if 0 <= line < line_starts(text).len() {
        Some(
            line_starts(text)[line] + floor_index(line_text(text, line), encoding, character),
        )
    } else {
        None
    }
}

/// The line on which the character index `k` is: that of the last line start at
/// or before it.
pub open spec fn line_of(text: Seq<char>, k: int) -> int {
    line_starts(text.take(k)).len() - 1
}

/// How many units stand between the start of the line and the character index
/// `k`.
pub open spec fn column_of(text: Seq<char>, k: int, encoding: PositionEncoding) -> nat {
    units(text.subrange(line_starts(text)[line_of(text, k)], k), encoding)
}

/// Texts one after the other take as many units as both.
pub proof fn lemma_units_concat(a: Seq<char>, b: Seq<char>, encoding: PositionEncoding)
    ensures
        units(a + b, encoding) == units(a, encoding) + units(b, encoding),
    decreases b.len(),
{
    if b.len() == 0 {
        assert(a + b =~= a);
    } else {
        assert((a + b).drop_last() =~= a + b.drop_last());
        lemma_units_concat(a, b.drop_last(), encoding);
    }
}

/// A part of a text takes at most the units of the text, and fewer where
/// something is missing.
pub proof fn lemma_units_take(text: Seq<char>, k: int, encoding: PositionEncoding)
    requires
        0 <= k <= text.len(),
    ensures
        units(text.take(k), encoding) <= units(text, encoding),
        k < text.len() ==> units(text.take(k), encoding) < units(text, encoding),
        k <= units(text.take(k), encoding),
    decreases text.len(),
{
    if k == text.len() {
        assert(text.take(k) =~= text);
        if k > 0 {
            lemma_units_take(text.drop_last(), k - 1, encoding);
            assert(text.drop_last().take(k - 1) =~= text.drop_last());
        }
    } else {
        lemma_units_take(text.drop_last(), k, encoding);
        assert(text.drop_last().take(k) =~= text.take(k));
    }
}

/// The further a place, the more units stand before it.
pub proof fn lemma_units_grow(text: Seq<char>, i: int, j: int, encoding: PositionEncoding)
    requires
        0 <= i <= j <= text.len(),
    ensures
        units(text.take(i), encoding) <= units(text.take(j), encoding),
        i < j ==> units(text.take(i), encoding) < units(text.take(j), encoding),
{
    lemma_units_take(text.take(j), i, encoding);
    assert(text.take(j).take(i) =~= text.take(i));
}

/// The bytes of a text are those of its encoding.
pub proof fn lemma_units_are_bytes(text: Seq<char>)
    ensures
        units(text, PositionEncoding::Utf8) == vstd::utf8::encode_utf8(text).len(),
    decreases text.len(),
{
    if text.len() > 0 {
        let first = seq![text[0]];
        let rest = text.drop_first();
        assert(text =~= first + rest);
        lemma_units_concat(first, rest, PositionEncoding::Utf8);
        lemma_units_are_bytes(rest);
        assert(first.drop_last() =~= Seq::<char>::empty());
        reveal_with_fuel(units, 2);
        assert(units(first, PositionEncoding::Utf8) == width(text[0], PositionEncoding::Utf8));
        vstd::utf8::char_is_scalar(text[0]);
    }
}

/// Where lines start: inside the text, one behind the other, and the first at
/// the start of the text.
pub proof fn lemma_line_starts(text: Seq<char>)
    ensures
        line_starts(text).len() >= 1,
        line_starts(text)[0] == 0,
        line_starts(text).len() <= text.len() + 1,
        forall|i: int|
            0 <= i < line_starts(text).len() ==> 0 <= #[trigger] line_starts(text)[i]
                <= text.len(),
        forall|i: int, j: int|
            0 <= i < j < line_starts(text).len() ==> line_starts(text)[i] < line_starts(text)[j],
    decreases text.len(),
{
    if text.len() > 0 {
        lemma_line_starts(text.drop_last());
    }
}

/// The line starts of a part of a text are the first ones of the text.
pub proof fn lemma_line_starts_take(text: Seq<char>, k: int)
    requires
        0 <= k <= text.len(),
    ensures
        line_starts(text.take(k)).len() <= line_starts(text).len(),
        forall|i: int|
            0 <= i < line_starts(text.take(k)).len() ==> #[trigger] line_starts(text.take(k))[i]
                == line_starts(text)[i],
        forall|i: int|
            line_starts(text.take(k)).len() <= i < line_starts(text).len() ==> k
                < #[trigger] line_starts(text)[i],
    decreases text.len(),
{
    if k == text.len() {
        assert(text.take(k) =~= text);
    } else {
        lemma_line_starts_take(text.drop_last(), k);
        assert(text.drop_last().take(k) =~= text.take(k));
    }
}

/// What `floor_index` is: inside the text, and as far as the column reaches.
pub proof fn lemma_floor_index(text: Seq<char>, encoding: PositionEncoding, col: int)
    requires
        col >= 0,
    ensures
        0 <= floor_index(text, encoding, col) <= text.len(),
        units(text.take(floor_index(text, encoding, col)), encoding) <= col,
        floor_index(text, encoding, col) < text.len() ==> units(
            text.take(floor_index(text, encoding, col) + 1),
            encoding,
        ) > col,
    decreases text.len(),
{
    let k = floor_index(text, encoding, col);
    if text.len() == 0 || units(text, encoding) <= col {
        assert(text.take(k) =~= text);
    } else {
        let head = text.drop_last();
        lemma_floor_index(head, encoding, col);
        assert(head.take(k) =~= text.take(k));
        if k < head.len() {
            assert(head.take(k + 1) =~= text.take(k + 1));
        } else {
            assert(text.take(k + 1) =~= text);
        }
    }
}

/// A column that ends where a character starts addresses that character.
pub proof fn lemma_floor_exact(text: Seq<char>, encoding: PositionEncoding, k: int)
    requires
        0 <= k <= text.len(),
    ensures
        floor_index(text, encoding, units(text.take(k), encoding) as int) == k,
    decreases text.len(),
{
    let col = units(text.take(k), encoding) as int;
    lemma_floor_index(text, encoding, col);
    let f = floor_index(text, encoding, col);
    if f < k {
        lemma_units_grow(text, f + 1, k, encoding);
    } else if f > k {
        lemma_units_grow(text, k, f, encoding);
    }
}

/// The position of a place addresses that place: for every character boundary
/// in every text, under either encoding, converting to a position and back
/// gives the boundary again.
pub proof fn positions_round_trip(text: Seq<char>, k: int, encoding: PositionEncoding)
    requires
        0 <= k <= text.len(),
    ensures
        index_at(text, line_of(text, k), column_of(text, k, encoding) as int, encoding) == Some(
            k,
        ),
{
    let line = line_of(text, k);
    lemma_line_starts(text.take(k));
    lemma_line_starts(text);
    lemma_line_starts_take(text, k);
    let start = line_starts(text)[line];
    let end = line_end(text, line);
    assert(start == line_starts(text.take(k))[line]);
    assert(start <= k <= end);
    let body = line_text(text, line);
    assert(body.take(k - start) =~= text.subrange(start, k));
    lemma_floor_exact(body, encoding, k - start);
}

/// What a position addresses is a place on its line.
pub proof fn positions_stay_on_their_line(
    text: Seq<char>,
    line: int,
    character: int,
    encoding: PositionEncoding,
)
    requires
        0 <= line < line_starts(text).len(),
        0 <= character,
    ensures
        index_at(text, line, character, encoding) matches Some(k) && line_starts(text)[line] <= k
            <= line_end(text, line),
{
    lemma_line_starts(text);
    if line + 1 < line_starts(text).len() {
        assert(line_starts(text)[line] < line_starts(text)[line + 1]);
    }
    lemma_floor_index(line_text(text, line), encoding, character);
}

/// A non-ASCII character, positioned within its line.
#[derive(Copy, Clone, Debug, PartialEq, Eq, Structural)]
pub struct WideChar {
    /// Byte offset from the start of the line.
    pub start: u32,
    /// Length in bytes: 2, 3 or 4.
    pub len: u32,
    /// Length in UTF-16 code units: 1, or 2 for anything outside the BMP.
    pub utf16_len: u32,
}

/// The non-ASCII characters of a line, in order.
pub open spec fn wide_chars_of(line: Seq<char>) -> Seq<WideChar>
    decreases line.len(),
{
    if line.len() == 0 {
        Seq::empty()
    } else {
        let before = wide_chars_of(line.drop_last());
        if (line.last() as u32) < 0x80 {
            before
        } else {
            before.push(
                WideChar {
                    start: units(line.drop_last(), PositionEncoding::Utf8) as u32,
                    len: width(line.last(), PositionEncoding::Utf8) as u32,
                    utf16_len: width(line.last(), PositionEncoding::Utf16) as u32,
                },
            )
        }
    }
}

/// A byte column, moved back to the start of the wide character around it.
spec fn snapped(wide: Seq<WideChar>, col: int) -> int
    decreases wide.len(),
{
    if wide.len() == 0 {
        col
    } else if wide.last().start < col < wide.last().start + wide.last().len {
        wide.last().start as int
    } else {
        snapped(wide.drop_last(), col)
    }
}

/// A UTF-16 column, widened by what each wide character before it takes more in
/// bytes.
spec fn widened(wide: Seq<WideChar>, col: int) -> int
    decreases wide.len(),
{
    if wide.len() == 0 {
        col
    } else {
        let before = widened(wide.drop_last(), col);
        if wide.last().start >= before {
            before
        } else {
            before + wide.last().len - wide.last().utf16_len
        }
    }
}

/// How many bytes more than UTF-16 units the wide characters take that start
/// before a byte column.
pub open spec fn excess(wide: Seq<WideChar>, col: int) -> int
    decreases wide.len(),
{
    if wide.len() == 0 {
        0
    } else if wide.last().start < col {
        excess(wide.drop_last(), col) + wide.last().len - wide.last().utf16_len
    } else {
        excess(wide.drop_last(), col)
    }
}

proof fn lemma_wide_inside(line: Seq<char>)
    requires
        units(line, PositionEncoding::Utf8) <= u32::MAX,
    ensures
        forall|i: int|
            0 <= i < wide_chars_of(line).len() ==> {
                let w = #[trigger] wide_chars_of(line)[i];
                &&& w.start + w.len <= units(line, PositionEncoding::Utf8)
                &&& 1 <= w.utf16_len < w.len <= 4
            },
        wide_chars_of(line).len() <= line.len(),
    decreases line.len(),
{
    if line.len() > 0 {
        lemma_wide_inside(line.drop_last());
        assert forall|i: int| 0 <= i < wide_chars_of(line).len() implies ({
            let w = #[trigger] wide_chars_of(line)[i];
            &&& w.start + w.len <= units(line, PositionEncoding::Utf8)
            &&& 1 <= w.utf16_len < w.len <= 4
        }) by {
            if i < wide_chars_of(line.drop_last()).len() {
                assert(wide_chars_of(line)[i] == wide_chars_of(line.drop_last())[i]);
            }
        }
    }
}

proof fn lemma_snap_behind(line: Seq<char>, col: int)
    requires
        units(line, PositionEncoding::Utf8) <= u32::MAX,
        col >= units(line, PositionEncoding::Utf8),
    ensures
        snapped(wide_chars_of(line), col) == col,
    decreases line.len(),
{
    if line.len() > 0 {
        let head = line.drop_last();
        lemma_snap_behind(head, col);
        if (line.last() as u32) >= 0x80 {
            assert(wide_chars_of(line).drop_last() =~= wide_chars_of(head));
        }
    }
}

/// Snapping a byte column gives the start of the character it is in.
proof fn lemma_snap(line: Seq<char>, col: int)
    requires
        units(line, PositionEncoding::Utf8) <= u32::MAX,
        0 <= col <= units(line, PositionEncoding::Utf8),
    ensures
        snapped(wide_chars_of(line), col) == units(
            line.take(floor_index(line, PositionEncoding::Utf8, col)),
            PositionEncoding::Utf8,
        ),
    decreases line.len(),
{
    let bytes = PositionEncoding::Utf8;
    if line.len() == 0 {
        assert(line.take(0) =~= line);
    } else {
        let head = line.drop_last();
        let start = units(head, bytes);
        let wide = wide_chars_of(line);
        if (line.last() as u32) >= 0x80 {
            assert(wide.drop_last() =~= wide_chars_of(head));
        }
        if col == units(line, bytes) {
            lemma_snap_behind(line, col);
            assert(line.take(line.len() as int) =~= line);
        } else {
            lemma_floor_index(head, bytes, col);
            let k = floor_index(line, bytes, col);
            assert(head.take(k) =~= line.take(k));
            if col >= start {
                assert(k == head.len());
                assert(head.take(k) =~= head);
                lemma_snap_behind(head, col);
            } else {
                lemma_snap(head, col);
            }
        }
    }
}

/// Where widening a UTF-16 column leads: behind the line by what the column is
/// behind it, or to the character that the column is in, its start or three
/// bytes further.
proof fn lemma_widen(line: Seq<char>, col: int)
    requires
        units(line, PositionEncoding::Utf8) <= u32::MAX,
        0 <= col,
    ensures
        ({
            let bytes = PositionEncoding::Utf8;
            let pairs = PositionEncoding::Utf16;
            let to = widened(wide_chars_of(line), col);
            if units(line, pairs) <= col {
                to == units(line, bytes) + col - units(line, pairs)
            } else {
                let k = floor_index(line, pairs, col);
                let start = units(line.take(k), bytes);
                &&& 0 <= k < line.len()
                &&& col == units(line.take(k), pairs) ==> to == start
                &&& col != units(line.take(k), pairs) ==> to == start + 3 && width(line[k], bytes)
                    == 4
            }
        }),
    decreases line.len(),
{
    let bytes = PositionEncoding::Utf8;
    let pairs = PositionEncoding::Utf16;
    if line.len() > 0 {
        let head = line.drop_last();
        lemma_widen(head, col);
        lemma_wide_inside(line);
        let wide = wide_chars_of(line);
        if (line.last() as u32) >= 0x80 {
            assert(wide.drop_last() =~= wide_chars_of(head));
        }
        let k = floor_index(head, pairs, col);
        lemma_floor_index(head, pairs, col);
        if units(head, pairs) <= col {
            assert(head.take(head.len() as int) =~= head);
            assert(line.take(head.len() as int) =~= head);
        } else {
            assert(head.take(k) =~= line.take(k));
            assert(head.take(k + 1).drop_last() =~= head.take(k));
            assert(head.take(k + 1).last() == head[k]);
            lemma_units_take(head, k + 1, bytes);
            lemma_units_take(head, k, bytes);
        }
    }
}

/// The excess before a place is what it takes more in bytes than in UTF-16
/// units.
proof fn lemma_excess(line: Seq<char>, k: int)
    requires
        units(line, PositionEncoding::Utf8) <= u32::MAX,
        0 <= k <= line.len(),
    ensures
        units(line.take(k), PositionEncoding::Utf8) - excess(
            wide_chars_of(line),
            units(line.take(k), PositionEncoding::Utf8) as int,
        ) == units(line.take(k), PositionEncoding::Utf16),
    decreases line.len(),
{
    let bytes = PositionEncoding::Utf8;
    let col = units(line.take(k), bytes) as int;
    if line.len() == 0 {
        assert(line.take(k) =~= line);
    } else {
        let head = line.drop_last();
        let wide = wide_chars_of(line);
        if (line.last() as u32) >= 0x80 {
            assert(wide.drop_last() =~= wide_chars_of(head));
        }
        if k < line.len() {
            assert(head.take(k) =~= line.take(k));
            lemma_excess(head, k);
            lemma_units_take(head, k, bytes);
        } else {
            assert(line.take(k) =~= line);
            assert(head.take(k - 1) =~= head);
            lemma_excess(head, k - 1);
            lemma_excess_behind(head, units(head, bytes) as int, col);
        }
    }
}

/// Behind a line its excess is the same everywhere.
proof fn lemma_excess_behind(line: Seq<char>, a: int, b: int)
    requires
        units(line, PositionEncoding::Utf8) <= u32::MAX,
        units(line, PositionEncoding::Utf8) <= a,
        units(line, PositionEncoding::Utf8) <= b,
    ensures
        excess(wide_chars_of(line), a) == excess(wide_chars_of(line), b),
    decreases line.len(),
{
    if line.len() > 0 {
        lemma_excess_behind(line.drop_last(), a, b);
        if (line.last() as u32) >= 0x80 {
            assert(wide_chars_of(line).drop_last() =~= wide_chars_of(line.drop_last()));
        }
    }
}

/// Line starts and wide-character positions for one file.
pub struct LineIndex {
    /// Byte offset of the start of each line. Always begins with 0.
    line_starts: Vec<u32>,
    /// Which of `wide_chars` are those of a line. Absent for pure-ASCII lines.
    wide_lines: FxHashMap<u32, usize>,
    /// Non-ASCII characters of the lines that have some.
    wide_chars: Vec<Vec<WideChar>>,
    len: u32,
    text: Ghost<Seq<char>>,
}

/// The wide characters that are stored for a line.
spec fn stored_wide(
    lines: Map<u32, usize>,
    rows: Seq<Vec<WideChar>>,
    line: int,
) -> Seq<WideChar> {
    if lines.contains_key(line as u32) {
        rows[lines[line as u32] as int]@
    } else {
        Seq::empty()
    }
}

/// Whether the byte offset `at` is on the line `line`: at or behind its start,
/// and before the start of the next.
pub open spec fn is_line_at(text: Seq<char>, at: int, line: int) -> bool {
    &&& 0 <= line < line_starts(text).len()
    &&& offset_of(text, line_starts(text)[line]) <= at
    &&& line + 1 < line_starts(text).len() ==> at < offset_of(text, line_starts(text)[line + 1])
}

/// What the byte offset `at` on the line `line` is as a column.
///
/// Bytes count as they are. UTF-16 units are fewer by what the wide characters
/// that start before the offset take more in bytes.
pub open spec fn column_at(
    text: Seq<char>,
    at: int,
    line: int,
    encoding: PositionEncoding,
) -> int {
    let col = at - offset_of(text, line_starts(text)[line]);
    match encoding {
        PositionEncoding::Utf8 => col,
        PositionEncoding::Utf16 => col - excess(wide_chars_of(line_text(text, line)), col),
    }
}

/// Whether the byte offset `at` has a column under the encoding. One inside a
/// character can have none.
pub open spec fn has_column(text: Seq<char>, at: int, encoding: PositionEncoding) -> bool {
    forall|line: int| #[trigger] is_line_at(text, at, line) ==> column_at(text, at, line, encoding)
        >= 0
}

/// The byte offset `at`, or the end of the text where it is behind it.
pub open spec fn clamped(text: Seq<char>, at: int) -> int {
    let len = units(text, PositionEncoding::Utf8);
    if at <= len {
        at
    } else {
        len as int
    }
}

/// The bytes before a place on a line are those before the line and those on it.
proof fn lemma_line_offset(text: Seq<char>, line: int, k: int)
    requires
        0 <= line < line_starts(text).len(),
        0 <= k <= line_text(text, line).len(),
    ensures
        offset_of(text, line_starts(text)[line] + k) == offset_of(text, line_starts(text)[line])
            + units(line_text(text, line).take(k), PositionEncoding::Utf8),
        line_starts(text)[line] + line_text(text, line).len() == line_end(text, line),
        line_end(text, line) <= text.len(),
{
    lemma_line_starts(text);
    if line + 1 < line_starts(text).len() {
        assert(line_starts(text)[line] < line_starts(text)[line + 1]);
    }
    let start = line_starts(text)[line];
    let body = line_text(text, line);
    assert(text.take(start + k) =~= text.take(start) + body.take(k));
    lemma_units_concat(text.take(start), body.take(k), PositionEncoding::Utf8);
}

/// Every place in a text has a column, and it is what stands before the place on
/// its line.
pub proof fn boundaries_have_columns(text: Seq<char>, k: int, encoding: PositionEncoding)
    requires
        0 <= k <= text.len(),
        units(text, PositionEncoding::Utf8) <= u32::MAX,
    ensures
        has_column(text, offset_of(text, k) as int, encoding),
        is_line_at(text, offset_of(text, k) as int, line_of(text, k)),
        forall|line: int| #[trigger]
            is_line_at(text, offset_of(text, k) as int, line) ==> line == line_of(text, k),
        column_at(text, offset_of(text, k) as int, line_of(text, k), encoding) == column_of(
            text,
            k,
            encoding,
        ),
{
    let at = offset_of(text, k) as int;
    let line = line_of(text, k);
    let starts = line_starts(text);
    lemma_line_starts(text.take(k));
    lemma_line_starts(text);
    lemma_line_starts_take(text, k);
    let start = starts[line];
    assert(start == line_starts(text.take(k))[line]);
    lemma_units_grow(text, start, k, PositionEncoding::Utf8);
    if line + 1 < starts.len() {
        lemma_units_grow(text, k, starts[line + 1], PositionEncoding::Utf8);
    }
    assert forall|other: int| #[trigger] is_line_at(text, at, other) implies other == line by {
        if other < line {
            assert(starts[other + 1] <= starts[line]);
            lemma_units_grow(text, starts[other + 1], k, PositionEncoding::Utf8);
        } else if other > line {
            assert(starts[line + 1] <= starts[other]);
            lemma_units_grow(text, k, starts[other], PositionEncoding::Utf8);
        }
    }
    let body = line_text(text, line);
    assert(k <= line_end(text, line));
    lemma_line_offset(text, line, k - start);
    assert(body.take(k - start) =~= text.subrange(start, k));
    lemma_units_take(body, body.len() as int, PositionEncoding::Utf8);
    assert(body.take(body.len() as int) =~= body);
    lemma_line_offset(text, line, body.len() as int);
    lemma_units_take(text, line_end(text, line), PositionEncoding::Utf8);
    lemma_excess(body, k - start);
}

/// How many bytes a character takes.
pub(crate) fn byte_width(c: char) -> (n: u32)
    ensures
        n == width(c, PositionEncoding::Utf8),
{
    let code: u32 = c as u32;
    if code < 0x80 {
        1
    } else if code < 0x800 {
        2
    } else if code < 0x10000 {
        3
    } else {
        4
    }
}

/// How many UTF-16 code units a character takes.
fn utf16_width(c: char) -> (n: u32)
    ensures
        n == width(c, PositionEncoding::Utf16),
{
    if (c as u32) < 0x10000 {
        1
    } else {
        2
    }
}

impl LineIndex {
    /// The text that the index was made for.
    pub closed spec fn text(&self) -> Seq<char> {
        self.text@
    }

    /// The index describes its text, whose size fits the offsets.
    pub closed spec fn wf(&self) -> bool {
        let text = self.text@;
        let starts = line_starts(text);
        &&& units(text, PositionEncoding::Utf8) < u32::MAX
        &&& self.len == units(text, PositionEncoding::Utf8)
        &&& self.line_starts@.len() == starts.len()
        &&& forall|i: int|
            0 <= i < starts.len() ==> #[trigger] self.line_starts@[i] == offset_of(text, starts[i])
        &&& forall|line: u32| #[trigger]
            crate::table::numbers_of(self.wide_lines).contains_key(line) ==> crate::table::numbers_of(self.wide_lines)[line]
                < self.wide_chars@.len()
        &&& forall|line: int|
            0 <= line < starts.len() ==> #[trigger] stored_wide(
                crate::table::numbers_of(self.wide_lines),
                self.wide_chars@,
                line,
            ) == wide_chars_of(line_text(text, line))
    }

    /// The index of `text`, whose size must fit the offsets.
    pub fn new(text: &str) -> (index: LineIndex)
        requires
            vstd::utf8::encode_utf8(text@).len() < u32::MAX,
        ensures
            index.wf(),
            index.text() == text@,
    {
        let ghost all = text@;
        proof {
            lemma_units_are_bytes(all);
        }
        let mut starts: Vec<u32> = Vec::new();
        starts.push(0);
        let mut wide_lines = no_numbers();
        let mut wide_chars: Vec<Vec<WideChar>> = Vec::new();
        let mut line: u32 = 0;
        let mut line_start: u32 = 0;
        let mut offset: u32 = 0;
        let mut current: Vec<WideChar> = Vec::new();
        proof {
            assert(all.take(0) =~= Seq::<char>::empty());
            assert(all.subrange(0, 0) =~= Seq::<char>::empty());
        }
        for c in it: text.chars()
            invariant
                it.seq() == all,
                units(all, PositionEncoding::Utf8) < u32::MAX,
                offset == offset_of(all, it.index() as int),
                line + 1 == line_starts(all.take(it.index() as int)).len(),
                starts@.len() == line + 1,
                line_start == offset_of(
                    all,
                    line_starts(all.take(it.index() as int))[line as int],
                ),
                forall|i: int|
                    0 <= i < starts@.len() ==> #[trigger] starts@[i] == offset_of(
                        all,
                        line_starts(all.take(it.index() as int))[i],
                    ),
                current@ == wide_chars_of(
                    all.subrange(
                        line_starts(all.take(it.index() as int))[line as int],
                        it.index() as int,
                    ),
                ),
                forall|l: u32| #[trigger]
                    crate::table::numbers_of(wide_lines).contains_key(l) ==> l < line && crate::table::numbers_of(wide_lines)[l]
                        < wide_chars@.len(),
                forall|l: int|
                    0 <= l < line ==> #[trigger] stored_wide(
                        crate::table::numbers_of(wide_lines),
                        wide_chars@,
                        l,
                    ) == wide_chars_of(line_text(all.take(it.index() as int), l)),
        {
            let ghost i = it.index() as int;
            let ghost before = line_starts(all.take(i));
            let ghost after = line_starts(all.take(i + 1));
            proof {
                assert(all.take(i + 1).drop_last() =~= all.take(i));
                assert(all.take(i + 1).last() == c);
                lemma_units_take(all, i + 1, PositionEncoding::Utf8);
                lemma_line_starts(all.take(i));
                lemma_line_starts(all.take(i + 1));
                lemma_units_take(all, i + 1, PositionEncoding::Utf8);
            }
            let wide: u32 = byte_width(c);
            if c == '\n' {
                let ghost kept = crate::table::numbers_of(wide_lines);
                let ghost rows = wide_chars@;
                let ghost ended = current@;
                if current.len() > 0 {
                    set_number(&mut wide_lines, line, wide_chars.len());
                    wide_chars.push(current);
                    current = Vec::new();
                }
                offset = offset + wide;
                proof {
                    assert(line_text(all.take(i + 1), line as int) =~= all.subrange(
                        before[line as int],
                        i,
                    ));
                    assert forall|l: int| 0 <= l < line + 1 implies #[trigger] stored_wide(
                        crate::table::numbers_of(wide_lines),
                        wide_chars@,
                        l,
                    ) == wide_chars_of(line_text(all.take(i + 1), l)) by {
                        if l < line {
                            assert(before[l] < before[l + 1]);
                            assert(line_text(all.take(i + 1), l) =~= line_text(all.take(i), l));
                            assert(stored_wide(kept, rows, l) == wide_chars_of(
                                line_text(all.take(i), l),
                            ));
                        } else {
                            assert(stored_wide(crate::table::numbers_of(wide_lines), wide_chars@, l) =~= ended);
                        }
                    }
                    assert(all.subrange(i + 1, i + 1) =~= Seq::<char>::empty());
                    assert(current@ =~= Seq::<WideChar>::empty());
                }
                line = line + 1;
                line_start = offset;
                starts.push(line_start);
            } else {
                proof {
                    let body = all.subrange(before[line as int], i + 1);
                    assert(body.drop_last() =~= all.subrange(before[line as int], i));
                    assert(body.last() == c);
                    assert(all.take(i) =~= all.take(before[line as int]) + all.subrange(
                        before[line as int],
                        i,
                    ));
                    lemma_units_concat(
                        all.take(before[line as int]),
                        all.subrange(before[line as int], i),
                        PositionEncoding::Utf8,
                    );
                    assert forall|l: int| 0 <= l < line implies #[trigger] stored_wide(
                        crate::table::numbers_of(wide_lines),
                        wide_chars@,
                        l,
                    ) == wide_chars_of(line_text(all.take(i + 1), l)) by {
                        assert(before[l] < before[l + 1]);
                        assert(line_text(all.take(i + 1), l) =~= line_text(all.take(i), l));
                    }
                }
                if (c as u32) >= 0x80 {
                    current.push(
                        WideChar {
                            start: offset - line_start,
                            len: wide,
                            utf16_len: utf16_width(c),
                        },
                    );
                }
                offset = offset + wide;
            }
        }
        let ghost n = all.len() as int;
        let ghost kept = crate::table::numbers_of(wide_lines);
        let ghost rows = wide_chars@;
        let ghost last = current@;
        proof {
            assert(all.take(n) =~= all);
            lemma_line_starts(all);
        }
        if current.len() > 0 {
            set_number(&mut wide_lines, line, wide_chars.len());
            wide_chars.push(current);
        }
        let index = LineIndex {
            line_starts: starts,
            wide_lines,
            wide_chars,
            len: offset,
            text: Ghost(all),
        };
        proof {
            assert forall|l: int| 0 <= l < line_starts(all).len() implies #[trigger] stored_wide(
                crate::table::numbers_of(index.wide_lines),
                index.wide_chars@,
                l,
            ) == wide_chars_of(line_text(all, l)) by {
                if l < line {
                    assert(stored_wide(kept, rows, l) == wide_chars_of(line_text(all, l)));
                } else {
                    assert(stored_wide(crate::table::numbers_of(index.wide_lines), index.wide_chars@, l) =~= last);
                }
            }
        }
        index
    }
}

impl LineIndex {
    /// Number of lines. A file with no trailing newline still has a last line;
    /// a file ending in `\n` has an empty one after it.
    pub fn line_count(&self) -> (n: u32)
        requires
            self.wf(),
        ensures
            n == line_starts(self.text()).len(),
    {
        proof {
            lemma_line_starts(self.text@);
            lemma_units_take(
                self.text@,
                self.text@.len() as int,
                PositionEncoding::Utf8,
            );
            assert(self.text@.take(self.text@.len() as int) =~= self.text@);
        }
        self.line_starts.len() as u32
    }

    /// The wide characters of a line.
    fn wide_on(&self, line: u32) -> (wide: Option<&Vec<WideChar>>)
        requires
            self.wf(),
            line < line_starts(self.text()).len(),
        ensures
            listed(wide) == wide_chars_of(line_text(self.text(), line as int)),
    {
        assert(stored_wide(crate::table::numbers_of(self.wide_lines), self.wide_chars@, line as int)
            == wide_chars_of(line_text(self.text@, line as int)));
        match position_of_number(&self.wide_lines, line) {
            Some(row) => Some(&self.wide_chars[row]),
            None => None,
        }
    }

    /// Byte offset just past the last character of `line`, excluding the newline.
    fn line_end(&self, line: u32) -> (end: u32)
        requires
            self.wf(),
            line < line_starts(self.text()).len(),
        ensures
            end == offset_of(self.text(), line_end(self.text(), line as int)),
    {
        let lines: usize = self.line_starts.len();
        let next: usize = line as usize + 1;
        let ghost text = self.text@;
        proof {
            lemma_line_starts(text);
        }
        if next < self.line_starts.len() {
            proof {
                let start = line_starts(text)[next as int];
                assert(line_starts(text)[next - 1] < start);
                lemma_newline_before(text, next as int);
                assert(text.take(start).drop_last() =~= text.take(start - 1));
            }
            // The next line starts after this one's newline, which is not part
            // of it.
            self.line_starts[next] - 1
        } else {
            assert(text.take(text.len() as int) =~= text);
            self.len
        }
    }

    /// Byte offset for `position`, or `None` if its line is past the end of the
    /// file.
    ///
    /// A character offset past the end of its line is clamped to the line's end
    /// rather than rejected: refusing the whole request over a stale column is
    /// worse than answering about the end of the line. One inside a character
    /// moves back to its start, so no offset ever splits a character.
    pub fn offset(&self, position: LinePosition, encoding: PositionEncoding) -> (at: Option<u32>)
        requires
            self.wf(),
        ensures
            match index_at(
                self.text(),
                position.line as int,
                position.character as int,
                encoding,
            ) {
                Some(k) => at matches Some(at) && at == offset_of(self.text(), k) && 0 <= k
                    <= self.text().len(),
                None => at is None,
            },
    {
        let line = position.line;
        if line as usize >= self.line_starts.len() {
            return None;
        }
        let ghost text = self.text@;
        let ghost body = line_text(text, line as int);
        let start: u32 = self.line_starts[line as usize];
        let end: u32 = self.line_end(line);
        proof {
            lemma_line_starts(text);
            lemma_line_offset(text, line as int, body.len() as int);
            assert(body.take(body.len() as int) =~= body);
            lemma_units_take(text, line_end(text, line as int), PositionEncoding::Utf8);
            lemma_units_take(body, body.len() as int, PositionEncoding::Utf8);
            lemma_wide_inside(body);
        }
        let widest: u32 = end - start;
        assert(widest == units(body, PositionEncoding::Utf8));
        let ghost col = position.character as int;
        let wide = self.wide_on(line);
        let bytes: u64 = match encoding {
            PositionEncoding::Utf8 => position.character as u64,
            PositionEncoding::Utf16 => to_byte_column(wide, position.character),
        };
        let reached: u32 = if bytes < widest as u64 {
            bytes as u32
        } else {
            widest
        };
        let snapped_to: u32 = snap_to_boundary(wide, reached);
        proof {
            let k = floor_index(body, encoding, col);
            lemma_floor_index(body, encoding, col);
            lemma_snap(body, reached as int);
            let f = floor_index(body, PositionEncoding::Utf8, reached as int);
            lemma_floor_index(body, PositionEncoding::Utf8, reached as int);
            assert(f == k) by {
                if encoding == PositionEncoding::Utf8 {
                    if col > widest {
                        lemma_floor_exact(body, PositionEncoding::Utf8, body.len() as int);
                    }
                } else {
                    lemma_widen(body, col);
                    if units(body, PositionEncoding::Utf16) <= col {
                        lemma_floor_exact(body, PositionEncoding::Utf8, body.len() as int);
                    } else {
                        lemma_units_take(body, k, PositionEncoding::Utf8);
                        lemma_units_take(body, k + 1, PositionEncoding::Utf8);
                        assert(body.take(k + 1).drop_last() =~= body.take(k));
                        assert(body.take(k + 1).last() == body[k]);
                        if f < k {
                            lemma_units_grow(body, f + 1, k, PositionEncoding::Utf8);
                        } else if f > k {
                            lemma_units_grow(body, k + 1, f, PositionEncoding::Utf8);
                        }
                    }
                }
            }
            lemma_line_offset(text, line as int, k);
            lemma_units_take(body, k, PositionEncoding::Utf8);
        }
        Some(start + snapped_to)
    }

    /// LSP position for a byte offset. Offsets past the end clamp to the end.
    pub fn position(&self, offset: u32, encoding: PositionEncoding) -> (position: LinePosition)
        requires
            self.wf(),
            has_column(self.text(), clamped(self.text(), offset as int), encoding),
        ensures
            ({
                let text = self.text();
                let at = clamped(text, offset as int);
                &&& is_line_at(text, at, position.line as int)
                &&& position.character == column_at(text, at, position.line as int, encoding)
            }),
            forall|k: int|
                0 <= k <= self.text().len() && #[trigger] offset_of(self.text(), k) == clamped(
                    self.text(),
                    offset as int,
                ) ==> position.line == line_of(self.text(), k) && position.character == column_of(
                    self.text(),
                    k,
                    encoding,
                ),
    {
        let at: u32 = if offset < self.len {
            offset
        } else {
            self.len
        };
        let ghost text = self.text@;
        let ghost starts = line_starts(text);
        proof {
            lemma_line_starts(text);
            assert(self.line_starts@[0] == offset_of(text, 0));
            assert(text.take(0) =~= Seq::<char>::empty());
        }
        // The first line starting after the offset; the line containing it is
        // one before.
        let mut low: usize = 1;
        let mut high: usize = self.line_starts.len();
        while low < high
            invariant
                self.wf(),
                text == self.text@,
                starts == line_starts(text),
                1 <= low <= high <= self.line_starts@.len(),
                self.line_starts@[low - 1] <= at,
                high < self.line_starts@.len() ==> at < self.line_starts@[high as int],
            decreases high - low,
        {
            let middle: usize = low + (high - low) / 2;
            if self.line_starts[middle] <= at {
                low = middle + 1;
            } else {
                high = middle;
            }
        }
        proof {
            lemma_units_take(text, text.len() as int, PositionEncoding::Utf8);
            assert(text.take(text.len() as int) =~= text);
            assert(self.line_starts@[low - 1] == offset_of(text, starts[low - 1]));
            if low < starts.len() {
                assert(self.line_starts@[low as int] == offset_of(text, starts[low as int]));
            }
            assert(is_line_at(text, at as int, low - 1));
        }
        let line: u32 = (low - 1) as u32;
        let col: u32 = at - self.line_starts[low - 1];
        let character: u32 = match encoding {
            PositionEncoding::Utf8 => col,
            PositionEncoding::Utf16 => {
                proof {
                    let body = line_text(text, line as int);
                    lemma_line_offset(text, line as int, body.len() as int);
                    assert(body.take(body.len() as int) =~= body);
                    lemma_units_take(text, line_end(text, line as int), PositionEncoding::Utf8);
                    lemma_wide_inside(body);
                }
                to_utf16_column(self.wide_on(line), col)
            },
        };
        proof {
            assert forall|k: int|
                0 <= k <= text.len() && #[trigger] offset_of(text, k) == at implies line == line_of(
                text,
                k,
            ) && character == column_of(text, k, encoding) by {
                boundaries_have_columns(text, k, encoding);
            }
        }
        LinePosition { line, character }
    }
}

/// What stands before a line start is a newline.
proof fn lemma_newline_before(text: Seq<char>, line: int)
    requires
        1 <= line < line_starts(text).len(),
    ensures
        1 <= line_starts(text)[line] <= text.len(),
        text[line_starts(text)[line] - 1] == '\n',
    decreases text.len(),
{
    if text.len() > 0 {
        let head = text.drop_last();
        if line < line_starts(head).len() {
            lemma_newline_before(head, line);
            assert(head[line_starts(head)[line] - 1] == text[line_starts(text)[line] - 1]);
        }
    }
}

/// The wide characters, where there are some.
spec fn listed(wide: Option<&Vec<WideChar>>) -> Seq<WideChar> {
    match wide {
        Some(wide) => wide@,
        None => Seq::empty(),
    }
}

/// Moves a byte column back to the start of the wide character containing it.
///
/// A client can address the inside of a character: under UTF-8 encoding the
/// column *is* a byte offset, so nothing stops it naming byte 11 of a line whose
/// two-byte character occupies bytes 10 and 11. Snapping backwards is the
/// conservative repair: it never reaches past text the client meant to address.
fn snap_to_boundary(wide: Option<&Vec<WideChar>>, col: u32) -> (to: u32)
    requires
        forall|i: int|
            0 <= i < listed(wide).len() ==> (#[trigger] listed(wide)[i]).start + listed(
                wide,
            )[i].len <= u32::MAX,
    ensures
        to == snapped(listed(wide), col as int),
{
    let rows = match wide {
        // A pure-ASCII line has a boundary at every byte.
        None => {
            return col;
        },
        Some(rows) => rows,
    };
    let mut i: usize = rows.len();
    assert(rows@.take(i as int) =~= rows@);
    assert forall|k: int| 0 <= k < rows@.len() implies (#[trigger] rows@[k]).start + rows@[k].len
        <= u32::MAX by {
        assert(listed(wide)[k] == rows@[k]);
    }
    while i > 0
        invariant
            rows@ == listed(wide),
            i <= rows@.len(),
            forall|k: int|
                0 <= k < rows@.len() ==> (#[trigger] rows@[k]).start + rows@[k].len <= u32::MAX,
            snapped(rows@, col as int) == snapped(rows@.take(i as int), col as int),
        decreases i,
    {
        let c = rows[i - 1];
        assert(rows@.take(i as int).last() == c);
        assert(rows@.take(i as int).drop_last() =~= rows@.take(i - 1));
        assert(rows@[i - 1] == c);
        if col > c.start && col < c.start + c.len {
            return c.start;
        }
        i -= 1;
    }
    col
}

/// Computes [`widened`].
fn to_byte_column(wide: Option<&Vec<WideChar>>, col: u32) -> (to: u64)
    requires
        listed(wide).len() <= u32::MAX,
        forall|i: int|
            0 <= i < listed(wide).len() ==> 1 <= (#[trigger] listed(wide)[i]).utf16_len < listed(
                wide,
            )[i].len <= 4,
    ensures
        to == widened(listed(wide), col as int),
{
    let rows = match wide {
        None => {
            return col as u64;
        },
        Some(rows) => rows,
    };
    let mut to: u64 = col as u64;
    let mut i: usize = 0;
    assert(rows@.take(0) =~= Seq::<WideChar>::empty());
    while i < rows.len()
        invariant
            rows@ == listed(wide),
            i <= rows@.len() <= u32::MAX,
            forall|k: int|
                0 <= k < rows@.len() ==> 1 <= (#[trigger] rows@[k]).utf16_len < rows@[k].len <= 4,
            to == widened(rows@.take(i as int), col as int),
            to <= u32::MAX + 4 * i,
        decreases rows@.len() - i,
    {
        let c = rows[i];
        assert(rows@.take(i + 1).last() == c);
        assert(rows@.take(i + 1).drop_last() =~= rows@.take(i as int));
        assert(rows@[i as int] == c);
        // The start is a byte offset, and the column is being converted into one
        // along the way, so the comparison is consistent.
        if (c.start as u64) < to {
            to = to + (c.len - c.utf16_len) as u64;
        }
        i += 1;
    }
    assert(rows@.take(i as int) =~= rows@);
    to
}

/// The UTF-16 column that a byte column is.
fn to_utf16_column(wide: Option<&Vec<WideChar>>, col: u32) -> (to: u32)
    requires
        forall|i: int|
            0 <= i < listed(wide).len() ==> 1 <= (#[trigger] listed(wide)[i]).utf16_len < listed(
                wide,
            )[i].len <= 4,
        excess(listed(wide), col as int) <= col,
    ensures
        to == col - excess(listed(wide), col as int),
{
    let rows = match wide {
        None => {
            return col;
        },
        Some(rows) => rows,
    };
    let mut more: u32 = 0;
    let mut i: usize = 0;
    assert(rows@.take(0) =~= Seq::<WideChar>::empty());
    while i < rows.len()
        invariant
            rows@ == listed(wide),
            i <= rows@.len(),
            forall|k: int|
                0 <= k < rows@.len() ==> 1 <= (#[trigger] rows@[k]).utf16_len < rows@[k].len <= 4,
            more == excess(rows@.take(i as int), col as int),
            excess(rows@, col as int) <= col,
        decreases rows@.len() - i,
    {
        let c = rows[i];
        assert(rows@.take(i + 1).last() == c);
        assert(rows@.take(i + 1).drop_last() =~= rows@.take(i as int));
        assert(rows@[i as int] == c);
        proof {
            lemma_excess_grows(rows@, col as int, i + 1);
        }
        if c.start < col {
            // Each wide character occupies more bytes than units.
            more = more + (c.len - c.utf16_len);
        }
        i += 1;
    }
    assert(rows@.take(i as int) =~= rows@);
    col - more
}

proof fn lemma_excess_grows(wide: Seq<WideChar>, col: int, k: int)
    requires
        0 <= k <= wide.len(),
        forall|i: int|
            0 <= i < wide.len() ==> 1 <= (#[trigger] wide[i]).utf16_len < wide[i].len <= 4,
    ensures
        0 <= excess(wide.take(k), col) <= excess(wide, col),
    decreases wide.len(),
{
    if k == wide.len() {
        assert(wide.take(k) =~= wide);
        if k > 0 {
            assert(wide[wide.len() - 1] == wide.last());
            lemma_excess_grows(wide.drop_last(), col, k - 1);
            assert(wide.drop_last().take(k - 1) =~= wide.drop_last());
        }
    } else {
        assert(wide[wide.len() - 1] == wide.last());
        lemma_excess_grows(wide.drop_last(), col, k);
        assert(wide.drop_last().take(k) =~= wide.take(k));
    }
}

} // verus!
