//! Lines and columns, from the newlines and the characters of a text.
use vstd::prelude::*;

use crate::line_index::{LineIndex, LinePosition, PositionEncoding};

verus! {

/// A place is on the line that the newlines before it count, at the column that
/// the characters since the last of them take up.
pub proof fn places_are_counted_from_newlines(
    above: Seq<char>,
    left: Seq<char>,
    right: Seq<char>,
    encoding: PositionEncoding,
)
    requires
        above.len() > 0 ==> above.last() == '\n',
        !left.contains('\n'),
    ensures
        ({
            let text = above + left + right;
            let k = above.len() + left.len() as int;
            &&& crate::line_index::line_of(text, k) == above.filter(|c: char| c == '\n').len()
            &&& crate::line_index::column_of(text, k, encoding) == crate::line_index::units(
                left,
                encoding,
            )
        }),
{
    let text = above + left + right;
    let k = above.len() + left.len() as int;
    assert(text.take(k) =~= above + left);
    lemma_starts(above, left);
    lemma_last_start(above);
    crate::line_index::lemma_line_starts(text.take(k));
    crate::line_index::lemma_line_starts_take(text, k);
    let line = crate::line_index::line_of(text, k);
    assert(crate::line_index::line_starts(text)[line] == above.len());
    assert(text.subrange(above.len() as int, k) =~= left);
}

/// ASCII takes one unit a character, whatever the encoding.
pub proof fn ascii_columns_are_characters(left: Seq<char>, encoding: PositionEncoding)
    requires
        forall|c: char| #[trigger] left.contains(c) ==> (c as u32) < 0x80,
    ensures
        crate::line_index::units(left, encoding) == left.len(),
    decreases left.len(),
{
    if left.len() > 0 {
        let rest = left.drop_last();
        assert(left.contains(left.last()));
        assert forall|c: char| #[trigger] rest.contains(c) implies (c as u32) < 0x80 by {
            let i = choose|i: int| 0 <= i < rest.len() && rest[i] == c;
            assert(left[i] == c);
            assert(left.contains(c));
        }
        ascii_columns_are_characters(rest, encoding);
    }
}

/// UTF-8 columns count the bytes of what stands to the left.
pub proof fn utf8_columns_are_bytes(left: Seq<char>)
    ensures
        crate::line_index::units(left, PositionEncoding::Utf8) == vstd::utf8::encode_utf8(
            left,
        ).len(),
{
    crate::line_index::lemma_units_are_bytes(left);
}

/// UTF-16 columns count one for a character of the basic plane, and two for any
/// other.
pub proof fn utf16_columns_are_code_units(left: Seq<char>, c: char)
    ensures
        crate::line_index::units(Seq::empty(), PositionEncoding::Utf16) == 0,
        (c as u32) <= 0xffff ==> crate::line_index::units(left.push(c), PositionEncoding::Utf16)
            == crate::line_index::units(left, PositionEncoding::Utf16) + 1,
        (c as u32) > 0xffff ==> crate::line_index::units(left.push(c), PositionEncoding::Utf16)
            == crate::line_index::units(left, PositionEncoding::Utf16) + 2,
{
    assert(left.push(c).drop_last() =~= left);
}

/// A column behind the end of its line is the end of the line.
pub proof fn columns_stop_at_the_end_of_the_line(
    above: Seq<char>,
    line: Seq<char>,
    below: Seq<char>,
    encoding: PositionEncoding,
    column: int,
)
    requires
        above.len() > 0 ==> above.last() == '\n',
        !line.contains('\n'),
        below.len() > 0 ==> below[0] == '\n',
        column >= crate::line_index::units(line, encoding),
    ensures
        crate::line_index::index_at(
            above + line + below,
            above.filter(|c: char| c == '\n').len() as int,
            column,
            encoding,
        ) == Some(above.len() + line.len() as int),
{
    let text = above + line + below;
    let k = above.len() + line.len() as int;
    let at = above.filter(|c: char| c == '\n').len() as int;
    places_are_counted_from_newlines(above, line, below, encoding);
    places_are_counted_from_newlines(above, Seq::empty(), line + below, encoding);
    assert(text =~= above + Seq::empty() + (line + below));
    let starts = crate::line_index::line_starts(text);
    crate::line_index::lemma_line_starts(text);
    crate::line_index::lemma_line_starts_take(text, k);
    crate::line_index::lemma_line_starts(text.take(k));
    assert(text.take(k) =~= above + line);
    lemma_starts(above, line);
    lemma_last_start(above);
    assert(starts[at] == above.len());
    assert(crate::line_index::line_end(text, at) == k) by {
        if below.len() > 0 {
            assert(text.take(k + 1) =~= (above + line).push('\n'));
            assert(text.take(k + 1).drop_last() =~= above + line);
            crate::line_index::lemma_line_starts_take(text, k + 1);
            assert(crate::line_index::line_starts(text.take(k + 1))[at + 1] == k + 1);
            assert(starts[at + 1] == k + 1);
        } else {
            assert(text =~= text.take(k));
        }
    }
    assert(crate::line_index::line_text(text, at) =~= line);
}

/// A line that the text does not have is nowhere.
pub proof fn lines_behind_the_text_are_nowhere(
    text: Seq<char>,
    line: int,
    column: int,
    encoding: PositionEncoding,
)
    ensures
        crate::line_index::index_at(text, line, column, encoding) is None <==> line < 0 || line
            > text.filter(|c: char| c == '\n').len(),
{
    lemma_count(text);
}

proof fn lemma_count(text: Seq<char>)
    ensures
        crate::line_index::line_starts(text).len() == text.filter(|c: char| c == '\n').len() + 1,
    decreases text.len(),
{
    reveal(Seq::filter);
    if text.len() > 0 {
        lemma_count(text.drop_last());
    }
}

proof fn lemma_last_start(above: Seq<char>)
    requires
        above.len() > 0 ==> above.last() == '\n',
    ensures
        crate::line_index::line_starts(above).last() == above.len(),
        crate::line_index::line_starts(above).len() == above.filter(|c: char| c == '\n').len() + 1,
{
    lemma_count(above);
}

proof fn lemma_starts(above: Seq<char>, left: Seq<char>)
    requires
        !left.contains('\n'),
    ensures
        crate::line_index::line_starts(above + left) == crate::line_index::line_starts(above),
    decreases left.len(),
{
    if left.len() == 0 {
        assert(above + left =~= above);
    } else {
        assert(left.contains(left.last()));
        assert((above + left).drop_last() =~= above + left.drop_last());
        assert(!left.drop_last().contains('\n')) by {
            if left.drop_last().contains('\n') {
                let i = choose|i: int|
                    0 <= i < left.drop_last().len() && left.drop_last()[i] == '\n';
                assert(left[i] == '\n');
            }
        }
        lemma_starts(above, left.drop_last());
    }
}

/// A place and its offset lead to each other, wherever a text is cut.
pub proof fn offsets_and_places_lead_to_each_other(
    index: &LineIndex,
    encoding: PositionEncoding,
    above: Seq<char>,
    left: Seq<char>,
    right: Seq<char>,
    offset: u32,
    position: LinePosition,
    back: Option<u32>,
)
    requires
        call_ensures(LineIndex::position, (index, offset, encoding), position),
        call_ensures(LineIndex::offset, (index, position, encoding), back),
        index.text() == above + left + right,
        above.len() > 0 ==> above.last() == '\n',
        !left.contains('\n'),
        offset == vstd::utf8::encode_utf8(above + left).len(),
        vstd::utf8::encode_utf8(above + left + right).len() < u32::MAX,
    ensures
        position.line == above.filter(|c: char| c == '\n').len(),
        position.character == crate::line_index::units(left, encoding),
        back == Some(offset),
{
    let text = above + left + right;
    let k = above.len() + left.len() as int;
    places_are_counted_from_newlines(above, left, right, encoding);
    assert(text.take(k) =~= above + left);
    crate::line_index::lemma_units_are_bytes(above + left);
    crate::line_index::lemma_units_are_bytes(text);
    crate::line_index::lemma_units_are_bytes(right);
    crate::line_index::lemma_units_concat(above + left, right, PositionEncoding::Utf8);
    assert((above + left) + right =~= text);
    assert(crate::line_index::offset_of(text, k) == offset);
    crate::line_index::positions_round_trip(text, k, encoding);
}

} // verus!
