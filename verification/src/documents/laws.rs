//! What an edit leaves of a text, and what of the other documents.
use vstd::prelude::*;

use crate::documents::{ChangeView, DocumentView, EditRange};
use crate::line_index::PositionEncoding;
use crate::vfs_path::PathView;

verus! {

/// An edit of a range replaces what stands between its ends, and leaves what
/// stands before and behind. The ends are given as the line and the column of
/// the places.
pub proof fn edits_replace_what_is_between(
    before: Seq<char>,
    replaced: Seq<char>,
    after: Seq<char>,
    change: ChangeView,
    range: EditRange,
    encoding: PositionEncoding,
)
    requires
        vstd::utf8::encode_utf8(before + replaced + after).len() < u32::MAX,
        change.range == Some(range),
        range.start.line == crate::line_index::line_of(
            before + replaced + after,
            before.len() as int,
        ),
        range.start.character == crate::line_index::column_of(
            before + replaced + after,
            before.len() as int,
            encoding,
        ),
        range.end.line == crate::line_index::line_of(
            before + replaced + after,
            before.len() + replaced.len() as int,
        ),
        range.end.character == crate::line_index::column_of(
            before + replaced + after,
            before.len() + replaced.len() as int,
            encoding,
        ),
    ensures
        crate::documents::edited(before + replaced + after, change, encoding) == before
            + change.text + after,
{
    let text = before + replaced + after;
    let end = before.len() + replaced.len() as int;
    crate::line_index::positions_round_trip(text, before.len() as int, encoding);
    crate::line_index::positions_round_trip(text, end, encoding);
    crate::line_index::lemma_units_are_bytes(text);
    assert(text.take(before.len() as int) =~= before);
    assert(text.skip(end) =~= after);
}

/// An edit without a range is the whole new text.
pub proof fn edits_without_a_range_replace_all(
    text: Seq<char>,
    change: ChangeView,
    encoding: PositionEncoding,
)
    requires
        change.range is None,
    ensures
        crate::documents::edited(text, change, encoding) == change.text,
{
}

/// An edit that names a line which the text does not have changes nothing.
pub proof fn edits_of_missing_lines_are_dropped(
    text: Seq<char>,
    change: ChangeView,
    range: EditRange,
    encoding: PositionEncoding,
)
    requires
        change.range == Some(range),
        range.start.line > text.filter(|c: char| c == '\n').len() || range.end.line > text.filter(
            |c: char| c == '\n',
        ).len(),
    ensures
        crate::documents::edited(text, change, encoding) == text,
{
    crate::line_index::laws::lines_behind_the_text_are_nowhere(
        text,
        range.start.line as int,
        range.start.character as int,
        encoding,
    );
    crate::line_index::laws::lines_behind_the_text_are_nowhere(
        text,
        range.end.line as int,
        range.end.character as int,
        encoding,
    );
}

/// A batch applies its edits one after the other, each to what the one before
/// it made.
pub proof fn edits_apply_in_turn(
    text: Seq<char>,
    changes: Seq<ChangeView>,
    next: ChangeView,
    encoding: PositionEncoding,
)
    ensures
        crate::documents::edited_by(text, Seq::empty(), encoding) == text,
        crate::documents::edited_by(text, changes.push(next), encoding)
            == crate::documents::edited(
            crate::documents::edited_by(text, changes, encoding),
            next,
            encoding,
        ),
{
    assert(changes.push(next).drop_last() =~= changes);
}

/// A batch of edits gives its document the client's version and the edited text.
/// Every other document stays as it is, and none is opened.
pub proof fn edits_touch_one_document(
    documents: Map<PathView, DocumentView>,
    path: PathView,
    version: i32,
    changes: Seq<ChangeView>,
    encoding: PositionEncoding,
    other: PathView,
)
    ensures
        ({
            let after = crate::documents::changed(documents, path, version, changes, encoding);
            &&& after.contains_key(other) <==> documents.contains_key(other)
            &&& other != path && documents.contains_key(other) ==> after[other] == documents[other]
            &&& documents.contains_key(path) ==> after[path].version == version && after[path].text
                == crate::documents::edited_by(documents[path].text, changes, encoding)
        }),
{
}

} // verus!
