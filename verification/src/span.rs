//! Positions and spans in a source file.
use vstd::prelude::*;

verus! {

/// Where a symbol is, in the index's own coordinates.
///
/// Columns are in whatever [`PositionEncoding`] the containing document used.
/// Converting to a client's negotiated encoding is the server's job: it has
/// the file text and the index does not.
#[derive(Copy, Clone, Debug, PartialEq, Eq, Hash, Structural)]
pub struct Range {
    pub start_line: u32,
    pub start_col: u32,
    pub end_line: u32,
    pub end_col: u32,
}

/// The range that SCIP's packed encoding stands for.
///
/// Three elements mean a single-line range and four a multi-line one. An absent
/// range arrives as an empty vector.
pub open spec fn range_of(raw: Seq<i32>) -> Option<Range> {
    if raw.len() == 3 {
        Some(
            Range {
                start_line: raw[0] as u32,
                start_col: raw[1] as u32,
                end_line: raw[0] as u32,
                end_col: raw[2] as u32,
            },
        )
    } else if raw.len() == 4 {
        Some(
            Range {
                start_line: raw[0] as u32,
                start_col: raw[1] as u32,
                end_line: raw[2] as u32,
                end_col: raw[3] as u32,
            },
        )
    } else {
        None
    }
}

/// Whether `(line, col)` comes before `(other_line, other_col)` or is it.
pub open spec fn at_or_before(line: u32, col: u32, other_line: u32, other_col: u32) -> bool {
    line < other_line || (line == other_line && col <= other_col)
}

/// Whether `(line, col)` comes before `(other_line, other_col)`.
pub open spec fn strictly_before(line: u32, col: u32, other_line: u32, other_col: u32) -> bool {
    line < other_line || (line == other_line && col < other_col)
}

impl Range {
    /// Reads SCIP's packed range encoding.
    pub fn from_scip(raw: &[i32]) -> (range: Option<Range>)
        ensures
            range == range_of(raw@),
    {
        if raw.len() == 3 {
            Some(
                Range {
                    start_line: #[verifier::truncate] (raw[0] as u32),
                    start_col: #[verifier::truncate] (raw[1] as u32),
                    end_line: #[verifier::truncate] (raw[0] as u32),
                    end_col: #[verifier::truncate] (raw[2] as u32),
                },
            )
        } else if raw.len() == 4 {
            Some(
                Range {
                    start_line: #[verifier::truncate] (raw[0] as u32),
                    start_col: #[verifier::truncate] (raw[1] as u32),
                    end_line: #[verifier::truncate] (raw[2] as u32),
                    end_col: #[verifier::truncate] (raw[3] as u32),
                },
            )
        } else {
            None
        }
    }

    /// Whether the range holds the position: at or behind its start, and before
    /// its end.
    pub open spec fn holds(self, line: u32, col: u32) -> bool {
        &&& at_or_before(self.start_line, self.start_col, line, col)
        &&& strictly_before(line, col, self.end_line, self.end_col)
    }

    /// Whether the range contains all of `inner`.
    pub open spec fn contains(self, inner: Range) -> bool {
        &&& at_or_before(self.start_line, self.start_col, inner.start_line, inner.start_col)
        &&& at_or_before(inner.end_line, inner.end_col, self.end_line, self.end_col)
    }

    /// How wide the range is: its lines first, then its columns. A line weighs
    /// more than any columns do.
    pub open spec fn width(self) -> int {
        let lines = if self.start_line <= self.end_line {
            self.end_line - self.start_line
        } else {
            0
        };
        let cols = if self.start_col <= self.end_col {
            self.end_col - self.start_col
        } else {
            0
        };
        lines * 0x1_0000_0000 + cols
    }
}

/// How a document's columns are counted.
#[derive(Copy, Clone, Debug, PartialEq, Eq, Hash, Structural)]
pub enum PositionEncoding {
    Utf8,
    Utf16,
    Utf32,
}

impl PositionEncoding {
    /// The encoding that a SCIP document's number for it stands for.
    ///
    /// UTF-16 where the number is unspecified or unknown, which is what every
    /// JVM indexer emits. Guessing UTF-8 here would skew every column after the
    /// first non-ASCII character on a line.
    pub open spec fn numbered(number: i32) -> PositionEncoding {
        if number == 1 {
            PositionEncoding::Utf8
        } else if number == 3 {
            PositionEncoding::Utf32
        } else {
            PositionEncoding::Utf16
        }
    }

    /// Computes [`PositionEncoding::numbered`].
    pub fn of(number: i32) -> (encoding: PositionEncoding)
        ensures
            encoding == PositionEncoding::numbered(number),
    {
        if number == 1 {
            PositionEncoding::Utf8
        } else if number == 3 {
            PositionEncoding::Utf32
        } else {
            PositionEncoding::Utf16
        }
    }
}

/// Whether `outer` wholly contains `inner`.
pub fn encloses(outer: &Range, inner: &Range) -> (inside: bool)
    ensures
        inside == outer.contains(*inner),
{
    let starts_inside = outer.start_line < inner.start_line || (outer.start_line
        == inner.start_line && outer.start_col <= inner.start_col);
    let ends_inside = inner.end_line < outer.end_line || (inner.end_line == outer.end_line
        && inner.end_col <= outer.end_col);
    starts_inside && ends_inside
}

/// Whether `range` covers `(line, col)`, treating the end as exclusive.
pub fn covers(range: &Range, line: u32, col: u32) -> (covered: bool)
    ensures
        covered == range.holds(line, col),
{
    if line < range.start_line || line > range.end_line {
        return false;
    }
    if line == range.start_line && col < range.start_col {
        return false;
    }
    if line == range.end_line && col >= range.end_col {
        return false;
    }
    true
}

/// A comparable size for a range, for picking the narrowest of several.
///
/// Multi-line ranges are always wider than single-line ones, so the line span
/// dominates and the column span breaks ties.
pub fn span_len(range: &Range) -> (len: u64)
    ensures
        len == range.width(),
{
    let lines: u32 = if range.start_line <= range.end_line {
        range.end_line - range.start_line
    } else {
        0
    };
    let cols: u32 = if range.start_col <= range.end_col {
        range.end_col - range.start_col
    } else {
        0
    };
    (lines as u64) * 0x1_0000_0000 + (cols as u64)
}

/// A range that spans several lines is always wider than one on a single line.
pub proof fn multi_line_is_wider(single: Range, multi: Range)
    requires
        single.start_line == single.end_line,
        multi.start_line < multi.end_line,
    ensures
        single.width() < multi.width(),
{
}

/// What a range contains is not wider than the range, so the narrowest of
/// several nested ranges is the innermost.
pub proof fn contained_is_not_wider(outer: Range, inner: Range)
    requires
        outer.contains(inner),
        inner.start_line <= inner.end_line,
    ensures
        inner.width() <= outer.width(),
{
}

/// A range is read from three or four numbers and from nothing else. Three stay on
/// one line.
pub proof fn ranges_are_read_from_their_numbers(raw: &[i32], range: Option<Range>)
    requires
        call_ensures(Range::from_scip, (raw,), range),
        forall|i: int| 0 <= i < raw@.len() ==> #[trigger] raw@[i] >= 0,
    ensures
        range is Some <==> raw@.len() == 3 || raw@.len() == 4,
        range is Some ==> range->0.start_line == raw@[0] && range->0.start_col == raw@[1],
        raw@.len() == 3 ==> range->0.end_line == raw@[0] && range->0.end_col == raw@[2],
        raw@.len() == 4 ==> range->0.end_line == raw@[2] && range->0.end_col == raw@[3],
{
    crate::index_laws::shards::packed_ranges_are_read(raw@);
}

/// On one line, a range covers the columns from its start to before its end, and
/// encloses another exactly where that one starts no earlier and ends no later.
pub proof fn ranges_on_a_line_are_compared_by_column(
    outer: &Range,
    inner: &Range,
    line: u32,
    col: u32,
    covered: bool,
    inside: bool,
    len: u64,
)
    requires
        call_ensures(covers, (outer, line, col), covered),
        call_ensures(encloses, (outer, inner), inside),
        call_ensures(span_len, (outer,), len),
        outer.start_line == outer.end_line,
        inner.start_line == inner.end_line,
        outer.start_col <= outer.end_col,
    ensures
        covered <==> line == outer.start_line && outer.start_col <= col < outer.end_col,
        inside && inner.start_col <= inner.end_col ==> inner.start_line == outer.start_line,
        inner.start_line == outer.start_line ==> (inside <==> outer.start_col <= inner.start_col
            && inner.end_col <= outer.end_col),
        len == outer.end_col - outer.start_col,
{
}

/// A range of several lines covers every line between its first and its last, and
/// is longer than any range with fewer lines.
pub proof fn longer_ranges_span_more_lines(
    long: &Range,
    short: &Range,
    line: u32,
    col: u32,
    covered: bool,
    long_len: u64,
    short_len: u64,
)
    requires
        call_ensures(covers, (long, line, col), covered),
        call_ensures(span_len, (long,), long_len),
        call_ensures(span_len, (short,), short_len),
        long.start_line <= long.end_line,
        short.start_line <= short.end_line,
    ensures
        long.start_line < line < long.end_line ==> covered,
        line < long.start_line || line > long.end_line ==> !covered,
        long.end_line - long.start_line > short.end_line - short.start_line ==> long_len
            > short_len,
{
}

} // verus!
