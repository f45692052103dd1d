//! Positions in text.
use jabar::line_index::PositionEncoding::{Utf16, Utf8};
use jabar::line_index::{LineIndex, LinePosition};

fn pos(line: u32, character: u32) -> LinePosition {
    LinePosition::new(line, character)
}

#[test]
fn ascii_offsets_are_identical_in_both_encodings() {
    let index = LineIndex::new("class A {}\nclass B {}\n");
    for encoding in [Utf8, Utf16] {
        assert_eq!(index.offset(pos(0, 0), encoding), Some(0));
        assert_eq!(index.offset(pos(0, 6), encoding), Some(6));
        assert_eq!(index.offset(pos(1, 6), encoding), Some(17));
        assert_eq!(index.position(17, encoding), pos(1, 6));
    }
}

#[test]
fn line_count_handles_trailing_newlines() {
    assert_eq!(LineIndex::new("").line_count(), 1, "an empty file is one empty line");
    assert_eq!(LineIndex::new("a").line_count(), 1);
    assert_eq!(LineIndex::new("a\n").line_count(), 2, "a trailing newline opens a line");
    assert_eq!(LineIndex::new("a\nb").line_count(), 2);
}

#[test]
fn the_emoji_line_from_the_fixture() {
    // Verbatim from fixtures/megarepo Messages.java, the line that made the
    // three encodings disagree: 63 bytes, 59 UTF-16 units, 58 codepoints.
    let line = r#"  public static final String RETRY_BANNER = "🔁 retrying…";"#;
    assert_eq!(line.len(), 63);
    assert_eq!(line.encode_utf16().count(), 59);
    assert_eq!(line.chars().count(), 58);

    let index = LineIndex::new(line);
    let emoji_start = line.find('🔁').unwrap() as u32;

    // Before the emoji the encodings still agree.
    assert_eq!(index.position(emoji_start, Utf8), pos(0, emoji_start));
    assert_eq!(index.position(emoji_start, Utf16), pos(0, emoji_start));

    // Immediately after it they diverge by exactly the two extra bytes.
    let after = emoji_start + '🔁'.len_utf8() as u32;
    assert_eq!(index.position(after, Utf8), pos(0, after));
    assert_eq!(index.position(after, Utf16), pos(0, emoji_start + 2));

    // And the ellipsis, three bytes for one UTF-16 unit, adds two more.
    assert_eq!(index.position(line.len() as u32, Utf16), pos(0, 59));
    assert_eq!(index.position(line.len() as u32, Utf8), pos(0, 63));
}

#[test]
fn conversions_round_trip_on_every_boundary() {
    // The property that matters: for every character boundary in a file full
    // of awkward text, offset(position(o)) == o. If this holds, no range the
    // server returns can be off by a character.
    let text = "class Grüße {\n  String s = \"🔁 完了\";\n  // Γειά σου\n}\n";
    let index = LineIndex::new(text);

    for (offset, _) in text.char_indices() {
        let offset = offset as u32;
        for encoding in [Utf8, Utf16] {
            let position = index.position(offset, encoding);
            assert_eq!(
                index.offset(position, encoding),
                Some(offset),
                "round trip failed at byte {offset} under {encoding:?}"
            );
        }
    }
}

#[test]
fn offsets_always_land_on_character_boundaries() {
    // The concrete failure this guards: a UTF-16 column used as a byte
    // offset splits a multi-byte character, and every column after is wrong.
    let text = "let x = \"héllo 🔁 wörld\";\n";
    let index = LineIndex::new(text);

    for character in 0..40 {
        for encoding in [Utf8, Utf16] {
            if let Some(offset) = index.offset(pos(0, character), encoding) {
                assert!(
                    text.is_char_boundary(offset as usize),
                    "byte {offset} splits a character (col {character}, {encoding:?})"
                );
            }
        }
    }
}

#[test]
fn a_column_inside_a_character_snaps_back_to_its_start() {
    // Under UTF-8 encoding the column is a byte offset, so a client can name
    // the second byte of a two-byte character. `é` occupies bytes 1 and 2.
    let index = LineIndex::new("aébc");
    assert_eq!(index.offset(pos(0, 1), Utf8), Some(1), "the start of é");
    assert_eq!(index.offset(pos(0, 2), Utf8), Some(1), "inside é, snapped back");
    assert_eq!(index.offset(pos(0, 3), Utf8), Some(3), "past é, untouched");

    // Same for a surrogate pair addressed halfway through under UTF-16.
    let index = LineIndex::new("a🔁b");
    assert_eq!(index.offset(pos(0, 1), Utf16), Some(1), "the start of the emoji");
    assert_eq!(index.offset(pos(0, 2), Utf16), Some(1), "mid-pair, snapped back");
    assert_eq!(index.offset(pos(0, 3), Utf16), Some(5), "past it, untouched");
}

#[test]
fn a_column_past_the_line_end_clamps() {
    // Clients send stale columns routinely. Clamping to the line end beats
    // refusing the request or running off into the next line.
    let index = LineIndex::new("ab\ncdef\n");
    assert_eq!(index.offset(pos(0, 999), Utf8), Some(2), "end of line 0, not into line 1");
    assert_eq!(index.offset(pos(1, 999), Utf8), Some(7), "end of line 1");
}

#[test]
fn a_line_past_the_end_is_rejected() {
    // A missing line is a different kind of wrong from a long column: there
    // is no sensible offset to clamp to, so the caller has to know.
    let index = LineIndex::new("ab\n");
    assert_eq!(index.offset(pos(99, 0), Utf8), None);
    assert_eq!(index.offset(pos(1, 0), Utf8), Some(3), "the empty final line exists");
}

#[test]
fn an_offset_past_the_end_clamps_to_the_end() {
    let text = "abc\n";
    let index = LineIndex::new(text);
    assert_eq!(index.position(9999, Utf8), index.position(text.len() as u32, Utf8));
}

#[test]
fn empty_files_and_empty_lines() {
    let index = LineIndex::new("");
    assert_eq!(index.offset(pos(0, 0), Utf16), Some(0));
    assert_eq!(index.position(0, Utf16), pos(0, 0));

    let index = LineIndex::new("\n\n\n");
    assert_eq!(index.line_count(), 4);
    assert_eq!(index.offset(pos(2, 0), Utf8), Some(2));
    assert_eq!(index.position(2, Utf8), pos(2, 0));
}

#[test]
fn wide_characters_on_later_lines_do_not_affect_earlier_ones() {
    // Wide-char data is per line; leaking it across lines would shift every
    // position in the file after the first non-ASCII character.
    let text = "plain ascii\nGrüße\nplain again\n";
    let index = LineIndex::new(text);
    assert_eq!(index.position(6, Utf16), pos(0, 6), "line 0 is untouched");

    let line2_start = text.find("plain again").unwrap() as u32;
    assert_eq!(index.position(line2_start + 5, Utf16), pos(2, 5), "line 2 is untouched");
}

#[test]
fn crlf_line_endings_do_not_shift_columns() {
    // Text reaching the index is expected to be normalized, but a stray \r
    // must not be mistaken for part of the next line.
    let index = LineIndex::new("ab\r\ncd\r\n");
    assert_eq!(index.line_count(), 3);
    assert_eq!(index.offset(pos(1, 0), Utf8), Some(4), "line 1 starts after the \\n");
}

#[test]
fn a_line_of_only_wide_characters() {
    let text = "🔁🔁🔁";
    let index = LineIndex::new(text);
    assert_eq!(index.position(text.len() as u32, Utf16), pos(0, 6), "three surrogate pairs");
    assert_eq!(index.position(text.len() as u32, Utf8), pos(0, 12));
    assert_eq!(index.offset(pos(0, 4), Utf16), Some(8), "two emoji in");
    assert_eq!(index.offset(pos(0, 6), Utf16), Some(12));
}
