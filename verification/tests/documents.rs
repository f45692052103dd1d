//! Open documents and their edits.
use jabar::documents::{ContentChange, Documents, EditRange};
use jabar::line_index::{LinePosition, PositionEncoding};
use jabar::vfs_path::VfsPath;

fn path(s: &str) -> VfsPath {
    VfsPath::parse(s).expect("test path should parse")
}

fn edit(start: (u32, u32), end: (u32, u32), text: &str) -> ContentChange {
    ContentChange {
        range: Some(EditRange {
            start: LinePosition::new(start.0, start.1),
            end: LinePosition::new(end.0, end.1),
        }),
        text: text.to_owned(),
    }
}

fn full(text: &str) -> ContentChange {
    ContentChange { range: None, text: text.to_owned() }
}

fn docs_with(text: &str) -> (Documents, VfsPath) {
    let mut docs = Documents::new();
    let p = path("/repo/A.java");
    docs.open(p.copy(), 1, text.to_owned());
    (docs, p)
}

#[test]
fn opening_and_closing_tracks_state() {
    let (mut docs, p) = docs_with("class A {}");
    assert!(docs.is_open(&p));
    assert_eq!(docs.get(&p).unwrap().version, 1);
    assert_eq!(docs.len(), 1);

    let closed = docs.close(&p).expect("was open");
    assert_eq!(closed.text, "class A {}");
    assert!(!docs.is_open(&p));
    assert!(docs.is_empty());
}

#[test]
fn a_change_with_no_range_replaces_everything() {
    let (mut docs, p) = docs_with("old");
    let text = docs.apply_changes(&p, 2, &vec![full("new")], PositionEncoding::Utf8).unwrap();
    assert_eq!(text, "new");
    assert_eq!(docs.get(&p).unwrap().version, 2);
}

#[test]
fn a_ranged_change_edits_in_place() {
    let (mut docs, p) = docs_with("class A {}\n");
    let text = docs
        .apply_changes(&p, 2, &vec![edit((0, 6), (0, 7), "Bee")], PositionEncoding::Utf8)
        .unwrap();
    assert_eq!(text, "class Bee {}\n");
}

#[test]
fn edits_in_one_batch_apply_in_sequence() {
    // LSP specifies each edit applies to the document the previous one
    // produced. Resolving them all against the original text would put the
    // second edit at the wrong offset.
    let (mut docs, p) = docs_with("abc\n");
    let text = docs
        .apply_changes(
            &p,
            2,
            &vec![edit((0, 0), (0, 1), "XX"), edit((0, 0), (0, 1), "Y")],
            PositionEncoding::Utf8,
        )
        .unwrap();
    assert_eq!(text, "YXbc\n");
}

#[test]
fn insertion_uses_an_empty_range() {
    let (mut docs, p) = docs_with("ac");
    let text = docs
        .apply_changes(&p, 2, &vec![edit((0, 1), (0, 1), "b")], PositionEncoding::Utf8)
        .unwrap();
    assert_eq!(text, "abc");
}

#[test]
fn deletion_uses_empty_text() {
    let (mut docs, p) = docs_with("abc");
    let text =
        docs.apply_changes(&p, 2, &vec![edit((0, 1), (0, 2), "")], PositionEncoding::Utf8).unwrap();
    assert_eq!(text, "ac");
}

#[test]
fn edits_spanning_lines() {
    let (mut docs, p) = docs_with("one\ntwo\nthree\n");
    let text = docs
        .apply_changes(&p, 2, &vec![edit((0, 1), (2, 2), "X")], PositionEncoding::Utf8)
        .unwrap();
    assert_eq!(text, "oXree\n");
}

#[test]
fn utf16_columns_land_correctly_around_an_emoji() {
    // The whole reason encoding is negotiated. Under UTF-16 the text after
    // `🔁` starts at column 2, not 4; treating the column as bytes would
    // splice the edit into the middle of the character.
    let (mut docs, p) = docs_with("🔁 retrying");
    let text = docs
        .apply_changes(&p, 2, &vec![edit((0, 3), (0, 11), "done")], PositionEncoding::Utf16)
        .unwrap();
    assert_eq!(text, "🔁 done");
}

#[test]
fn the_same_edit_under_utf8_uses_byte_columns() {
    let (mut docs, p) = docs_with("🔁 retrying");
    let text = docs
        .apply_changes(&p, 2, &vec![edit((0, 5), (0, 13), "done")], PositionEncoding::Utf8)
        .unwrap();
    assert_eq!(text, "🔁 done");
}

#[test]
fn an_out_of_range_edit_is_dropped_not_applied() {
    // A range naming a line that does not exist means client and server have
    // diverged. Guessing an offset would corrupt the buffer silently.
    let (mut docs, p) = docs_with("abc\n");
    let text = docs
        .apply_changes(&p, 2, &vec![edit((99, 0), (99, 5), "X")], PositionEncoding::Utf8)
        .unwrap();
    assert_eq!(text, "abc\n", "the document is left intact");
}

#[test]
fn an_inverted_range_is_dropped_not_panicked() {
    let (mut docs, p) = docs_with("abcdef\n");
    let text = docs
        .apply_changes(&p, 2, &vec![edit((0, 4), (0, 1), "X")], PositionEncoding::Utf8)
        .unwrap();
    assert_eq!(text, "abcdef\n");
}

#[test]
fn editing_an_unopened_document_is_refused() {
    // Creating one here would leave the server holding a document the client
    // does not think it opened, which then never gets closed.
    let mut docs = Documents::new();
    assert!(
        docs.apply_changes(&path("/repo/Ghost.java"), 1, &vec![full("x")], PositionEncoding::Utf8)
            .is_none()
    );
    assert!(docs.is_empty());
}

#[test]
fn reopening_replaces_the_previous_contents() {
    let (mut docs, p) = docs_with("first");
    let previous = docs.open(p.copy(), 5, "second".to_owned());
    assert_eq!(previous.map(|d| d.text).as_deref(), Some("first"));
    assert_eq!(docs.get(&p).unwrap().text, "second");
    assert_eq!(docs.len(), 1);
}

#[test]
fn batches_one_after_the_other_are_one_batch() {
    let (mut docs, p) = docs_with("abc\n");
    docs.apply_changes(&p, 2, &vec![edit((0, 0), (0, 1), "XX")], PositionEncoding::Utf8);
    let text = docs
        .apply_changes(&p, 3, &vec![edit((0, 0), (0, 1), "Y")], PositionEncoding::Utf8)
        .unwrap();
    assert_eq!(text, "YXbc\n");
}

#[test]
fn a_batch_can_be_sent_in_two_parts() {
    let first = || edit((0, 0), (0, 1), "XX");
    let second = || edit((0, 0), (0, 1), "Y");
    let (mut whole, p) = docs_with("abc\n");
    let (mut parts, _) = docs_with("abc\n");
    parts.apply_changes(&p, 2, &vec![first()], PositionEncoding::Utf8);
    let text = parts.apply_changes(&p, 3, &vec![second()], PositionEncoding::Utf8);
    let both = vec![first(), second()];
    assert_eq!(whole.apply_changes(&p, 3, &both, PositionEncoding::Utf8), text);
    assert_eq!(text.as_deref(), Some("YXbc\n"));
    for docs in [&whole, &parts] {
        assert_eq!(docs.get(&p).unwrap().version, 3);
        assert_eq!(docs.get(&p).unwrap().text, "YXbc\n");
    }
    let other = path("/repo/B.java");
    assert!(whole.apply_changes(&other, 4, &both, PositionEncoding::Utf8).is_none());
    assert_eq!(whole.len(), 1, "nothing is created");
}

#[test]
fn open_documents_are_listed_once() {
    let (mut docs, p) = docs_with("first");
    docs.open(path("/repo/B.java"), 1, "second".to_owned());
    docs.open(p.copy(), 2, "third".to_owned());
    let listed: Vec<String> =
        docs.iter().iter().map(|(p, d)| format!("{} {}", p.to_text(), d.text)).collect();
    assert_eq!(listed, ["/repo/A.java third", "/repo/B.java second"]);
}

#[test]
fn one_file_is_one_document_however_it_is_spelt() {
    let mut docs = Documents::new();
    docs.open(path("/repo//java/./A.java"), 1, "one".to_owned());
    assert_eq!(docs.get(&path("/repo/java/A.java")).unwrap().text, "one");
    docs.open(path("/repo/java/A.java/"), 2, "two".to_owned());
    assert_eq!(docs.len(), 1);
    assert_eq!(docs.iter()[0].0.to_text(), "/repo/java/A.java");
    assert!(!docs.is_open(&path("/repo/java/../java/A.java")), "`..` needs the file system");
    assert!(docs.close(&path("/repo/java//A.java")).is_some());
    assert!(docs.is_empty());
}
