//! What the client has open, what files hold, and what the index has not seen.
use jabar::documents::{ContentChange, EditRange};
use jabar::line_index::{LinePosition, PositionEncoding};
use jabar::overlay::Overlay;
use jabar::paths::AbsPathBuf;
use jabar::sources::{Sources, StaleDocuments};
use jabar::symbol_index::SymbolIndex;
use jabar::uri::vfs_path;
use jabar::vfs_path::VfsPath;

fn path(s: &str) -> VfsPath {
    VfsPath::parse(s).expect("test path should parse")
}

fn root() -> AbsPathBuf {
    AbsPathBuf::try_new("/repo".to_owned()).expect("absolute")
}

fn full(text: &str) -> Vec<ContentChange> {
    vec![ContentChange { range: None, text: text.to_owned() }]
}

#[test]
fn text_sync_reaches_the_vfs() {
    let mut sources = Sources::new();
    assert_eq!(sources.documents().len(), 0);
    assert_eq!(sources.vfs().revision(), 0);

    let path = vfs_path("file:///repo/A.java").unwrap();
    assert!(sources.has_room_for(&path));
    assert!(!sources.did_open(path, 1, "class A {}\n".to_owned(), None));
    assert_eq!(sources.documents().len(), 1);
    assert_eq!(sources.vfs().len(), 1);
    assert_eq!(sources.vfs().revision(), 1, "the open should have advanced the revision");
}

#[test]
fn incremental_edits_are_applied_in_order() {
    let mut sources = Sources::new();
    let path = vfs_path("file:///repo/A.java").unwrap();
    sources.did_open(path.clone(), 1, "class A {}\n".to_owned(), None);
    let changes = vec![ContentChange {
        range: Some(EditRange {
            start: LinePosition::new(0, 6),
            end: LinePosition::new(0, 7),
        }),
        text: "Bee".to_owned(),
    }];
    assert!(sources.did_change(&path, 2, &changes, PositionEncoding::Utf8));
    assert_eq!(sources.vfs().revision(), 2, "the edit changed the content");
    assert_eq!(sources.documents().get(&path).unwrap().text, "class Bee {}\n");
}

#[test]
fn an_edit_that_changes_nothing_does_not_advance_the_revision() {
    // Agents rewrite files with identical bytes constantly. If that counted as a
    // change, every such write would invalidate the world.
    let mut sources = Sources::new();
    let path = vfs_path("file:///repo/A.java").unwrap();
    let text = "class A {}\n".to_owned();
    sources.did_open(path.clone(), 1, text.clone(), Some(text.clone()));
    let before = sources.vfs().revision();

    sources.did_change(&path, 2, &full(&text), PositionEncoding::Utf8);
    assert_eq!(sources.vfs().revision(), before);
    assert!(!sources.stale().contains(&path));
}

#[test]
fn an_unsupported_uri_scheme_is_ignored_not_fatal() {
    // `untitled:` is a buffer never written to disk. Editors send these.
    assert!(vfs_path("untitled:Untitled-1").is_err());
}

#[test]
fn freshness_survives_save_and_close_while_vfs_payloads_are_drained() {
    let mut sources = Sources::new();
    let path = path("/repo/A.java");
    let old = "class A {}\n".to_owned();
    let new = "class Bee {}\n".to_owned();

    sources.did_open(path.clone(), 1, old.clone(), Some(old));
    assert!(!sources.stale().contains(&path));
    assert!(!sources.vfs().has_pending_changes());

    sources.did_change(&path, 2, &full(&new), PositionEncoding::Utf16);
    assert!(sources.stale().contains(&path));
    assert!(!sources.vfs().has_pending_changes());

    // The file is saved, which tells the server nothing that it keeps.
    assert!(sources.did_close(&path, Some(new.clone().into_bytes())));
    assert!(sources.stale().contains(&path), "saving is not an index rebuild");
    assert!(!sources.vfs().has_pending_changes());

    // Installing a generation built from disk makes the closed file current.
    sources.refresh_document_freshness(&|_: &str| Some(new.clone()));
    assert!(!sources.stale().contains(&path));
}

#[test]
fn an_open_file_that_differs_from_disk_stays_stale() {
    let mut sources = Sources::new();
    sources.did_open(path("/repo/A.java"), 1, "unsaved".to_owned(), Some("saved".to_owned()));
    sources.did_open(path("/repo/B.java"), 1, "saved".to_owned(), Some("saved".to_owned()));
    sources.refresh_document_freshness(&|_: &str| Some("saved".to_owned()));
    assert_eq!(sources.stale().len(), 1);
    assert_eq!(sources.stale().get(0).to_text(), "/repo/A.java");
}

#[test]
fn what_is_not_open_cannot_be_edited_or_closed() {
    let mut sources = Sources::new();
    let path = path("/repo/A.java");
    assert!(!sources.did_change(&path, 1, &full("x"), PositionEncoding::Utf8));
    assert!(!sources.did_close(&path, None));
    assert_eq!(sources.vfs().len(), 0);
}

#[test]
fn a_query_reads_the_clients_copy_first() {
    let mut sources = Sources::new();
    sources.did_open(path("/repo/A.java"), 1, "open".to_owned(), None);
    let disk = |file: &str| Some(format!("disk of {file}"));
    let root = root();
    let read = |relative: &str| sources.read_file(&root.as_path(), relative, &disk);
    assert_eq!(read("A.java").as_deref(), Some("open"));
    assert_eq!(read("B.java").as_deref(), Some("disk of /repo/B.java"));
    assert_eq!(read("/etc/passwd"), None, "only files of the workspace");
}

#[test]
fn a_symbol_written_seconds_ago_is_found() {
    let mut sources = Sources::new();
    sources.did_open(path("/repo/A.java"), 1, "class Fresh {}\n".to_owned(), None);
    sources.did_open(path("/elsewhere/B.java"), 1, "class Fresh {}\n".to_owned(), None);
    let index = SymbolIndex::new();
    let disk = |_: &str| None;
    let root = root();
    let results = sources.workspace_symbol(
        &index,
        &Overlay::new(),
        "fresh",
        &root.as_path(),
        PositionEncoding::Utf16,
        &disk,
        &disk,
    );
    assert_eq!(results.total, 1, "only what lies in the workspace");
    assert_eq!(results.symbols[0].location.uri, "file:///repo/A.java");

    let (shadowed, current) = sources.current_sources(&root.as_path(), &disk);
    assert_eq!(shadowed, ["A.java"]);
    assert_eq!(current[0].text, "class Fresh {}\n");
}

#[test]
fn a_stale_file_that_cannot_be_read_still_hides_the_old_answer() {
    let mut sources = Sources::new();
    let path = path("/repo/A.java");
    sources.did_open(path.clone(), 1, "class A {}\n".to_owned(), None);
    sources.did_close(&path, None);
    let root = root();
    let (shadowed, current) = sources.current_sources(&root.as_path(), &|_: &str| None);
    assert_eq!(shadowed, ["A.java"]);
    assert!(current.is_empty());
}

#[test]
fn stale_files_are_listed_once() {
    let mut stale = StaleDocuments::new();
    stale.insert(path("/repo/A.java"));
    stale.insert(path("/repo//A.java"));
    assert_eq!(stale.len(), 1);
    assert!(stale.contains(&path("/repo/./A.java")));
}
