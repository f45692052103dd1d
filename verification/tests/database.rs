//! File contents: what was written, and what is derived from it.
use jabar::base_db::{line_count, Durability, RootDatabase, RootKind, SourceRootId};
use jabar::path_interner::FileId;
use jabar::vfs::{Change, Vfs};
use jabar::vfs_path::VfsPath;

const FOCUS: SourceRootId = SourceRootId(0);
const DEP: SourceRootId = SourceRootId(1);
const EXTERNAL: SourceRootId = SourceRootId(2);

fn file(raw: u32) -> FileId {
    FileId::from_raw(raw)
}

fn path(s: &str) -> VfsPath {
    VfsPath::parse(s).expect("test path should parse")
}

/// Registers the three tiers and one file in each.
fn three_tier_db() -> RootDatabase {
    let mut db = RootDatabase::new();
    for (root, kind) in [
        (FOCUS, RootKind::FocusTarget),
        (DEP, RootKind::WorkspaceDep),
        (EXTERNAL, RootKind::External),
    ] {
        db.set_source_root(root, kind);
    }
    for (id, root) in [(0, FOCUS), (1, DEP), (2, EXTERNAL)] {
        db.set_file_source_root(file(id), root);
        db.set_file_text(file(id), "one\ntwo\n");
    }
    db
}

#[test]
fn text_round_trips() {
    let mut db = RootDatabase::new();
    db.set_source_root(FOCUS, RootKind::FocusTarget);
    db.set_file_source_root(file(0), FOCUS);
    db.set_file_text(file(0), "class A {}\n");

    let input = db.file_text(file(0));
    assert_eq!(input.text, "class A {}\n");
    assert_eq!(input.file_id, file(0));
    assert_eq!(line_count(&input.text), 1);
}

#[test]
fn tiers_map_to_the_intended_durabilities() {
    assert_eq!(RootKind::FocusTarget.text_durability(), Durability::Low);
    assert_eq!(RootKind::WorkspaceDep.text_durability(), Durability::Medium);
    assert_eq!(RootKind::External.text_durability(), Durability::High);
    // Membership is steadier than content.
    assert_eq!(RootKind::FocusTarget.membership_durability(), Durability::Medium);
    assert!(RootKind::FocusTarget.is_editable());
    assert!(!RootKind::External.is_editable());
}

#[test]
fn vfs_changes_flow_into_the_database() {
    let mut db = RootDatabase::new();
    db.set_source_root(FOCUS, RootKind::FocusTarget);

    let mut vfs = Vfs::new();
    let path = path("/repo/A.java");
    vfs.set_file_contents(path.clone(), Some(b"class A {}\n".to_vec()));
    let file_id = vfs.file_id(&path).expect("just written");
    db.set_file_source_root(file_id, FOCUS);

    db.apply_vfs_changes(vfs.take_changes());
    assert_eq!(db.file_text(file_id).text, "class A {}\n");
    assert!(!vfs.has_pending_changes(), "the batch was drained");

    // And an edit flows through the same path.
    vfs.set_file_contents(path, Some(b"class A {}\nclass B {}\n".to_vec()));
    db.apply_vfs_changes(vfs.take_changes());
    assert_eq!(line_count(&db.file_text(file_id).text), 2);
}

#[test]
fn a_deleted_file_becomes_empty_rather_than_missing() {
    // A query may still hold the id. Answering "empty" beats panicking on a
    // file the client just removed.
    let mut db = RootDatabase::new();
    db.set_source_root(FOCUS, RootKind::FocusTarget);

    let mut vfs = Vfs::new();
    let path = path("/repo/Gone.java");
    vfs.set_file_contents(path.clone(), Some(b"class Gone {}\n".to_vec()));
    let file_id = vfs.file_id(&path).expect("just written");
    db.set_file_source_root(file_id, FOCUS);
    db.apply_vfs_changes(vfs.take_changes());

    vfs.set_file_contents(path, None);
    db.apply_vfs_changes(vfs.take_changes());

    assert!(db.has_file(file_id), "the id still resolves");
    assert_eq!(db.file_text(file_id).text, "");
    assert_eq!(line_count(&db.file_text(file_id).text), 0);
}

#[test]
fn invalid_utf8_is_recorded_as_empty_not_guessed() {
    // Lossy decoding would produce text whose byte offsets do not match the
    // file, and every range derived from it would be quietly wrong.
    let mut db = RootDatabase::new();
    db.set_source_root(EXTERNAL, RootKind::External);

    let mut vfs = Vfs::new();
    let path = path("jar:/repo/a.jar!/com/A.class");
    vfs.set_file_contents(path.clone(), Some(vec![0xca, 0xfe, 0xba, 0xbe]));
    let file_id = vfs.file_id(&path).expect("just written");
    db.set_file_source_root(file_id, EXTERNAL);
    let writes = db.apply_vfs_changes(vfs.take_changes());

    assert_eq!(db.file_text(file_id).text, "");
    assert_eq!(writes.len(), 1);
    assert_eq!(writes[0].durability, Durability::High);
}

#[test]
fn a_file_with_no_root_gets_the_most_volatile_tier() {
    // Being wrong towards LOW costs recomputation. Being wrong towards HIGH
    // serves stale answers, which is the failure that matters.
    let mut db = RootDatabase::new();
    assert_eq!(db.set_file_text(file(9), "one\n"), Durability::Low);
    assert_eq!(line_count(&db.file_text(file(9)).text), 1);

    assert_eq!(db.set_file_text(file(9), "one\ntwo\n"), Durability::Low);
    assert_eq!(line_count(&db.file_text(file(9)).text), 2);
}

#[test]
fn moving_a_file_between_roots_changes_its_durability() {
    // What happens when the client opens a file in a dependency: it becomes
    // the focus target, and its text has to stop being high-durability or
    // edits to it would be ignored.
    let mut db = three_tier_db();
    assert_eq!(db.file_source_root(file(2)), Some(EXTERNAL));
    assert_eq!(db.durability_of(file(2)), Durability::High);

    db.set_file_source_root(file(2), FOCUS);
    assert_eq!(db.file_source_root(file(2)), Some(FOCUS));

    assert_eq!(db.set_file_text(file(2), "edited\n"), Durability::Low);
    assert_eq!(line_count(&db.file_text(file(2)).text), 1);
}

#[test]
fn a_root_can_change_tier() {
    let mut db = three_tier_db();
    assert_eq!(db.root_kind(DEP), RootKind::WorkspaceDep);
    db.set_source_root(DEP, RootKind::FocusTarget);
    assert_eq!(db.root_kind(DEP), RootKind::FocusTarget);
}

#[test]
fn an_identical_write_is_no_change() {
    let mut vfs = Vfs::new();
    let path = path("/repo/A.java");
    assert!(vfs.set_file_contents(path.clone(), Some(b"one\n".to_vec())));
    let id = vfs.file_id(&path).unwrap();
    let changes = vfs.take_changes();
    assert_eq!(changes.len(), 1);
    assert!(matches!(changes[0].change, Change::Create(_)));
    let revision = vfs.revision();

    assert!(!vfs.set_file_contents(path.clone(), Some(b"one\n".to_vec())));
    assert!(vfs.take_changes().is_empty(), "nothing for the database to hear of");
    assert_eq!(vfs.revision(), revision);

    assert!(vfs.set_file_contents(path.clone(), None));
    assert!(!vfs.set_file_contents(path.clone(), None), "gone already");
    assert!(matches!(vfs.take_changes()[0].change, Change::Delete));
    assert_eq!(vfs.file_id(&path), Some(id), "the number stays");
    assert_eq!(vfs.path_of(id).to_text(), "/repo/A.java");
    assert_eq!(vfs.len(), 1);
}

#[test]
fn lines_are_counted_as_an_editor_shows_them() {
    assert_eq!(line_count(""), 0);
    assert_eq!(line_count("one"), 1);
    assert_eq!(line_count("one\n"), 1);
    assert_eq!(line_count("one\n\n"), 2);
    assert_eq!(line_count("one\r\ntwo"), 2);
}
