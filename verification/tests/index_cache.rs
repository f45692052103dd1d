//! Snapshots of a built index.
use jabar::config::Config;
use jabar::index_cache::read::{CacheRead, CacheSeen};
use jabar::index_cache::{
    cleanup, generation_name, header_is_current, pointed_generation, update_checksum,
    write_header, CacheKey, Digest, Manifest, StoreCheck, StoreError, StoreStage, WritePace,
    CHECK_BYTES, FNV_OFFSET, VERSION,
};

fn key() -> CacheKey {
    CacheKey::new(
        "/repo".to_owned(),
        "/repo/bazel-bin".to_owned(),
        Some("abc".to_owned()),
        &Config::default(),
    )
}

fn digest(bytes: &[u8]) -> Digest {
    let mut digest = Digest::new();
    digest.update(bytes);
    digest
}

/// What is seen of a generation with this manifest, whose body is a header and
/// `snapshot`, of which `left_over` bytes are behind the snapshot.
fn read(
    manifest: Manifest,
    wanted: CacheKey,
    snapshot: &[u8],
    left_over: usize,
) -> CacheRead<&'static str> {
    let header = write_header();
    let mut digest = digest(&header);
    digest.update(snapshot);
    let stage = CacheRead::new(wanted).step(CacheSeen::Pointer(" g-1-2-3\n".to_owned()));
    assert!(matches!(&stage, CacheRead::Manifest(_, name) if name == "g-1-2-3"));
    stage
        .step(CacheSeen::Manifest(manifest))
        .step(CacheSeen::Length((header.len() + snapshot.len()) as u64))
        .step(CacheSeen::Header(header))
        .step(CacheSeen::Snapshot("index"))
        .step(CacheSeen::Rest(left_over, digest.checksum()))
}

/// The manifest of a body of a header and `snapshot`.
fn manifest(snapshot: &[u8]) -> Manifest {
    let body = [write_header().as_slice(), snapshot].concat();
    Manifest::new(key(), Vec::new(), body.len() as u64, digest(&body).checksum())
}

#[test]
fn a_snapshot_belongs_to_its_key() {
    let CacheRead::Done(Some(hit)) = read(manifest(b"Foo"), key(), b"Foo", 0) else {
        panic!("what was stored is a hit");
    };
    assert_eq!((hit.index, hit.bytes), ("index", 15));

    let mut config = Config::default();
    config.index.targets = vec!["//other/...".to_owned()];
    let changed = CacheKey::new(
        "/repo".to_owned(),
        "/repo/bazel-bin".to_owned(),
        Some("abc".to_owned()),
        &config,
    );
    assert!(matches!(read(manifest(b"Foo"), changed, b"Foo", 0), CacheRead::Done(None)));

    let mut old = manifest(b"Foo");
    old.version = VERSION - 1;
    assert!(
        matches!(read(old, key(), b"Foo", 0), CacheRead::Done(None)),
        "an old format is not read"
    );
}

#[test]
fn a_changed_or_longer_body_is_a_miss() {
    for (body, left_over, why) in [
        (b"Goo".as_slice(), 0, "one changed byte is noticed"),
        (b"Foo!".as_slice(), 0, "it is as long as it should be"),
        (b"Foo".as_slice(), 1, "nothing may be left over"),
    ] {
        let stage = read(manifest(b"Foo"), key(), body, left_over);
        assert!(matches!(stage, CacheRead::Done(None)), "{why}");
    }
}

#[test]
fn a_body_is_read_only_behind_a_pointer_and_a_header() {
    let start = || -> CacheRead<()> { CacheRead::new(key()) };
    assert!(matches!(start().step(CacheSeen::NoPointer), CacheRead::Done(None)));
    let astray = CacheSeen::Pointer("../../etc".to_owned());
    assert!(matches!(start().step(astray), CacheRead::Done(None)));
    assert!(matches!(start().step(CacheSeen::Snapshot(())), CacheRead::Pointer(_)));
    let stage = start()
        .step(CacheSeen::Pointer("g-1".to_owned()))
        .step(CacheSeen::Manifest(manifest(b"")))
        .step(CacheSeen::Length(12));
    assert!(matches!(stage, CacheRead::Header(_)));
    let other = CacheSeen::Header(b"JABARIDX\x01\0\0\0".to_vec());
    assert!(matches!(stage.step(other), CacheRead::Done(None)));
}

#[test]
fn the_checksum_is_fnv_1a() {
    let mut checksum = FNV_OFFSET;
    update_checksum(&mut checksum, b"");
    assert_eq!(checksum, 0xcbf2_9ce4_8422_2325);
    update_checksum(&mut checksum, b"a");
    assert_eq!(checksum, 0xaf63_dc4c_8601_ec8c);
    let mut pieces = Digest::new();
    pieces.update(b"foo");
    pieces.update(b"bar");
    assert_eq!(pieces.checksum(), 0x8594_4171_f739_67e8);
}

#[test]
fn a_body_begins_with_its_format() {
    let header = write_header();
    assert_eq!(&header[..8], b"JABARIDX");
    assert_eq!(u32::from_le_bytes(header[8..].try_into().unwrap()), VERSION);
    assert!(header_is_current(&header));
    assert!(!header_is_current(&header[..11]));
    assert!(!header_is_current(b"JABARIDX\x01\0\0\0"));
}

#[test]
fn only_a_generation_is_pointed_to() {
    assert_eq!(pointed_generation(" g-1-2-3\n").as_deref(), Some("g-1-2-3"));
    assert_eq!(pointed_generation("../../etc"), None);
    assert_eq!(pointed_generation("g-1/../../x"), None);
    assert_eq!(pointed_generation(""), None);
    let name = generation_name(1700000000123456789, 42, 7);
    assert_eq!(name, "g-1700000000123456789-42-7");
    assert_eq!(pointed_generation(&name).as_deref(), Some(name.as_str()));
}

#[test]
fn old_generations_are_pruned() {
    let names: Vec<String> =
        ["g-1", "g-2", "g-3", "g-4-tmp", "lock"].iter().map(|n| n.to_string()).collect();
    assert_eq!(cleanup(&names, "g-3"), ["g-1"]);
    assert_eq!(cleanup(&names, "g-1"), ["g-2"]);
    assert!(cleanup(&vec!["g-1".to_owned()], "g-1").is_empty());
}

#[test]
fn a_key_follows_the_workspace() {
    let text = |s: &str| Some(s.to_owned());
    let key = key();
    let (workspace, output) = (text("/repo"), text("/repo/bazel-bin"));
    assert!(key.still_current(&text("abc"), &workspace, &output));
    assert!(!key.still_current(&text("def"), &workspace, &output));
    assert!(!key.still_current(&None, &workspace, &output));
    assert!(!key.still_current(&text("abc"), &workspace, &None));
    assert!(!key.still_current(&text("abc"), &text("/other"), &output));
    let parts = key.copy().into_parts();
    assert_eq!(parts.0, "/repo");
    assert_eq!(parts.5, Config::default().index.targets);
}

#[test]
fn a_superseded_writer_stops() {
    let fine = StoreCheck { wanted: true, shards_same: true, key_current: true };
    let mut stage = StoreStage::Begun;
    for _ in 0..5 {
        stage = stage.advance(fine).unwrap();
    }
    assert_eq!(stage, StoreStage::Published);

    let superseded = StoreCheck { wanted: false, ..fine };
    let moved = StoreCheck { key_current: false, ..fine };
    let rebuilt = StoreCheck { shards_same: false, ..fine };
    for (stage, seen, error) in [
        (StoreStage::Begun, superseded, StoreError::SupersededBefore),
        (StoreStage::Serializing, superseded, StoreError::SupersededWhile),
        (StoreStage::Serialized, rebuilt, StoreError::Changed),
        (StoreStage::Serialized, moved, StoreError::Changed),
        (StoreStage::Stamped, moved, StoreError::SupersededPublishing),
        (StoreStage::Placed, superseded, StoreError::SupersededPublishing),
    ] {
        assert_eq!(stage.advance(seen), Err(error));
        assert!(!error.describe().is_empty());
    }
}

#[test]
fn a_writer_looks_up_once_in_a_while() {
    let mut pace = WritePace::new();
    assert!(pace.is_due(), "before the first byte");
    pace.looked();
    assert!(!pace.is_due());
    assert_eq!(pace.chunk(10), 10);
    assert_eq!(pace.chunk(CHECK_BYTES + 1), CHECK_BYTES);
    pace.wrote(CHECK_BYTES);
    assert!(pace.is_due());
}
