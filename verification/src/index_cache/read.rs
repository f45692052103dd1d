//! Reading a cached generation.
//!
//! The pointer names a generation, its manifest says what its body should be,
//! and the body is read only where that is what is wanted. It is a hit once the
//! whole of it turned out to be what was written; anything else is a miss.
//! Whoever works the stages reads the files, and hands back what was seen.
use vstd::prelude::*;

use crate::index_cache::{
    header_is_current, pointed_generation, CacheKey, KeyView, Manifest, HEADER_LEN, VERSION,
};
use crate::shard_set::{ShardIdentity, ShardMetadata};

verus! {

/// The view of a [`Manifest`].
pub struct ManifestView {
    pub version: u32,
    pub key: KeyView,
    pub shards: Seq<ShardIdentity>,
    pub bytes: u64,
    pub checksum: u64,
}

impl View for Manifest {
    type V = ManifestView;

    open spec fn view(&self) -> ManifestView {
        ManifestView {
            version: self.version,
            key: self.key@,
            shards: crate::shard_set::identities(self.shards@),
            bytes: self.bytes,
            checksum: self.checksum,
        }
    }
}

/// A generation that was read.
#[derive(Debug)]
pub struct CacheHit<I> {
    pub index: I,
    pub shards: Vec<ShardMetadata>,
    /// How long its body is.
    pub bytes: u64,
}

/// The view of a [`CacheHit`].
pub struct HitView<I> {
    pub index: I,
    pub shards: Seq<ShardIdentity>,
    pub bytes: u64,
}

impl<I> View for CacheHit<I> {
    type V = HitView<I>;

    open spec fn view(&self) -> HitView<I> {
        HitView {
            index: self.index,
            shards: crate::shard_set::identities(self.shards@),
            bytes: self.bytes,
        }
    }
}

/// What is read next.
#[derive(Debug)]
pub enum CacheRead<I> {
    /// The pointer, for what belongs to this key.
    Pointer(CacheKey),
    /// The manifest of this generation.
    Manifest(CacheKey, String),
    /// How long the body of this generation is.
    Length(String, Manifest),
    /// What the body begins with.
    Header(Manifest),
    /// The snapshot behind it.
    Snapshot(Manifest),
    /// What is left behind the snapshot.
    Rest(Manifest, I),
    /// Nothing more.
    Done(Option<CacheHit<I>>),
}

/// The view of a [`CacheRead`].
pub enum CacheReadView<I> {
    Pointer(KeyView),
    Manifest(KeyView, Seq<char>),
    Length(Seq<char>, ManifestView),
    Header(ManifestView),
    Snapshot(ManifestView),
    Rest(ManifestView, I),
    Done(Option<HitView<I>>),
}

impl<I> View for CacheRead<I> {
    type V = CacheReadView<I>;

    open spec fn view(&self) -> CacheReadView<I> {
        match *self {
            CacheRead::Pointer(key) => CacheReadView::Pointer(key@),
            CacheRead::Manifest(key, generation) => CacheReadView::Manifest(key@, generation@),
            CacheRead::Length(generation, manifest) => CacheReadView::Length(
                generation@,
                manifest@,
            ),
            CacheRead::Header(manifest) => CacheReadView::Header(manifest@),
            CacheRead::Snapshot(manifest) => CacheReadView::Snapshot(manifest@),
            CacheRead::Rest(manifest, index) => CacheReadView::Rest(manifest@, index),
            CacheRead::Done(Some(hit)) => CacheReadView::Done(Some(hit@)),
            CacheRead::Done(None) => CacheReadView::Done(None),
        }
    }
}

/// What was read.
#[derive(Debug)]
pub enum CacheSeen<I> {
    /// There is no pointer.
    NoPointer,
    /// What the pointer says.
    Pointer(String),
    /// The manifest.
    Manifest(Manifest),
    /// How long the body is.
    Length(u64),
    /// The first bytes of the body.
    Header(Vec<u8>),
    /// The index that the snapshot stands for.
    Snapshot(I),
    /// How many bytes were found behind the snapshot, and the checksum of all
    /// that was read of the body.
    Rest(usize, u64),
}

/// The view of a [`CacheSeen`].
pub enum CacheSeenView<I> {
    NoPointer,
    Pointer(Seq<char>),
    Manifest(ManifestView),
    Length(u64),
    Header(Seq<u8>),
    Snapshot(I),
    Rest(usize, u64),
}

impl<I> View for CacheSeen<I> {
    type V = CacheSeenView<I>;

    open spec fn view(&self) -> CacheSeenView<I> {
        match *self {
            CacheSeen::NoPointer => CacheSeenView::NoPointer,
            CacheSeen::Pointer(contents) => CacheSeenView::Pointer(contents@),
            CacheSeen::Manifest(manifest) => CacheSeenView::Manifest(manifest@),
            CacheSeen::Length(length) => CacheSeenView::Length(length),
            CacheSeen::Header(bytes) => CacheSeenView::Header(bytes@),
            CacheSeen::Snapshot(index) => CacheSeenView::Snapshot(index),
            CacheSeen::Rest(left_over, checksum) => CacheSeenView::Rest(left_over, checksum),
        }
    }
}

/// A stage where it goes on, or a miss.
pub open spec fn or_miss<I>(wanted: bool, stage: CacheReadView<I>) -> CacheReadView<I> {
    if wanted {
        stage
    } else {
        CacheReadView::Done(None)
    }
}

/// The next stage of a read. What was not asked for changes nothing.
pub open spec fn read_next<I>(stage: CacheReadView<I>, seen: CacheSeenView<I>) -> CacheReadView<I> {
    match (stage, seen) {
        (CacheReadView::Pointer(_), CacheSeenView::NoPointer) => CacheReadView::Done(None),
        (CacheReadView::Pointer(key), CacheSeenView::Pointer(contents)) => {
            let generation = crate::text::space_trimmed(contents);
            or_miss(
                crate::index_cache::names_generation(generation),
                CacheReadView::Manifest(key, generation),
            )
        },
        (CacheReadView::Manifest(key, generation), CacheSeenView::Manifest(manifest)) => or_miss(
            manifest.version == VERSION && manifest.key == key,
            CacheReadView::Length(generation, manifest),
        ),
        (CacheReadView::Length(_, manifest), CacheSeenView::Length(length)) => or_miss(
            length == manifest.bytes,
            CacheReadView::Header(manifest),
        ),
        (CacheReadView::Header(manifest), CacheSeenView::Header(bytes)) => or_miss(
            bytes == crate::index_cache::header(),
            CacheReadView::Snapshot(manifest),
        ),
        (CacheReadView::Snapshot(manifest), CacheSeenView::Snapshot(index)) =>
            CacheReadView::Rest(manifest, index),
        (CacheReadView::Rest(manifest, index), CacheSeenView::Rest(left_over, checksum)) => or_miss(
            left_over == 0 && checksum == manifest.checksum,
            CacheReadView::Done(
                Some(HitView { index, shards: manifest.shards, bytes: manifest.bytes }),
            ),
        ),
        _ => stage,
    }
}

/// The stage once all of this was read, in order.
pub open spec fn read_after<I>(
    stage: CacheReadView<I>,
    seen: Seq<CacheSeenView<I>>,
) -> CacheReadView<I>
    decreases seen.len(),
{
    if seen.len() == 0 {
        stage
    } else {
        read_next(read_after(stage, seen.drop_last()), seen.last())
    }
}

impl<I> CacheRead<I> {
    /// Begins to read what belongs to `key`.
    pub fn new(key: CacheKey) -> (stage: CacheRead<I>)
        ensures
            stage@ == CacheReadView::<I>::Pointer(key@),
    {
        CacheRead::Pointer(key)
    }

    /// Goes on, once `seen` was read.
    pub fn step(self, seen: CacheSeen<I>) -> (next: CacheRead<I>)
        ensures
            next@ == read_next(self@, seen@),
    {
        match (self, seen) {
            (CacheRead::Pointer(_), CacheSeen::NoPointer) => CacheRead::Done(None),
            (CacheRead::Pointer(key), CacheSeen::Pointer(contents)) => {
                match pointed_generation(&contents) {
                    Some(generation) => CacheRead::Manifest(key, generation),
                    None => CacheRead::Done(None),
                }
            },
            (CacheRead::Manifest(key, generation), CacheSeen::Manifest(manifest)) => {
                if manifest.version == VERSION && manifest.key.same(&key) {
                    CacheRead::Length(generation, manifest)
                } else {
                    CacheRead::Done(None)
                }
            },
            (CacheRead::Length(_, manifest), CacheSeen::Length(length)) => {
                if length == manifest.bytes {
                    CacheRead::Header(manifest)
                } else {
                    CacheRead::Done(None)
                }
            },
            (CacheRead::Header(manifest), CacheSeen::Header(bytes)) => {
                if header_is_current(bytes.as_slice()) {
                    CacheRead::Snapshot(manifest)
                } else {
                    CacheRead::Done(None)
                }
            },
            (CacheRead::Snapshot(manifest), CacheSeen::Snapshot(index)) => {
                CacheRead::Rest(manifest, index)
            },
            (CacheRead::Rest(manifest, index), CacheSeen::Rest(left_over, checksum)) => {
                if left_over == 0 && checksum == manifest.checksum {
                    CacheRead::Done(
                        Some(CacheHit { index, shards: manifest.shards, bytes: manifest.bytes }),
                    )
                } else {
                    CacheRead::Done(None)
                }
            },
            (stage, _) => stage,
        }
    }
}

/// Whether a manifest and the bytes beside it are accepted for a key, where
/// `snapshot_len` bytes behind the header make up the snapshot.
pub open spec fn accepted(
    manifest: ManifestView,
    key: KeyView,
    bytes: Seq<u8>,
    snapshot_len: nat,
) -> bool {
    &&& manifest.version == VERSION
    &&& manifest.key == key
    &&& bytes.len() == manifest.bytes
    &&& crate::index_cache::header().is_prefix_of(bytes)
    &&& bytes.len() == HEADER_LEN + snapshot_len
    &&& crate::index_cache::checksum(bytes) == manifest.checksum
}

/// What is seen of a generation whose body is `bytes`, where `snapshot_len` of
/// them behind the header make up the snapshot of `index`.
pub open spec fn sight<I>(
    pointer: Seq<char>,
    manifest: ManifestView,
    bytes: Seq<u8>,
    snapshot_len: nat,
    index: I,
) -> Seq<CacheSeenView<I>> {
    seq![
        CacheSeenView::Pointer(pointer),
        CacheSeenView::Manifest(manifest),
        CacheSeenView::Length(bytes.len() as u64),
        CacheSeenView::Header(bytes.take(HEADER_LEN as int)),
        CacheSeenView::Snapshot(index),
        CacheSeenView::Rest(
            (bytes.len() - HEADER_LEN - snapshot_len) as usize,
            crate::index_cache::checksum(bytes),
        ),
    ]
}

/// A generation that is pointed to is a hit if and only if it is accepted, and a
/// miss otherwise.
pub proof fn exactly_what_is_accepted_is_a_hit<I>(
    pointer: Seq<char>,
    key: KeyView,
    manifest: ManifestView,
    bytes: Seq<u8>,
    snapshot_len: nat,
    index: I,
)
    requires
        crate::index_cache::names_generation(crate::text::space_trimmed(pointer)),
        HEADER_LEN + snapshot_len <= bytes.len() <= usize::MAX,
        bytes.len() <= u64::MAX,
    ensures
        read_after(
            CacheReadView::<I>::Pointer(key),
            sight(pointer, manifest, bytes, snapshot_len, index),
        ) == CacheReadView::Done(
            if accepted(manifest, key, bytes, snapshot_len) {
                Some(HitView { index, shards: manifest.shards, bytes: manifest.bytes })
            } else {
                None
            },
        ),
{
    let seen = sight(pointer, manifest, bytes, snapshot_len, index);
    let start = CacheReadView::<I>::Pointer(key);
    let header = crate::index_cache::header();
    reveal_with_fuel(read_after, 7);
    assert(seen.drop_last().drop_last().drop_last().drop_last().drop_last().drop_last()
        =~= Seq::empty());
    assert(header.is_prefix_of(bytes) == (bytes.take(HEADER_LEN as int) == header)) by {
        assert(header.len() == HEADER_LEN);
        if bytes.take(HEADER_LEN as int) == header {
            assert forall|i: int| 0 <= i < header.len() implies header[i] == bytes[i] by {
                assert(bytes.take(HEADER_LEN as int)[i] == bytes[i]);
            }
        } else if header.is_prefix_of(bytes) {
            assert(bytes.take(HEADER_LEN as int) =~= header);
        }
    }
}

/// What was stored under a key is accepted for it, and for no other.
pub proof fn stored_generations_read_back(
    key: KeyView,
    shards: Seq<ShardIdentity>,
    other: KeyView,
    snapshot: Seq<u8>,
)
    requires
        crate::index_cache::body(snapshot).len() <= u64::MAX,
    ensures
        accepted(
            stored_manifest(key, shards, crate::index_cache::body(snapshot)),
            other,
            crate::index_cache::body(snapshot),
            snapshot.len(),
        ) == (key == other),
{
    let bytes = crate::index_cache::body(snapshot);
    assert(bytes.take(HEADER_LEN as int) =~= crate::index_cache::header());
}

/// The manifest of a body.
pub open spec fn stored_manifest(
    key: KeyView,
    shards: Seq<ShardIdentity>,
    bytes: Seq<u8>,
) -> ManifestView {
    ManifestView {
        version: VERSION,
        key,
        shards,
        bytes: bytes.len() as u64,
        checksum: crate::index_cache::checksum(bytes),
    }
}

/// Data behind the snapshot is rejected, whatever the manifest says of it.
pub proof fn trailing_data_is_rejected(
    manifest: ManifestView,
    key: KeyView,
    snapshot: Seq<u8>,
    trailing: Seq<u8>,
)
    requires
        trailing.len() > 0,
    ensures
        !accepted(
            manifest,
            key,
            crate::index_cache::body(snapshot) + trailing,
            snapshot.len(),
        ),
{
}

} // verus!
