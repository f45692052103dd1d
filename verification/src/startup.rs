//! Finding an index when a session starts, and loading one on request.
//!
//! The conventional home of shards is `bazel-bin`, the convenience symlink Bazel
//! writes at the workspace root. A validated snapshot of an already-built index
//! is tried first. On a miss, reading every shard is the only honest way to know
//! the directory is usable. What lies in `.jabar/index` is tried last. An index
//! that the client asks for is loaded from where it says.
use vstd::prelude::*;

use crate::config::Config;
use crate::index_cache::{CacheKey, KeyView};
use crate::paths::join_of;
use crate::protocol::{ErrorCode, RequestError};
use crate::session::steps::Discovered;
use crate::session::{CacheState, FoundView};
use crate::shard_set::{ShardIdentity, ShardMetadata};

pub mod load;

verus! {

/// Somewhere an index may lie.
#[derive(Debug)]
pub struct Place {
    /// The workspace.
    pub root: String,
    /// The directory with the shards.
    pub dir: String,
    /// What the workspace and the directory are now, where that is known.
    pub key: Option<CacheKey>,
    /// Whether it is the directory of the workspace itself, the last there is.
    pub own: bool,
}

/// The view of a [`Place`].
pub struct PlaceView {
    pub root: Seq<char>,
    pub dir: Seq<char>,
    pub key: Option<KeyView>,
    pub own: bool,
}

impl View for Place {
    type V = PlaceView;

    open spec fn view(&self) -> PlaceView {
        PlaceView {
            root: self.root@,
            dir: self.dir@,
            key: crate::session::key_of(self.key),
            own: self.own,
        }
    }
}

/// An index that was read from the cache or from shards.
#[derive(Debug)]
pub struct ReadIndex<I> {
    pub index: I,
    pub shards: Vec<ShardMetadata>,
    /// Whether it holds no definition.
    pub empty: bool,
}

/// The view of a [`ReadIndex`].
pub struct ReadView<I> {
    pub index: I,
    pub shards: Seq<ShardIdentity>,
    pub empty: bool,
}

impl<I> View for ReadIndex<I> {
    type V = ReadView<I>;

    open spec fn view(&self) -> ReadView<I> {
        ReadView {
            index: self.index,
            shards: crate::shard_set::identities(self.shards@),
            empty: self.empty,
        }
    }
}

/// The view of what a search found.
pub open spec fn found_view<I>(found: Option<Discovered<I>>) -> Option<FoundView<I>> {
    match found {
        Some(found) => Some(found@),
        None => None,
    }
}

/// The view of what was read, if anything.
pub open spec fn read_view<I>(read: Option<ReadIndex<I>>) -> Option<ReadView<I>> {
    match read {
        Some(read) => Some(read@),
        None => None,
    }
}

/// What is looked at next for an index.
#[derive(Debug)]
pub enum Discovery<I> {
    /// Where Bazel puts its outputs, for this workspace.
    OutputTree(String),
    /// What the workspace and the directory are now.
    Key(Place),
    /// The snapshot that belongs to them.
    Cache(Place),
    /// Whether the workspace has not moved, before the shards are read.
    Before(Place),
    /// The shards.
    Load(Place),
    /// Whether the workspace has not moved while they were read.
    After(Place, ReadIndex<I>),
    /// Whether this workspace has a directory of its own for shards.
    OwnDirectory(String),
    /// Nothing more.
    Done(Option<Discovered<I>>),
}

/// The view of a [`Discovery`].
pub enum DiscoveryView<I> {
    OutputTree(Seq<char>),
    Key(PlaceView),
    Cache(PlaceView),
    Before(PlaceView),
    Load(PlaceView),
    After(PlaceView, ReadView<I>),
    OwnDirectory(Seq<char>),
    Done(Option<FoundView<I>>),
}

impl<I> View for Discovery<I> {
    type V = DiscoveryView<I>;

    open spec fn view(&self) -> DiscoveryView<I> {
        match *self {
            Discovery::OutputTree(root) => DiscoveryView::OutputTree(root@),
            Discovery::Key(place) => DiscoveryView::Key(place@),
            Discovery::Cache(place) => DiscoveryView::Cache(place@),
            Discovery::Before(place) => DiscoveryView::Before(place@),
            Discovery::Load(place) => DiscoveryView::Load(place@),
            Discovery::After(place, read) => DiscoveryView::After(place@, read@),
            Discovery::OwnDirectory(root) => DiscoveryView::OwnDirectory(root@),
            Discovery::Done(found) => DiscoveryView::Done(found_view(found)),
        }
    }
}

/// What a look gave.
pub enum Answer<I> {
    /// The directory with Bazel's outputs, where there is one.
    Tree(Option<Seq<char>>),
    /// What the workspace and the directory are now, where that can be known.
    Key(Option<KeyView>),
    /// The snapshot, where there is one that can be read.
    Snapshot(Option<ReadView<I>>),
    /// Whether the workspace has not moved.
    Freshness(bool),
    /// An index of all the shards, where all of them could be read.
    Shards(Option<ReadView<I>>),
    /// Whether there is such a directory.
    Directory(bool),
}

/// Where shards lie that were put into the workspace.
pub open spec fn own_directory(root: Seq<char>) -> Seq<char> {
    crate::paths::joined_path(root, ".jabar/index"@)
}

/// Where the search goes on once a place had nothing.
pub open spec fn elsewhere<I>(place: PlaceView) -> DiscoveryView<I> {
    if place.own {
        DiscoveryView::Done(None)
    } else {
        DiscoveryView::OwnDirectory(place.root)
    }
}

/// The stage that reads the shards of a place, or the question before it where
/// the workspace could have moved.
pub open spec fn reading<I>(place: PlaceView) -> DiscoveryView<I> {
    if place.key is Some {
        DiscoveryView::Before(place)
    } else {
        DiscoveryView::Load(place)
    }
}

/// An index of the shards of a place. Only one of Bazel's outputs is cached, and
/// only where it is known what it belongs to.
pub open spec fn found_shards<I>(place: PlaceView, read: ReadView<I>) -> FoundView<I> {
    FoundView {
        dir: place.dir,
        index: read.index,
        shards: read.shards,
        provenance: place.key,
        cache: match place.key {
            Some(key) if !place.own => Some(
                crate::session::CacheStateView { root: place.root, dir: place.dir, key },
            ),
            _ => None,
        },
        cache_hit: false,
        verified: true,
    }
}

/// A snapshot. It is not compared with the shards yet.
pub open spec fn found_snapshot<I>(place: PlaceView, key: KeyView, read: ReadView<I>) -> FoundView<
    I,
> {
    FoundView {
        dir: place.dir,
        index: read.index,
        shards: read.shards,
        provenance: Some(key),
        cache: Some(crate::session::CacheStateView { root: place.root, dir: place.dir, key }),
        cache_hit: true,
        verified: false,
    }
}

/// Shards without any definition are no index.
pub open spec fn taken<I>(place: PlaceView, read: ReadView<I>) -> DiscoveryView<I> {
    if read.empty {
        elsewhere(place)
    } else {
        DiscoveryView::Done(Some(found_shards(place, read)))
    }
}

/// The next stage of a search. What was not asked for changes nothing.
pub open spec fn looked<I>(stage: DiscoveryView<I>, answer: Answer<I>) -> DiscoveryView<I> {
    match (stage, answer) {
        (DiscoveryView::OutputTree(root), Answer::Tree(dir)) => match dir {
            Some(dir) => DiscoveryView::Key(PlaceView { root, dir, key: None, own: false }),
            None => DiscoveryView::OwnDirectory(root),
        },
        (DiscoveryView::Key(place), Answer::Key(key)) => {
            let known = PlaceView { key, ..place };
            if key is Some && !place.own {
                DiscoveryView::Cache(known)
            } else {
                reading(known)
            }
        },
        (DiscoveryView::Cache(place), Answer::Snapshot(hit)) => match (place.key, hit) {
            (Some(key), Some(read)) if !read.empty => DiscoveryView::Done(
                Some(found_snapshot(place, key, read)),
            ),
            _ => reading(place),
        },
        (DiscoveryView::Before(place), Answer::Freshness(current)) => if current {
            DiscoveryView::Load(place)
        } else {
            elsewhere(place)
        },
        (DiscoveryView::Load(place), Answer::Shards(read)) => match read {
            Some(read) => if place.key is Some {
                DiscoveryView::After(place, read)
            } else {
                taken(place, read)
            },
            None => elsewhere(place),
        },
        (DiscoveryView::After(place, read), Answer::Freshness(current)) => if current {
            taken(place, read)
        } else {
            elsewhere(place)
        },
        (DiscoveryView::OwnDirectory(root), Answer::Directory(exists)) => if exists {
            DiscoveryView::Key(
                PlaceView { root, dir: own_directory(root), key: None, own: true },
            )
        } else {
            DiscoveryView::Done(None)
        },
        _ => stage,
    }
}

/// Whether an answer is one to what a stage asks for.
pub open spec fn answers<I>(stage: DiscoveryView<I>, answer: Answer<I>) -> bool {
    match stage {
        DiscoveryView::OutputTree(_) => answer is Tree,
        DiscoveryView::Key(_) => answer is Key,
        DiscoveryView::Cache(_) => answer is Snapshot,
        DiscoveryView::Before(_) => answer is Freshness,
        DiscoveryView::Load(_) => answer is Shards,
        DiscoveryView::After(_, _) => answer is Freshness,
        DiscoveryView::OwnDirectory(_) => answer is Directory,
        DiscoveryView::Done(_) => false,
    }
}

/// How many looks a stage is at most away from the end.
pub open spec fn looks_left<I>(stage: DiscoveryView<I>) -> nat {
    let after = |place: PlaceView| if place.own {
        0nat
    } else {
        6nat
    };
    match stage {
        DiscoveryView::OutputTree(_) => 12,
        DiscoveryView::Key(place) => 5 + after(place),
        DiscoveryView::Cache(place) => 4 + after(place),
        DiscoveryView::Before(place) => 3 + after(place),
        DiscoveryView::Load(place) => 2 + after(place),
        DiscoveryView::After(place, _) => 1 + after(place),
        DiscoveryView::OwnDirectory(_) => 6,
        DiscoveryView::Done(_) => 0,
    }
}

/// The search ends: every answer to what a stage asks for brings it nearer to
/// its end.
pub proof fn discovery_ends<I>(stage: DiscoveryView<I>, answer: Answer<I>)
    requires
        answers(stage, answer),
    ensures
        looks_left(looked(stage, answer)) < looks_left(stage),
{
}

/// What is found can be served: it holds a definition, and is either a snapshot
/// that still has to be compared with the shards or was read from the shards.
/// Where it is known what the shards belong to, the workspace was seen not to
/// have moved since.
pub proof fn only_current_indexes_are_found<I>(stage: DiscoveryView<I>, answer: Answer<I>)
    requires
        !(stage is Done),
        looked(stage, answer) is Done,
    ensures
        match looked(stage, answer) {
            DiscoveryView::Done(Some(found)) => {
                &&& found.verified == !found.cache_hit
                &&& found.cache_hit ==> stage is Cache && found.cache is Some
                &&& found.cache is Some ==> found.provenance is Some && found.cache->0.key
                    == found.provenance->0 && found.cache->0.dir == found.dir
                &&& !found.cache_hit && found.provenance is Some ==> stage is After && answer
                    == Answer::<I>::Freshness(true)
                &&& match (stage, answer) {
                    (DiscoveryView::Cache(_), Answer::Snapshot(Some(read))) => !read.empty
                        && found.index == read.index && found.shards == read.shards,
                    (DiscoveryView::Load(_), Answer::Shards(Some(read))) => !read.empty
                        && found.index == read.index && found.shards == read.shards,
                    (DiscoveryView::After(_, read), _) => !read.empty && found.index == read.index
                        && found.shards == read.shards,
                    _ => false,
                }
            },
            _ => true,
        },
{
}

impl<I> Discovery<I> {
    /// Where a search begins.
    pub fn new(root: &str) -> (stage: Discovery<I>)
        ensures
            stage@ == DiscoveryView::<I>::OutputTree(root@),
    {
        Discovery::OutputTree(root.to_owned())
    }

    /// Computes [`elsewhere`].
    fn go_on(place: Place) -> (stage: Discovery<I>)
        ensures
            stage@ == elsewhere::<I>(place@),
    {
        if place.own {
            Discovery::Done(None)
        } else {
            Discovery::OwnDirectory(place.root)
        }
    }

    /// Computes [`reading`].
    fn read_shards(place: Place) -> (stage: Discovery<I>)
        ensures
            stage@ == reading::<I>(place@),
    {
        if place.key.is_some() {
            Discovery::Before(place)
        } else {
            Discovery::Load(place)
        }
    }

    /// Computes [`taken`].
    fn take(place: Place, read: ReadIndex<I>) -> (stage: Discovery<I>)
        ensures
            stage@ == taken(place@, read@),
    {
        if read.empty {
            return Discovery::go_on(place);
        }
        let cache = match &place.key {
            Some(key) => if place.own {
                None
            } else {
                Some(
                    CacheState {
                        root: place.root.clone(),
                        dir: place.dir.clone(),
                        key: key.copy(),
                    },
                )
            },
            None => None,
        };
        Discovery::Done(
            Some(
                Discovered {
                    dir: place.dir,
                    index: read.index,
                    shards: read.shards,
                    provenance: place.key,
                    cache,
                    cache_hit: false,
                    verified: true,
                },
            ),
        )
    }

    /// It is known where Bazel puts its outputs, or that there is no such
    /// directory.
    pub fn on_tree(self, dir: Option<String>) -> (stage: Discovery<I>)
        ensures
            stage@ == looked(
                self@,
                Answer::Tree(
                    match dir {
                        Some(dir) => Some(dir@),
                        None => None,
                    },
                ),
            ),
    {
        match self {
            Discovery::OutputTree(root) => match dir {
                Some(dir) => Discovery::Key(Place { root, dir, key: None, own: false }),
                None => Discovery::OwnDirectory(root),
            },
            _ => self,
        }
    }

    /// It is known what the workspace and the directory are now, or that this
    /// cannot be found out.
    pub fn on_key(self, key: Option<CacheKey>) -> (stage: Discovery<I>)
        ensures
            stage@ == looked(self@, Answer::Key(crate::session::key_of(key))),
    {
        match self {
            Discovery::Key(place) => {
                let cached = key.is_some() && !place.own;
                let known = Place { root: place.root, dir: place.dir, key, own: place.own };
                if cached {
                    Discovery::Cache(known)
                } else {
                    Discovery::read_shards(known)
                }
            },
            _ => self,
        }
    }

    /// The cache was read: there was a snapshot, or none that can be used.
    pub fn on_cache(self, hit: Option<ReadIndex<I>>) -> (stage: Discovery<I>)
        ensures
            stage@ == looked(self@, Answer::Snapshot(read_view(hit))),
    {
        match self {
            Discovery::Cache(place) => match (&place.key, hit) {
                (Some(key), Some(read)) => {
                    if read.empty {
                        return Discovery::read_shards(place);
                    }
                    let cache = CacheState {
                        root: place.root.clone(),
                        dir: place.dir.clone(),
                        key: key.copy(),
                    };
                    Discovery::Done(
                        Some(
                            Discovered {
                                dir: place.dir.clone(),
                                index: read.index,
                                shards: read.shards,
                                provenance: Some(key.copy()),
                                cache: Some(cache),
                                cache_hit: true,
                                verified: false,
                            },
                        ),
                    )
                },
                _ => Discovery::read_shards(place),
            },
            _ => self,
        }
    }

    /// It is known whether the workspace has not moved.
    pub fn on_freshness(self, current: bool) -> (stage: Discovery<I>)
        ensures
            stage@ == looked(self@, Answer::Freshness(current)),
    {
        match self {
            Discovery::Before(place) => if current {
                Discovery::Load(place)
            } else {
                Discovery::go_on(place)
            },
            Discovery::After(place, read) => if current {
                Discovery::take(place, read)
            } else {
                Discovery::go_on(place)
            },
            _ => self,
        }
    }

    /// All shards were read, or not all could be.
    pub fn on_load(self, read: Option<ReadIndex<I>>) -> (stage: Discovery<I>)
        ensures
            stage@ == looked(self@, Answer::Shards(read_view(read))),
    {
        match self {
            Discovery::Load(place) => match read {
                Some(read) => if place.key.is_some() {
                    Discovery::After(place, read)
                } else {
                    Discovery::take(place, read)
                },
                None => Discovery::go_on(place),
            },
            _ => self,
        }
    }

    /// It is known whether the workspace has a directory of its own for shards.
    pub fn on_directory(self, exists: bool) -> (stage: Discovery<I>)
        ensures
            stage@ == looked(self@, Answer::Directory(exists)),
    {
        match self {
            Discovery::OwnDirectory(root) => if exists {
                let dir = join_of(root.as_str(), ".jabar/index");
                Discovery::Key(Place { root, dir, key: None, own: true })
            } else {
                Discovery::Done(None)
            },
            _ => self,
        }
    }
}

/// Whether Bazel has to be asked for its output tree.
///
/// With an explicit output base, the workspace convenience symlink is shared
/// mutable state: any other Bazel invocation can repoint it. Querying the exact
/// configured invocation avoids loading another server's outputs.
pub fn asks_bazel(config: &Config) -> (asks: bool)
    ensures
        asks == (config@.output_base is Some),
{
    config.output_base.is_some()
}

/// Whether an index is built at startup: only when the client asked for it and
/// there is nothing to serve otherwise. Building takes minutes and blocks the
/// handshake.
pub fn builds_index(found: bool, config: &Config, rooted: bool) -> (builds: bool)
    ensures
        builds == (!found && config@.auto && rooted),
{
    !found && config.index.auto && rooted
}

/// Why an index cannot be built.
pub open spec fn missing_tool(scip_java: bool, java_home: bool) -> Option<Seq<char>> {
    if !scip_java {
        Some("`scip-java` is not on PATH; set `index.scipJava`"@)
    } else if !java_home {
        Some("JAVA_HOME is not set, and scip-java requires it"@)
    } else {
        None
    }
}

/// Says what is missing to build an index, if anything: missing pieces are
/// reported rather than guessed, because a wrong `JAVA_HOME` produces a
/// confusing compiler error rather than an obvious one.
pub fn missing_for_build(scip_java: bool, java_home: bool) -> (missing: Option<&'static str>)
    ensures
        (match missing {
            Some(text) => Some(text@),
            None => None,
        }) == missing_tool(scip_java, java_home),
{
    if !scip_java {
        Some("`scip-java` is not on PATH; set `index.scipJava`")
    } else if !java_home {
        Some("JAVA_HOME is not set, and scip-java requires it")
    } else {
        None
    }
}

/// Why a requested index could not be loaded.
#[derive(Debug)]
pub enum LoadFault {
    /// The request does not say where it is.
    Params { reason: String },
    /// There is nothing there.
    Unresolved { path: String, reason: String },
    /// It is somewhere that has no absolute UTF-8 path.
    NotAbsolute { path: String },
    /// It is not complete.
    Incomplete { path: String, reason: String },
    /// The workspace moved before it was loaded.
    MovedBefore { path: String },
    /// The workspace moved while it was loaded.
    MovedDuring { path: String },
}

/// The view of a [`LoadFault`].
pub enum FaultView {
    Params { reason: Seq<char> },
    Unresolved { path: Seq<char>, reason: Seq<char> },
    NotAbsolute { path: Seq<char> },
    Incomplete { path: Seq<char>, reason: Seq<char> },
    MovedBefore { path: Seq<char> },
    MovedDuring { path: Seq<char> },
}

impl View for LoadFault {
    type V = FaultView;

    open spec fn view(&self) -> FaultView {
        match *self {
            LoadFault::Params { reason } => FaultView::Params { reason: reason@ },
            LoadFault::Unresolved { path, reason } => FaultView::Unresolved {
                path: path@,
                reason: reason@,
            },
            LoadFault::NotAbsolute { path } => FaultView::NotAbsolute { path: path@ },
            LoadFault::Incomplete { path, reason } => FaultView::Incomplete {
                path: path@,
                reason: reason@,
            },
            LoadFault::MovedBefore { path } => FaultView::MovedBefore { path: path@ },
            LoadFault::MovedDuring { path } => FaultView::MovedDuring { path: path@ },
        }
    }
}

/// What is said of an index that could not be loaded as a whole.
pub open spec fn incomplete_text(path: Seq<char>, reason: Seq<char>) -> Seq<char> {
    "could not load a complete index from `"@ + path + "`: "@ + reason
}

/// What a fault says.
pub open spec fn fault_text(fault: FaultView) -> Seq<char> {
    match fault {
        FaultView::Params { reason } => "expected {path}: "@ + reason,
        FaultView::Unresolved { path, reason } => "could not resolve index directory `"@ + path
            + "`: "@ + reason,
        FaultView::NotAbsolute { path } => "index directory is not an absolute UTF-8 path: `"@
            + path + "`"@,
        FaultView::Incomplete { path, reason } => incomplete_text(path, reason),
        FaultView::MovedBefore { path } => incomplete_text(
            path,
            "workspace moved before index reload"@,
        ),
        FaultView::MovedDuring { path } => incomplete_text(
            path,
            "workspace moved during index reload"@,
        ),
    }
}

/// Appends [`incomplete_text`].
fn append_incomplete(text: &mut String, path: &str, reason: &str)
    ensures
        final(text)@ == old(text)@ + incomplete_text(path@, reason@),
{
    text.append("could not load a complete index from `");
    text.append(path);
    text.append("`: ");
    text.append(reason);
    assert(text@ =~= old(text)@ + incomplete_text(path@, reason@));
}

impl LoadFault {
    /// The error that the client is sent.
    pub fn to_error(&self) -> (error: RequestError)
        ensures
            error.code == ErrorCode::InvalidParams,
            error.message@ == fault_text(self@),
    {
        let mut text = String::new();
        match self {
            LoadFault::Params { reason } => {
                text.append("expected {path}: ");
                text.append(reason.as_str());
            },
            LoadFault::Unresolved { path, reason } => {
                text.append("could not resolve index directory `");
                text.append(path.as_str());
                text.append("`: ");
                text.append(reason.as_str());
            },
            LoadFault::NotAbsolute { path } => {
                text.append("index directory is not an absolute UTF-8 path: `");
                text.append(path.as_str());
                text.append("`");
            },
            LoadFault::Incomplete { path, reason } => {
                append_incomplete(&mut text, path.as_str(), reason.as_str());
            },
            LoadFault::MovedBefore { path } => {
                append_incomplete(
                    &mut text,
                    path.as_str(),
                    "workspace moved before index reload",
                );
            },
            LoadFault::MovedDuring { path } => {
                append_incomplete(
                    &mut text,
                    path.as_str(),
                    "workspace moved during index reload",
                );
            },
        }
        assert(text@ =~= fault_text(self@));
        RequestError::new(ErrorCode::InvalidParams, text)
    }
}

/// The search looks at Bazel's outputs first. It takes a snapshot of them where
/// one can be read, and otherwise the shards, where the workspace does not move
/// meanwhile. Where that gives nothing, it looks into the workspace's own
/// directory, which is never cached, and where that gives nothing, nothing is
/// found.
pub proof fn outputs_are_searched_before_the_own_directory<I>(
    root: Seq<char>,
    dir: Seq<char>,
    key: KeyView,
    read: ReadView<I>,
)
    requires
        !read.empty,
    ensures
        ({
            let tree = looked(DiscoveryView::<I>::OutputTree(root), Answer::Tree(Some(dir)));
            let keyed = looked(tree, Answer::Key(Some(key)));
            let missed = looked(keyed, Answer::Snapshot(None));
            let shards = looked(looked(missed, Answer::Freshness(true)), Answer::Shards(Some(read)));
            &&& looked(keyed, Answer::Snapshot(Some(read))) matches DiscoveryView::Done(
                Some(found),
            ) && found.index == read.index && found.shards == read.shards && found.dir == dir
                && found.provenance == Some(key) && found.cache_hit && !found.verified
                && found.cache == Some(crate::session::CacheStateView { root, dir, key })
            &&& looked(shards, Answer::Freshness(true)) matches DiscoveryView::Done(Some(found))
                && found.index == read.index && found.shards == read.shards && found.dir == dir
                && found.provenance == Some(key) && !found.cache_hit && found.verified
                && found.cache == Some(crate::session::CacheStateView { root, dir, key })
            &&& looked(shards, Answer::Freshness(false)) == DiscoveryView::<I>::OwnDirectory(root)
            &&& looked(missed, Answer::Freshness(false)) == DiscoveryView::<I>::OwnDirectory(root)
        }),
        looked(DiscoveryView::<I>::OutputTree(root), Answer::Tree(None))
            == DiscoveryView::<I>::OwnDirectory(root),
        ({
            let own = looked(DiscoveryView::<I>::OwnDirectory(root), Answer::Directory(true));
            &&& own == DiscoveryView::<I>::Key(
                PlaceView {
                    root,
                    dir: crate::paths::joined_path(root, ".jabar/index"@),
                    key: None,
                    own: true,
                },
            )
            &&& looked(looked(own, Answer::Key(None)), Answer::Shards(Some(read)))
                matches DiscoveryView::Done(Some(found)) && found.index == read.index
                && found.cache is None && found.verified && found.dir
                == crate::paths::joined_path(root, ".jabar/index"@)
            &&& looked(looked(own, Answer::Key(None)), Answer::Shards(None))
                == DiscoveryView::<I>::Done(None)
        }),
        looked(DiscoveryView::<I>::OwnDirectory(root), Answer::Directory(false))
            == DiscoveryView::<I>::Done(None),
{
}

/// An index can be built exactly where both tools are there. Where one is not, it
/// is named, the indexer first.
pub proof fn missing_tools_are_named(
    scip_java: bool,
    java_home: bool,
    missing: Option<&'static str>,
)
    requires
        call_ensures(missing_for_build, (scip_java, java_home), missing),
    ensures
        missing is None <==> scip_java && java_home,
        !scip_java ==> missing is Some && "`scip-java`"@.is_prefix_of(missing->0@),
        scip_java && !java_home ==> missing is Some && "JAVA_HOME"@.is_prefix_of(missing->0@),
{
    reveal_strlit("`scip-java`");
    reveal_strlit("JAVA_HOME");
    reveal_strlit("`scip-java` is not on PATH; set `index.scipJava`");
    reveal_strlit("JAVA_HOME is not set, and scip-java requires it");
    let indexer = "`scip-java` is not on PATH; set `index.scipJava`"@;
    let home = "JAVA_HOME is not set, and scip-java requires it"@;
    assert("`scip-java`"@ =~= indexer.subrange(0, 11));
    assert("JAVA_HOME"@ =~= home.subrange(0, 9));
}

} // verus!
