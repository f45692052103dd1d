//! Loading the index that a client asked for.
//!
//! Reading many shards takes a while, and the workspace may move meanwhile. So
//! where it is known what the shards belong to, that is compared with the disk
//! before they are read and again afterwards. Whoever works the stages looks at
//! the disk, and hands back what was seen.
use vstd::prelude::*;

use crate::index_cache::{CacheKey, KeyView};
use crate::paths::AbsPathBuf;
use crate::session::{Generation, GenerationView};
use crate::shard_set::{ShardIdentity, ShardMetadata};
use crate::startup::{FaultView, LoadFault};

verus! {

/// The directory that is being loaded.
#[derive(Debug)]
pub struct Requested {
    /// Where it is.
    pub path: String,
    /// What the workspace and the directory were at first, where that is known.
    pub key: Option<CacheKey>,
}

/// The view of a [`Requested`].
pub struct RequestedView {
    pub path: Seq<char>,
    pub key: Option<KeyView>,
}

impl View for Requested {
    type V = RequestedView;

    open spec fn view(&self) -> RequestedView {
        RequestedView { path: self.path@, key: crate::session::key_of(self.key) }
    }
}

/// An index of all the shards of a directory.
#[derive(Debug)]
pub struct LoadedIndex<I> {
    pub index: I,
    pub shards: Vec<ShardMetadata>,
    pub shard_count: usize,
    pub definitions: usize,
}

/// The view of a [`LoadedIndex`].
pub struct LoadedView<I> {
    pub index: I,
    pub shards: Seq<ShardIdentity>,
    pub shard_count: usize,
    pub definitions: usize,
}

impl<I> View for LoadedIndex<I> {
    type V = LoadedView<I>;

    open spec fn view(&self) -> LoadedView<I> {
        LoadedView {
            index: self.index,
            shards: crate::shard_set::identities(self.shards@),
            shard_count: self.shard_count,
            definitions: self.definitions,
        }
    }
}

/// What is looked at next.
#[derive(Debug)]
pub enum LoadStage<I> {
    /// Where the path leads that the client gave.
    Resolve(String),
    /// What the workspace and the directory are now.
    Key(String),
    /// Whether the workspace has not moved, before the shards are read.
    Before(Requested),
    /// The shards.
    Load(Requested),
    /// Whether the workspace has not moved while they were read.
    After(Requested, LoadedIndex<I>),
    /// Whether the directory can be watched.
    Watch(Requested, LoadedIndex<I>),
    /// Nothing more.
    Done(Result<Generation<I>, LoadFault>),
}

/// The view of a [`LoadStage`].
pub enum LoadStageView<I> {
    Resolve(Seq<char>),
    Key(Seq<char>),
    Before(RequestedView),
    Load(RequestedView),
    After(RequestedView, LoadedView<I>),
    Watch(RequestedView, LoadedView<I>),
    Done(Result<GenerationView<I>, FaultView>),
}

impl<I> View for LoadStage<I> {
    type V = LoadStageView<I>;

    open spec fn view(&self) -> LoadStageView<I> {
        match *self {
            LoadStage::Resolve(asked) => LoadStageView::Resolve(asked@),
            LoadStage::Key(path) => LoadStageView::Key(path@),
            LoadStage::Before(requested) => LoadStageView::Before(requested@),
            LoadStage::Load(requested) => LoadStageView::Load(requested@),
            LoadStage::After(requested, loaded) => LoadStageView::After(requested@, loaded@),
            LoadStage::Watch(requested, loaded) => LoadStageView::Watch(requested@, loaded@),
            LoadStage::Done(Ok(generation)) => LoadStageView::Done(Ok(generation@)),
            LoadStage::Done(Err(fault)) => LoadStageView::Done(Err(fault@)),
        }
    }
}

/// What was seen on the disk.
#[derive(Debug)]
pub enum LoadSeen<I> {
    /// The path leads here.
    Path(String),
    /// The path leads to one that is not UTF-8, of which this can be read.
    NotUtf8(String),
    /// The path leads nowhere, for this reason.
    Unresolved(String),
    /// What the workspace and the directory are, where that can be known.
    Key(Option<CacheKey>),
    /// Whether the workspace has not moved.
    Current(bool),
    /// An index of all the shards.
    Loaded(LoadedIndex<I>),
    /// Not all of the shards could be read, for this reason.
    Incomplete(String),
    /// Whether the directory is being watched.
    Watched(bool),
}

/// The view of a [`LoadSeen`].
pub enum LoadSeenView<I> {
    Path(Seq<char>),
    NotUtf8(Seq<char>),
    Unresolved(Seq<char>),
    Key(Option<KeyView>),
    Current(bool),
    Loaded(LoadedView<I>),
    Incomplete(Seq<char>),
    Watched(bool),
}

impl<I> View for LoadSeen<I> {
    type V = LoadSeenView<I>;

    open spec fn view(&self) -> LoadSeenView<I> {
        match *self {
            LoadSeen::Path(path) => LoadSeenView::Path(path@),
            LoadSeen::NotUtf8(path) => LoadSeenView::NotUtf8(path@),
            LoadSeen::Unresolved(reason) => LoadSeenView::Unresolved(reason@),
            LoadSeen::Key(key) => LoadSeenView::Key(crate::session::key_of(key)),
            LoadSeen::Current(current) => LoadSeenView::Current(current),
            LoadSeen::Loaded(loaded) => LoadSeenView::Loaded(loaded@),
            LoadSeen::Incomplete(reason) => LoadSeenView::Incomplete(reason@),
            LoadSeen::Watched(watched) => LoadSeenView::Watched(watched),
        }
    }
}

/// The generation that the client gets.
pub open spec fn generation<I>(
    requested: RequestedView,
    loaded: LoadedView<I>,
    watched: bool,
) -> GenerationView<I> {
    GenerationView {
        path: requested.path,
        index: loaded.index,
        shards: loaded.shards,
        provenance: requested.key,
        watched,
        shard_count: loaded.shard_count,
        definitions: loaded.definitions,
    }
}

/// The end of a load that failed.
pub open spec fn failed<I>(fault: FaultView) -> LoadStageView<I> {
    LoadStageView::Done(Err(fault))
}

/// The next stage of a load. What was not asked for changes nothing.
pub open spec fn load_next<I>(stage: LoadStageView<I>, seen: LoadSeenView<I>) -> LoadStageView<I> {
    match (stage, seen) {
        (LoadStageView::Resolve(asked), LoadSeenView::Unresolved(reason)) => failed(
            FaultView::Unresolved { path: asked, reason },
        ),
        (LoadStageView::Resolve(_), LoadSeenView::NotUtf8(path)) => failed(
            FaultView::NotAbsolute { path },
        ),
        (LoadStageView::Resolve(_), LoadSeenView::Path(path)) => if crate::paths::absolute(path) {
            LoadStageView::Key(path)
        } else {
            failed(FaultView::NotAbsolute { path })
        },
        (LoadStageView::Key(path), LoadSeenView::Key(key)) => {
            let requested = RequestedView { path, key };
            if key is Some {
                LoadStageView::Before(requested)
            } else {
                LoadStageView::Load(requested)
            }
        },
        (LoadStageView::Before(requested), LoadSeenView::Current(current)) => if current {
            LoadStageView::Load(requested)
        } else {
            failed(FaultView::MovedBefore { path: requested.path })
        },
        (LoadStageView::Load(requested), LoadSeenView::Incomplete(reason)) => failed(
            FaultView::Incomplete { path: requested.path, reason },
        ),
        (LoadStageView::Load(requested), LoadSeenView::Loaded(loaded)) => if requested.key is Some {
            LoadStageView::After(requested, loaded)
        } else {
            LoadStageView::Watch(requested, loaded)
        },
        (LoadStageView::After(requested, loaded), LoadSeenView::Current(current)) => if current {
            LoadStageView::Watch(requested, loaded)
        } else {
            failed(FaultView::MovedDuring { path: requested.path })
        },
        (LoadStageView::Watch(requested, loaded), LoadSeenView::Watched(watched)) =>
            LoadStageView::Done(Ok(generation(requested, loaded, watched))),
        _ => stage,
    }
}

/// The stage once all of this was seen, in order.
pub open spec fn load_after<I>(
    stage: LoadStageView<I>,
    seen: Seq<LoadSeenView<I>>,
) -> LoadStageView<I>
    decreases seen.len(),
{
    if seen.len() == 0 {
        stage
    } else {
        load_next(load_after(stage, seen.drop_last()), seen.last())
    }
}

impl<I> LoadStage<I> {
    /// Begins to load what the client calls `asked`.
    pub fn new(asked: String) -> (stage: LoadStage<I>)
        ensures
            stage@ == LoadStageView::<I>::Resolve(asked@),
    {
        LoadStage::Resolve(asked)
    }

    /// Goes on, once `seen` was seen.
    pub fn step(self, seen: LoadSeen<I>) -> (next: LoadStage<I>)
        ensures
            next@ == load_next(self@, seen@),
    {
        match (self, seen) {
            (LoadStage::Resolve(asked), LoadSeen::Unresolved(reason)) => {
                LoadStage::Done(Err(LoadFault::Unresolved { path: asked, reason }))
            },
            (LoadStage::Resolve(_), LoadSeen::NotUtf8(path)) => {
                LoadStage::Done(Err(LoadFault::NotAbsolute { path }))
            },
            (LoadStage::Resolve(_), LoadSeen::Path(path)) => match AbsPathBuf::try_new(path) {
                Ok(path) => LoadStage::Key(path.into_string()),
                Err(path) => LoadStage::Done(Err(LoadFault::NotAbsolute { path })),
            },
            (LoadStage::Key(path), LoadSeen::Key(key)) => if key.is_some() {
                LoadStage::Before(Requested { path, key })
            } else {
                LoadStage::Load(Requested { path, key })
            },
            (LoadStage::Before(requested), LoadSeen::Current(current)) => if current {
                LoadStage::Load(requested)
            } else {
                LoadStage::Done(Err(LoadFault::MovedBefore { path: requested.path }))
            },
            (LoadStage::Load(requested), LoadSeen::Incomplete(reason)) => {
                LoadStage::Done(Err(LoadFault::Incomplete { path: requested.path, reason }))
            },
            (LoadStage::Load(requested), LoadSeen::Loaded(loaded)) => {
                if requested.key.is_some() {
                    LoadStage::After(requested, loaded)
                } else {
                    LoadStage::Watch(requested, loaded)
                }
            },
            (LoadStage::After(requested, loaded), LoadSeen::Current(current)) => if current {
                LoadStage::Watch(requested, loaded)
            } else {
                LoadStage::Done(Err(LoadFault::MovedDuring { path: requested.path }))
            },
            (LoadStage::Watch(requested, loaded), LoadSeen::Watched(watched)) => {
                LoadStage::Done(
                    Ok(
                        Generation {
                            path: requested.path,
                            index: loaded.index,
                            shards: loaded.shards,
                            provenance: requested.key,
                            watched,
                            shard_count: loaded.shard_count,
                            definitions: loaded.definitions,
                        },
                    ),
                )
            },
            (stage, _) => stage,
        }
    }
}

/// Whether what was seen is what a stage asks for.
pub open spec fn is_asked_for<I>(stage: LoadStageView<I>, seen: LoadSeenView<I>) -> bool {
    match stage {
        LoadStageView::Resolve(_) => seen is Path || seen is NotUtf8 || seen is Unresolved,
        LoadStageView::Key(_) => seen is Key,
        LoadStageView::Before(_) => seen is Current,
        LoadStageView::Load(_) => seen is Loaded || seen is Incomplete,
        LoadStageView::After(_, _) => seen is Current,
        LoadStageView::Watch(_, _) => seen is Watched,
        LoadStageView::Done(_) => false,
    }
}

/// How many looks a stage is at most away from the end.
pub open spec fn steps_left<I>(stage: LoadStageView<I>) -> nat {
    match stage {
        LoadStageView::Resolve(_) => 6,
        LoadStageView::Key(_) => 5,
        LoadStageView::Before(_) => 4,
        LoadStageView::Load(_) => 3,
        LoadStageView::After(_, _) => 2,
        LoadStageView::Watch(_, _) => 1,
        LoadStageView::Done(_) => 0,
    }
}

/// A load ends: all that is asked for brings it nearer to its end.
pub proof fn loading_ends<I>(stage: LoadStageView<I>, seen: LoadSeenView<I>)
    requires
        is_asked_for(stage, seen),
    ensures
        steps_left(load_next(stage, seen)) < steps_left(stage),
{
}

/// The `at`-th look showed that the workspace had not moved.
pub open spec fn current_at<I>(seen: Seq<LoadSeenView<I>>, at: int) -> bool {
    0 <= at < seen.len() && seen[at] == LoadSeenView::<I>::Current(true)
}

/// The `at`-th look read this index.
pub open spec fn loaded_at<I>(seen: Seq<LoadSeenView<I>>, loaded: LoadedView<I>, at: int) -> bool {
    0 <= at < seen.len() && seen[at] == LoadSeenView::Loaded(loaded)
}

/// This index was read after the workspace was seen not to have moved.
pub open spec fn loaded_while_current<I>(
    seen: Seq<LoadSeenView<I>>,
    loaded: LoadedView<I>,
) -> bool {
    exists|before: int, at: int|
        before < at && #[trigger] current_at(seen, before) && #[trigger] loaded_at(seen, loaded, at)
}

/// This index was read between two looks that showed that the workspace had not
/// moved.
pub open spec fn loaded_between<I>(seen: Seq<LoadSeenView<I>>, loaded: LoadedView<I>) -> bool {
    exists|before: int, at: int, after: int|
        before < at < after && #[trigger] current_at(seen, before) && #[trigger] loaded_at(
            seen,
            loaded,
            at,
        ) && #[trigger] current_at(seen, after)
}

/// What of a generation was read from the shards.
pub open spec fn loaded_part<I>(generation: GenerationView<I>) -> LoadedView<I> {
    LoadedView {
        index: generation.index,
        shards: generation.shards,
        shard_count: generation.shard_count,
        definitions: generation.definitions,
    }
}

/// What must have been seen for a load to be at this stage.
spec fn accounted_for<I>(stage: LoadStageView<I>, seen: Seq<LoadSeenView<I>>) -> bool {
    match stage {
        LoadStageView::Load(requested) => requested.key is Some ==> exists|at: int|
            current_at(seen, at),
        LoadStageView::After(requested, loaded) => loaded_while_current(seen, loaded),
        LoadStageView::Watch(requested, loaded) => requested.key is Some ==> loaded_between(
            seen,
            loaded,
        ),
        LoadStageView::Done(Ok(generation)) => generation.provenance is Some ==> loaded_between(
            seen,
            loaded_part(generation),
        ),
        _ => true,
    }
}

/// What was seen earlier is still among what was seen.
proof fn lemma_still_seen<I>(seen: Seq<LoadSeenView<I>>, last: LoadSeenView<I>)
    ensures
        forall|at: int| #[trigger] current_at(seen, at) ==> current_at(seen.push(last), at),
        forall|loaded: LoadedView<I>, at: int| #[trigger]
            loaded_at(seen, loaded, at) ==> loaded_at(seen.push(last), loaded, at),
        forall|loaded: LoadedView<I>| #[trigger]
            loaded_while_current(seen, loaded) ==> loaded_while_current(seen.push(last), loaded),
        forall|loaded: LoadedView<I>| #[trigger]
            loaded_between(seen, loaded) ==> loaded_between(seen.push(last), loaded),
{
    let all = seen.push(last);
    assert forall|loaded: LoadedView<I>| #[trigger] loaded_while_current(seen, loaded) implies
        loaded_while_current(all, loaded) by {
        let (before, at) = choose|before: int, at: int|
            before < at && #[trigger] current_at(seen, before) && #[trigger] loaded_at(
                seen,
                loaded,
                at,
            );
        assert(current_at(all, before) && loaded_at(all, loaded, at));
    }
    assert forall|loaded: LoadedView<I>| #[trigger] loaded_between(seen, loaded) implies
        loaded_between(all, loaded) by {
        let (before, at, after) = choose|before: int, at: int, after: int|
            before < at < after && #[trigger] current_at(seen, before) && #[trigger] loaded_at(
                seen,
                loaded,
                at,
            ) && #[trigger] current_at(seen, after);
        assert(current_at(all, before) && loaded_at(all, loaded, at) && current_at(all, after));
    }
}

proof fn lemma_accounted_for<I>(asked: Seq<char>, seen: Seq<LoadSeenView<I>>)
    ensures
        accounted_for(load_after(LoadStageView::<I>::Resolve(asked), seen), seen),
    decreases seen.len(),
{
    if seen.len() > 0 {
        let earlier = seen.drop_last();
        let stage = load_after(LoadStageView::<I>::Resolve(asked), earlier);
        let end = seen.len() - 1;
        lemma_accounted_for(asked, earlier);
        lemma_still_seen(earlier, seen.last());
        assert(earlier.push(seen.last()) =~= seen);
        match (stage, seen.last()) {
            (LoadStageView::Before(_), LoadSeenView::Current(true)) => {
                assert(current_at(seen, end));
            },
            (LoadStageView::Load(requested), LoadSeenView::Loaded(loaded)) => {
                assert(loaded_at(seen, loaded, end));
                if requested.key is Some {
                    let at = choose|at: int| current_at(earlier, at);
                    assert(current_at(seen, at));
                }
            },
            (LoadStageView::After(_, loaded), LoadSeenView::Current(true)) => {
                let (before, at) = choose|before: int, at: int|
                    before < at && #[trigger] current_at(earlier, before) && #[trigger] loaded_at(
                        earlier,
                        loaded,
                        at,
                    );
                assert(current_at(seen, before) && loaded_at(seen, loaded, at) && current_at(
                    seen,
                    end,
                ));
            },
            (LoadStageView::Load(requested), _) => {
                if requested.key is Some {
                    let at = choose|at: int| current_at(earlier, at);
                    assert(current_at(seen, at));
                }
            },
            (LoadStageView::Watch(requested, loaded), LoadSeenView::Watched(watched)) => {
                assert(loaded_part(generation(requested, loaded, watched)) == loaded);
            },
            _ => {},
        }
    }
}

/// Only a generation of the workspace as it is gets loaded: whatever is seen,
/// where the client gets a generation of which it is known what it belongs to,
/// its shards were read between two looks that showed that the workspace had not
/// moved.
pub proof fn only_a_current_generation_is_loaded<I>(
    asked: Seq<char>,
    seen: Seq<LoadSeenView<I>>,
    generation: GenerationView<I>,
)
    requires
        load_after(LoadStageView::<I>::Resolve(asked), seen) == LoadStageView::Done(
            Ok::<GenerationView<I>, FaultView>(generation),
        ),
        generation.provenance is Some,
    ensures
        loaded_between(seen, loaded_part(generation)),
{
    lemma_accounted_for(asked, seen);
}

/// A load that sees nothing amiss gives the client the generation that was read,
/// under the path that was resolved and with what it belongs to.
pub proof fn an_undisturbed_load_succeeds<I>(
    asked: Seq<char>,
    path: Seq<char>,
    key: KeyView,
    loaded: LoadedView<I>,
    watched: bool,
)
    requires
        path.len() > 0,
        path[0] == '/',
    ensures
        ({
            let known = load_next(
                load_next(LoadStageView::<I>::Resolve(asked), LoadSeenView::Path(path)),
                LoadSeenView::Key(Some(key)),
            );
            let read = load_next(
                load_next(known, LoadSeenView::Current(true)),
                LoadSeenView::Loaded(loaded),
            );
            load_next(
                load_next(read, LoadSeenView::Current(true)),
                LoadSeenView::Watched(watched),
            ) matches LoadStageView::Done(Ok(generation)) && generation.path == path
                && generation.provenance == Some(key) && generation.index == loaded.index
                && generation.shards == loaded.shards && generation.shard_count
                == loaded.shard_count && generation.definitions == loaded.definitions
                && generation.watched == watched
        }),
        ({
            let known = load_next(
                load_next(LoadStageView::<I>::Resolve(asked), LoadSeenView::Path(path)),
                LoadSeenView::Key(None),
            );
            load_next(
                load_next(known, LoadSeenView::Loaded(loaded)),
                LoadSeenView::Watched(watched),
            ) matches LoadStageView::Done(Ok(generation)) && generation.path == path
                && generation.provenance is None && generation.index == loaded.index
        }),
{
}

/// What goes wrong on the way of a load is the fault that it ends with.
pub proof fn a_disturbed_load_says_what_went_wrong<I>(
    asked: Seq<char>,
    reason: Seq<char>,
    other: Seq<char>,
    requested: RequestedView,
    loaded: LoadedView<I>,
)
    ensures
        load_next(LoadStageView::<I>::Resolve(asked), LoadSeenView::Unresolved(reason))
            == LoadStageView::<I>::Done(Err(FaultView::Unresolved { path: asked, reason })),
        load_next(LoadStageView::<I>::Resolve(asked), LoadSeenView::NotUtf8(other))
            == LoadStageView::<I>::Done(Err(FaultView::NotAbsolute { path: other })),
        other.len() == 0 || other[0] != '/' ==> load_next(
            LoadStageView::<I>::Resolve(asked),
            LoadSeenView::Path(other),
        ) == LoadStageView::<I>::Done(Err(FaultView::NotAbsolute { path: other })),
        load_next(LoadStageView::<I>::Before(requested), LoadSeenView::Current(false))
            == LoadStageView::<I>::Done(Err(FaultView::MovedBefore { path: requested.path })),
        load_next(LoadStageView::<I>::Load(requested), LoadSeenView::Incomplete(reason))
            == LoadStageView::<I>::Done(
            Err(FaultView::Incomplete { path: requested.path, reason }),
        ),
        load_next(LoadStageView::After(requested, loaded), LoadSeenView::Current(false))
            == LoadStageView::<I>::Done(Err(FaultView::MovedDuring { path: requested.path })),
{
}

} // verus!
