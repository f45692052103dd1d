//! The life of the index in a session: when it is loaded, replaced, dropped and
//! cached.
//!
//! One thread owns this state. Reading shards, comparing them and writing the
//! cache run on workers, which send completed results back. Every event gives a
//! list of actions to perform, and every result of an action comes back as an
//! event. At most one worker builds a generation at a time, and a result that
//! was computed for an older revision is never installed.
use vstd::prelude::*;

use crate::index_cache::{CacheKey, KeyView};
use crate::protocol::{ErrorCode, ErrorView, RequestError, RequestId, RequestIdView};
use crate::shard_set::{ShardIdentity, ShardMetadata};
use crate::telemetry::{EmptyReason, Failure, Outcome};
use crate::watcher::Change;

pub mod calls;
pub mod laws;
pub mod outcomes;
pub mod steps;

verus! {

/// What the session waits for before it may replace its index.
#[derive(Copy, Clone, Debug, PartialEq, Eq, Structural)]
pub enum RefreshIntent {
    /// The current generation is complete; only normal cache reconciliation is
    /// needed.
    Idle,
    /// Validation failed or watcher events may have been lost. Retry safely.
    Retry,
    /// Git confirmed that sources moved. Wait for evidence of a new index build.
    AwaitingBuild,
}

/// Where and under which key the index is cached.
#[derive(Debug)]
pub struct CacheState {
    pub root: String,
    pub dir: String,
    pub key: CacheKey,
}

/// The view of a [`CacheState`].
pub struct CacheStateView {
    pub root: Seq<char>,
    pub dir: Seq<char>,
    pub key: KeyView,
}

impl View for CacheState {
    type V = CacheStateView;

    open spec fn view(&self) -> CacheStateView {
        CacheStateView { root: self.root@, dir: self.dir@, key: self.key@ }
    }
}

/// What a worker found out about the shards.
#[derive(Debug)]
pub enum RefreshWork<I> {
    /// They are those of the index.
    Unchanged { provenance: Option<CacheKey> },
    /// They were loaded.
    Loaded { index: I, shards: Vec<ShardMetadata>, provenance: Option<CacheKey> },
    /// There are none.
    Empty { shards: Vec<ShardMetadata>, provenance: Option<CacheKey> },
    /// They could not be reconciled.
    Failed,
}

/// The view of a [`RefreshWork`].
pub enum WorkView<I> {
    Unchanged { provenance: Option<KeyView> },
    Loaded { index: I, shards: Seq<ShardIdentity>, provenance: Option<KeyView> },
    Empty { shards: Seq<ShardIdentity>, provenance: Option<KeyView> },
    Failed,
}

/// The view of an optional key.
pub open spec fn key_of(key: Option<CacheKey>) -> Option<KeyView> {
    match key {
        Some(key) => Some(key@),
        None => None,
    }
}

impl<I> View for RefreshWork<I> {
    type V = WorkView<I>;

    open spec fn view(&self) -> WorkView<I> {
        match *self {
            RefreshWork::Unchanged { provenance } => WorkView::Unchanged {
                provenance: key_of(provenance),
            },
            RefreshWork::Loaded { index, shards, provenance } => WorkView::Loaded {
                index,
                shards: crate::shard_set::identities(shards@),
                provenance: key_of(provenance),
            },
            RefreshWork::Empty { shards, provenance } => WorkView::Empty {
                shards: crate::shard_set::identities(shards@),
                provenance: key_of(provenance),
            },
            RefreshWork::Failed => WorkView::Failed,
        }
    }
}

/// A generation that a client asked for.
#[derive(Debug)]
pub struct Generation<I> {
    pub path: String,
    pub index: I,
    pub shards: Vec<ShardMetadata>,
    pub provenance: Option<CacheKey>,
    /// Whether its directory is being watched.
    pub watched: bool,
    pub shard_count: usize,
    pub definitions: usize,
}

/// The view of a [`Generation`].
pub struct GenerationView<I> {
    pub path: Seq<char>,
    pub index: I,
    pub shards: Seq<ShardIdentity>,
    pub provenance: Option<KeyView>,
    pub watched: bool,
    pub shard_count: usize,
    pub definitions: usize,
}

impl<I> View for Generation<I> {
    type V = GenerationView<I>;

    open spec fn view(&self) -> GenerationView<I> {
        GenerationView {
            path: self.path@,
            index: self.index,
            shards: crate::shard_set::identities(self.shards@),
            provenance: key_of(self.provenance),
            watched: self.watched,
            shard_count: self.shard_count,
            definitions: self.definitions,
        }
    }
}

/// The view of what a worker's load gave.
pub open spec fn result_view<I>(result: Result<Generation<I>, RequestError>) -> Result<
    GenerationView<I>,
    ErrorView,
> {
    match result {
        Ok(generation) => Ok(generation@),
        Err(error) => Err(error@),
    }
}

/// What a client that asked for a generation is answered.
#[derive(Debug)]
pub enum LoadReply {
    Loaded { shards: usize, definitions: usize },
    Failed(RequestError),
}

/// The view of a [`LoadReply`].
pub enum ReplyView {
    Loaded { shards: usize, definitions: usize },
    Failed(ErrorView),
}

impl View for LoadReply {
    type V = ReplyView;

    open spec fn view(&self) -> ReplyView {
        match *self {
            LoadReply::Loaded { shards, definitions } => ReplyView::Loaded { shards, definitions },
            LoadReply::Failed(error) => ReplyView::Failed(error@),
        }
    }
}

/// Something to be done.
#[derive(Debug)]
pub enum Action<I> {
    /// Show that shards are being reloaded.
    ShowReloading,
    /// Show that the requested index is being loaded.
    ShowLoading,
    /// Stop showing that.
    EndProgress,
    /// Have a worker reconcile the shards, for a revision. `force` makes it load
    /// them even where they are those of the index.
    StartRefresh { revision: u64, force: bool },
    /// Have a worker load the requested generation, for a revision.
    StartLoad { revision: u64 },
    /// Have an index reclaimed.
    Retire(I),
    /// Remove the pointer of the cache.
    InvalidateCache,
    /// Have the index written to the cache, unless a later ticket is drawn.
    WriteCache { ticket: u64 },
    /// Tell the client that the index is gone.
    NotifyStale,
    /// Find out which open documents differ from disk.
    RefreshFreshness,
    /// Register the queries that can be served now.
    RegisterProviders,
    /// Watch the repository, and the shards where asked for.
    StartWatching { shards: bool },
    /// Watch through what the requested generation brought, if anything.
    TakeWatcher { watched: bool },
    /// Count how building the index ended.
    Record(Outcome),
    /// Answer a request.
    Respond(RequestId, LoadReply),
}

/// The view of an [`Action`].
pub enum ActionView<I> {
    ShowReloading,
    ShowLoading,
    EndProgress,
    StartRefresh { revision: u64, force: bool },
    StartLoad { revision: u64 },
    Retire(I),
    InvalidateCache,
    WriteCache { ticket: u64 },
    NotifyStale,
    RefreshFreshness,
    RegisterProviders,
    StartWatching { shards: bool },
    TakeWatcher { watched: bool },
    Record(Outcome),
    Respond(RequestIdView, ReplyView),
}

impl<I> View for Action<I> {
    type V = ActionView<I>;

    open spec fn view(&self) -> ActionView<I> {
        match *self {
            Action::ShowReloading => ActionView::ShowReloading,
            Action::ShowLoading => ActionView::ShowLoading,
            Action::EndProgress => ActionView::EndProgress,
            Action::StartRefresh { revision, force } => ActionView::StartRefresh {
                revision,
                force,
            },
            Action::StartLoad { revision } => ActionView::StartLoad { revision },
            Action::Retire(index) => ActionView::Retire(index),
            Action::InvalidateCache => ActionView::InvalidateCache,
            Action::WriteCache { ticket } => ActionView::WriteCache { ticket },
            Action::NotifyStale => ActionView::NotifyStale,
            Action::RefreshFreshness => ActionView::RefreshFreshness,
            Action::RegisterProviders => ActionView::RegisterProviders,
            Action::StartWatching { shards } => ActionView::StartWatching { shards },
            Action::TakeWatcher { watched } => ActionView::TakeWatcher { watched },
            Action::Record(outcome) => ActionView::Record(outcome),
            Action::Respond(id, reply) => ActionView::Respond(id@, reply@),
        }
    }
}

/// The views of some actions.
#[verifier::opaque]
pub open spec fn action_views<I>(actions: Seq<Action<I>>) -> Seq<ActionView<I>> {
    Seq::new(actions.len(), |i: int| actions[i]@)
}

/// What is known of the index of a session.
pub struct SessionView<I> {
    pub index: Option<I>,
    /// The shards that the index was built from.
    pub shards: Option<Seq<ShardIdentity>>,
    /// What the index belongs to.
    pub provenance: Option<KeyView>,
    /// Whether that has to be found out anew before anything is installed.
    pub provenance_stale: bool,
    pub cache: Option<CacheStateView>,
    /// Whether the index came from the cache.
    pub cache_hit: bool,
    /// Whether the index was compared with the shards.
    pub shards_verified: bool,
    /// The last ticket that was drawn for writing the cache.
    pub cache_epoch: u64,
    /// What results have to be computed for to be installed.
    pub revision: u64,
    pub refresh_running: bool,
    /// Whether another refresh is due when the worker is done.
    pub refresh_again: bool,
    pub intent: RefreshIntent,
    pub refresh_shown: bool,
    pub load_running: bool,
    /// The request that waits for the load.
    pub pending: Option<RequestIdView>,
    pub load_shown: bool,
    pub index_dir: Option<Seq<char>>,
    pub watching: bool,
    pub supports_progress: bool,
    pub shutdown_requested: bool,
}

/// A state and what led to it has to be done.
pub struct Step<I> {
    pub state: SessionView<I>,
    pub actions: Seq<ActionView<I>>,
}

/// The number behind `n`, after the last the first.
pub open spec fn following(n: u64) -> u64 {
    if n == u64::MAX {
        0
    } else {
        (n + 1) as u64
    }
}

/// A step with something done before it.
pub open spec fn after<I>(first: Seq<ActionView<I>>, step: Step<I>) -> Step<I> {
    Step { state: step.state, actions: first + step.actions }
}

/// An action where it applies.
pub open spec fn if_so<I>(applies: bool, action: ActionView<I>) -> Seq<ActionView<I>> {
    if applies {
        seq![action]
    } else {
        Seq::empty()
    }
}

/// The retirement of an index, where there is one.
pub open spec fn retiring<I>(index: Option<I>) -> Seq<ActionView<I>> {
    match index {
        Some(index) => seq![ActionView::Retire(index)],
        None => Seq::empty(),
    }
}

/// A refresh is asked for.
///
/// Nothing is done before a directory is known. Where a worker runs, a mere
/// timer is dropped and a change is noted for later; the result of a refresh
/// that runs is then no longer wanted.
#[verifier::opaque]
pub open spec fn scheduled<I>(s: SessionView<I>, changed: bool, force: bool) -> Step<I> {
    if s.index_dir is None {
        Step { state: s, actions: Seq::empty() }
    } else if s.load_running {
        Step {
            state: SessionView { refresh_again: s.refresh_again || changed, ..s },
            actions: Seq::empty(),
        }
    } else if s.refresh_running {
        Step {
            state: if changed {
                SessionView { revision: following(s.revision), refresh_again: true, ..s }
            } else {
                s
            },
            actions: Seq::empty(),
        }
    } else {
        Step {
            state: SessionView {
                revision: following(s.revision),
                refresh_running: true,
                refresh_shown: s.supports_progress,
                ..s
            },
            actions: if_so(s.supports_progress, ActionView::ShowReloading) + seq![
                ActionView::StartRefresh { revision: following(s.revision), force },
            ],
        }
    }
}

/// A worker is done: what was noted for later is due.
#[verifier::opaque]
pub open spec fn resumed<I>(s: SessionView<I>) -> Step<I> {
    let t = SessionView { refresh_again: false, ..s };
    if !s.refresh_again {
        Step { state: s, actions: Seq::empty() }
    } else if s.intent is AwaitingBuild {
        Step { state: t, actions: Seq::empty() }
    } else {
        scheduled(t, false, s.index is None)
    }
}

/// The timer fired.
///
/// A branch switch makes existing shards suspect until a build changes them. A
/// timer is not evidence of a build and must not resurrect the old branch's
/// index.
pub open spec fn ticked<I>(s: SessionView<I>) -> Step<I> {
    if !(s.intent is AwaitingBuild) && (s.cache is Some || s.intent is Retry) {
        scheduled(s, false, s.index is None)
    } else {
        Step { state: s, actions: Seq::empty() }
    }
}

/// The pending load is given up, with a message to who waits for it.
#[verifier::opaque]
pub open spec fn cancelled<I>(s: SessionView<I>, message: Seq<char>) -> Step<I> {
    match s.pending {
        None => Step { state: s, actions: Seq::empty() },
        Some(id) => Step {
            state: SessionView {
                pending: None,
                revision: following(s.revision),
                load_shown: false,
                ..s
            },
            actions: if_so(s.load_shown, ActionView::EndProgress) + seq![
                ActionView::Record(Outcome::Cancelled),
                ActionView::Respond(
                    id,
                    ReplyView::Failed(ErrorView { code: ErrorCode::RequestCanceled, message }),
                ),
            ],
        },
    }
}

/// The workspace moved.
///
/// A branch switch invalidates the index without necessarily rewriting any
/// shard: the shards on disk now describe the old tree. Nothing can be reloaded
/// that would be right, so the honest move is to drop the index and say so.
#[verifier::opaque]
pub open spec fn moved<I>(s: SessionView<I>) -> Step<I> {
    let given_up = cancelled(
        SessionView { index: None, ..s },
        "workspace moved while the index was loading"@,
    );
    Step {
        state: SessionView {
            cache_hit: false,
            shards_verified: false,
            intent: RefreshIntent::AwaitingBuild,
            provenance_stale: true,
            refresh_again: false,
            revision: following(given_up.state.revision),
            cache_epoch: following(s.cache_epoch),
            ..given_up.state
        },
        actions: retiring(s.index) + given_up.actions + seq![ActionView::NotifyStale],
    }
}

/// Something changed on disk.
pub open spec fn noticed<I>(s: SessionView<I>, change: Change) -> Step<I> {
    match change {
        Change::Index => {
            let force = s.intent is AwaitingBuild || s.index is None;
            scheduled(SessionView { intent: RefreshIntent::Retry, ..s }, true, force)
        },
        Change::Workspace => moved(s),
        Change::WatcherError => if s.intent is AwaitingBuild {
            Step { state: s, actions: Seq::empty() }
        } else {
            scheduled(
                SessionView { shards_verified: false, intent: RefreshIntent::Retry, ..s },
                true,
                s.index is None,
            )
        },
    }
}

/// What the index belongs to is known anew.
pub open spec fn belonging<I>(s: SessionView<I>, provenance: Option<KeyView>) -> SessionView<I> {
    SessionView {
        cache: match (s.cache, provenance) {
            (Some(cache), Some(key)) => Some(CacheStateView { key, ..cache }),
            _ => s.cache,
        },
        provenance,
        provenance_stale: false,
        ..s
    }
}

/// The result of a worker is taken in, where it was computed for the current
/// revision.
#[verifier::opaque]
pub open spec fn reconciled<I>(s: SessionView<I>, work: WorkView<I>) -> Step<I> {
    match work {
        WorkView::Unchanged { provenance } => Step {
            state: SessionView {
                shards_verified: s.index is Some,
                intent: if s.index is Some {
                    RefreshIntent::Idle
                } else {
                    RefreshIntent::Retry
                },
                ..belonging(s, provenance)
            },
            actions: Seq::empty(),
        },
        WorkView::Empty { shards, provenance } => Step {
            state: SessionView {
                index: None,
                shards: Some(shards),
                cache_hit: false,
                shards_verified: true,
                intent: RefreshIntent::Idle,
                cache_epoch: following(s.cache_epoch),
                ..belonging(s, provenance)
            },
            actions: retiring(s.index) + if_so(s.cache is Some, ActionView::InvalidateCache)
                + seq![ActionView::NotifyStale],
        },
        WorkView::Loaded { index, shards, provenance } => Step {
            state: SessionView {
                index: Some(index),
                shards: Some(shards),
                cache_hit: s.cache_hit && s.cache is None,
                shards_verified: true,
                intent: RefreshIntent::Idle,
                cache_epoch: if s.cache is Some {
                    following(s.cache_epoch)
                } else {
                    s.cache_epoch
                },
                ..belonging(s, provenance)
            },
            actions: retiring(s.index) + seq![ActionView::RefreshFreshness] + if_so(
                s.cache is Some,
                ActionView::WriteCache { ticket: following(s.cache_epoch) },
            ) + if_so(s.index is None, ActionView::RegisterProviders),
        },
        WorkView::Failed => Step {
            state: SessionView {
                shards_verified: false,
                intent: if s.intent is AwaitingBuild {
                    s.intent
                } else {
                    RefreshIntent::Retry
                },
                ..s
            },
            actions: Seq::empty(),
        },
    }
}

/// The index that a worker's result brought.
pub open spec fn brought<I>(work: WorkView<I>) -> Option<I> {
    match work {
        WorkView::Loaded { index, .. } => Some(index),
        _ => None,
    }
}

/// A worker's refresh is done. What was computed for another revision is thrown
/// away.
pub open spec fn refreshed<I>(s: SessionView<I>, revision: u64, work: WorkView<I>) -> Step<I> {
    let t = SessionView { refresh_running: false, refresh_shown: false, ..s };
    let taken = if revision == s.revision {
        reconciled(t, work)
    } else {
        Step { state: t, actions: retiring(brought(work)) }
    };
    after(
        if_so(s.refresh_shown, ActionView::EndProgress) + taken.actions,
        resumed(taken.state),
    )
}

/// A client asks for a generation. Refused while any worker builds one.
pub open spec fn load_requested<I>(s: SessionView<I>, id: RequestIdView) -> Result<
    Step<I>,
    ErrorView,
> {
    if s.refresh_running || s.load_running {
        Err(
            ErrorView {
                code: ErrorCode::RequestFailed,
                message: "another index generation is already loading; retry when it completes"@,
            },
        )
    } else {
        Ok(
            Step {
                state: SessionView {
                    revision: following(s.revision),
                    load_running: true,
                    pending: Some(id),
                    load_shown: s.supports_progress,
                    ..s
                },
                actions: if_so(s.supports_progress, ActionView::ShowLoading) + seq![
                    ActionView::StartLoad { revision: following(s.revision) },
                ],
            },
        )
    }
}

/// How building an index with so many definitions ended.
pub open spec fn build_outcome(definitions: usize) -> Outcome {
    if definitions == 0 {
        Outcome::Empty { reason: EmptyReason::NoMatch }
    } else {
        Outcome::Answered { returned: definitions, total: definitions }
    }
}

/// A requested generation is installed.
#[verifier::opaque]
pub open spec fn installed<I>(
    s: SessionView<I>,
    id: RequestIdView,
    generation: GenerationView<I>,
) -> Step<I> {
    let t = SessionView { cache: None, ..s };
    Step {
        state: SessionView {
            index: Some(generation.index),
            shards: Some(generation.shards),
            cache: None,
            cache_hit: false,
            shards_verified: true,
            cache_epoch: following(s.cache_epoch),
            intent: RefreshIntent::Idle,
            index_dir: Some(generation.path),
            watching: generation.watched,
            ..belonging(t, generation.provenance)
        },
        actions: retiring(s.index) + seq![
            ActionView::RefreshFreshness,
            ActionView::TakeWatcher { watched: generation.watched },
        ] + if_so(s.index is None, ActionView::RegisterProviders) + seq![
            ActionView::Record(build_outcome(generation.definitions)),
            ActionView::Respond(
                id,
                ReplyView::Loaded {
                    shards: generation.shard_count,
                    definitions: generation.definitions,
                },
            ),
        ],
    }
}

/// The request that waits for a load is answered. Where the workspace changed
/// meanwhile, the client is told to retry.
#[verifier::opaque]
pub open spec fn answered<I>(
    s: SessionView<I>,
    id: RequestIdView,
    revision: u64,
    result: Result<GenerationView<I>, ErrorView>,
) -> Step<I> {
    let t = SessionView { pending: None, load_shown: false, ..s };
    let shown = if_so(s.load_shown, ActionView::EndProgress);
    if revision != s.revision {
        Step {
            state: t,
            actions: shown + thrown_away(result) + seq![
                ActionView::Record(Outcome::Cancelled),
                ActionView::Respond(
                    id,
                    ReplyView::Failed(
                        ErrorView {
                            code: ErrorCode::ContentModified,
                            message:
                                "workspace changed while the index was loading; retry the request"@,
                        },
                    ),
                ),
            ],
        }
    } else {
        match result {
            Ok(generation) => after(shown, installed(t, id, generation)),
            Err(error) => Step {
                state: t,
                actions: shown + seq![
                    ActionView::Record(Outcome::Failed { failure: Failure::Io }),
                    ActionView::Respond(id, ReplyView::Failed(error)),
                ],
            },
        }
    }
}

/// The retirement of what a load brought, where nobody wants it.
pub open spec fn thrown_away<I>(result: Result<GenerationView<I>, ErrorView>) -> Seq<
    ActionView<I>,
> {
    match result {
        Ok(generation) => retiring(Some(generation.index)),
        Err(_) => Seq::empty(),
    }
}

/// A worker's load is done.
///
/// Nobody is answered twice: where the request was given up meanwhile, or
/// another took its place, the result is thrown away.
pub open spec fn loaded<I>(
    s: SessionView<I>,
    id: RequestIdView,
    revision: u64,
    result: Result<GenerationView<I>, ErrorView>,
) -> Step<I> {
    let t = SessionView { load_running: false, ..s };
    if s.pending != Some(id) {
        after(thrown_away(result), resumed(t))
    } else {
        let step = answered(t, id, revision, result);
        after(step.actions, resumed(step.state))
    }
}

/// An index that was found at startup.
pub struct FoundView<I> {
    pub dir: Seq<char>,
    pub index: I,
    pub shards: Seq<ShardIdentity>,
    pub provenance: Option<KeyView>,
    pub cache: Option<CacheStateView>,
    pub cache_hit: bool,
    pub verified: bool,
}

/// An index that was found at startup is taken on.
///
/// Watching millions of output files recursively can itself stall startup, so
/// the shards are not watched where the index is cached: cached indexes
/// reconcile in a worker instead.
pub open spec fn adopted<I>(s: SessionView<I>, found: FoundView<I>) -> Step<I> {
    let t = SessionView {
        revision: following(s.revision),
        cache: found.cache,
        cache_hit: found.cache_hit,
        shards_verified: found.verified,
        index: Some(found.index),
        shards: Some(found.shards),
        provenance: found.provenance,
        provenance_stale: false,
        intent: if found.verified {
            RefreshIntent::Idle
        } else {
            RefreshIntent::Retry
        },
        index_dir: Some(found.dir),
        ..s
    };
    let first = retiring(s.index) + seq![
        ActionView::RefreshFreshness,
        ActionView::StartWatching { shards: found.cache is None },
    ];
    if found.cache_hit {
        after(first, scheduled(t, false, false))
    } else if found.cache is Some {
        Step {
            state: SessionView { cache_epoch: following(s.cache_epoch), ..t },
            actions: first + seq![ActionView::WriteCache { ticket: following(s.cache_epoch) }],
        }
    } else {
        Step { state: t, actions: first }
    }
}

/// An index that someone else loaded is taken on.
pub open spec fn taken_on<I>(
    s: SessionView<I>,
    dir: Seq<char>,
    index: I,
    provenance: Option<KeyView>,
) -> Step<I> {
    Step {
        state: SessionView {
            revision: following(s.revision),
            cache_epoch: following(s.cache_epoch),
            cache: None,
            cache_hit: false,
            shards_verified: false,
            shards: None,
            intent: RefreshIntent::Retry,
            provenance,
            provenance_stale: false,
            index: Some(index),
            index_dir: Some(dir),
            ..s
        },
        actions: retiring(s.index) + seq![
            ActionView::RefreshFreshness,
            ActionView::StartWatching { shards: true },
        ],
    }
}

/// Watching was started, or could not be. Failing to watch is not failing to
/// serve.
pub open spec fn watched<I>(s: SessionView<I>, started: bool) -> SessionView<I> {
    SessionView { watching: s.watching || started, ..s }
}

/// The client is going away: no request is served any more.
pub open spec fn shut_down<I>(s: SessionView<I>) -> Step<I> {
    let given_up = cancelled(s, "server is shutting down"@);
    Step {
        state: SessionView { shutdown_requested: true, ..given_up.state },
        actions: given_up.actions,
    }
}

/// A session before anything happened.
pub open spec fn fresh<I>(supports_progress: bool) -> SessionView<I> {
    SessionView {
        index: None,
        shards: None,
        provenance: None,
        provenance_stale: false,
        cache: None,
        cache_hit: false,
        shards_verified: false,
        cache_epoch: 0,
        revision: 0,
        refresh_running: false,
        refresh_again: false,
        intent: RefreshIntent::Idle,
        refresh_shown: false,
        load_running: false,
        pending: None,
        load_shown: false,
        index_dir: None,
        watching: false,
        supports_progress,
        shutdown_requested: false,
    }
}

} // verus!
