//! The steps of a session, carried out.
use vstd::prelude::*;

use crate::index_cache::CacheKey;
use crate::protocol::{ErrorCode, RequestError, RequestId};
use crate::session::{
    Action, ActionView, CacheState, CacheStateView, FoundView, Generation, LoadReply, RefreshIntent,
    RefreshWork, SessionView, WorkView,
};
use crate::shard_set::ShardMetadata;
use crate::telemetry::{EmptyReason, Failure, Outcome};
use crate::watcher::Change;

verus! {

/// An index that was found at startup.
#[derive(Debug)]
pub struct Discovered<I> {
    pub dir: String,
    pub index: I,
    pub shards: Vec<ShardMetadata>,
    pub provenance: Option<CacheKey>,
    pub cache: Option<CacheState>,
    pub cache_hit: bool,
    pub verified: bool,
}

/// The view of an optional cache.
pub open spec fn cache_of(cache: Option<CacheState>) -> Option<CacheStateView> {
    match cache {
        Some(cache) => Some(cache@),
        None => None,
    }
}

impl<I> View for Discovered<I> {
    type V = FoundView<I>;

    open spec fn view(&self) -> FoundView<I> {
        FoundView {
            dir: self.dir@,
            index: self.index,
            shards: crate::shard_set::identities(self.shards@),
            provenance: crate::session::key_of(self.provenance),
            cache: cache_of(self.cache),
            cache_hit: self.cache_hit,
            verified: self.verified,
        }
    }
}

/// The index of a session, by a handle, and what is going on with it.
#[derive(Debug)]
pub struct Session<I> {
    index: Option<I>,
    shards: Option<Vec<ShardMetadata>>,
    provenance: Option<CacheKey>,
    provenance_stale: bool,
    cache: Option<CacheState>,
    cache_hit: bool,
    shards_verified: bool,
    cache_epoch: u64,
    revision: u64,
    refresh_running: bool,
    refresh_again: bool,
    intent: RefreshIntent,
    refresh_shown: bool,
    load_running: bool,
    pending: Option<RequestId>,
    load_shown: bool,
    index_dir: Option<String>,
    watching: bool,
    supports_progress: bool,
    shutdown_requested: bool,
}

impl<I> View for Session<I> {
    type V = SessionView<I>;

    closed spec fn view(&self) -> SessionView<I> {
        SessionView {
            index: self.index,
            shards: match self.shards {
                Some(shards) => Some(crate::shard_set::identities(shards@)),
                None => None,
            },
            provenance: crate::session::key_of(self.provenance),
            provenance_stale: self.provenance_stale,
            cache: cache_of(self.cache),
            cache_hit: self.cache_hit,
            shards_verified: self.shards_verified,
            cache_epoch: self.cache_epoch,
            revision: self.revision,
            refresh_running: self.refresh_running,
            refresh_again: self.refresh_again,
            intent: self.intent,
            refresh_shown: self.refresh_shown,
            load_running: self.load_running,
            pending: match self.pending {
                Some(id) => Some(id@),
                None => None,
            },
            load_shown: self.load_shown,
            index_dir: crate::config::text_of(self.index_dir),
            watching: self.watching,
            supports_progress: self.supports_progress,
            shutdown_requested: self.shutdown_requested,
        }
    }
}

/// The number behind `n`, after the last the first.
fn next_number(n: u64) -> (next: u64)
    ensures
        next == crate::session::following(n),
{
    if n == 0xffff_ffff_ffff_ffff {
        0
    } else {
        n + 1
    }
}

/// A list without actions.
fn nothing<I>() -> (actions: Vec<Action<I>>)
    ensures
        crate::session::action_views(actions@) == Seq::<ActionView<I>>::empty(),
{
    let actions: Vec<Action<I>> = Vec::new();
    proof {
        reveal(crate::session::action_views);
        assert(crate::session::action_views(actions@) =~= Seq::<ActionView<I>>::empty());
    }
    actions
}

/// A list of one action.
fn just<I>(action: Action<I>) -> (actions: Vec<Action<I>>)
    ensures
        crate::session::action_views(actions@) == seq![action@],
{
    let mut actions: Vec<Action<I>> = Vec::new();
    actions.push(action);
    proof {
        reveal(crate::session::action_views);
        assert(crate::session::action_views(actions@) =~= seq![action@]);
    }
    actions
}

/// A list of two actions.
fn both<I>(first: Action<I>, second: Action<I>) -> (actions: Vec<Action<I>>)
    ensures
        crate::session::action_views(actions@) == seq![first@, second@],
{
    let mut actions: Vec<Action<I>> = Vec::new();
    actions.push(first);
    actions.push(second);
    proof {
        reveal(crate::session::action_views);
        assert(crate::session::action_views(actions@) =~= seq![first@, second@]);
    }
    actions
}

/// A list of one action, where it applies.
fn maybe<I>(applies: bool, action: Action<I>) -> (actions: Vec<Action<I>>)
    ensures
        crate::session::action_views(actions@) == crate::session::if_so(applies, action@),
{
    if applies {
        just(action)
    } else {
        nothing()
    }
}

/// The retirement of an index, where there is one.
fn retired<I>(index: Option<I>) -> (actions: Vec<Action<I>>)
    ensures
        crate::session::action_views(actions@) == crate::session::retiring(index),
{
    match index {
        Some(index) => just(Action::Retire(index)),
        None => nothing(),
    }
}

/// Two lists of actions, one behind the other.
fn joined<I>(first: Vec<Action<I>>, second: Vec<Action<I>>) -> (actions: Vec<Action<I>>)
    ensures
        crate::session::action_views(actions@) == crate::session::action_views(first@)
            + crate::session::action_views(second@),
{
    let mut actions = first;
    let mut rest = second;
    actions.append(&mut rest);
    proof {
        reveal(crate::session::action_views);
        assert(crate::session::action_views(actions@) =~= crate::session::action_views(first@)
            + crate::session::action_views(second@));
    }
    actions
}

/// A copy of an optional key.
fn copy_key(key: &Option<CacheKey>) -> (out: Option<CacheKey>)
    ensures
        crate::session::key_of(out) == crate::session::key_of(*key),
{
    match key {
        Some(key) => Some(key.copy()),
        None => None,
    }
}

impl<I> Session<I> {
    /// A session before anything happened.
    pub fn new(supports_progress: bool) -> (session: Session<I>)
        ensures
            session@ == crate::session::fresh::<I>(supports_progress),
    {
        Session {
            index: None,
            shards: None,
            provenance: None,
            provenance_stale: false,
            cache: None,
            cache_hit: false,
            shards_verified: false,
            cache_epoch: 0,
            revision: 0,
            refresh_running: false,
            refresh_again: false,
            intent: RefreshIntent::Idle,
            refresh_shown: false,
            load_running: false,
            pending: None,
            load_shown: false,
            index_dir: None,
            watching: false,
            supports_progress,
            shutdown_requested: false,
        }
    }

    /// Takes the index away.
    fn take_index(&mut self) -> (index: Option<I>)
        ensures
            index == old(self)@.index,
            final(self)@ == (SessionView { index: None, ..old(self)@ }),
    {
        let mut taken: Option<I> = None;
        std::mem::swap(&mut taken, &mut self.index);
        taken
    }

    /// Asks for a refresh.
    fn schedule_refresh(&mut self, changed: bool, force: bool) -> (actions: Vec<Action<I>>)
        ensures
            final(self)@ == crate::session::scheduled(old(self)@, changed, force).state,
            crate::session::action_views(actions@) == crate::session::scheduled(
                old(self)@,
                changed,
                force,
            ).actions,
    {
        proof {
            reveal(crate::session::scheduled);
        }
        if self.index_dir.is_none() {
            return nothing();
        }
        if self.load_running {
            if changed {
                self.refresh_again = true;
            }
            return nothing();
        }
        if self.refresh_running {
            if changed {
                self.revision = next_number(self.revision);
                self.refresh_again = true;
            }
            return nothing();
        }
        self.revision = next_number(self.revision);
        self.refresh_running = true;
        self.refresh_shown = self.supports_progress;
        joined(
            maybe(self.supports_progress, Action::ShowReloading),
            just(Action::StartRefresh { revision: self.revision, force }),
        )
    }

    /// Does what was noted for when a worker is done.
    fn schedule_queued_refresh(&mut self) -> (actions: Vec<Action<I>>)
        ensures
            final(self)@ == crate::session::resumed(old(self)@).state,
            crate::session::action_views(actions@) == crate::session::resumed(old(self)@).actions,
    {
        proof {
            reveal(crate::session::resumed);
        }
        if !self.refresh_again {
            return nothing();
        }
        self.refresh_again = false;
        if self.intent == RefreshIntent::AwaitingBuild {
            return nothing();
        }
        let force = self.index.is_none();
        self.schedule_refresh(false, force)
    }

    /// The timer fired.
    pub fn on_refresh_tick(&mut self) -> (actions: Vec<Action<I>>)
        ensures
            final(self)@ == crate::session::ticked(old(self)@).state,
            crate::session::action_views(actions@) == crate::session::ticked(old(self)@).actions,
    {
        if self.intent != RefreshIntent::AwaitingBuild && (self.cache.is_some() || self.intent
            == RefreshIntent::Retry) {
            let force = self.index.is_none();
            self.schedule_refresh(false, force)
        } else {
            nothing()
        }
    }

    /// Gives up the pending load, with a message to who waits for it.
    fn cancel_explicit_load(&mut self, message: &str) -> (actions: Vec<Action<I>>)
        ensures
            final(self)@ == crate::session::cancelled(old(self)@, message@).state,
            crate::session::action_views(actions@) == crate::session::cancelled(
                old(self)@,
                message@,
            ).actions,
    {
        proof {
            reveal(crate::session::cancelled);
        }
        let mut pending: Option<RequestId> = None;
        std::mem::swap(&mut pending, &mut self.pending);
        let id = match pending {
            Some(id) => id,
            None => {
                return nothing();
            },
        };
        let shown = self.load_shown;
        self.revision = next_number(self.revision);
        self.load_shown = false;
        let error = RequestError::new(ErrorCode::RequestCanceled, message.to_owned());
        joined(
            maybe(shown, Action::EndProgress),
            both(
                Action::Record(Outcome::Cancelled),
                Action::Respond(id, LoadReply::Failed(error)),
            ),
        )
    }

    /// The workspace moved.
    fn drop_index(&mut self) -> (actions: Vec<Action<I>>)
        ensures
            final(self)@ == crate::session::moved(old(self)@).state,
            crate::session::action_views(actions@) == crate::session::moved(old(self)@).actions,
    {
        proof {
            reveal(crate::session::moved);
            reveal(crate::session::cancelled);
        }
        let index = self.take_index();
        let given_up = self.cancel_explicit_load("workspace moved while the index was loading");
        self.cache_hit = false;
        self.shards_verified = false;
        self.intent = RefreshIntent::AwaitingBuild;
        self.provenance_stale = true;
        self.refresh_again = false;
        self.revision = next_number(self.revision);
        self.cache_epoch = next_number(self.cache_epoch);
        joined(joined(retired(index), given_up), just(Action::NotifyStale))
    }

    /// Reacts to something changing on disk, without loading anything.
    pub fn on_file_change(&mut self, change: Change) -> (actions: Vec<Action<I>>)
        ensures
            final(self)@ == crate::session::noticed(old(self)@, change).state,
            crate::session::action_views(actions@) == crate::session::noticed(
                old(self)@,
                change,
            ).actions,
    {
        match change {
            Change::Index => {
                let force = self.intent == RefreshIntent::AwaitingBuild || self.index.is_none();
                self.intent = RefreshIntent::Retry;
                assert(self@ == (SessionView { intent: RefreshIntent::Retry, ..old(self)@ }));
                self.schedule_refresh(true, force)
            },
            Change::Workspace => self.drop_index(),
            Change::WatcherError => {
                if self.intent == RefreshIntent::AwaitingBuild {
                    return nothing();
                }
                self.shards_verified = false;
                self.intent = RefreshIntent::Retry;
                assert(self@ == (SessionView {
                    shards_verified: false,
                    intent: RefreshIntent::Retry,
                    ..old(self)@
                }));
                let force = self.index.is_none();
                self.schedule_refresh(true, force)
            },
        }
    }

    /// Notes what the index belongs to.
    fn update_provenance(&mut self, provenance: Option<CacheKey>)
        ensures
            final(self)@ == crate::session::belonging(
                old(self)@,
                crate::session::key_of(provenance),
            ),
    {
        let mut cache: Option<CacheState> = None;
        std::mem::swap(&mut cache, &mut self.cache);
        self.cache = match cache {
            Some(cache) => match &provenance {
                Some(key) => Some(
                    CacheState { root: cache.root, dir: cache.dir, key: key.copy() },
                ),
                None => Some(cache),
            },
            None => None,
        };
        self.provenance = provenance;
        self.provenance_stale = false;
    }

    /// Takes in that there are no shards.
    fn reconcile_empty(&mut self, shards: Vec<ShardMetadata>, provenance: Option<CacheKey>) -> (actions:
        Vec<Action<I>>)
        ensures
            ({
                let step = crate::session::reconciled(
                    old(self)@,
                    WorkView::Empty {
                        shards: crate::shard_set::identities(shards@),
                        provenance: crate::session::key_of(provenance),
                    },
                );
                &&& final(self)@ == step.state
                &&& crate::session::action_views(actions@) == step.actions
            }),
    {
        proof {
            reveal(crate::session::reconciled);
        }
        let index = self.take_index();
        self.shards = Some(shards);
        self.update_provenance(provenance);
        self.cache_hit = false;
        self.shards_verified = true;
        self.intent = RefreshIntent::Idle;
        self.cache_epoch = next_number(self.cache_epoch);
        joined(
            joined(retired(index), maybe(self.cache.is_some(), Action::InvalidateCache)),
            just(Action::NotifyStale),
        )
    }

    /// Takes in an index of the shards.
    fn reconcile_loaded(
        &mut self,
        index: I,
        shards: Vec<ShardMetadata>,
        provenance: Option<CacheKey>,
    ) -> (actions: Vec<Action<I>>)
        ensures
            ({
                let step = crate::session::reconciled(
                    old(self)@,
                    WorkView::Loaded {
                        index,
                        shards: crate::shard_set::identities(shards@),
                        provenance: crate::session::key_of(provenance),
                    },
                );
                &&& final(self)@ == step.state
                &&& crate::session::action_views(actions@) == step.actions
            }),
    {
        proof {
            reveal(crate::session::reconciled);
        }
        let old_index = self.take_index();
        let unavailable = old_index.is_none();
        self.index = Some(index);
        self.shards = Some(shards);
        self.update_provenance(provenance);
        self.shards_verified = true;
        self.intent = RefreshIntent::Idle;
        let cached = self.cache.is_some();
        let ticket: u64 = next_number(self.cache_epoch);
        if cached {
            self.cache_hit = false;
            self.cache_epoch = ticket;
        }
        joined(
            joined(
                joined(retired(old_index), just(Action::RefreshFreshness)),
                maybe(cached, Action::WriteCache { ticket }),
            ),
            maybe(unavailable, Action::RegisterProviders),
        )
    }

    /// Takes in what a worker found out for the current revision.
    fn reconcile(&mut self, work: RefreshWork<I>) -> (actions: Vec<Action<I>>)
        ensures
            final(self)@ == crate::session::reconciled(old(self)@, work@).state,
            crate::session::action_views(actions@) == crate::session::reconciled(
                old(self)@,
                work@,
            ).actions,
    {
        match work {
            RefreshWork::Unchanged { provenance } => {
                proof {
                    reveal(crate::session::reconciled);
                }
                self.update_provenance(provenance);
                self.shards_verified = self.index.is_some();
                self.intent = if self.index.is_some() {
                    RefreshIntent::Idle
                } else {
                    RefreshIntent::Retry
                };
                nothing()
            },
            RefreshWork::Empty { shards, provenance } => self.reconcile_empty(shards, provenance),
            RefreshWork::Loaded { index, shards, provenance } => self.reconcile_loaded(
                index,
                shards,
                provenance,
            ),
            RefreshWork::Failed => {
                proof {
                    reveal(crate::session::reconciled);
                }
                self.shards_verified = false;
                if self.intent != RefreshIntent::AwaitingBuild {
                    self.intent = RefreshIntent::Retry;
                }
                nothing()
            },
        }
    }

    /// A worker's refresh is done.
    pub fn on_refresh_result(&mut self, revision: u64, work: RefreshWork<I>) -> (actions: Vec<
        Action<I>,
    >)
        ensures
            final(self)@ == crate::session::refreshed(old(self)@, revision, work@).state,
            crate::session::action_views(actions@) == crate::session::refreshed(
                old(self)@,
                revision,
                work@,
            ).actions,
    {
        let shown = self.refresh_shown;
        self.refresh_running = false;
        self.refresh_shown = false;
        assert(self@ == (SessionView {
            refresh_running: false,
            refresh_shown: false,
            ..old(self)@
        }));
        let taken = if revision == self.revision {
            self.reconcile(work)
        } else {
            match work {
                RefreshWork::Loaded { index, .. } => retired(Some(index)),
                _ => retired(None),
            }
        };
        let queued = self.schedule_queued_refresh();
        joined(joined(maybe(shown, Action::EndProgress), taken), queued)
    }

    /// A client asks for a generation.
    pub fn schedule_explicit_load(&mut self, id: RequestId) -> (started: Result<
        Vec<Action<I>>,
        RequestError,
    >)
        ensures
            match (started, crate::session::load_requested(old(self)@, id@)) {
                (Ok(actions), Ok(step)) => final(self)@ == step.state
                    && crate::session::action_views(actions@) == step.actions,
                (Err(error), Err(view)) => error@ == view && final(self)@ == old(self)@,
                _ => false,
            },
    {
        if self.refresh_running || self.load_running {
            return Err(
                RequestError::new(
                    ErrorCode::RequestFailed,
                    "another index generation is already loading; retry when it completes".to_owned(),
                ),
            );
        }
        self.revision = next_number(self.revision);
        self.load_running = true;
        self.pending = Some(id);
        self.load_shown = self.supports_progress;
        Ok(
            joined(
                maybe(self.supports_progress, Action::ShowLoading),
                just(Action::StartLoad { revision: self.revision }),
            ),
        )
    }

    /// Installs a requested generation.
    fn install(&mut self, id: RequestId, generation: Generation<I>) -> (actions: Vec<Action<I>>)
        ensures
            final(self)@ == crate::session::installed(old(self)@, id@, generation@).state,
            crate::session::action_views(actions@) == crate::session::installed(
                old(self)@,
                id@,
                generation@,
            ).actions,
    {
        proof {
            reveal(crate::session::installed);
        }
        let Generation { path, index, shards, provenance, watched, shard_count, definitions } =
            generation;
        let old_index = self.take_index();
        let unavailable = old_index.is_none();
        self.index = Some(index);
        self.cache = None;
        self.cache_epoch = next_number(self.cache_epoch);
        self.cache_hit = false;
        self.shards_verified = true;
        self.shards = Some(shards);
        self.update_provenance(provenance);
        self.intent = RefreshIntent::Idle;
        self.index_dir = Some(path);
        self.watching = watched;
        let outcome = if definitions == 0 {
            Outcome::Empty { reason: EmptyReason::NoMatch }
        } else {
            Outcome::answered(definitions)
        };
        joined(
            joined(
                joined(
                    retired(old_index),
                    both(Action::RefreshFreshness, Action::TakeWatcher { watched }),
                ),
                maybe(unavailable, Action::RegisterProviders),
            ),
            both(
                Action::Record(outcome),
                Action::Respond(id, LoadReply::Loaded { shards: shard_count, definitions }),
            ),
        )
    }

    /// Answers the request that waits for a load.
    fn answer_load(
        &mut self,
        id: RequestId,
        revision: u64,
        result: Result<Generation<I>, RequestError>,
    ) -> (actions: Vec<Action<I>>)
        requires
            old(self)@.pending == Some(id@),
        ensures
            ({
                let step = crate::session::answered(
                    old(self)@,
                    id@,
                    revision,
                    crate::session::result_view(result),
                );
                &&& final(self)@ == step.state
                &&& crate::session::action_views(actions@) == step.actions
            }),
    {
        proof {
            reveal(crate::session::answered);
        }
        let shown = maybe(self.load_shown, Action::EndProgress);
        self.pending = None;
        self.load_shown = false;
        assert(self@ == (SessionView { pending: None, load_shown: false, ..old(self)@ }));
        if revision != self.revision {
            let thrown = match result {
                Ok(generation) => retired(Some(generation.index)),
                Err(_) => nothing(),
            };
            let error = RequestError::new(
                ErrorCode::ContentModified,
                "workspace changed while the index was loading; retry the request".to_owned(),
            );
            return joined(
                joined(shown, thrown),
                both(
                    Action::Record(Outcome::Cancelled),
                    Action::Respond(id, LoadReply::Failed(error)),
                ),
            );
        }
        match result {
            Ok(generation) => {
                let installed = self.install(id, generation);
                joined(shown, installed)
            },
            Err(error) => joined(
                shown,
                both(
                    Action::Record(Outcome::Failed { failure: Failure::Io }),
                    Action::Respond(id, LoadReply::Failed(error)),
                ),
            ),
        }
    }

    /// A worker's load is done.
    pub fn on_explicit_load_result(
        &mut self,
        id: RequestId,
        revision: u64,
        result: Result<Generation<I>, RequestError>,
    ) -> (actions: Vec<Action<I>>)
        ensures
            ({
                let step = crate::session::loaded(
                    old(self)@,
                    id@,
                    revision,
                    crate::session::result_view(result),
                );
                &&& final(self)@ == step.state
                &&& crate::session::action_views(actions@) == step.actions
            }),
    {
        self.load_running = false;
        assert(self@ == (SessionView { load_running: false, ..old(self)@ }));
        let wanted = match &self.pending {
            Some(pending) => pending.same(&id),
            None => false,
        };
        let first = if wanted {
            self.answer_load(id, revision, result)
        } else {
            match result {
                Ok(generation) => retired(Some(generation.index)),
                Err(_) => nothing(),
            }
        };
        let queued = self.schedule_queued_refresh();
        joined(first, queued)
    }

    /// Takes on an index that was found at startup.
    ///
    /// Takes the index by value rather than re-reading it: discovery already
    /// paid for the read.
    pub fn adopt_discovered(&mut self, found: Discovered<I>) -> (actions: Vec<Action<I>>)
        ensures
            final(self)@ == crate::session::adopted(old(self)@, found@).state,
            crate::session::action_views(actions@) == crate::session::adopted(
                old(self)@,
                found@,
            ).actions,
    {
        let Discovered { dir, index, shards, provenance, cache, cache_hit, verified } = found;
        let cached = cache.is_some();
        let old_index = self.take_index();
        self.index = Some(index);
        self.revision = next_number(self.revision);
        self.cache = cache;
        self.cache_hit = cache_hit;
        self.shards_verified = verified;
        self.shards = Some(shards);
        self.provenance = provenance;
        self.provenance_stale = false;
        self.intent = if verified {
            RefreshIntent::Idle
        } else {
            RefreshIntent::Retry
        };
        self.index_dir = Some(dir);
        let first = joined(
            retired(old_index),
            both(Action::RefreshFreshness, Action::StartWatching { shards: !cached }),
        );
        if cache_hit {
            let refresh = self.schedule_refresh(false, false);
            joined(first, refresh)
        } else if cached {
            self.cache_epoch = next_number(self.cache_epoch);
            joined(first, just(Action::WriteCache { ticket: self.cache_epoch }))
        } else {
            first
        }
    }

    /// Takes on an index that someone else loaded.
    pub fn adopt_index(&mut self, dir: String, index: I, provenance: Option<CacheKey>) -> (actions:
        Vec<Action<I>>)
        ensures
            ({
                let step = crate::session::taken_on(
                    old(self)@,
                    dir@,
                    index,
                    crate::session::key_of(provenance),
                );
                &&& final(self)@ == step.state
                &&& crate::session::action_views(actions@) == step.actions
            }),
    {
        let old_index = self.take_index();
        self.index = Some(index);
        self.revision = next_number(self.revision);
        self.cache_epoch = next_number(self.cache_epoch);
        self.cache = None;
        self.cache_hit = false;
        self.shards_verified = false;
        self.shards = None;
        self.intent = RefreshIntent::Retry;
        self.provenance = provenance;
        self.provenance_stale = false;
        self.index_dir = Some(dir);
        joined(
            retired(old_index),
            both(Action::RefreshFreshness, Action::StartWatching { shards: true }),
        )
    }

    /// Watching was started, or could not be.
    pub fn on_watching(&mut self, started: bool)
        ensures
            final(self)@ == crate::session::watched(old(self)@, started),
    {
        if started {
            self.watching = true;
        }
    }

    /// The client is going away: no request is served any more.
    pub fn on_shutdown(&mut self) -> (actions: Vec<Action<I>>)
        ensures
            final(self)@ == crate::session::shut_down(old(self)@).state,
            crate::session::action_views(actions@) == crate::session::shut_down(
                old(self)@,
            ).actions,
    {
        let given_up = self.cancel_explicit_load("server is shutting down");
        self.shutdown_requested = true;
        given_up
    }

    /// The index.
    pub fn index(&self) -> (index: Option<&I>)
        ensures
            match self@.index {
                Some(handle) => index == Some(&handle),
                None => index is None,
            },
    {
        match &self.index {
            Some(index) => Some(index),
            None => None,
        }
    }

    /// The shards that the index was built from.
    pub fn shards(&self) -> (shards: Option<&Vec<ShardMetadata>>)
        ensures
            (match shards {
                Some(shards) => Some(crate::shard_set::identities(shards@)),
                None => None,
            }) == self@.shards,
    {
        match &self.shards {
            Some(shards) => Some(shards),
            None => None,
        }
    }

    /// What the index belongs to.
    pub fn provenance(&self) -> (key: Option<CacheKey>)
        ensures
            crate::session::key_of(key) == self@.provenance,
    {
        copy_key(&self.provenance)
    }

    /// Whether what the index belongs to has to be found out anew.
    pub fn provenance_is_stale(&self) -> (stale: bool)
        ensures
            stale == self@.provenance_stale,
    {
        self.provenance_stale
    }

    /// Where and under which key the index is cached.
    pub fn cache(&self) -> (cache: Option<&CacheState>)
        ensures
            (match cache {
                Some(cache) => Some(cache@),
                None => None,
            }) == self@.cache,
    {
        match &self.cache {
            Some(cache) => Some(cache),
            None => None,
        }
    }

    /// The last ticket that was drawn for writing the cache.
    pub fn cache_epoch(&self) -> (epoch: u64)
        ensures
            epoch == self@.cache_epoch,
    {
        self.cache_epoch
    }

    /// What results have to be computed for to be installed.
    pub fn revision(&self) -> (revision: u64)
        ensures
            revision == self@.revision,
    {
        self.revision
    }

    /// Where the shards are.
    pub fn index_dir(&self) -> (dir: Option<&str>)
        ensures
            (match dir {
                Some(dir) => Some(dir@),
                None => None,
            }) == self@.index_dir,
    {
        match &self.index_dir {
            Some(dir) => Some(dir.as_str()),
            None => None,
        }
    }

    /// What the session waits for.
    pub fn intent(&self) -> (intent: RefreshIntent)
        ensures
            intent == self@.intent,
    {
        self.intent
    }

    /// Whether another refresh is due when the worker is done.
    pub fn refreshes_again(&self) -> (again: bool)
        ensures
            again == self@.refresh_again,
    {
        self.refresh_again
    }

    /// Whether a worker reconciles the shards.
    pub fn is_refreshing(&self) -> (refreshing: bool)
        ensures
            refreshing == self@.refresh_running,
    {
        self.refresh_running
    }

    /// Whether a worker builds a generation.
    pub fn is_loading(&self) -> (loading: bool)
        ensures
            loading == (self@.refresh_running || self@.load_running),
    {
        self.refresh_running || self.load_running
    }

    /// Whether the index came from the cache.
    pub fn is_cache_hit(&self) -> (hit: bool)
        ensures
            hit == self@.cache_hit,
    {
        self.cache_hit
    }

    /// Whether the index was compared with the shards.
    pub fn are_shards_verified(&self) -> (verified: bool)
        ensures
            verified == self@.shards_verified,
    {
        self.shards_verified
    }

    /// Whether anything is watched.
    pub fn is_watching(&self) -> (watching: bool)
        ensures
            watching == self@.watching,
    {
        self.watching
    }

    /// Whether the client is going away.
    pub fn is_shutting_down(&self) -> (yes: bool)
        ensures
            yes == self@.shutdown_requested,
    {
        self.shutdown_requested
    }

    /// How the shards are refreshed, in a word.
    pub fn refresh_mode(&self) -> (mode: &'static str)
        ensures
            mode@ == mode_of(self@),
    {
        if self.intent == RefreshIntent::AwaitingBuild {
            "awaiting-build"
        } else if self.cache.is_some() {
            "periodic"
        } else if self.intent == RefreshIntent::Retry {
            "retry"
        } else if self.watching {
            "watch"
        } else {
            "none"
        }
    }
}

/// How the shards are refreshed, in a word.
pub open spec fn mode_of<I>(s: SessionView<I>) -> Seq<char> {
    if s.intent is AwaitingBuild {
        "awaiting-build"@
    } else if s.cache is Some {
        "periodic"@
    } else if s.intent is Retry {
        "retry"@
    } else if s.watching {
        "watch"@
    } else {
        "none"@
    }
}

} // verus!
