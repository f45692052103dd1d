//! What each event does to a session, and what it has done.
use vstd::prelude::*;

use crate::index_cache::KeyView;
use crate::protocol::{ErrorView, RequestIdView};
use crate::session::{
    ActionView, FoundView, GenerationView, ReplyView, SessionView, WorkView,
};
use crate::shard_set::ShardIdentity;
use crate::telemetry::{EmptyReason, Failure, Outcome};
use crate::watcher::Change;

verus! {

/// A refresh that brought an index for the current revision installs it, with
/// its shards and what it belongs to: it is verified and nothing is to be tried
/// again. The files are looked at anew, the cache is written where there is one,
/// and the client is told of the queries where it had none.
pub proof fn a_current_refresh_is_installed<I>(
    s: SessionView<I>,
    index: I,
    shards: Seq<ShardIdentity>,
    provenance: Option<KeyView>,
)
    requires
        !s.refresh_again,
    ensures
        ({
            let step = crate::session::refreshed(
                s,
                s.revision,
                WorkView::Loaded { index, shards, provenance },
            );
            &&& step.state.index == Some(index)
            &&& step.state.shards == Some(shards)
            &&& step.state.provenance == provenance
            &&& step.state.shards_verified
            &&& step.state.intent is Idle
            &&& !step.state.provenance_stale
            &&& !step.state.refresh_running
            &&& !step.state.refresh_shown
            &&& step.state.revision == s.revision
            &&& step.state.index_dir == s.index_dir
            &&& s.cache is Some ==> !step.state.cache_hit
            &&& s.index matches Some(old) ==> step.actions.contains(ActionView::Retire(old))
            &&& step.actions.contains(ActionView::RefreshFreshness)
            &&& s.refresh_shown ==> step.actions.contains(ActionView::EndProgress)
            &&& s.index is None <==> step.actions.contains(ActionView::RegisterProviders)
            &&& s.cache is Some ==> step.actions.contains(
                ActionView::WriteCache { ticket: step.state.cache_epoch },
            )
            &&& s.cache is None ==> forall|ticket: u64|
                !#[trigger] step.actions.contains(ActionView::WriteCache { ticket })
        }),
{
    reveal(crate::session::reconciled);
    reveal(crate::session::resumed);
    let work = WorkView::Loaded { index, shards, provenance };
    let step = crate::session::refreshed(s, s.revision, work);
    let shown = crate::session::if_so(s.refresh_shown, ActionView::<I>::EndProgress);
    let retired = crate::session::retiring(s.index);
    let write = crate::session::if_so(
        s.cache is Some,
        ActionView::<I>::WriteCache { ticket: crate::session::following(s.cache_epoch) },
    );
    let tell = crate::session::if_so(s.index is None, ActionView::<I>::RegisterProviders);
    let fresh = seq![ActionView::<I>::RefreshFreshness];
    assert(step.actions =~= shown + retired + fresh + write + tell);
    let n = shown.len() + retired.len() as int;
    assert(step.actions[n] == ActionView::<I>::RefreshFreshness);
    if s.refresh_shown {
        assert(step.actions[0] == ActionView::<I>::EndProgress);
    }
    if s.index is None {
        assert(step.actions[n + 1 + write.len()] == ActionView::<I>::RegisterProviders);
    } else {
        assert(step.actions[shown.len() as int] == ActionView::Retire(s.index->0));
    }
    if s.cache is Some {
        assert(step.actions[n + 1] == write[0]);
    }
}

/// A refresh that found no definitions drops the index and what was cached of
/// it, and says so. One that found the same shards keeps the index.
pub proof fn an_empty_refresh_drops_the_index<I>(
    s: SessionView<I>,
    shards: Seq<ShardIdentity>,
    provenance: Option<KeyView>,
)
    requires
        !s.refresh_again,
    ensures
        ({
            let step = crate::session::refreshed(
                s,
                s.revision,
                WorkView::Empty { shards, provenance },
            );
            &&& step.state.index is None
            &&& step.state.shards == Some(shards)
            &&& step.state.shards_verified
            &&& step.state.intent is Idle
            &&& !step.state.cache_hit
            &&& step.actions.contains(ActionView::NotifyStale)
            &&& s.index matches Some(old) ==> step.actions.contains(ActionView::Retire(old))
            &&& s.cache is Some ==> step.actions.contains(ActionView::InvalidateCache)
        }),
        ({
            let step = crate::session::refreshed(s, s.revision, WorkView::Unchanged { provenance });
            &&& step.state.index == s.index
            &&& step.state.shards == s.shards
            &&& step.state.provenance == provenance
            &&& s.index is Some ==> step.state.shards_verified && step.state.intent is Idle
            &&& s.index is None ==> !step.state.shards_verified && step.state.intent is Retry
        }),
        ({
            let step = crate::session::refreshed(s, s.revision, WorkView::Failed);
            &&& step.state.index == s.index
            &&& !step.state.shards_verified
            &&& s.intent is AwaitingBuild ==> step.state.intent is AwaitingBuild
            &&& !(s.intent is AwaitingBuild) ==> step.state.intent is Retry
        }),
{
    reveal(crate::session::reconciled);
    reveal(crate::session::resumed);
    let step = crate::session::refreshed(s, s.revision, WorkView::Empty { shards, provenance });
    let shown = crate::session::if_so(s.refresh_shown, ActionView::<I>::EndProgress);
    let retired = crate::session::retiring(s.index);
    let drop = crate::session::if_so(s.cache is Some, ActionView::<I>::InvalidateCache);
    assert(step.actions =~= shown + retired + drop + seq![ActionView::<I>::NotifyStale]);
    let n = shown.len() + retired.len() as int;
    assert(step.actions[n + drop.len()] == ActionView::<I>::NotifyStale);
    if s.index is Some {
        assert(step.actions[shown.len() as int] == ActionView::Retire(s.index->0));
    }
    if s.cache is Some {
        assert(step.actions[n] == ActionView::<I>::InvalidateCache);
    }
}

/// Where a directory is known and no worker runs, changed shards start a
/// refresh for a new revision: a forced one where there is no index or a build
/// was awaited.
pub proof fn changed_shards_are_refreshed<I>(s: SessionView<I>)
    requires
        s.index_dir is Some,
        !s.load_running,
        !s.refresh_running,
        s.revision < u64::MAX,
    ensures
        ({
            let step = crate::session::noticed(s, Change::Index);
            &&& step.state.refresh_running
            &&& step.state.intent is Retry
            &&& step.state.revision == s.revision + 1
            &&& step.state.index == s.index
            &&& step.actions.contains(
                ActionView::StartRefresh {
                    revision: step.state.revision,
                    force: s.index is None || s.intent is AwaitingBuild,
                },
            )
            &&& s.supports_progress ==> step.actions.contains(ActionView::ShowReloading)
        }),
        s.cache is Some && !(s.intent is AwaitingBuild) ==> {
            let step = crate::session::ticked(s);
            &&& step.state.refresh_running
            &&& step.state.revision == s.revision + 1
            &&& step.actions.contains(
                ActionView::StartRefresh {
                    revision: step.state.revision,
                    force: s.index is None,
                },
            )
        },
        s.intent is Retry ==> crate::session::ticked(s).state.refresh_running,
{
    reveal(crate::session::scheduled);
    let t = SessionView { intent: crate::session::RefreshIntent::Retry, ..s };
    let force = s.intent is AwaitingBuild || s.index is None;
    let step = crate::session::scheduled(t, true, force);
    let shown = crate::session::if_so(s.supports_progress, ActionView::<I>::ShowReloading);
    assert(step.actions[shown.len() as int] == ActionView::<I>::StartRefresh {
        revision: step.state.revision,
        force,
    });
    if s.supports_progress {
        assert(step.actions[0] == ActionView::<I>::ShowReloading);
    }
    let tick = crate::session::scheduled(s, false, s.index is None);
    assert(tick.actions[shown.len() as int] == ActionView::<I>::StartRefresh {
        revision: tick.state.revision,
        force: s.index is None,
    });
}

/// Shards that change while a worker runs are refreshed once it is done: the
/// change is noted, and starts nothing yet. What a refresh computes for the
/// state before is no longer wanted.
pub proof fn changes_during_work_are_noted<I>(s: SessionView<I>)
    requires
        s.index_dir is Some,
        s.load_running || s.refresh_running,
    ensures
        ({
            let step = crate::session::noticed(s, Change::Index);
            &&& step.state.refresh_again
            &&& step.actions.len() == 0
            &&& step.state.refresh_running == s.refresh_running
            &&& step.state.load_running == s.load_running
            &&& !s.load_running ==> step.state.revision != s.revision
        }),
{
    reveal(crate::session::scheduled);
}

/// A client that asks for a generation is refused while one is being built, and
/// otherwise a worker starts on it for a new revision and the client waits.
pub proof fn loads_wait_for_their_worker<I>(s: SessionView<I>, id: RequestIdView)
    requires
        s.revision < u64::MAX,
    ensures
        match crate::session::load_requested(s, id) {
            Ok(step) => {
                &&& !s.refresh_running && !s.load_running
                &&& step.state.load_running
                &&& step.state.pending == Some(id)
                &&& step.state.revision == s.revision + 1
                &&& step.state.index == s.index
                &&& step.actions.contains(ActionView::StartLoad { revision: step.state.revision })
                &&& s.supports_progress ==> step.actions.contains(ActionView::ShowLoading)
            },
            Err(error) => {
                &&& s.refresh_running || s.load_running
                &&& crate::protocol::code_number(error.code) == -32803
            },
        },
{
    if let Ok(step) = crate::session::load_requested(s, id) {
        let shown = crate::session::if_so(s.supports_progress, ActionView::<I>::ShowLoading);
        assert(step.actions[shown.len() as int] == ActionView::<I>::StartLoad {
            revision: step.state.revision,
        });
        if s.supports_progress {
            assert(step.actions[0] == ActionView::<I>::ShowLoading);
        }
    }
}

/// A load that ended for the current revision is answered with what came of it:
/// the generation is installed and counted, or its error is passed on.
pub proof fn current_loads_are_answered<I>(
    s: SessionView<I>,
    id: RequestIdView,
    result: Result<GenerationView<I>, ErrorView>,
)
    requires
        s.pending == Some(id),
        !s.refresh_again,
    ensures
        ({
            let step = crate::session::loaded(s, id, s.revision, result);
            &&& step.state.pending is None
            &&& !step.state.load_running
            &&& !step.state.load_shown
            &&& s.load_shown ==> step.actions.contains(ActionView::EndProgress)
            &&& match result {
                Ok(generation) => {
                    &&& step.state.index == Some(generation.index)
                    &&& step.state.shards == Some(generation.shards)
                    &&& step.state.provenance == generation.provenance
                    &&& step.state.index_dir == Some(generation.path)
                    &&& step.state.watching == generation.watched
                    &&& step.state.shards_verified
                    &&& step.state.intent is Idle
                    &&& step.state.cache is None
                    &&& step.actions.contains(ActionView::RefreshFreshness)
                    &&& step.actions.contains(
                        ActionView::TakeWatcher { watched: generation.watched },
                    )
                    &&& s.index is None ==> step.actions.contains(ActionView::RegisterProviders)
                    &&& step.actions.contains(
                        ActionView::Respond(
                            id,
                            ReplyView::Loaded {
                                shards: generation.shard_count,
                                definitions: generation.definitions,
                            },
                        ),
                    )
                    &&& generation.definitions > 0 ==> step.actions.contains(
                        ActionView::Record(
                            Outcome::Answered {
                                returned: generation.definitions,
                                total: generation.definitions,
                            },
                        ),
                    )
                    &&& generation.definitions == 0 ==> step.actions.contains(
                        ActionView::Record(Outcome::Empty { reason: EmptyReason::NoMatch }),
                    )
                },
                Err(error) => {
                    &&& step.state.index == s.index
                    &&& step.actions.contains(
                        ActionView::Respond(id, ReplyView::Failed(error)),
                    )
                    &&& step.actions.contains(
                        ActionView::Record(Outcome::Failed { failure: Failure::Io }),
                    )
                },
            }
        }),
{
    reveal(crate::session::answered);
    reveal(crate::session::resumed);
    reveal(crate::session::installed);
    let step = crate::session::loaded(s, id, s.revision, result);
    let shown = crate::session::if_so(s.load_shown, ActionView::<I>::EndProgress);
    if s.load_shown {
        assert(shown[0] == ActionView::<I>::EndProgress);
        assert(step.actions[0] == ActionView::<I>::EndProgress);
    }
    match result {
        Ok(generation) => {
            let retired = crate::session::retiring(s.index);
            let tell = crate::session::if_so(s.index is None, ActionView::<I>::RegisterProviders);
            let n = shown.len() + retired.len() as int;
            let record = ActionView::<I>::Record(
                crate::session::build_outcome(generation.definitions),
            );
            let respond = ActionView::<I>::Respond(
                id,
                ReplyView::Loaded {
                    shards: generation.shard_count,
                    definitions: generation.definitions,
                },
            );
            assert(step.actions =~= shown + retired + seq![
                ActionView::<I>::RefreshFreshness,
                ActionView::<I>::TakeWatcher { watched: generation.watched },
            ] + tell + seq![record, respond]);
            assert(step.actions[n] == ActionView::<I>::RefreshFreshness);
            assert(step.actions[n + 1] == ActionView::<I>::TakeWatcher {
                watched: generation.watched,
            });
            if s.index is None {
                assert(step.actions[n + 2] == ActionView::<I>::RegisterProviders);
            }
            assert(step.actions[n + 2 + tell.len()] == record);
            assert(step.actions[n + 3 + tell.len()] == respond);
        },
        Err(error) => {
            let n = shown.len() as int;
            let record = ActionView::<I>::Record(Outcome::Failed { failure: Failure::Io });
            let respond = ActionView::<I>::Respond(id, ReplyView::Failed(error));
            assert(step.actions =~= shown + seq![record, respond]);
            assert(step.actions[n] == record);
            assert(step.actions[n + 1] == respond);
        },
    }
}

/// A load that ended for an older revision is answered with a request to try
/// again, and what it brought is reclaimed.
pub proof fn outdated_loads_are_refused<I>(
    s: SessionView<I>,
    id: RequestIdView,
    revision: u64,
    result: Result<GenerationView<I>, ErrorView>,
)
    requires
        s.pending == Some(id),
        !s.refresh_again,
        revision != s.revision,
    ensures
        ({
            let step = crate::session::loaded(s, id, revision, result);
            &&& step.state.index == s.index
            &&& step.state.pending is None
            &&& step.actions.last() matches ActionView::Respond(to, ReplyView::Failed(error))
                && to == id && crate::protocol::code_number(error.code) == -32801
            &&& step.actions.contains(ActionView::Record(Outcome::Cancelled))
            &&& result matches Ok(generation) ==> step.actions.contains(
                ActionView::Retire(generation.index),
            )
        }),
{
    reveal(crate::session::answered);
    reveal(crate::session::resumed);
    let step = crate::session::loaded(s, id, revision, result);
    let t = SessionView { load_running: false, ..s };
    let given = crate::session::answered(t, id, revision, result);
    assert(step.actions =~= given.actions);
    let n = given.actions.len() as int;
    assert(given.actions[n - 2] == ActionView::<I>::Record(Outcome::Cancelled));
    if let Ok(generation) = result {
        let shown = crate::session::if_so(s.load_shown, ActionView::<I>::EndProgress);
        assert(given.actions[shown.len() as int] == ActionView::Retire(generation.index));
    }
}

/// Who waits for a load when the workspace moves or the server shuts down is
/// told that the request was cancelled.
pub proof fn waiting_loads_are_cancelled<I>(s: SessionView<I>, id: RequestIdView)
    requires
        s.pending == Some(id),
    ensures
        ({
            let step = crate::session::shut_down(s);
            &&& step.state.shutdown_requested
            &&& step.state.pending is None
            &&& step.state.index == s.index
            &&& step.actions.last() matches ActionView::Respond(to, ReplyView::Failed(error))
                && to == id && crate::protocol::code_number(error.code) == -32800
        }),
        ({
            let step = crate::session::noticed(s, Change::Workspace);
            &&& step.state.pending is None
            &&& step.actions.last() is NotifyStale
            &&& step.actions[step.actions.len() - 2] matches ActionView::Respond(
                to,
                ReplyView::Failed(error),
            ) && to == id && crate::protocol::code_number(error.code) == -32800
        }),
{
    reveal(crate::session::cancelled);
    reveal(crate::session::moved);
}

/// An index found at startup is taken on with all that belongs to it. One from
/// the cache is compared with its shards at once; one that was read from shards
/// is cached where there is a place for it; and the shards are watched where
/// nothing is cached.
pub proof fn found_indexes_are_taken_on<I>(s: SessionView<I>, found: FoundView<I>)
    requires
        !s.refresh_running,
        !s.load_running,
        s.revision < u64::MAX,
        found.cache_hit ==> found.cache is Some,
    ensures
        ({
            let step = crate::session::adopted(s, found);
            &&& step.state.index == Some(found.index)
            &&& step.state.shards == Some(found.shards)
            &&& step.state.provenance == found.provenance
            &&& step.state.index_dir == Some(found.dir)
            &&& step.state.cache == found.cache
            &&& step.state.cache_hit == found.cache_hit
            &&& step.state.shards_verified == found.verified
            &&& found.verified ==> step.state.intent is Idle
            &&& !found.verified ==> step.state.intent is Retry
            &&& step.state.revision > s.revision || found.cache_hit
            &&& s.index matches Some(old) ==> step.actions.contains(ActionView::Retire(old))
            &&& step.actions.contains(ActionView::RefreshFreshness)
            &&& step.actions.contains(ActionView::StartWatching { shards: found.cache is None })
            &&& found.cache_hit ==> step.state.refresh_running
            &&& !found.cache_hit ==> !step.state.refresh_running
            &&& !found.cache_hit && found.cache is Some ==> step.actions.contains(
                ActionView::WriteCache { ticket: step.state.cache_epoch },
            )
        }),
{
    reveal(crate::session::scheduled);
    let step = crate::session::adopted(s, found);
    let retired = crate::session::retiring(s.index);
    let n = retired.len() as int;
    assert(step.actions[n] == ActionView::<I>::RefreshFreshness);
    assert(step.actions[n + 1] == ActionView::<I>::StartWatching { shards: found.cache is None });
    if s.index is Some {
        assert(step.actions[0] == ActionView::Retire(s.index->0));
    }
    if !found.cache_hit && found.cache is Some {
        assert(step.actions[n + 2] == ActionView::<I>::WriteCache {
            ticket: step.state.cache_epoch,
        });
    }
}

/// What was noted while a worker ran is due once it is done: a refresh starts,
/// unless a build is awaited. Where nothing was noted, nothing starts.
pub proof fn noted_changes_are_refreshed<I>(s: SessionView<I>)
    requires
        s.index_dir is Some,
        !s.load_running,
        !s.refresh_running,
        s.revision < u64::MAX,
    ensures
        ({
            let step = crate::session::resumed(s);
            &&& !step.state.refresh_again
            &&& s.refresh_again && !(s.intent is AwaitingBuild) ==> step.state.refresh_running
                && step.state.revision == s.revision + 1 && step.actions.contains(
                ActionView::StartRefresh {
                    revision: step.state.revision,
                    force: s.index is None,
                },
            )
            &&& !s.refresh_again || s.intent is AwaitingBuild ==> !step.state.refresh_running
                && step.actions.len() == 0
        }),
{
    reveal(crate::session::resumed);
    reveal(crate::session::scheduled);
    let step = crate::session::resumed(s);
    if s.refresh_again && !(s.intent is AwaitingBuild) {
        let shown = crate::session::if_so(s.supports_progress, ActionView::<I>::ShowReloading);
        assert(step.actions[shown.len() as int] == ActionView::<I>::StartRefresh {
            revision: step.state.revision,
            force: s.index is None,
        });
    }
}

/// An index that someone else loaded is taken on unverified, with nothing known
/// of its shards, and is compared with them when the timer fires.
pub proof fn given_indexes_are_unverified<I>(
    s: SessionView<I>,
    dir: Seq<char>,
    index: I,
    provenance: Option<KeyView>,
)
    ensures
        ({
            let step = crate::session::taken_on(s, dir, index, provenance);
            &&& step.state.index == Some(index)
            &&& step.state.index_dir == Some(dir)
            &&& step.state.provenance == provenance
            &&& step.state.shards is None
            &&& step.state.cache is None
            &&& !step.state.shards_verified
            &&& !step.state.cache_hit
            &&& step.state.intent is Retry
            &&& step.actions.last() == ActionView::<I>::StartWatching { shards: true }
            &&& s.index matches Some(old) ==> step.actions[0] == ActionView::Retire(old)
        }),
{
}

} // verus!
