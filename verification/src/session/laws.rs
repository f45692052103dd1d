//! What holds of every session, whatever happens in which order.
use vstd::prelude::*;

use crate::index_cache::KeyView;
use crate::protocol::{ErrorView, RequestIdView};
use crate::session::{
    ActionView, FoundView, GenerationView, RefreshIntent, SessionView, Step, WorkView,
};
use crate::watcher::Change;

verus! {

/// Something that happens to a session.
pub enum Event<I> {
    Tick,
    Changed(Change),
    Refreshed(u64, WorkView<I>),
    LoadRequested(RequestIdView),
    Loaded(RequestIdView, u64, Result<GenerationView<I>, ErrorView>),
    Discovered(FoundView<I>),
    Given(Seq<char>, I, Option<KeyView>),
    Watched(bool),
    Shutdown,
}

/// What an event leads to. A refused request leads to nothing but its refusal.
pub open spec fn next<I>(s: SessionView<I>, event: Event<I>) -> Step<I> {
    match event {
        Event::Tick => crate::session::ticked(s),
        Event::Changed(change) => crate::session::noticed(s, change),
        Event::Refreshed(revision, work) => crate::session::refreshed(s, revision, work),
        Event::LoadRequested(id) => match crate::session::load_requested(s, id) {
            Ok(step) => step,
            Err(_) => Step { state: s, actions: Seq::empty() },
        },
        Event::Loaded(id, revision, result) => crate::session::loaded(s, id, revision, result),
        Event::Discovered(found) => crate::session::adopted(s, found),
        Event::Given(dir, index, provenance) => crate::session::taken_on(
            s,
            dir,
            index,
            provenance,
        ),
        Event::Watched(started) => Step {
            state: crate::session::watched(s, started),
            actions: Seq::empty(),
        },
        Event::Shutdown => crate::session::shut_down(s),
    }
}

/// One where a condition holds.
pub open spec fn one_if(condition: bool) -> int {
    if condition {
        1
    } else {
        0
    }
}

/// How many workers build a generation.
pub open spec fn workers<I>(s: SessionView<I>) -> int {
    one_if(s.refresh_running) + one_if(s.load_running)
}

/// How many workers an event takes away: the one whose result comes.
pub open spec fn finished<I>(event: Event<I>) -> int {
    one_if(event is Refreshed || event is Loaded)
}

/// Whether an event can happen: results come only from workers that run.
pub open spec fn possible<I>(s: SessionView<I>, event: Event<I>) -> bool {
    &&& event is Refreshed ==> s.refresh_running
    &&& event is Loaded ==> s.load_running
}

/// What an action counts for when workers are counted.
pub open spec fn starts_worker<I>(action: ActionView<I>) -> bool {
    action is StartRefresh || action is StartLoad
}

/// How many workers some actions start.
pub open spec fn started<I>(actions: Seq<ActionView<I>>) -> int
    decreases actions.len(),
{
    if actions.len() == 0 {
        0
    } else {
        started(actions.drop_last()) + one_if(starts_worker(actions.last()))
    }
}

/// How many requests some actions answer.
pub open spec fn responses<I>(actions: Seq<ActionView<I>>) -> int
    decreases actions.len(),
{
    if actions.len() == 0 {
        0
    } else {
        responses(actions.drop_last()) + one_if(actions.last() is Respond)
    }
}

/// Lists one behind the other start and answer as much as both.
proof fn lemma_sums<I>(a: Seq<ActionView<I>>, b: Seq<ActionView<I>>)
    ensures
        started(a + b) == started(a) + started(b),
        responses(a + b) == responses(a) + responses(b),
    decreases b.len(),
{
    if b.len() == 0 {
        assert(a + b =~= a);
    } else {
        assert((a + b).drop_last() =~= a + b.drop_last());
        lemma_sums(a, b.drop_last());
    }
}

/// What a list of one action starts and answers.
proof fn lemma_single<I>(action: ActionView<I>)
    ensures
        started(seq![action]) == one_if(starts_worker(action)),
        responses(seq![action]) == one_if(action is Respond),
{
    reveal_with_fuel(started, 2);
    reveal_with_fuel(responses, 2);
    assert(seq![action].drop_last() =~= Seq::<ActionView<I>>::empty());
}

/// What a list of two actions starts and answers.
proof fn lemma_pair<I>(first: ActionView<I>, second: ActionView<I>)
    ensures
        started(seq![first, second]) == one_if(starts_worker(first)) + one_if(
            starts_worker(second),
        ),
        responses(seq![first, second]) == one_if(first is Respond) + one_if(second is Respond),
{
    assert(seq![first, second].drop_last() =~= seq![first]);
    lemma_single(first);
}

/// What an action that may apply starts and answers.
proof fn lemma_if_so<I>(applies: bool, action: ActionView<I>)
    ensures
        started(crate::session::if_so(applies, action)) == one_if(applies && starts_worker(action)),
        responses(crate::session::if_so(applies, action)) == one_if(applies && action is Respond),
{
    lemma_single(action);
}

/// Retiring an index starts and answers nothing.
proof fn lemma_retiring<I>(index: Option<I>)
    ensures
        started(crate::session::retiring(index)) == 0,
        responses(crate::session::retiring(index)) == 0,
{
    if let Some(handle) = index {
        lemma_single(ActionView::Retire(handle));
    }
}

/// Asking for a refresh starts a worker where none runs, and answers nothing.
proof fn lemma_scheduled<I>(s: SessionView<I>, changed: bool, force: bool)
    ensures
        ({
            let step = crate::session::scheduled(s, changed, force);
            &&& workers(step.state) == workers(s) + started(step.actions)
            &&& workers(s) > 0 ==> started(step.actions) == 0
            &&& started(step.actions) <= 1
            &&& responses(step.actions) == 0
            &&& step.state.pending == s.pending
            &&& step.state.index == s.index
            &&& step.state.shards == s.shards
            &&& step.state.intent == s.intent
            &&& step.state.load_running == s.load_running
        }),
{
    reveal(crate::session::scheduled);
    let first = crate::session::if_so(s.supports_progress, ActionView::<I>::ShowReloading);
    let second = ActionView::<I>::StartRefresh {
        revision: crate::session::following(s.revision),
        force,
    };
    lemma_if_so(s.supports_progress, ActionView::<I>::ShowReloading);
    lemma_single(second);
    lemma_sums(first, seq![second]);
}

/// Doing what was noted for later starts a worker where none runs.
proof fn lemma_resumed<I>(s: SessionView<I>)
    ensures
        ({
            let step = crate::session::resumed(s);
            &&& workers(step.state) == workers(s) + started(step.actions)
            &&& workers(s) > 0 ==> started(step.actions) == 0
            &&& started(step.actions) <= 1
            &&& responses(step.actions) == 0
            &&& step.state.pending == s.pending
            &&& step.state.index == s.index
            &&& step.state.shards == s.shards
            &&& step.state.intent == s.intent
            &&& s.intent is AwaitingBuild ==> step.actions.len() == 0
        }),
{
    reveal(crate::session::resumed);
    let t = SessionView { refresh_again: false, ..s };
    lemma_scheduled(t, false, s.index is None);
}

/// Giving up a load answers who waits for it.
proof fn lemma_cancelled<I>(s: SessionView<I>, message: Seq<char>)
    ensures
        ({
            let step = crate::session::cancelled(s, message);
            &&& workers(step.state) == workers(s)
            &&& started(step.actions) == 0
            &&& responses(step.actions) == one_if(s.pending is Some)
            &&& step.state.pending is None
            &&& step.state.index == s.index
            &&& step.state.shards == s.shards
            &&& step.state.intent == s.intent
        }),
{
    reveal(crate::session::cancelled);
    if let Some(id) = s.pending {
        let first = crate::session::if_so(s.load_shown, ActionView::<I>::EndProgress);
        let a = ActionView::<I>::Record(crate::telemetry::Outcome::Cancelled);
        let b = ActionView::<I>::Respond(
            id,
            crate::session::ReplyView::Failed(
                ErrorView { code: crate::protocol::ErrorCode::RequestCanceled, message },
            ),
        );
        lemma_if_so(s.load_shown, ActionView::<I>::EndProgress);
        lemma_pair(a, b);
        lemma_sums(first, seq![a, b]);
    }
}

/// Taking in a worker's result starts and answers nothing.
proof fn lemma_reconciled<I>(s: SessionView<I>, work: WorkView<I>)
    ensures
        ({
            let step = crate::session::reconciled(s, work);
            &&& workers(step.state) == workers(s)
            &&& started(step.actions) == 0
            &&& responses(step.actions) == 0
            &&& step.state.pending == s.pending
        }),
{
    reveal(crate::session::reconciled);
    lemma_retiring(s.index);
    match work {
        WorkView::Empty { .. } => {
            let a = crate::session::retiring(s.index);
            let b = crate::session::if_so(s.cache is Some, ActionView::<I>::InvalidateCache);
            lemma_if_so(s.cache is Some, ActionView::<I>::InvalidateCache);
            lemma_single(ActionView::<I>::NotifyStale);
            lemma_sums(a, b);
            lemma_sums(a + b, seq![ActionView::<I>::NotifyStale]);
        },
        WorkView::Loaded { .. } => {
            let a = crate::session::retiring(s.index);
            let b = seq![ActionView::<I>::RefreshFreshness];
            let write = ActionView::<I>::WriteCache {
                ticket: crate::session::following(s.cache_epoch),
            };
            let c = crate::session::if_so(s.cache is Some, write);
            let d = crate::session::if_so(s.index is None, ActionView::<I>::RegisterProviders);
            lemma_single(ActionView::<I>::RefreshFreshness);
            lemma_if_so(s.cache is Some, write);
            lemma_if_so(s.index is None, ActionView::<I>::RegisterProviders);
            lemma_sums(a, b);
            lemma_sums(a + b, c);
            lemma_sums(a + b + c, d);
        },
        _ => {},
    }
}

/// Answering a load answers once.
proof fn lemma_answered<I>(
    s: SessionView<I>,
    id: RequestIdView,
    revision: u64,
    result: Result<GenerationView<I>, ErrorView>,
)
    ensures
        ({
            let step = crate::session::answered(s, id, revision, result);
            &&& workers(step.state) == workers(s)
            &&& started(step.actions) == 0
            &&& responses(step.actions) == 1
            &&& step.state.pending is None
            &&& revision != s.revision ==> step.state.index == s.index && step.state.shards
                == s.shards && step.state.intent == s.intent
        }),
{
    reveal(crate::session::answered);
    reveal(crate::session::installed);
    let shown = crate::session::if_so(s.load_shown, ActionView::<I>::EndProgress);
    lemma_if_so(s.load_shown, ActionView::<I>::EndProgress);
    if revision != s.revision {
        let thrown = crate::session::thrown_away(result);
        if let Ok(generation) = result {
            lemma_retiring(Some(generation.index));
        }
        let a = ActionView::<I>::Record(crate::telemetry::Outcome::Cancelled);
        let b = ActionView::<I>::Respond(
            id,
            crate::session::ReplyView::Failed(
                ErrorView {
                    code: crate::protocol::ErrorCode::ContentModified,
                    message: "workspace changed while the index was loading; retry the request"@,
                },
            ),
        );
        lemma_pair(a, b);
        lemma_sums(shown, thrown);
        lemma_sums(shown + thrown, seq![a, b]);
    } else {
        match result {
            Ok(generation) => {
                let t = SessionView { pending: None, load_shown: false, ..s };
                let step = crate::session::installed(t, id, generation);
                let p = crate::session::retiring(t.index);
                let x = ActionView::<I>::RefreshFreshness;
                let y = ActionView::<I>::TakeWatcher { watched: generation.watched };
                let q = crate::session::if_so(t.index is None, ActionView::<I>::RegisterProviders);
                let a = ActionView::<I>::Record(
                    crate::session::build_outcome(generation.definitions),
                );
                let b = ActionView::<I>::Respond(
                    id,
                    crate::session::ReplyView::Loaded {
                        shards: generation.shard_count,
                        definitions: generation.definitions,
                    },
                );
                lemma_retiring(t.index);
                lemma_pair(x, y);
                lemma_if_so(t.index is None, ActionView::<I>::RegisterProviders);
                lemma_pair(a, b);
                lemma_sums(p, seq![x, y]);
                lemma_sums(p + seq![x, y], q);
                lemma_sums(p + seq![x, y] + q, seq![a, b]);
                lemma_sums(shown, step.actions);
            },
            Err(error) => {
                let a = ActionView::<I>::Record(
                    crate::telemetry::Outcome::Failed { failure: crate::telemetry::Failure::Io },
                );
                let b = ActionView::<I>::Respond(id, crate::session::ReplyView::Failed(error));
                lemma_pair(a, b);
                lemma_sums(shown, seq![a, b]);
            },
        }
    }
}

/// At most one worker builds a generation at a time, and the session knows how
/// many do: after every event, as many run as ran before, less the one that is
/// done, and those that were started.
pub proof fn at_most_one_worker_runs<I>(s: SessionView<I>, event: Event<I>)
    requires
        workers(s) <= 1,
        possible(s, event),
    ensures
        ({
            let step = next(s, event);
            &&& workers(step.state) == workers(s) - finished(event) + started(step.actions)
            &&& workers(step.state) <= 1
        }),
{
    lemma_counts(s, event);
}

/// Every accepted request for a generation is answered exactly once: after every
/// event, as many wait as waited before, one more where a request was accepted,
/// less those that were answered.
pub proof fn every_load_is_answered_once<I>(s: SessionView<I>, event: Event<I>)
    requires
        workers(s) <= 1,
        possible(s, event),
        s.pending is Some ==> s.load_running,
    ensures
        ({
            let step = next(s, event);
            let accepted = event matches Event::LoadRequested(id)
                && crate::session::load_requested(s, id) is Ok;
            &&& one_if(step.state.pending is Some) == one_if(s.pending is Some) + one_if(accepted)
                - responses(step.actions)
            &&& s.pending is Some && step.state.pending is Some ==> step.state.pending == s.pending
        }),
{
    lemma_counts(s, event);
}

/// The two laws above, and what they need of each other.
proof fn lemma_counts<I>(s: SessionView<I>, event: Event<I>)
    requires
        workers(s) <= 1,
        possible(s, event),
    ensures
        ({
            let step = next(s, event);
            let accepted = event matches Event::LoadRequested(id)
                && crate::session::load_requested(s, id) is Ok;
            &&& workers(step.state) == workers(s) - finished(event) + started(step.actions)
            &&& workers(step.state) <= 1
            &&& (s.pending is Some ==> s.load_running) ==> one_if(step.state.pending is Some)
                == one_if(s.pending is Some) + one_if(accepted) - responses(step.actions)
            &&& (s.pending is Some ==> s.load_running) && s.pending is Some
                && step.state.pending is Some ==> step.state.pending == s.pending
        }),
{
    match event {
        Event::Tick => {
            lemma_scheduled(s, false, s.index is None);
        },
        Event::Changed(change) => match change {
            Change::Index => {
                lemma_scheduled(
                    SessionView { intent: RefreshIntent::Retry, ..s },
                    true,
                    s.intent is AwaitingBuild || s.index is None,
                );
            },
            Change::Workspace => {
                reveal(crate::session::moved);
                let t = SessionView { index: None, ..s };
                let message = "workspace moved while the index was loading"@;
                let given_up = crate::session::cancelled(t, message);
                lemma_cancelled(t, message);
                lemma_retiring(s.index);
                lemma_single(ActionView::<I>::NotifyStale);
                lemma_sums(crate::session::retiring(s.index), given_up.actions);
                lemma_sums(
                    crate::session::retiring(s.index) + given_up.actions,
                    seq![ActionView::<I>::NotifyStale],
                );
            },
            Change::WatcherError => {
                lemma_scheduled(
                    SessionView { shards_verified: false, intent: RefreshIntent::Retry, ..s },
                    true,
                    s.index is None,
                );
            },
        },
        Event::Refreshed(revision, work) => {
            let t = SessionView { refresh_running: false, refresh_shown: false, ..s };
            let taken = if revision == s.revision {
                crate::session::reconciled(t, work)
            } else {
                Step {
                    state: t,
                    actions: crate::session::retiring(crate::session::brought(work)),
                }
            };
            lemma_reconciled(t, work);
            lemma_retiring(crate::session::brought(work));
            lemma_resumed(taken.state);
            let shown = crate::session::if_so(s.refresh_shown, ActionView::<I>::EndProgress);
            lemma_if_so(s.refresh_shown, ActionView::<I>::EndProgress);
            lemma_sums(shown, taken.actions);
            lemma_sums(shown + taken.actions, crate::session::resumed(taken.state).actions);
        },
        Event::LoadRequested(id) => {
            let shown = crate::session::if_so(s.supports_progress, ActionView::<I>::ShowLoading);
            let start = ActionView::<I>::StartLoad {
                revision: crate::session::following(s.revision),
            };
            lemma_if_so(s.supports_progress, ActionView::<I>::ShowLoading);
            lemma_single(start);
            lemma_sums(shown, seq![start]);
        },
        Event::Loaded(id, revision, result) => {
            let t = SessionView { load_running: false, ..s };
            if s.pending != Some(id) {
                if let Ok(generation) = result {
                    lemma_retiring(Some(generation.index));
                }
                lemma_resumed(t);
                lemma_sums(
                    crate::session::thrown_away(result),
                    crate::session::resumed(t).actions,
                );
            } else {
                let step = crate::session::answered(t, id, revision, result);
                lemma_answered(t, id, revision, result);
                lemma_resumed(step.state);
                lemma_sums(step.actions, crate::session::resumed(step.state).actions);
            }
        },
        Event::Discovered(found) => {
            lemma_discovered(s, found);
        },
        Event::Given(dir, index, provenance) => {
            let a = ActionView::<I>::RefreshFreshness;
            let b = ActionView::<I>::StartWatching { shards: true };
            lemma_retiring(s.index);
            lemma_pair(a, b);
            lemma_sums(crate::session::retiring(s.index), seq![a, b]);
        },
        Event::Watched(_) => {},
        Event::Shutdown => {
            lemma_cancelled(s, "server is shutting down"@);
        },
    }
}

/// Taking on an index that was found starts a worker at most where none runs.
proof fn lemma_discovered<I>(s: SessionView<I>, found: FoundView<I>)
    ensures
        ({
            let step = crate::session::adopted(s, found);
            &&& workers(step.state) == workers(s) + started(step.actions)
            &&& workers(s) > 0 ==> started(step.actions) == 0
            &&& started(step.actions) <= 1
            &&& responses(step.actions) == 0
            &&& step.state.pending == s.pending
        }),
{
    let t = SessionView {
        revision: crate::session::following(s.revision),
        cache: found.cache,
        cache_hit: found.cache_hit,
        shards_verified: found.verified,
        index: Some(found.index),
        shards: Some(found.shards),
        provenance: found.provenance,
        provenance_stale: false,
        intent: if found.verified {
            RefreshIntent::Idle
        } else {
            RefreshIntent::Retry
        },
        index_dir: Some(found.dir),
        ..s
    };
    let a = ActionView::<I>::RefreshFreshness;
    let b = ActionView::<I>::StartWatching { shards: found.cache is None };
    let first = crate::session::retiring(s.index) + seq![a, b];
    lemma_retiring(s.index);
    lemma_pair(a, b);
    lemma_sums(crate::session::retiring(s.index), seq![a, b]);
    lemma_scheduled(t, false, false);
    lemma_sums(first, crate::session::scheduled(t, false, false).actions);
    let write = ActionView::<I>::WriteCache { ticket: crate::session::following(s.cache_epoch) };
    lemma_single(write);
    lemma_sums(first, seq![write]);
}

/// A result that was computed for another revision is never installed: the index
/// and its shards stay as they are.
pub proof fn stale_results_are_not_installed<I>(
    s: SessionView<I>,
    revision: u64,
    work: WorkView<I>,
    id: RequestIdView,
    result: Result<GenerationView<I>, ErrorView>,
)
    requires
        revision != s.revision,
    ensures
        crate::session::refreshed(s, revision, work).state.index == s.index,
        crate::session::refreshed(s, revision, work).state.shards == s.shards,
        crate::session::loaded(s, id, revision, result).state.index == s.index,
        crate::session::loaded(s, id, revision, result).state.shards == s.shards,
{
    lemma_resumed(SessionView { refresh_running: false, refresh_shown: false, ..s });
    let t = SessionView { load_running: false, ..s };
    lemma_resumed(t);
    lemma_answered(t, id, revision, result);
    lemma_resumed(crate::session::answered(t, id, revision, result).state);
}

/// When the workspace moves, the index is dropped at once, and nothing that a
/// worker was computing for the state before is installed later.
pub proof fn a_moved_workspace_drops_the_index<I>(s: SessionView<I>, work: WorkView<I>)
    ensures
        ({
            let t = crate::session::noticed(s, Change::Workspace).state;
            &&& t.index is None
            &&& t.intent is AwaitingBuild
            &&& t.provenance_stale
            &&& t.pending is None
            &&& crate::session::refreshed(t, s.revision, work).state.index is None
            &&& crate::session::refreshed(t, s.revision, work).state.intent is AwaitingBuild
        }),
{
    reveal(crate::session::moved);
    reveal(crate::session::cancelled);
    let t = crate::session::noticed(s, Change::Workspace).state;
    lemma_resumed(SessionView { refresh_running: false, refresh_shown: false, ..t });
}

/// While a build is awaited, neither a timer nor doubts about the watcher bring
/// an index back: they change nothing and start nothing.
pub proof fn only_a_build_ends_the_wait<I>(s: SessionView<I>)
    requires
        s.intent is AwaitingBuild,
    ensures
        crate::session::ticked(s) == (Step { state: s, actions: Seq::<ActionView<I>>::empty() }),
        crate::session::noticed(s, Change::WatcherError) == (Step {
            state: s,
            actions: Seq::<ActionView<I>>::empty(),
        }),
        crate::session::noticed(s, Change::Index).state.intent is Retry,
        crate::session::noticed(s, Change::Workspace).state.intent is AwaitingBuild,
{
    lemma_scheduled(
        SessionView { intent: RefreshIntent::Retry, ..s },
        true,
        s.intent is AwaitingBuild || s.index is None,
    );
    reveal(crate::session::moved);
    reveal(crate::session::cancelled);
}

/// Uncertainty does not discard a healthy index: a watcher error, and a refresh
/// that fails, keep it.
pub proof fn doubts_keep_the_index<I>(s: SessionView<I>, revision: u64)
    ensures
        crate::session::noticed(s, Change::WatcherError).state.index == s.index,
        crate::session::refreshed(s, revision, WorkView::Failed).state.index == s.index,
        crate::session::refreshed(s, revision, WorkView::Failed).state.shards == s.shards,
{
    lemma_scheduled(
        SessionView { shards_verified: false, intent: RefreshIntent::Retry, ..s },
        true,
        s.index is None,
    );
    reveal(crate::session::reconciled);
    let t = SessionView { refresh_running: false, refresh_shown: false, ..s };
    let taken = if revision == s.revision {
        crate::session::reconciled(t, WorkView::Failed)
    } else {
        Step { state: t, actions: crate::session::retiring(None::<I>) }
    };
    lemma_resumed(taken.state);
}

/// A timer neither cancels nor doubles work that runs, and leaves a complete
/// index alone that is not cached.
pub proof fn timers_disturb_nothing<I>(s: SessionView<I>)
    requires
        s.refresh_running || s.load_running || (s.cache is None && s.intent is Idle),
    ensures
        crate::session::ticked(s).state == s,
        crate::session::ticked(s).actions.len() == 0,
{
    reveal(crate::session::scheduled);
}

/// No index is lost track of: whatever event takes the index away has it
/// reclaimed.
pub proof fn replaced_indexes_are_reclaimed<I>(s: SessionView<I>, event: Event<I>, index: I)
    requires
        s.index == Some(index),
        next(s, event).state.index != Some(index),
    ensures
        next(s, event).actions.contains(ActionView::Retire(index)),
{
    let retire = ActionView::Retire(index);
    assert(crate::session::retiring(s.index) =~= seq![retire]);
    match event {
        Event::Tick => {
            lemma_scheduled(s, false, s.index is None);
        },
        Event::Changed(change) => match change {
            Change::Index => {
                lemma_scheduled(
                    SessionView { intent: RefreshIntent::Retry, ..s },
                    true,
                    s.intent is AwaitingBuild || s.index is None,
                );
            },
            Change::Workspace => {
                reveal(crate::session::moved);
                assert(next(s, event).actions[0] == retire);
            },
            Change::WatcherError => {
                lemma_scheduled(
                    SessionView { shards_verified: false, intent: RefreshIntent::Retry, ..s },
                    true,
                    s.index is None,
                );
            },
        },
        Event::Refreshed(revision, work) => {
            let t = SessionView { refresh_running: false, refresh_shown: false, ..s };
            let taken = if revision == s.revision {
                crate::session::reconciled(t, work)
            } else {
                Step {
                    state: t,
                    actions: crate::session::retiring(crate::session::brought(work)),
                }
            };
            lemma_resumed(taken.state);
            reveal(crate::session::reconciled);
            let shown = crate::session::if_so(s.refresh_shown, ActionView::<I>::EndProgress);
            assert(revision == s.revision);
            assert(taken.actions[0] == retire);
            assert(next(s, event).actions[shown.len() as int] == retire);
        },
        Event::LoadRequested(_) => {},
        Event::Loaded(id, revision, result) => {
            let t = SessionView { load_running: false, ..s };
            if s.pending != Some(id) {
                lemma_resumed(t);
            } else {
                let step = crate::session::answered(t, id, revision, result);
                lemma_answered(t, id, revision, result);
                lemma_resumed(step.state);
                reveal(crate::session::answered);
                reveal(crate::session::installed);
                let shown = crate::session::if_so(s.load_shown, ActionView::<I>::EndProgress);
                assert(step.actions[shown.len() as int] == retire);
                assert(next(s, event).actions[shown.len() as int] == retire);
            }
        },
        Event::Discovered(found) => {
            assert(next(s, event).actions[0] == retire);
        },
        Event::Given(_, _, _) => {
            assert(next(s, event).actions[0] == retire);
        },
        Event::Watched(_) => {},
        Event::Shutdown => {
            lemma_cancelled(s, "server is shutting down"@);
        },
    }
}

} // verus!
