//! What a session does when it is told of something.
//!
//! Each of these speaks of a call, of the session before and after it, and of
//! what is to be done.
use vstd::prelude::*;

use crate::index_cache::KeyView;
use crate::protocol::{RequestError, RequestId};
use crate::session::steps::Session;
use crate::session::{
    Action, ActionView, Generation, RefreshIntent, RefreshWork, ReplyView, WorkView,
};
use crate::shard_set::ShardIdentity;
use crate::watcher::Change;

verus! {

/// The result of the current refresh is installed, and what it replaces is
/// retired.
pub proof fn a_refresh_brings_its_index<I>(
    session: &mut Session<I>,
    work: RefreshWork<I>,
    actions: Vec<Action<I>>,
    index: I,
    shards: Seq<ShardIdentity>,
    provenance: Option<KeyView>,
)
    requires
        call_ensures(
            Session::<I>::on_refresh_result,
            (session, old(session)@.revision, work),
            actions,
        ),
        work@ == (WorkView::Loaded { index, shards, provenance }),
        !old(session)@.refresh_again,
    ensures
        final(session)@.index == Some(index),
        final(session)@.shards == Some(shards),
        final(session)@.provenance == provenance,
        final(session)@.shards_verified,
        final(session)@.intent is Idle,
        !final(session)@.refresh_running,
        old(session)@.index matches Some(replaced) ==> crate::session::action_views(
            actions@,
        ).contains(ActionView::Retire(replaced)),
        crate::session::action_views(actions@).contains(ActionView::RefreshFreshness),
{
    crate::session::outcomes::a_current_refresh_is_installed(
        old(session)@,
        index,
        shards,
        provenance,
    );
}

/// A refresh that found no shards drops the index. One that failed, or found
/// nothing new, keeps it.
pub proof fn a_refresh_without_an_index_keeps_or_drops<I>(
    session: &mut Session<I>,
    work: RefreshWork<I>,
    actions: Vec<Action<I>>,
)
    requires
        call_ensures(
            Session::<I>::on_refresh_result,
            (session, old(session)@.revision, work),
            actions,
        ),
        !old(session)@.refresh_again,
    ensures
        work@ is Empty ==> final(session)@.index is None && crate::session::action_views(
            actions@,
        ).contains(ActionView::NotifyStale),
        work@ is Unchanged ==> final(session)@.index == old(session)@.index
            && final(session)@.shards == old(session)@.shards,
        work@ is Failed ==> final(session)@.index == old(session)@.index
            && !final(session)@.shards_verified,
{
    match work@ {
        WorkView::Empty { shards, provenance } => {
            crate::session::outcomes::an_empty_refresh_drops_the_index(
                old(session)@,
                shards,
                provenance,
            );
        },
        WorkView::Unchanged { provenance } => {
            crate::session::outcomes::an_empty_refresh_drops_the_index(
                old(session)@,
                Seq::empty(),
                provenance,
            );
        },
        _ => {
            crate::session::outcomes::an_empty_refresh_drops_the_index(
                old(session)@,
                Seq::empty(),
                None,
            );
        },
    }
}

/// A load that is asked for is started where no worker runs, and refused where
/// one does. A refusal changes nothing.
pub proof fn a_load_is_started_or_refused<I>(
    session: &mut Session<I>,
    id: RequestId,
    started: Result<Vec<Action<I>>, RequestError>,
)
    requires
        call_ensures(Session::<I>::schedule_explicit_load, (session, id), started),
        old(session)@.revision < u64::MAX,
    ensures
        started is Ok <==> !old(session)@.refresh_running && !old(session)@.load_running,
        started matches Ok(actions) ==> {
            &&& final(session)@.load_running
            &&& final(session)@.pending == Some(id@)
            &&& final(session)@.revision == old(session)@.revision + 1
            &&& crate::session::action_views(actions@).contains(
                ActionView::StartLoad { revision: final(session)@.revision },
            )
        },
        started is Err ==> final(session)@ == old(session)@,
{
    crate::session::outcomes::loads_wait_for_their_worker(old(session)@, id@);
}

/// The result of the load that is waited for is installed and the client is told
/// so. A failure is told too, and leaves the index as it was.
pub proof fn a_load_is_answered<I>(
    session: &mut Session<I>,
    id: RequestId,
    result: Result<Generation<I>, RequestError>,
    actions: Vec<Action<I>>,
)
    requires
        call_ensures(
            Session::<I>::on_explicit_load_result,
            (session, id, old(session)@.revision, result),
            actions,
        ),
        old(session)@.pending == Some(id@),
        !old(session)@.refresh_again,
    ensures
        final(session)@.pending is None,
        !final(session)@.load_running,
        result matches Ok(generation) ==> {
            &&& final(session)@.index == Some(generation@.index)
            &&& final(session)@.index_dir == Some(generation@.path)
            &&& crate::session::action_views(actions@).contains(
                ActionView::Respond(
                    id@,
                    ReplyView::Loaded {
                        shards: generation@.shard_count,
                        definitions: generation@.definitions,
                    },
                ),
            )
        },
        result matches Err(error) ==> {
            &&& final(session)@.index == old(session)@.index
            &&& crate::session::action_views(actions@).contains(
                ActionView::Respond(id@, ReplyView::Failed(error@)),
            )
        },
{
    crate::session::outcomes::current_loads_are_answered(
        old(session)@,
        id@,
        crate::session::result_view(result),
    );
}

/// Shards that changed are read again where no worker runs. Otherwise that is
/// noted, and nothing else is done.
pub proof fn changed_shards_are_read_again<I>(
    session: &mut Session<I>,
    actions: Vec<Action<I>>,
)
    requires
        call_ensures(Session::<I>::on_file_change, (session, Change::Index), actions),
        old(session)@.index_dir is Some,
        old(session)@.revision < u64::MAX,
    ensures
        !old(session)@.load_running && !old(session)@.refresh_running ==> {
            &&& final(session)@.refresh_running
            &&& final(session)@.index == old(session)@.index
            &&& crate::session::action_views(actions@).contains(
                ActionView::StartRefresh {
                    revision: final(session)@.revision,
                    force: old(session)@.index is None || old(session)@.intent is AwaitingBuild,
                },
            )
        },
        old(session)@.load_running || old(session)@.refresh_running
            ==> final(session)@.refresh_again && crate::session::action_views(actions@).len() == 0,
{
    if old(session)@.load_running || old(session)@.refresh_running {
        crate::session::outcomes::changes_during_work_are_noted(old(session)@);
    } else {
        crate::session::outcomes::changed_shards_are_refreshed(old(session)@);
    }
}

/// A session tells its own state, and is loading while either worker runs.
pub proof fn a_session_tells_its_state<I>(
    session: &Session<I>,
    loading: bool,
    refreshing: bool,
    verified: bool,
    hit: bool,
    revision: u64,
    intent: RefreshIntent,
)
    requires
        call_ensures(Session::<I>::is_loading, (session,), loading),
        call_ensures(Session::<I>::is_refreshing, (session,), refreshing),
        call_ensures(Session::<I>::are_shards_verified, (session,), verified),
        call_ensures(Session::<I>::is_cache_hit, (session,), hit),
        call_ensures(Session::<I>::revision, (session,), revision),
        call_ensures(Session::<I>::intent, (session,), intent),
    ensures
        session@.load_running || session@.refresh_running <==> loading,
        refreshing ==> loading,
        refreshing == session@.refresh_running,
        verified == session@.shards_verified,
        hit == session@.cache_hit,
        revision == session@.revision,
        intent == session@.intent,
{
}

/// What keeps the index current has a name of its own: waiting for a build comes
/// before looking from time to time, that before trying again, and that before
/// watching.
pub proof fn modes_are_named_by_what_is_awaited<I>(session: &Session<I>, mode: &'static str)
    requires
        call_ensures(Session::<I>::refresh_mode, (session,), mode),
    ensures
        mode@ == "awaiting-build"@ <==> session@.intent is AwaitingBuild,
        mode@ == "periodic"@ <==> !(session@.intent is AwaitingBuild) && session@.cache is Some,
        mode@ == "retry"@ <==> session@.cache is None && session@.intent is Retry,
        mode@ == "watch"@ <==> session@.cache is None && session@.intent is Idle
            && session@.watching,
        mode@ == "none"@ <==> session@.cache is None && session@.intent is Idle
            && !session@.watching,
{
    reveal_strlit("awaiting-build");
    reveal_strlit("periodic");
    reveal_strlit("retry");
    reveal_strlit("watch");
    reveal_strlit("none");
    assert("awaiting-build"@.len() == 14);
    assert("periodic"@.len() == 8);
    assert("retry"@.len() == 5 && "retry"@[0] == 'r');
    assert("watch"@.len() == 5 && "watch"@[0] == 'w');
    assert("none"@.len() == 4);
}

} // verus!
