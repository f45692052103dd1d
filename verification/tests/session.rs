//! The life of the index in a session.
use jabar::index_cache::CacheKey;
use jabar::protocol::{ErrorCode, RequestError, RequestId};
use jabar::session::steps::{Discovered, Session};
use jabar::session::{
    Action, CacheState, Generation, LoadReply, RefreshIntent, RefreshWork,
};
use jabar::shard_set::ShardMetadata;
use jabar::telemetry::Outcome;
use jabar::watcher::Change;

/// What an index is known by: how many definitions it holds.
type Index = usize;

fn session() -> Session<Index> {
    Session::new(false)
}

/// A session with a complete index that is not cached.
fn loaded() -> Session<Index> {
    let mut session = session();
    session.adopt_discovered(Discovered {
        dir: "/repo/bazel-bin".to_owned(),
        index: 1,
        shards: Vec::new(),
        provenance: None,
        cache: None,
        cache_hit: false,
        verified: true,
    });
    session
}

fn key() -> CacheKey {
    CacheKey::from_parts(
        "/repo".to_owned(),
        "/repo/bazel-bin".to_owned(),
        Some("abc".to_owned()),
        None,
        None,
        Vec::new(),
        None,
    )
}

fn found(cache_hit: bool) -> Discovered<Index> {
    Discovered {
        dir: "/repo/bazel-bin".to_owned(),
        index: 1,
        shards: Vec::new(),
        provenance: Some(key()),
        cache: Some(CacheState {
            root: "/repo".to_owned(),
            dir: "/repo/bazel-bin".to_owned(),
            key: key(),
        }),
        cache_hit,
        verified: !cache_hit,
    }
}

fn generation(index: Index) -> Generation<Index> {
    Generation {
        path: "/repo/shards".to_owned(),
        index,
        shards: Vec::new(),
        provenance: None,
        watched: false,
        shard_count: 1,
        definitions: index,
    }
}

fn answer(actions: &[Action<Index>]) -> Option<&LoadReply> {
    actions.iter().find_map(|action| match action {
        Action::Respond(_, reply) => Some(reply),
        _ => None,
    })
}

#[test]
fn explicit_load_runs_off_loop_and_bounds_generation_workers() {
    let mut session = session();
    let started = session.schedule_explicit_load(RequestId::Number(1)).unwrap();
    assert!(matches!(started[..], [Action::StartLoad { revision: 1 }]));

    assert!(session.is_loading(), "the worker is still blocked");
    let busy = session.schedule_explicit_load(RequestId::Number(2)).unwrap_err();
    assert!(matches!(busy.code, ErrorCode::RequestFailed));

    let actions = session.on_explicit_load_result(RequestId::Number(1), 1, Ok(generation(1)));
    assert!(matches!(
        answer(&actions),
        Some(LoadReply::Loaded { shards: 1, definitions: 1 })
    ));

    assert!(!session.is_loading());
    assert_eq!(session.index(), Some(&1));
    assert_eq!(session.index_dir(), Some("/repo/shards"));
}

#[test]
fn a_refresh_can_restore_an_index_after_invalidation() {
    let mut session = session();
    session.on_refresh_result(
        0,
        RefreshWork::Loaded {
            index: 1,
            shards: vec![ShardMetadata { path: "foo.scip".to_owned(), len: 1, modified_ns: 1 }],
            provenance: None,
        },
    );
    assert_eq!(session.index(), Some(&1));
}

#[test]
fn a_confirmed_empty_shard_set_clears_stale_symbols() {
    let mut session = loaded();
    let revision = session.revision();
    let actions = session.on_refresh_result(
        revision,
        RefreshWork::Empty { shards: Vec::new(), provenance: None },
    );
    assert!(session.index().is_none());
    assert!(session.are_shards_verified());
    assert!(matches!(actions[..], [Action::Retire(1), Action::NotifyStale]));
}

#[test]
fn a_timer_tick_does_not_cancel_a_long_refresh() {
    let mut session = session();
    session.adopt_discovered(found(true));
    assert!(session.is_refreshing(), "a snapshot is compared with the shards");
    let revision = session.revision();
    assert!(session.on_refresh_tick().is_empty());
    assert_eq!(session.revision(), revision);
    assert!(!session.refreshes_again());

    session.on_file_change(Change::Index);
    assert_eq!(session.revision(), revision + 1);
    assert!(session.refreshes_again());
}

#[test]
fn a_complete_uncached_index_is_not_reloaded_on_a_timer() {
    let mut session = loaded();
    assert_eq!(session.intent(), RefreshIntent::Idle);

    assert!(session.on_refresh_tick().is_empty());

    assert!(!session.is_refreshing());
    assert!(session.index().is_some());
}

#[test]
fn workspace_movement_waits_for_a_new_shard_event() {
    let mut session = loaded();

    let actions = session.on_file_change(Change::Workspace);
    assert!(matches!(actions[..], [Action::Retire(1), Action::NotifyStale]));
    assert!(session.index().is_none());
    assert_eq!(session.intent(), RefreshIntent::AwaitingBuild);

    session.on_refresh_tick();
    assert!(!session.is_refreshing(), "a timer is not evidence of a new build");
    session.on_file_change(Change::WatcherError);
    assert!(!session.is_refreshing(), "watcher uncertainty is not evidence of a new build");
    assert_eq!(session.intent(), RefreshIntent::AwaitingBuild);

    let actions = session.on_file_change(Change::Index);
    assert!(session.is_refreshing(), "a shard event permits a validated reload");
    assert_eq!(session.intent(), RefreshIntent::Retry);
    assert!(matches!(actions[..], [Action::StartRefresh { force: true, .. }]));

    let revision = session.revision();
    session.on_refresh_result(
        revision,
        RefreshWork::Loaded { index: 2, shards: Vec::new(), provenance: None },
    );
    assert!(!session.provenance_is_stale(), "provenance was refreshed by the worker");
}

#[test]
fn a_watcher_error_validates_and_keeps_an_unchanged_index() {
    let mut session = loaded();

    session.on_file_change(Change::WatcherError);
    assert!(session.index().is_some(), "uncertainty must not discard a healthy index");
    assert!(!session.are_shards_verified());

    let revision = session.revision();
    session.on_refresh_result(revision, RefreshWork::Unchanged { provenance: None });
    assert!(session.index().is_some());
    assert!(session.are_shards_verified());
    assert_eq!(session.intent(), RefreshIntent::Idle);
}

#[test]
fn a_queued_reload_runs_after_invalidation() {
    let mut session = loaded();
    session.on_file_change(Change::Workspace);
    session.on_file_change(Change::Index);
    let first = session.revision();
    session.on_file_change(Change::Index);
    let second = session.revision();
    assert!(session.is_refreshing() && session.refreshes_again());

    // The first worker was made obsolete by a second shard notification. Its
    // completion must launch the queued worker even though workspace
    // invalidation already cleared the index.
    let actions =
        session.on_refresh_result(first, RefreshWork::Unchanged { provenance: None });
    assert!(session.is_refreshing());
    assert!(!session.refreshes_again());
    assert_eq!(session.revision(), second + 1);
    assert!(matches!(actions[..], [Action::StartRefresh { .. }]));
}

#[test]
fn an_obsolete_result_is_thrown_away() {
    let mut session = loaded();
    session.on_file_change(Change::Index);
    let obsolete = session.revision();
    session.on_file_change(Change::Index);
    let actions = session.on_refresh_result(
        obsolete,
        RefreshWork::Loaded { index: 9, shards: Vec::new(), provenance: None },
    );
    assert_eq!(session.index(), Some(&1));
    assert!(matches!(actions[0], Action::Retire(9)));
}

#[test]
fn a_failed_refresh_is_tried_again() {
    let mut session = loaded();
    session.on_file_change(Change::Index);
    let revision = session.revision();
    session.on_refresh_result(revision, RefreshWork::Failed);
    assert_eq!(session.intent(), RefreshIntent::Retry);
    assert_eq!(session.index(), Some(&1), "what there was is still served");
    assert!(!session.on_refresh_tick().is_empty());
}

#[test]
fn a_snapshot_is_written_once_it_was_read_from_shards() {
    let mut session = session();
    let actions = session.adopt_discovered(found(false));
    assert!(matches!(
        actions[..],
        [
            Action::RefreshFreshness,
            Action::StartWatching { shards: false },
            Action::WriteCache { ticket: 1 }
        ]
    ));
    assert_eq!(session.refresh_mode(), "periodic");
    assert!(session.cache().unwrap().key.same(&key()));
    assert!(session.provenance().unwrap().same(&key()));
}

#[test]
fn a_move_answers_the_load_that_waits() {
    let mut session = session();
    session.schedule_explicit_load(RequestId::Text("a".to_owned())).unwrap();
    let actions = session.on_file_change(Change::Workspace);
    assert!(matches!(
        answer(&actions),
        Some(LoadReply::Failed(RequestError { code: ErrorCode::RequestCanceled, .. }))
    ));
    assert!(actions.iter().any(|a| matches!(a, Action::Record(Outcome::Cancelled))));

    let actions =
        session.on_explicit_load_result(RequestId::Text("a".to_owned()), 1, Ok(generation(3)));
    assert!(answer(&actions).is_none(), "nobody is answered twice");
    assert!(matches!(actions[..], [Action::Retire(3)]));
    assert!(session.index().is_none());
}

#[test]
fn a_load_that_fails_is_answered_with_its_error() {
    let mut session = session();
    session.schedule_explicit_load(RequestId::Number(1)).unwrap();
    let error = RequestError::new(ErrorCode::InvalidParams, "no".to_owned());
    let actions = session.on_explicit_load_result(RequestId::Number(1), 1, Err(error));
    assert!(matches!(
        answer(&actions),
        Some(LoadReply::Failed(RequestError { code: ErrorCode::InvalidParams, .. }))
    ));
    assert!(!session.is_loading());
}

#[test]
fn a_load_for_an_older_revision_is_refused() {
    let mut session = loaded();
    session.schedule_explicit_load(RequestId::Number(1)).unwrap();
    let actions = session.on_explicit_load_result(RequestId::Number(1), 0, Ok(generation(3)));
    assert!(matches!(
        answer(&actions),
        Some(LoadReply::Failed(RequestError { code: ErrorCode::ContentModified, .. }))
    ));
    assert_eq!(session.index(), Some(&1));
}

#[test]
fn shutting_down_gives_up_what_waits() {
    let mut session = session();
    session.schedule_explicit_load(RequestId::Number(1)).unwrap();
    let actions = session.on_shutdown();
    assert!(answer(&actions).is_some());
    assert!(session.is_shutting_down());
}

#[test]
fn progress_is_shown_where_the_client_supports_it() {
    let mut session: Session<Index> = Session::new(true);
    let actions = session.schedule_explicit_load(RequestId::Number(1)).unwrap();
    assert!(matches!(actions[0], Action::ShowLoading));
    let actions = session.on_explicit_load_result(RequestId::Number(1), 1, Ok(generation(1)));
    assert!(matches!(actions[0], Action::EndProgress));
}

#[test]
fn an_index_of_someone_else_is_taken_on() {
    let mut session = session();
    let actions = session.adopt_index("/repo/x".to_owned(), 4, None);
    assert!(matches!(
        actions[..],
        [Action::RefreshFreshness, Action::StartWatching { shards: true }]
    ));
    assert!(session.shards().is_none());
    assert_eq!(session.refresh_mode(), "retry");
    session.on_watching(true);
    assert!(session.is_watching());
    assert!(!session.is_cache_hit());
    assert_eq!(session.cache_epoch(), 1);
}
