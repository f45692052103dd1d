//! What workers look at, and in which order.
use jabar::config::Config;
use jabar::index_cache::CacheKey;
use jabar::reconcile::{Reconciler, Task};
use jabar::session::RefreshWork;
use jabar::shard_set::ShardMetadata;
use jabar::startup::load::{LoadSeen, LoadStage, LoadedIndex};
use jabar::startup::{
    asks_bazel, builds_index, missing_for_build, Discovery, LoadFault, ReadIndex,
};

fn key() -> CacheKey {
    CacheKey::new(
        "/repo".to_owned(),
        "/repo/bazel-bin".to_owned(),
        Some("abc".to_owned()),
        &Config::default(),
    )
}

fn shard(len: u64) -> ShardMetadata {
    ShardMetadata { path: "a.scip".to_owned(), len, modified_ns: 1 }
}

fn read(index: usize, empty: bool) -> ReadIndex<usize> {
    ReadIndex { index, shards: vec![shard(1)], empty }
}

#[test]
fn a_snapshot_is_used_before_shards_are_scanned() {
    let stage: Discovery<usize> = Discovery::new("/repo");
    let stage = stage.on_tree(Some("/repo/bazel-bin".to_owned())).on_key(Some(key()));
    let Discovery::Done(Some(found)) = stage.on_cache(Some(read(7, false))) else {
        panic!("a snapshot ends the search");
    };
    assert!(found.cache_hit && !found.verified);
    assert_eq!(found.index, 7);
}

#[test]
fn shards_are_read_between_two_looks_at_the_workspace() {
    let stage: Discovery<usize> = Discovery::new("/repo");
    let stage = stage.on_tree(Some("/repo/bazel-bin".to_owned())).on_key(Some(key()));
    let stage = stage.on_cache(None);
    assert!(matches!(stage, Discovery::Before(_)));
    let stage = stage.on_freshness(true);
    assert!(matches!(stage, Discovery::Load(_)));
    let stage = stage.on_load(Some(read(3, false)));
    let Discovery::Done(Some(found)) = stage.on_freshness(true) else {
        panic!("the shards are an index");
    };
    assert!(found.verified && !found.cache_hit && found.cache.is_some());

    let stage: Discovery<usize> = Discovery::new("/repo");
    let stage = stage.on_tree(Some("/repo/bazel-bin".to_owned())).on_key(Some(key()));
    let stage = stage.on_cache(None).on_freshness(true).on_load(Some(read(3, false)));
    assert!(
        matches!(stage.on_freshness(false), Discovery::OwnDirectory(_)),
        "the workspace moved meanwhile"
    );
}

#[test]
fn the_own_directory_comes_last_and_is_not_cached() {
    let stage: Discovery<usize> = Discovery::new("/repo");
    let stage = stage.on_tree(None).on_directory(true);
    let Discovery::Key(place) = &stage else {
        panic!("the place is looked at");
    };
    assert_eq!(place.dir, "/repo/.jabar/index");
    let stage = stage.on_key(Some(key())).on_freshness(true).on_load(Some(read(3, false)));
    let Discovery::Done(Some(found)) = stage.on_freshness(true) else {
        panic!("the shards are an index");
    };
    assert!(found.cache.is_none());

    let stage: Discovery<usize> = Discovery::new("/repo");
    assert!(matches!(stage.on_tree(None).on_directory(false), Discovery::Done(None)));
}

#[test]
fn shards_without_definitions_are_no_index() {
    let stage: Discovery<usize> = Discovery::new("/repo");
    let stage = stage.on_tree(Some("/repo/bazel-bin".to_owned())).on_key(None);
    assert!(matches!(stage, Discovery::Load(_)), "without a key there is nothing to compare");
    assert!(matches!(stage.on_load(Some(read(3, true))), Discovery::OwnDirectory(_)));
}

#[test]
fn bazel_is_asked_only_for_a_configured_base() {
    let mut config = Config::default();
    assert!(!asks_bazel(&config));
    config.output_base = Some("/tmp/base".to_owned());
    assert!(asks_bazel(&config));
    config.index.auto = true;
    assert!(builds_index(false, &config, true));
    assert!(!builds_index(true, &config, true));
    assert!(!builds_index(false, &config, false));
    assert!(missing_for_build(false, true).unwrap().contains("scip-java"));
    assert!(missing_for_build(true, false).unwrap().contains("JAVA_HOME"));
    assert_eq!(missing_for_build(true, true), None);
}

#[test]
fn a_load_says_why_it_failed() {
    let path = || "/x".to_owned();
    let reason = || "gone".to_owned();
    for (fault, text) in [
        (LoadFault::Params { reason: reason() }, "expected {path}: gone"),
        (
            LoadFault::Unresolved { path: path(), reason: reason() },
            "could not resolve index directory `/x`: gone",
        ),
        (
            LoadFault::NotAbsolute { path: path() },
            "index directory is not an absolute UTF-8 path: `/x`",
        ),
        (
            LoadFault::Incomplete { path: path(), reason: reason() },
            "could not load a complete index from `/x`: gone",
        ),
        (
            LoadFault::MovedBefore { path: path() },
            "could not load a complete index from `/x`: workspace moved before index reload",
        ),
        (
            LoadFault::MovedDuring { path: path() },
            "could not load a complete index from `/x`: workspace moved during index reload",
        ),
    ] {
        assert_eq!(fault.to_error().message, text);
    }
}

fn loaded(index: usize) -> LoadSeen<usize> {
    LoadSeen::Loaded(LoadedIndex {
        index,
        shards: vec![shard(1)],
        shard_count: 1,
        definitions: 5,
    })
}

/// The stage at which the shards of a known workspace are about to be read.
fn loading() -> LoadStage<usize> {
    LoadStage::new("index".to_owned())
        .step(LoadSeen::Path("/repo/index".to_owned()))
        .step(LoadSeen::Key(Some(key())))
        .step(LoadSeen::Current(true))
}

#[test]
fn a_requested_index_is_read_between_two_looks_at_the_workspace() {
    let stage = loading();
    assert!(matches!(&stage, LoadStage::Load(requested) if requested.path == "/repo/index"));
    let stage = stage.step(loaded(7));
    assert!(matches!(stage, LoadStage::After(_, _)));
    let stage = stage.step(LoadSeen::Current(true)).step(LoadSeen::Watched(true));
    let LoadStage::Done(Ok(generation)) = stage else {
        panic!("the index is loaded");
    };
    assert_eq!((generation.path.as_str(), generation.index), ("/repo/index", 7));
    assert_eq!((generation.shard_count, generation.definitions), (1, 5));
    assert!(generation.watched && generation.provenance.is_some());
}

#[test]
fn a_requested_index_of_an_unknown_workspace_is_not_compared() {
    let stage: LoadStage<usize> = LoadStage::new("index".to_owned());
    let stage = stage.step(LoadSeen::Path("/repo/index".to_owned())).step(LoadSeen::Key(None));
    let stage = stage.step(loaded(7)).step(LoadSeen::Watched(false));
    let LoadStage::Done(Ok(generation)) = stage else {
        panic!("the index is loaded");
    };
    assert!(!generation.watched && generation.provenance.is_none());
}

#[test]
fn a_requested_index_of_a_workspace_that_moved_is_refused() {
    let fault = |stage: LoadStage<usize>| match stage {
        LoadStage::Done(Err(fault)) => fault.to_error().message,
        _ => panic!("the load failed"),
    };
    let asked = || -> LoadStage<usize> { LoadStage::new("index".to_owned()) };
    let found = || asked().step(LoadSeen::Path("/repo/index".to_owned()));
    assert_eq!(
        fault(asked().step(LoadSeen::Unresolved("gone".to_owned()))),
        "could not resolve index directory `index`: gone"
    );
    for seen in [LoadSeen::Path("index".to_owned()), LoadSeen::NotUtf8("index".to_owned())] {
        assert_eq!(
            fault(asked().step(seen)),
            "index directory is not an absolute UTF-8 path: `index`"
        );
    }
    assert!(fault(found().step(LoadSeen::Key(Some(key()))).step(LoadSeen::Current(false)))
        .ends_with("workspace moved before index reload"));
    assert!(fault(loading().step(loaded(7)).step(LoadSeen::Current(false)))
        .ends_with("workspace moved during index reload"));
    assert_eq!(
        fault(loading().step(LoadSeen::Incomplete("torn".to_owned()))),
        "could not load a complete index from `/repo/index`: torn"
    );
    assert!(matches!(asked().step(LoadSeen::Current(true)), LoadStage::Resolve(_)));
}

fn task(force: bool, rooted: bool) -> Task {
    Task { force, previous: Some(vec![shard(1)]), provenance: Some(key()), rooted }
}

#[test]
fn unchanged_shards_keep_the_index() {
    let stage: Reconciler<usize> = Reconciler::new(task(false, true), false);
    assert!(matches!(stage, Reconciler::Before(_)));
    let stage = stage.on_freshness(true).on_scan(Some(vec![shard(1)]));
    assert!(matches!(stage, Reconciler::Validation(_)));
    assert!(matches!(
        stage.on_freshness(true),
        Reconciler::Done(RefreshWork::Unchanged { .. })
    ));
}

#[test]
fn changed_shards_are_loaded() {
    let stage: Reconciler<usize> = Reconciler::new(task(false, true), false);
    let stage = stage.on_freshness(true).on_scan(Some(vec![shard(2)])).on_freshness(true);
    assert!(matches!(stage, Reconciler::Load(_, _)));
    let stage = stage.on_load(Some((5, vec![shard(2)], false)));
    assert!(matches!(
        stage.on_freshness(true),
        Reconciler::Done(RefreshWork::Loaded { index: 5, .. })
    ));

    let stage: Reconciler<usize> = Reconciler::new(task(false, true), false);
    let stage = stage.on_freshness(true).on_scan(Some(vec![shard(2)])).on_freshness(true);
    let stage = stage.on_load(Some((5, vec![shard(2)], true)));
    assert!(
        matches!(stage.on_freshness(true), Reconciler::Done(RefreshWork::Failed)),
        "shards without definitions are no index"
    );

    let stage: Reconciler<usize> = Reconciler::new(task(false, true), false);
    let stage = stage.on_freshness(true).on_scan(Some(Vec::new())).on_freshness(true);
    let stage = stage.on_load(Some((5, Vec::new(), true)));
    assert!(matches!(
        stage.on_freshness(true),
        Reconciler::Done(RefreshWork::Empty { .. })
    ));
}

#[test]
fn a_moved_workspace_fails_the_refresh() {
    let stage: Reconciler<usize> = Reconciler::new(task(false, true), false);
    assert!(matches!(stage.on_freshness(false), Reconciler::Done(RefreshWork::Failed)));
    let stage: Reconciler<usize> = Reconciler::new(task(false, true), false);
    let stage = stage.on_freshness(true).on_scan(None);
    assert!(matches!(stage, Reconciler::Done(RefreshWork::Failed)));
    let stage: Reconciler<usize> = Reconciler::new(task(false, true), true);
    assert!(matches!(stage, Reconciler::Key(_)), "stale provenance is found out anew");
}
