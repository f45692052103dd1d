//! What a change on disk means.
use jabar::paths::AbsPath;
use jabar::watcher::{classify, dispatch, linked_git_dir, Change};

fn changes_from(paths: &[&str]) -> Vec<Change> {
    let owned: Vec<String> = paths.iter().map(|p| p.to_string()).collect();
    dispatch(&owned, None)
}

#[test]
fn scip_shards_mean_the_index_changed() {
    assert_eq!(
        classify("/repo/bazel-bin/java/com/acme/core/core.scip", None),
        Some(Change::Index)
    );
}

#[test]
fn intermediate_scip_shards_do_not_trigger_reload() {
    assert!(
        changes_from(&[
            "/repo/bazel-bin/a/a.scip-targetroot/A.java.scip",
            "/repo/bazel-bin/b/b.semanticdb/B.java.scip",
        ])
        .is_empty()
    );
}

#[test]
fn git_head_and_index_mean_the_workspace_moved() {
    assert_eq!(classify("/repo/.git/HEAD", None), Some(Change::Workspace));
    assert_eq!(classify("/repo/.git/index", None), Some(Change::Workspace));
}

#[test]
fn transient_git_files_are_ignored() {
    // These appear and vanish during any git operation. Treating them as
    // changes would fire a reload several times per checkout.
    assert_eq!(classify("/repo/.git/HEAD.lock", None), None);
    assert_eq!(classify("/repo/.git/index.lock", None), None);
    assert_eq!(classify("/repo/.git/objects/ab/cdef", None), None);
    assert_eq!(classify("/repo/.git/refs/heads/main", None), None);
}

#[test]
fn a_file_named_index_outside_git_is_not_a_workspace_change() {
    // `src/index` or `docs/HEAD` are ordinary files.
    assert_eq!(classify("/repo/src/index", None), None);
    assert_eq!(classify("/repo/docs/HEAD", None), None);
}

#[test]
fn ordinary_source_files_are_ignored() {
    // The whole point: editing source does not go through the watcher. The
    // client already told us, and the index only moves when a build runs.
    assert_eq!(classify("/repo/java/com/acme/A.java", None), None);
    assert_eq!(classify("/repo/BUILD.bazel", None), None);
}

#[test]
fn a_linked_worktree_is_classified_by_its_real_git_directory() {
    let root = AbsPath::new_unchecked("/work/checkout");
    let dir = linked_git_dir("gitdir: /git/worktrees/checkout\n", &root).unwrap();
    assert_eq!(dir, "/git/worktrees/checkout");
    assert_eq!(linked_git_dir("gitdir: ../git\n", &root).as_deref(), Some("/work/checkout/../git"));
    assert_eq!(linked_git_dir("nothing of the kind", &root), None);
    assert_eq!(classify("/git/worktrees/checkout/HEAD", Some(&dir)), Some(Change::Workspace));
    assert_eq!(classify("/git/worktrees/checkout/HEAD", None), None);
}

#[test]
fn a_burst_of_shards_collapses_to_one_message() {
    // A build writes one shard per target. Ray's Java tree is seven; a real
    // repo is thousands. One reload, not thousands.
    let paths: Vec<String> = (0..500).map(|i| format!("/repo/bazel-bin/t{i}/t{i}.scip")).collect();
    let refs: Vec<&str> = paths.iter().map(String::as_str).collect();
    assert_eq!(changes_from(&refs), [Change::Index]);
}

#[test]
fn a_checkout_reports_the_workspace_before_the_index() {
    // Both fire during a branch switch that also swaps build outputs. The
    // broader signal comes first so a receiver acting on it has already
    // covered the narrower one.
    let changes = changes_from(&[
        "/repo/bazel-bin/a/a.scip",
        "/repo/.git/HEAD",
        "/repo/.git/index",
        "/repo/bazel-bin/b/b.scip",
    ]);
    assert_eq!(changes, [Change::Workspace, Change::Index]);
}

#[test]
fn irrelevant_paths_produce_no_message() {
    assert!(changes_from(&["/repo/java/A.java", "/repo/.git/objects/aa/bb"]).is_empty());
}
