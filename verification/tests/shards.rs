//! Sets of shards, and shards made for a benchmark.
use jabar::gen_shard::class_shard;
use jabar::shard_set::{
    same_shards, sorted_shards, step_into, GenerationError, ScanStep, ShardLoad, ShardMetadata,
    ValidatedIndex,
};
use protobuf::Message;
use scip::types::Index;

fn shard(path: &str, len: u64) -> ShardMetadata {
    ShardMetadata { path: path.to_owned(), len, modified_ns: 1 }
}

#[test]
fn a_partial_load_names_every_failed_shard() {
    let good = Index::new().write_to_bytes().unwrap();
    let mut load = ShardLoad::new();
    load.take("good.scip", Some(&good));
    load.take("bad.scip", Some(b"not protobuf"));
    load.take("missing.scip", None);
    load.finish();
    assert_eq!(load.index.shard_count(), 1);
    assert_eq!(load.failed, ["bad.scip", "missing.scip"]);

    let shards = vec![shard("good.scip", 0)];
    let refused = ValidatedIndex::accept(load, shards, &vec![shard("good.scip", 0)]);
    assert!(matches!(refused.err(), Some(GenerationError::FailedShards(2))));
}

#[test]
fn a_generation_that_changed_while_it_was_read_is_refused() {
    let load = ShardLoad::new();
    let refused = ValidatedIndex::accept(load, vec![shard("a.scip", 1)], &vec![shard("a.scip", 2)]);
    assert!(matches!(refused.err(), Some(GenerationError::Changed)));
    let load = ShardLoad::new();
    let taken = ValidatedIndex::accept(load, vec![shard("a.scip", 1)], &vec![shard("a.scip", 1)]);
    assert_eq!(taken.ok().unwrap().shards.len(), 1);
}

#[test]
fn intermediate_directories_are_not_scanned() {
    assert_eq!(step_into("target.scip", false), ScanStep::Measure);
    assert_eq!(step_into(".scip", false), ScanStep::Skip);
    assert_eq!(step_into("target.jar", false), ScanStep::Skip);
    assert_eq!(step_into("java", true), ScanStep::Descend);
    assert_eq!(step_into("target.scip-targetroot", true), ScanStep::Skip);
    assert_eq!(step_into("target.semanticdb", true), ScanStep::Skip);
}

#[test]
fn shards_are_compared_in_order() {
    let sorted = sorted_shards(&vec![shard("b.scip", 1), shard("a.scip", 2)]);
    assert_eq!(sorted[0].path, "a.scip");
    assert!(same_shards(&sorted, &vec![shard("a.scip", 2), shard("b.scip", 1)]));
    assert!(!same_shards(&sorted, &vec![shard("a.scip", 2)]));
}

#[test]
fn a_made_shard_is_read_back() {
    let names = vec!["Alpha".to_owned(), "Grüße".to_owned()];
    let mut load = ShardLoad::new();
    load.take("gen.scip", Some(&class_shard(&names).unwrap()));
    load.finish();
    assert!(load.failed.is_empty());
    assert_eq!(load.index.definition_count(), 2);
    let found = load.index.search("alpha");
    assert_eq!(found.len(), 1);
    assert_eq!(found[0].path, "src/Alpha.java");
    assert_eq!(found[0].symbol, "semanticdb maven . . example/Alpha#");
    assert_eq!(found[0].range.end_col, 11);

    let mut load = ShardLoad::new();
    load.take("gen.scip", Some(&class_shard(&Vec::new()).unwrap()));
    assert_eq!(load.index.search("widget").len(), 1, "one class where none is named");
}
