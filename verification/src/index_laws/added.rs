//! What an index holds once a shard has been added to it.
//!
//! Each of these speaks of a call and of the index before and after it.
use vstd::prelude::*;

use crate::shard::ShardDocument;
use crate::symbol_index::SymbolIndex;

verus! {

/// Every use in a shard that was added is a reference to its symbol afterwards,
/// in the file of its document and at its place.
pub proof fn added_uses_are_references(
    index: &mut SymbolIndex,
    documents: &Vec<ShardDocument>,
    d: int,
    o: int,
)
    requires
        call_ensures(SymbolIndex::add_documents, (index, documents), true),
        old(index).wf(),
        0 <= d < documents@.len(),
        0 <= o < documents@[d].occurrences@.len(),
        documents@[d].occurrences@[o].symbol@.len() > 0,
        !"local "@.is_prefix_of(documents@[d].occurrences@[o].symbol@),
        documents@[d].occurrences@[o].symbol_roles & 1 == 0,
        documents@[d].occurrences@[o].range@.len() == 3,
        forall|i: int| 0 <= i < 3 ==> #[trigger] documents@[d].occurrences@[o].range@[i] >= 0,
    ensures
        final(index)@.references.contains_key(documents@[d].occurrences@[o].symbol@),
        exists|i: int|
            0 <= i < final(index)@.references[documents@[d].occurrences@[o].symbol@].len() && {
                let occurrence = documents@[d].occurrences@[o];
                let stored =
                    #[trigger] final(index)@.references[documents@[d].occurrences@[o].symbol@][i];
                &&& stored.path < final(index)@.reference_paths.len()
                &&& final(index)@.reference_paths[stored.path as int]
                    == documents@[d].relative_path@
                &&& stored.range.start_line == occurrence.range@[0]
                &&& stored.range.start_col == occurrence.range@[1]
                &&& stored.range.end_line == occurrence.range@[0]
                &&& stored.range.end_col == occurrence.range@[2]
                &&& stored.is_import == (occurrence.symbol_roles & 2 != 0)
            },
{
    let facts = crate::shard::documents_of(documents@);
    assert(facts[d] == documents@[d]@);
    assert(facts[d].occurrences.len() == documents@[d].occurrences@.len());
    assert(facts[d].occurrences[o] == documents@[d].occurrences@[o]@);
    assert(facts[d].occurrences[o].range == documents@[d].occurrences@[o].range@);
    crate::index_laws::shards::uses_are_stored(&*old(index), facts, d, o);
}

/// Every definition in a shard that was added is one of the index afterwards, in
/// the file of its document and at its place.
pub proof fn added_definitions_are_found(
    index: &mut SymbolIndex,
    documents: &Vec<ShardDocument>,
    d: int,
    o: int,
)
    requires
        call_ensures(SymbolIndex::add_documents, (index, documents), true),
        old(index).wf(),
        0 <= d < documents@.len(),
        0 <= o < documents@[d].occurrences@.len(),
        documents@[d].occurrences@[o].symbol@.len() > 0,
        !"local "@.is_prefix_of(documents@[d].occurrences@[o].symbol@),
        documents@[d].occurrences@[o].symbol_roles & 1 != 0,
        documents@[d].occurrences@[o].range@.len() == 3,
        forall|i: int| 0 <= i < 3 ==> #[trigger] documents@[d].occurrences@[o].range@[i] >= 0,
    ensures
        final(index)@.shards == old(index)@.shards + 1,
        exists|i: int|
            0 <= i < final(index)@.definitions.len() && {
                let occurrence = documents@[d].occurrences@[o];
                let definition = #[trigger] final(index)@.definitions[i];
                &&& definition.symbol == occurrence.symbol@
                &&& definition.path == documents@[d].relative_path@
                &&& definition.range.start_line == occurrence.range@[0]
                &&& definition.range.start_col == occurrence.range@[1]
                &&& definition.range.end_line == occurrence.range@[0]
                &&& definition.range.end_col == occurrence.range@[2]
            },
{
    let facts = crate::shard::documents_of(documents@);
    assert(facts[d] == documents@[d]@);
    assert(facts[d].occurrences.len() == documents@[d].occurrences@.len());
    assert(facts[d].occurrences[o] == documents@[d].occurrences@[o]@);
    assert(facts[d].occurrences[o].range == documents@[d].occurrences@[o].range@);
    crate::index_laws::shards::definitions_are_stored(&*old(index), facts, d, o);
    crate::index_laws::shards::shards_are_counted(&*old(index), facts);
}

/// A definition that an index gains comes from the shard: it is one there, is not
/// local, and has the symbol, the file and the place that it has there.
pub proof fn only_definitions_of_the_shard_are_gained(
    index: &mut SymbolIndex,
    documents: &Vec<ShardDocument>,
    ok: bool,
    i: int,
)
    requires
        call_ensures(SymbolIndex::add_documents, (index, documents), ok),
        old(index).wf(),
        old(index)@.definitions.len() <= i < final(index)@.definitions.len(),
    ensures
        exists|d: int, o: int|
            0 <= d < documents@.len() && 0 <= o < documents@[d].occurrences@.len() && {
                let occurrence = #[trigger] documents@[d].occurrences@[o];
                &&& occurrence.symbol_roles & 1 != 0
                &&& !"local "@.is_prefix_of(occurrence.symbol@)
                &&& final(index)@.definitions[i].symbol == occurrence.symbol@
                &&& final(index)@.definitions[i].path == documents@[d].relative_path@
                &&& crate::span::range_of(occurrence.range@) == Some(
                    final(index)@.definitions[i].range,
                )
            },
{
    let facts = crate::shard::documents_of(documents@);
    crate::index_laws::shards::only_definitions_are_added(&*old(index), facts, i);
    let definition = final(index)@.definitions[i];
    let (d, o) = choose|d: int, o: int|
        0 <= d < facts.len() && 0 <= o < facts[d].occurrences.len() && {
            let occurrence = #[trigger] facts[d].occurrences[o];
            &&& occurrence.symbol_roles & 1 != 0
            &&& !"local "@.is_prefix_of(occurrence.symbol)
            &&& crate::span::range_of(occurrence.range) == Some(definition.range)
            &&& definition == crate::index_model::definition_at(
                facts[d],
                occurrence,
                definition.range,
            )
        };
    assert(facts[d] == documents@[d]@);
    assert(facts[d].occurrences.len() == documents@[d].occurrences@.len());
    assert(facts[d].occurrences[o] == documents@[d].occurrences@[o]@);
    let occurrence = documents@[d].occurrences@[o];
    assert(crate::span::range_of(occurrence.range@) == Some(definition.range));
}

/// Whatever was defined before a shard was added still is, in its place.
pub proof fn definitions_are_kept(
    index: &mut SymbolIndex,
    documents: &Vec<ShardDocument>,
    ok: bool,
)
    requires
        call_ensures(SymbolIndex::add_documents, (index, documents), ok),
        old(index).wf(),
    ensures
        old(index)@.definitions.is_prefix_of(final(index)@.definitions),
{
    let facts = crate::shard::documents_of(documents@);
    crate::index_laws::a_shard_loses_nothing(&*old(index), facts);
}

} // verus!
