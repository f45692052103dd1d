//! What a search for a name finds, and in which order.
use vstd::prelude::*;

use crate::definition::DefinitionView;
use crate::handlers::search::SearchResults;
use crate::index_model::IndexView;
use crate::line_index::PositionEncoding;

verus! {

/// A definition outside the shadowed files whose name contains the query, case
/// aside, is found, while no more are than a search returns.
pub proof fn indexed_names_are_found<F: Fn(&str) -> Option<String>>(
    results: SearchResults,
    index: IndexView,
    live: Seq<DefinitionView>,
    shadowed: Seq<Seq<char>>,
    query: Seq<char>,
    read: F,
    root: Seq<char>,
    client: PositionEncoding,
    d: int,
    before: Seq<char>,
    after: Seq<char>,
)
    requires
        crate::handlers::search::is_search_answer(
            results,
            index,
            live,
            shadowed,
            query,
            read,
            root,
            client,
        ),
        query.len() > 0,
        results.total <= 50,
        index.definitions.len() <= usize::MAX,
        0 <= d < index.definitions.len(),
        !shadowed.contains(index.definitions[d].path),
        crate::text::lowercased(index.definitions[d].name) == before + crate::text::lowercased(
            query,
        ) + after,
    ensures
        exists|k: int|
            0 <= k < results.symbols@.len() && crate::handlers::shows_definition(
                #[trigger] results.symbols@[k],
                index.definitions[d],
                read,
                root,
                client,
            ),
{
    let needle = crate::text::lowercased(query);
    let (ranking, rows) = lemma_answer(results, index, live, shadowed, query, read, root, client);
    let all = crate::handlers::search::candidates(index, needle, ranking, live, shadowed);
    let ranked = Seq::new(ranking.len(), |i: int| index.definitions[ranking[i] as int]);
    crate::text::laws::occurrences_split_the_text(before, needle, after);
    assert(crate::symbol_index::search::is_match(index.definitions[d], needle));
    assert(ranking.contains(d as usize));
    let r = choose|r: int| 0 <= r < ranking.len() && ranking[r] == d as usize;
    assert(ranked[r] == index.definitions[d]);
    lemma_unshadowed(ranked, shadowed);
    let outside = crate::handlers::search::unshadowed(ranked, shadowed);
    assert(outside.contains(ranked[r]));
    let c = choose|c: int| 0 <= c < outside.len() && outside[c] == index.definitions[d];
    assert(all[c] == index.definitions[d]);
    lemma_given(results, all, needle, rows, read, root, client, c);
}

/// A declaration parsed from a newer file whose name contains the query, case
/// aside, is found, while no more are than a search returns.
pub proof fn parsed_names_are_found<F: Fn(&str) -> Option<String>>(
    results: SearchResults,
    index: IndexView,
    live: Seq<DefinitionView>,
    shadowed: Seq<Seq<char>>,
    query: Seq<char>,
    read: F,
    root: Seq<char>,
    client: PositionEncoding,
    d: int,
    before: Seq<char>,
    after: Seq<char>,
)
    requires
        crate::handlers::search::is_search_answer(
            results,
            index,
            live,
            shadowed,
            query,
            read,
            root,
            client,
        ),
        query.len() > 0,
        results.total <= 50,
        0 <= d < live.len(),
        crate::text::lowercased(live[d].name) == before + crate::text::lowercased(query) + after,
    ensures
        exists|k: int|
            0 <= k < results.symbols@.len() && crate::handlers::shows_definition(
                #[trigger] results.symbols@[k],
                live[d],
                read,
                root,
                client,
            ),
{
    let needle = crate::text::lowercased(query);
    let (ranking, rows) = lemma_answer(results, index, live, shadowed, query, read, root, client);
    let all = crate::handlers::search::candidates(index, needle, ranking, live, shadowed);
    let ranked = Seq::new(ranking.len(), |i: int| index.definitions[ranking[i] as int]);
    let outside = crate::handlers::search::unshadowed(ranked, shadowed);
    let named = crate::handlers::search::matching(live, needle);
    crate::text::laws::occurrences_split_the_text(before, needle, after);
    lemma_matching(live, needle);
    assert(named.contains(live[d]));
    let c = choose|c: int| 0 <= c < named.len() && named[c] == live[d];
    assert(all[outside.len() + c] == live[d]);
    lemma_given(results, all, needle, rows, read, root, client, outside.len() + c);
}

/// Everything found has a name that contains the query, case aside, and comes
/// from the index outside the shadowed files or from what was parsed.
pub proof fn only_matching_names_are_found<F: Fn(&str) -> Option<String>>(
    results: SearchResults,
    index: IndexView,
    live: Seq<DefinitionView>,
    shadowed: Seq<Seq<char>>,
    query: Seq<char>,
    read: F,
    root: Seq<char>,
    client: PositionEncoding,
    k: int,
)
    requires
        crate::handlers::search::is_search_answer(
            results,
            index,
            live,
            shadowed,
            query,
            read,
            root,
            client,
        ),
        0 <= k < results.symbols@.len(),
    ensures
        query.len() > 0,
        results.symbols@.len() <= 50,
        results.symbols@.len() <= results.total,
        exists|definition: DefinitionView, before: Seq<char>, after: Seq<char>|
            {
                &&& live.contains(definition) || (index.definitions.contains(definition)
                    && !shadowed.contains(definition.path))
                &&& crate::text::lowercased(definition.name) == #[trigger] (before
                    + crate::text::lowercased(query) + after)
                &&& #[trigger] crate::handlers::shows_definition(
                    results.symbols@[k],
                    definition,
                    read,
                    root,
                    client,
                )
            },
{
    let needle = crate::text::lowercased(query);
    let (ranking, rows) = lemma_answer(results, index, live, shadowed, query, read, root, client);
    let all = crate::handlers::search::candidates(index, needle, ranking, live, shadowed);
    let ranked = Seq::new(ranking.len(), |i: int| index.definitions[ranking[i] as int]);
    let outside = crate::handlers::search::unshadowed(ranked, shadowed);
    let named = crate::handlers::search::matching(live, needle);
    lemma_unshadowed(ranked, shadowed);
    lemma_matching(live, needle);
    assert(rows.contains(rows[k]));
    let c = rows[k] as int;
    let definition = all[c];
    if c < outside.len() {
        assert(outside.contains(definition));
        let r = choose|r: int| 0 <= r < ranked.len() && ranked[r] == definition;
        assert(ranking.contains(ranking[r]));
        assert(index.definitions[ranking[r] as int] == definition);
    } else {
        assert(named[c - outside.len()] == definition);
        assert(named.contains(definition));
    }
    assert(crate::symbol_index::search::is_match(definition, needle));
    crate::text::laws::texts_split_at_occurrences(
        crate::text::lowercased(definition.name),
        needle,
    );
    let (before, after) = choose|before: Seq<char>, after: Seq<char>|
        crate::text::lowercased(definition.name) == #[trigger] (before + needle + after);
    assert(live.contains(definition) || (index.definitions.contains(definition)
        && !shadowed.contains(definition.path)));
    assert(crate::handlers::shows_definition(results.symbols@[k], definition, read, root, client));
    assert(crate::text::lowercased(definition.name) == before + crate::text::lowercased(query)
        + after);
}

/// What is found is counted, and an empty query finds nothing. More than a
/// search returns are cut to that many.
pub proof fn searches_are_counted<F: Fn(&str) -> Option<String>>(
    results: SearchResults,
    index: IndexView,
    live: Seq<DefinitionView>,
    shadowed: Seq<Seq<char>>,
    query: Seq<char>,
    read: F,
    root: Seq<char>,
    client: PositionEncoding,
)
    requires
        crate::handlers::search::is_search_answer(
            results,
            index,
            live,
            shadowed,
            query,
            read,
            root,
            client,
        ),
    ensures
        query.len() == 0 ==> results.total == 0,
        results.total <= 50 ==> results.symbols@.len() == results.total,
        results.total > 50 ==> results.symbols@.len() == 50,
{
    if query.len() > 0 {
        let (ranking, rows) = lemma_answer(
            results,
            index,
            live,
            shadowed,
            query,
            read,
            root,
            client,
        );
    }
}

/// A name that is the query comes before one that begins with it, and that
/// before one that has it further on; of two that are alike in this the shorter
/// comes first, and of two as long the one in the file that comes first.
pub proof fn better_names_come_first(
    definitions: Seq<DefinitionView>,
    needle: Seq<char>,
    a: usize,
    b: usize,
)
    requires
        a < definitions.len(),
        b < definitions.len(),
    ensures
        ({
            let x = definitions[a as int];
            let y = definitions[b as int];
            let x_name = crate::text::lowercased(x.name);
            let y_name = crate::text::lowercased(y.name);
            let x_bytes = vstd::utf8::encode_utf8(x.name).len();
            let y_bytes = vstd::utf8::encode_utf8(y.name).len();
            let alike = (x_name == needle <==> y_name == needle) && (needle.is_prefix_of(x_name)
                <==> needle.is_prefix_of(y_name));
            &&& x_name == needle && y_name != needle
                ==> crate::symbol_index::search::ranked_before(definitions, needle, a, b)
            &&& y_name != needle && needle.is_prefix_of(x_name) && !needle.is_prefix_of(y_name)
                ==> crate::symbol_index::search::ranked_before(definitions, needle, a, b)
            &&& alike && x_bytes < y_bytes ==> crate::symbol_index::search::ranked_before(
                definitions,
                needle,
                a,
                b,
            )
            &&& alike && x_bytes == y_bytes && crate::text::text_before(x.path, y.path)
                ==> crate::symbol_index::search::ranked_before(definitions, needle, a, b)
            &&& alike && x_bytes == y_bytes && x.path == y.path && crate::text::text_before(
                x.name,
                y.name,
            ) ==> crate::symbol_index::search::ranked_before(definitions, needle, a, b)
            &&& x.name == y.name && x.path == y.path && crate::text::text_before(x.symbol, y.symbol)
                ==> crate::symbol_index::search::ranked_before(definitions, needle, a, b)
        }),
{
    let x = definitions[a as int];
    let y = definitions[b as int];
    crate::text::lemma_text_irreflexive(x.path);
    crate::text::lemma_text_irreflexive(x.name);
    crate::text::lemma_text_irreflexive(x.symbol);
}

proof fn lemma_answer<F: Fn(&str) -> Option<String>>(
    results: SearchResults,
    index: IndexView,
    live: Seq<DefinitionView>,
    shadowed: Seq<Seq<char>>,
    query: Seq<char>,
    read: F,
    root: Seq<char>,
    client: PositionEncoding,
) -> (found: (Seq<usize>, Seq<usize>))
    requires
        crate::handlers::search::is_search_answer(
            results,
            index,
            live,
            shadowed,
            query,
            read,
            root,
            client,
        ),
        query.len() > 0,
    ensures
        ({
            let needle = crate::text::lowercased(query);
            let all = crate::handlers::search::candidates(index, needle, found.0, live, shadowed);
            &&& crate::symbol_index::search::is_ranking(
                index.definitions,
                needle,
                Set::full(),
                found.0,
            )
            &&& crate::handlers::search::is_candidate_order(all, needle, found.1)
            &&& crate::handlers::search::lists(results, all, found.1, read, root, client)
        }),
{
    let needle = crate::text::lowercased(query);
    let (ranking, rows) = choose|ranking: Seq<usize>, rows: Seq<usize>|
        #![trigger crate::symbol_index::search::is_ranking(
            index.definitions,
            needle,
            Set::full(),
            ranking,
        ), crate::handlers::search::is_candidate_order(
            crate::handlers::search::candidates(index, needle, ranking, live, shadowed),
            needle,
            rows,
        )]
        {
            let all = crate::handlers::search::candidates(index, needle, ranking, live, shadowed);
            &&& crate::symbol_index::search::is_ranking(
                index.definitions,
                needle,
                Set::full(),
                ranking,
            )
            &&& crate::handlers::search::is_candidate_order(all, needle, rows)
            &&& crate::handlers::search::lists(results, all, rows, read, root, client)
        };
    (ranking, rows)
}

proof fn lemma_given<F: Fn(&str) -> Option<String>>(
    results: SearchResults,
    all: Seq<DefinitionView>,
    needle: Seq<char>,
    rows: Seq<usize>,
    read: F,
    root: Seq<char>,
    client: PositionEncoding,
    c: int,
)
    requires
        crate::handlers::search::is_candidate_order(all, needle, rows),
        crate::handlers::search::lists(results, all, rows, read, root, client),
        results.total <= 50,
        0 <= c < all.len(),
    ensures
        exists|k: int|
            0 <= k < results.symbols@.len() && crate::handlers::shows_definition(
                #[trigger] results.symbols@[k],
                all[c],
                read,
                root,
                client,
            ),
{
    assert(rows.contains(c as usize));
    let k = choose|k: int| 0 <= k < rows.len() && rows[k] == c as usize;
    assert(crate::handlers::shows_definition(results.symbols@[k], all[c], read, root, client));
}

proof fn lemma_unshadowed(found: Seq<DefinitionView>, shadowed: Seq<Seq<char>>)
    ensures
        forall|definition: DefinitionView| #[trigger]
            crate::handlers::search::unshadowed(found, shadowed).contains(definition) <==> (
            found.contains(definition) && !shadowed.contains(definition.path)),
    decreases found.len(),
{
    if found.len() > 0 {
        let rest = found.drop_last();
        let last = found.last();
        lemma_unshadowed(rest, shadowed);
        let before = crate::handlers::search::unshadowed(rest, shadowed);
        let all = crate::handlers::search::unshadowed(found, shadowed);
        assert forall|definition: DefinitionView| #[trigger]
            all.contains(definition) <==> (found.contains(definition) && !shadowed.contains(
                definition.path,
            )) by {
            lemma_last(before, definition, last);
            lemma_last(rest, definition, last);
            assert(rest.push(last) =~= found);
        }
    }
}

proof fn lemma_matching(live: Seq<DefinitionView>, needle: Seq<char>)
    ensures
        forall|definition: DefinitionView| #[trigger]
            crate::handlers::search::matching(live, needle).contains(definition) <==> (
            live.contains(definition) && crate::symbol_index::search::is_match(
                definition,
                needle,
            )),
    decreases live.len(),
{
    if live.len() > 0 {
        let rest = live.drop_last();
        let last = live.last();
        lemma_matching(rest, needle);
        let before = crate::handlers::search::matching(rest, needle);
        let all = crate::handlers::search::matching(live, needle);
        assert forall|definition: DefinitionView| #[trigger]
            all.contains(definition) <==> (live.contains(definition)
                && crate::symbol_index::search::is_match(definition, needle)) by {
            lemma_last(before, definition, last);
            lemma_last(rest, definition, last);
            assert(rest.push(last) =~= live);
        }
    }
}

proof fn lemma_last(list: Seq<DefinitionView>, definition: DefinitionView, last: DefinitionView)
    ensures
        list.push(last).contains(definition) <==> list.contains(definition) || definition == last,
{
    let all = list.push(last);
    if list.contains(definition) {
        let i = choose|i: int| 0 <= i < list.len() && list[i] == definition;
        assert(all[i] == definition);
    }
    assert(all[list.len() as int] == last);
    if all.contains(definition) && definition != last {
        let i = choose|i: int| 0 <= i < all.len() && all[i] == definition;
        assert(list[i] == definition);
    }
}

} // verus!
