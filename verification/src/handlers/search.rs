//! Symbol search over the index and over what was edited since.
use vstd::prelude::*;

use crate::definition::{Definition, DefinitionView};
use crate::handlers::references::{first_rows, lemma_covers};
use crate::handlers::{list_outcome, to_symbol_information, SymbolInformation, SEARCH_LIMIT};
use crate::index_model::IndexView;
use crate::line_index::PositionEncoding;
use crate::order::{sorted_rows, Precedence, TotalOrder};
use crate::paths::AbsPath;
use crate::symbol_index::search::{rank, Ranking};
use crate::symbol_index::SymbolIndex;
use crate::telemetry::Outcome;
use crate::text::{chars_of, comes_before, find, lower, same_text};

verus! {

/// A search result, with the total before truncation.
#[derive(Debug)]
pub struct SearchResults {
    pub symbols: Vec<SymbolInformation>,
    /// How many matched, which may exceed how many are given.
    pub total: usize,
}

impl SearchResults {
    /// How the query ended.
    pub fn outcome(&self) -> (outcome: Outcome)
        ensures
            outcome == crate::handlers::listed(self.symbols@.len() as usize, self.total),
    {
        list_outcome(self.symbols.len(), self.total)
    }
}

/// Whether the results are the first of some definitions in the order of
/// `rows`, as many as a search returns, and count all.
pub open spec fn lists<F: Fn(&str) -> Option<String>>(
    results: SearchResults,
    definitions: Seq<DefinitionView>,
    rows: Seq<usize>,
    read: F,
    root: Seq<char>,
    client: PositionEncoding,
) -> bool {
    &&& results.total == rows.len()
    &&& results.symbols@.len() == crate::symbol_index::search::at_most(
        rows.len() as int,
        SEARCH_LIMIT as int,
    )
    &&& forall|i: int|
        0 <= i < results.symbols@.len() ==> crate::handlers::shows_definition(
            #[trigger] results.symbols@[i],
            definitions[rows[i] as int],
            read,
            root,
            client,
        )
}

/// Answers `workspace/symbol` from the global index.
///
/// The root turns the index's workspace-relative paths back into `file:` URIs.
/// `read` supplies file text for column conversion.
pub fn workspace_symbol<F: Fn(&str) -> Option<String>>(
    index: &SymbolIndex,
    query: &str,
    root: &AbsPath,
    client: PositionEncoding,
    read: &F,
) -> (results: SearchResults)
    requires
        index.wf(),
        crate::handlers::names_workspace_files(index@),
        crate::handlers::is_reader(*read),
    ensures
        query@.len() == 0 ==> results.total == 0 && results.symbols@.len() == 0,
        query@.len() > 0 ==> exists|rows: Seq<usize>| #[trigger]
            crate::symbol_index::search::is_ranking(
                index@.definitions,
                crate::text::lowercased(query@),
                Set::full(),
                rows,
            ) && lists(results, index@.definitions, rows, *read, root@, client),
{
    let matches = index.search(query);
    let ghost needle = crate::text::lowercased(query@);
    let ghost rows = if query@.len() > 0 {
        choose|rows: Seq<usize>| #[trigger]
            crate::symbol_index::search::is_ranking(
                index@.definitions,
                needle,
                Set::full(),
                rows,
            ) && crate::symbol_index::queries::found_at(index@.definitions, rows, matches@)
    } else {
        Seq::empty()
    };
    proof {
        assert(matches@.len() == rows.len());
        assert forall|k: int| 0 <= k < matches@.len() implies !crate::paths::absolute(
            (#[trigger] matches@[k]).path@,
        ) by {
            assert(matches@[k]@ == index@.definitions[rows[k] as int]);
            assert(rows.contains(rows[k]));
        }
    }
    let total: usize = matches.len();
    let mut symbols: Vec<SymbolInformation> = Vec::new();
    let mut i: usize = 0;
    while i < matches.len() && i < SEARCH_LIMIT
        invariant
            i <= matches@.len(),
            i <= SEARCH_LIMIT,
            matches@.len() == rows.len(),
            query@.len() > 0 ==> crate::symbol_index::queries::found_at(
                index@.definitions,
                rows,
                matches@,
            ),
            query@.len() == 0 ==> rows.len() == 0,
            crate::handlers::is_reader(*read),
            forall|k: int|
                0 <= k < matches@.len() ==> !crate::paths::absolute(
                    (#[trigger] matches@[k]).path@,
                ),
            symbols@.len() == i,
            forall|k: int|
                0 <= k < i ==> crate::handlers::shows_definition(
                    #[trigger] symbols@[k],
                    index@.definitions[rows[k] as int],
                    *read,
                    root@,
                    client,
                ),
        decreases matches@.len() - i,
    {
        let definition = matches[i];
        assert(matches@[i as int]@ == index@.definitions[rows[i as int] as int]);
        symbols.push(to_symbol_information(definition, root, client, read));
        i += 1;
    }
    let results = SearchResults { symbols, total };
    proof {
        if query@.len() > 0 {
            assert(lists(results, index@.definitions, rows, *read, root@, client));
        }
    }
    results
}

/// The definitions that a search finds outside the `shadowed` files, in the
/// order in which it finds them.
pub open spec fn unshadowed(
    found: Seq<DefinitionView>,
    shadowed: Seq<Seq<char>>,
) -> Seq<DefinitionView>
    decreases found.len(),
{
    if found.len() == 0 {
        Seq::empty()
    } else if shadowed.contains(found.last().path) {
        unshadowed(found.drop_last(), shadowed)
    } else {
        unshadowed(found.drop_last(), shadowed).push(found.last())
    }
}

/// The definitions among `live` whose name contains the query, case aside.
pub open spec fn matching(live: Seq<DefinitionView>, needle: Seq<char>) -> Seq<DefinitionView>
    decreases live.len(),
{
    if live.len() == 0 {
        Seq::empty()
    } else if crate::symbol_index::search::is_match(live.last(), needle) {
        matching(live.drop_last(), needle).push(live.last())
    } else {
        matching(live.drop_last(), needle)
    }
}

/// Whether `rows` are all of `candidates`, best first.
pub open spec fn is_candidate_order(
    candidates: Seq<DefinitionView>,
    needle: Seq<char>,
    rows: Seq<usize>,
) -> bool {
    &&& forall|i: int, j: int|
        0 <= i < j < rows.len() ==> #[trigger] crate::symbol_index::search::ranked_before(
            candidates,
            needle,
            rows[i],
            rows[j],
        )
    &&& forall|x: usize| #[trigger] rows.contains(x) <==> x < candidates.len()
    &&& rows.len() == candidates.len()
}

/// The views of some definitions.
pub open spec fn views(definitions: Seq<&Definition>) -> Seq<DefinitionView> {
    Seq::new(definitions.len(), |i: int| definitions[i]@)
}

/// The candidates for a query: what the index has outside the shadowed files,
/// and what was parsed from those.
pub open spec fn candidates(
    index: IndexView,
    needle: Seq<char>,
    ranking: Seq<usize>,
    live: Seq<DefinitionView>,
    shadowed: Seq<Seq<char>>,
) -> Seq<DefinitionView> {
    unshadowed(
        Seq::new(ranking.len(), |i: int| index.definitions[ranking[i] as int]),
        shadowed,
    ) + matching(live, needle)
}

/// The order of results.
struct BestFirst<'a> {
    definitions: &'a Vec<&'a Definition>,
    needle: &'a str,
}

impl<'a> BestFirst<'a> {
    /// The order, over the views of the definitions.
    spec fn ranking(&self) -> Ranking {
        Ranking { definitions: views(self.definitions@), needle: self.needle@ }
    }
}

impl<'a> TotalOrder for BestFirst<'a> {
    closed spec fn before(&self, a: usize, b: usize) -> bool {
        self.ranking().before(a, b)
    }

    proof fn lemma_irreflexive(&self, a: usize) {
    }

    proof fn lemma_transitive(&self, a: usize, b: usize, c: usize) {
        self.ranking().lemma_transitive(a, b, c);
    }

    proof fn lemma_total(&self, a: usize, b: usize) {
        self.ranking().lemma_total(a, b);
    }
}

impl<'a> Precedence for BestFirst<'a> {
    closed spec fn known(&self, a: usize) -> bool {
        a < self.definitions@.len()
    }

    fn precedes(&self, a: usize, b: usize) -> (first: bool) {
        let x = self.definitions[a];
        let y = self.definitions[b];
        assert(views(self.definitions@)[a as int] == x@);
        assert(views(self.definitions@)[b as int] == y@);
        let rank_x: u8 = rank(&lower(&x.name), self.needle);
        let rank_y: u8 = rank(&lower(&y.name), self.needle);
        if rank_x != rank_y {
            return rank_x < rank_y;
        }
        let len_x: usize = x.name.as_str().as_bytes().len();
        let len_y: usize = y.name.as_str().as_bytes().len();
        if len_x != len_y {
            len_x < len_y
        } else if !same_text(&x.path, &y.path) {
            comes_before(&x.path, &y.path)
        } else if !same_text(&x.name, &y.name) {
            comes_before(&x.name, &y.name)
        } else if !same_text(&x.symbol, &y.symbol) {
            comes_before(&x.symbol, &y.symbol)
        } else {
            a < b
        }
    }
}

/// Whether `texts` holds `text`.
pub fn holds_text(texts: &Vec<String>, text: &str) -> (found: bool)
    ensures
        found == crate::text::texts(texts@).contains(text@),
{
    let ghost all = crate::text::texts(texts@);
    let mut i: usize = 0;
    while i < texts.len()
        invariant
            all == crate::text::texts(texts@),
            i <= texts@.len(),
            forall|j: int| 0 <= j < i ==> all[j] != text@,
        decreases texts@.len() - i,
    {
        assert(all[i as int] == texts@[i as int]@);
        if same_text(&texts[i], text) {
            assert(all.contains(text@));
            return true;
        }
        i += 1;
    }
    false
}

/// Whether `results` answer a search in the index and in what was parsed from
/// the shadowed files: the best of all candidates, best first, and how many
/// there are. An empty query matches nothing.
pub open spec fn is_search_answer<F: Fn(&str) -> Option<String>>(
    results: SearchResults,
    index: IndexView,
    live: Seq<DefinitionView>,
    shadowed: Seq<Seq<char>>,
    query: Seq<char>,
    read: F,
    root: Seq<char>,
    client: PositionEncoding,
) -> bool {
    let needle = crate::text::lowercased(query);
    if query.len() == 0 {
        results.total == 0 && results.symbols@.len() == 0
    } else {
        exists|ranking: Seq<usize>, rows: Seq<usize>|
            #![trigger crate::symbol_index::search::is_ranking(
                index.definitions,
                needle,
                Set::full(),
                ranking,
            ), is_candidate_order(candidates(index, needle, ranking, live, shadowed), needle, rows)]
            {
                let all = candidates(index, needle, ranking, live, shadowed);
                &&& crate::symbol_index::search::is_ranking(
                    index.definitions,
                    needle,
                    Set::full(),
                    ranking,
                )
                &&& is_candidate_order(all, needle, rows)
                &&& lists(results, all, rows, read, root, client)
            }
    }
}

/// Answers `workspace/symbol` from the global index and from what was parsed
/// from files that are newer than it.
///
/// Everything that the index says of a shadowed file is left out: its current
/// declarations are among `live`, and reviving old ones would be untrue.
pub fn workspace_symbol_with<F: Fn(&str) -> Option<String>>(
    index: &SymbolIndex,
    live: &Vec<Definition>,
    shadowed: &Vec<String>,
    query: &str,
    root: &AbsPath,
    client: PositionEncoding,
    read: &F,
) -> (results: SearchResults)
    requires
        index.wf(),
        crate::handlers::names_workspace_files(index@),
        forall|i: int|
            0 <= i < live@.len() ==> !crate::paths::absolute((#[trigger] live@[i]).path@),
        crate::handlers::is_reader(*read),
    ensures
        is_search_answer(
            results,
            index@,
            crate::definition::definition_views(live@),
            crate::text::texts(shadowed@),
            query@,
            *read,
            root@,
            client,
        ),
{
    if query.is_empty() {
        return SearchResults { symbols: Vec::new(), total: 0 };
    }
    let needle = lower(query);
    let found = index.search(query);
    let ghost hidden = crate::text::texts(shadowed@);
    let ghost ranking = choose|rows: Seq<usize>| #[trigger]
        crate::symbol_index::search::is_ranking(
            index@.definitions,
            needle@,
            Set::full(),
            rows,
        ) && crate::symbol_index::queries::found_at(index@.definitions, rows, found@);
    let ghost ranked = Seq::new(ranking.len(), |i: int| index@.definitions[ranking[i] as int]);
    let mut all: Vec<&Definition> = Vec::new();
    let mut i: usize = 0;
    proof {
        assert(ranked.take(0) =~= Seq::<DefinitionView>::empty());
        assert(views(all@) =~= unshadowed(ranked.take(0), hidden));
    }
    while i < found.len()
        invariant
            i <= found@.len(),
            hidden == crate::text::texts(shadowed@),
            crate::handlers::names_workspace_files(index@),
            crate::symbol_index::search::is_ranking(
                index@.definitions,
                needle@,
                Set::full(),
                ranking,
            ),
            crate::symbol_index::queries::found_at(index@.definitions, ranking, found@),
            ranked == Seq::new(ranking.len(), |i: int| index@.definitions[ranking[i] as int]),
            views(all@) == unshadowed(ranked.take(i as int), hidden),
            forall|k: int|
                0 <= k < all@.len() ==> !crate::paths::absolute((#[trigger] all@[k]).path@),
        decreases found@.len() - i,
    {
        let definition = found[i];
        proof {
            assert(ranked.take(i + 1).drop_last() =~= ranked.take(i as int));
            assert(definition@ == ranked[i as int]);
            assert(ranking.contains(ranking[i as int]));
            assert(!crate::paths::absolute(
                index@.definitions[ranking[i as int] as int].path,
            ));
        }
        let ghost before = all@;
        if !holds_text(shadowed, &definition.path) {
            all.push(definition);
            assert(views(all@) =~= views(before).push(definition@));
        }
        i += 1;
    }
    assert(ranked.take(i as int) =~= ranked);
    let ghost kept = views(all@);
    let ghost fresh = crate::definition::definition_views(live@);
    let part = chars_of(&needle);
    let mut i: usize = 0;
    proof {
        assert(fresh.take(0) =~= Seq::<DefinitionView>::empty());
        assert(views(all@) =~= kept + matching(fresh.take(0), needle@));
    }
    while i < live.len()
        invariant
            i <= live@.len(),
            part@ == needle@,
            fresh == crate::definition::definition_views(live@),
            views(all@) == kept + matching(fresh.take(i as int), needle@),
            forall|k: int|
                0 <= k < live@.len() ==> !crate::paths::absolute((#[trigger] live@[k]).path@),
            forall|k: int|
                0 <= k < all@.len() ==> !crate::paths::absolute((#[trigger] all@[k]).path@),
        decreases live@.len() - i,
    {
        let definition = &live[i];
        proof {
            assert(fresh.take(i + 1).drop_last() =~= fresh.take(i as int));
            assert(fresh[i as int] == definition@);
        }
        let lowered = lower(&definition.name);
        let chars = chars_of(&lowered);
        let ghost before = all@;
        if find(chars.as_slice(), part.as_slice()).is_some() {
            all.push(definition);
            proof {
                assert(views(all@) =~= views(before).push(definition@));
                assert(views(all@) =~= kept + matching(fresh.take(i + 1), needle@));
            }
        }
        i += 1;
    }
    assert(fresh.take(i as int) =~= fresh);
    let ghost wanted = candidates(index@, needle@, ranking, fresh, hidden);
    assert(views(all@) =~= wanted);
    let total: usize = all.len();
    let rows = first_rows(total);
    let order = BestFirst { definitions: &all, needle: &needle };
    proof {
        assert forall|k: int| 0 <= k < rows@.len() implies #[trigger] order.known(rows@[k]) by {
            assert(rows@[k] == k);
        }
    }
    let sorted = sorted_rows(&order, &rows);
    proof {
        assert forall|i: int, j: int| 0 <= i < j < sorted@.len() implies #[trigger]
            crate::symbol_index::search::ranked_before(wanted, needle@, sorted@[i], sorted@[j]) by {
            assert(order.before(sorted@[i], sorted@[j]));
        }
        assert forall|x: usize| #[trigger] sorted@.contains(x) <==> x < wanted.len() by {
            if rows@.contains(x) {
                let k = choose|k: int| 0 <= k < rows@.len() && rows@[k] == x;
                assert(rows@[k] == k);
            }
            if x < total {
                assert(rows@[x as int] == x);
                assert(rows@.contains(x));
            }
        }
        crate::order::lemma_ordered_distinct(&order, sorted@);
        lemma_covers(sorted@, total as nat);
    }
    let mut symbols: Vec<SymbolInformation> = Vec::new();
    let mut i: usize = 0;
    while i < sorted.len() && i < SEARCH_LIMIT
        invariant
            i <= sorted@.len(),
            i <= SEARCH_LIMIT,
            views(all@) == wanted,
            is_candidate_order(wanted, needle@, sorted@),
            crate::handlers::is_reader(*read),
            forall|k: int|
                0 <= k < all@.len() ==> !crate::paths::absolute((#[trigger] all@[k]).path@),
            symbols@.len() == i,
            forall|k: int|
                0 <= k < i ==> crate::handlers::shows_definition(
                    #[trigger] symbols@[k],
                    wanted[sorted@[k] as int],
                    *read,
                    root@,
                    client,
                ),
        decreases sorted@.len() - i,
    {
        assert(sorted@.contains(sorted@[i as int]));
        let definition = all[sorted[i]];
        assert(wanted[sorted@[i as int] as int] == definition@);
        symbols.push(to_symbol_information(definition, root, client, read));
        i += 1;
    }
    let results = SearchResults { symbols, total };
    assert(lists(results, wanted, sorted@, *read, root@, client));
    results
}

/// Nothing is claimed of a shadowed file from the index: every candidate is one
/// that was parsed or lies in no shadowed file.
pub proof fn shadowed_files_are_left_out(found: Seq<DefinitionView>, shadowed: Seq<Seq<char>>)
    ensures
        forall|i: int|
            0 <= i < unshadowed(found, shadowed).len() ==> !shadowed.contains(
                (#[trigger] unshadowed(found, shadowed)[i]).path,
            ),
        unshadowed(found, shadowed).len() <= found.len(),
    decreases found.len(),
{
    if found.len() > 0 {
        let rest = unshadowed(found.drop_last(), shadowed);
        shadowed_files_are_left_out(found.drop_last(), shadowed);
        assert forall|i: int| 0 <= i < unshadowed(found, shadowed).len() implies !shadowed.contains(
            (#[trigger] unshadowed(found, shadowed)[i]).path,
        ) by {
            if i < rest.len() {
                assert(unshadowed(found, shadowed)[i] == rest[i]);
            }
        }
    }
}

} // verus!
