//! Search by short name.
use vstd::prelude::*;

use crate::definition::{Column, Definition, DefinitionView};
use crate::order::{sorted_rows, Precedence, TotalOrder};
use crate::symbol_index::SymbolIndex;
use crate::text::{begins_with, chars_of, comes_before, find, lower, same_text};

verus! {

/// How well a name in lower case matches a query in lower case: 0 for an exact
/// match, 1 for a prefix match, 2 otherwise.
pub open spec fn match_rank(name: Seq<char>, needle: Seq<char>) -> u8 {
    if name == needle {
        0
    } else if needle.is_prefix_of(name) {
        1
    } else {
        2
    }
}

/// Computes [`match_rank`].
pub fn rank(name: &str, needle: &str) -> (rank: u8)
    ensures
        rank == match_rank(name@, needle@),
{
    if same_text(name, needle) {
        0
    } else {
        let chars = chars_of(name);
        let part = chars_of(needle);
        if begins_with(chars.as_slice(), part.as_slice()) {
            1
        } else {
            2
        }
    }
}

/// Whether a definition's short name contains the query, case aside.
pub open spec fn is_match(definition: DefinitionView, needle: Seq<char>) -> bool {
    crate::text::occurs_in(crate::text::lowercased(definition.name), needle)
}

/// How many bytes a text takes.
pub open spec fn byte_len(text: Seq<char>) -> nat {
    vstd::utf8::encode_utf8(text).len()
}

/// Whether the definition at `a` comes before that at `b` among the results for
/// a query.
///
/// Exact matches come first, then prefix matches, then the rest, so a truncated
/// result keeps what the caller most likely meant. Ties break on the length of
/// the name, then the path, so the order is stable across runs and a persisted
/// index diffs cleanly. What ties even then goes by the name, the symbol, and
/// last by which came first.
pub open spec fn ranked_before(
    definitions: Seq<DefinitionView>,
    needle: Seq<char>,
    a: usize,
    b: usize,
) -> bool {
    let x = definitions[a as int];
    let y = definitions[b as int];
    let rank_x = match_rank(crate::text::lowercased(x.name), needle);
    let rank_y = match_rank(crate::text::lowercased(y.name), needle);
    if rank_x != rank_y {
        rank_x < rank_y
    } else if byte_len(x.name) != byte_len(y.name) {
        byte_len(x.name) < byte_len(y.name)
    } else if x.path != y.path {
        crate::text::text_before(x.path, y.path)
    } else if x.name != y.name {
        crate::text::text_before(x.name, y.name)
    } else if x.symbol != y.symbol {
        crate::text::text_before(x.symbol, y.symbol)
    } else {
        a < b
    }
}

/// The order of the results for a query, over the views of the definitions.
pub struct Ranking {
    pub definitions: Seq<DefinitionView>,
    pub needle: Seq<char>,
}

impl TotalOrder for Ranking {
    open spec fn before(&self, a: usize, b: usize) -> bool {
        ranked_before(self.definitions, self.needle, a, b)
    }

    proof fn lemma_irreflexive(&self, a: usize) {
    }

    proof fn lemma_transitive(&self, a: usize, b: usize, c: usize) {
        let x = self.definitions[a as int];
        let y = self.definitions[b as int];
        let z = self.definitions[c as int];
        if x.name != y.name && y.name != z.name && crate::text::text_before(x.name, y.name)
            && crate::text::text_before(y.name, z.name) {
            crate::text::lemma_text_transitive(x.name, y.name, z.name);
            crate::text::lemma_text_irreflexive(x.name);
        }
        if x.path != y.path && y.path != z.path && crate::text::text_before(x.path, y.path)
            && crate::text::text_before(y.path, z.path) {
            crate::text::lemma_text_transitive(x.path, y.path, z.path);
            crate::text::lemma_text_irreflexive(x.path);
        }
        if x.symbol != y.symbol && y.symbol != z.symbol && crate::text::text_before(
            x.symbol,
            y.symbol,
        ) && crate::text::text_before(y.symbol, z.symbol) {
            crate::text::lemma_text_transitive(x.symbol, y.symbol, z.symbol);
            crate::text::lemma_text_irreflexive(x.symbol);
        }
    }

    proof fn lemma_total(&self, a: usize, b: usize) {
        let x = self.definitions[a as int];
        let y = self.definitions[b as int];
        if x.name != y.name {
            crate::text::lemma_text_total(x.name, y.name);
        }
        if x.path != y.path {
            crate::text::lemma_text_total(x.path, y.path);
        }
        if x.symbol != y.symbol {
            crate::text::lemma_text_total(x.symbol, y.symbol);
        }
    }
}

/// The order of the results for a query.
pub struct SearchOrder<'a> {
    definitions: &'a Vec<Definition>,
    needle: &'a str,
}

impl<'a> TotalOrder for SearchOrder<'a> {
    closed spec fn before(&self, a: usize, b: usize) -> bool {
        self.ranking().before(a, b)
    }

    proof fn lemma_irreflexive(&self, a: usize) {
    }

    proof fn lemma_transitive(&self, a: usize, b: usize, c: usize) {
        self.ranking().lemma_transitive(a, b, c);
    }

    proof fn lemma_total(&self, a: usize, b: usize) {
        self.ranking().lemma_total(a, b);
    }
}

impl<'a> Precedence for SearchOrder<'a> {
    closed spec fn known(&self, a: usize) -> bool {
        a < self.definitions@.len()
    }

    fn precedes(&self, a: usize, b: usize) -> (first: bool) {
        let rank_a: u8 = rank(&lower(&self.definitions[a].name), self.needle);
        let rank_b: u8 = rank(&lower(&self.definitions[b].name), self.needle);
        self.outranks(rank_a, a, rank_b, b)
    }
}

impl<'a> SearchOrder<'a> {
    /// The order, over the views of the definitions.
    pub closed spec fn ranking(&self) -> Ranking {
        Ranking {
            definitions: crate::definition::definition_views(self.definitions@),
            needle: self.needle@,
        }
    }

    /// How well the definition at `a` matches the query.
    spec fn rank_of(&self, a: usize) -> u8 {
        match_rank(crate::text::lowercased(self.definitions@[a as int].name@), self.needle@)
    }

    /// Decides whether the definition at `a` comes before that at `b`, given how
    /// well each matches.
    fn outranks(&self, rank_a: u8, a: usize, rank_b: u8, b: usize) -> (first: bool)
        requires
            self.known(a),
            self.known(b),
            rank_a == self.rank_of(a),
            rank_b == self.rank_of(b),
        ensures
            first == self.before(a, b),
    {
        let x = &self.definitions[a];
        let y = &self.definitions[b];
        if rank_a != rank_b {
            return rank_a < rank_b;
        }
        let len_x: usize = x.name.as_str().as_bytes().len();
        let len_y: usize = y.name.as_str().as_bytes().len();
        if len_x != len_y {
            len_x < len_y
        } else if !same_text(&x.path, &y.path) {
            comes_before(&x.path, &y.path)
        } else if !same_text(&x.name, &y.name) {
            comes_before(&x.name, &y.name)
        } else if !same_text(&x.symbol, &y.symbol) {
            comes_before(&x.symbol, &y.symbol)
        } else {
            a < b
        }
    }
}

/// Whether `rows` are the results for a query among the `admitted` definitions,
/// best first: all that match, each once, in order.
pub open spec fn is_ranking(
    definitions: Seq<DefinitionView>,
    needle: Seq<char>,
    admitted: Set<usize>,
    rows: Seq<usize>,
) -> bool {
    &&& forall|i: int, j: int|
        0 <= i < j < rows.len() ==> #[trigger] ranked_before(definitions, needle, rows[i], rows[j])
    &&& forall|x: usize| #[trigger]
        rows.contains(x) <==> x < definitions.len() && is_match(definitions[x as int], needle)
            && admitted.contains(x)
}

/// Whether a filter that was asked about each match admitted exactly those.
pub open spec fn admits<F: Fn(&Definition) -> bool>(
    stored: Seq<Definition>,
    needle: Seq<char>,
    filter: F,
    admitted: Set<usize>,
) -> bool {
    forall|x: usize|
        x < stored.len() && is_match(stored[x as int]@, needle) ==> filter.ensures(
            (&stored[x as int],),
            #[trigger] admitted.contains(x),
        )
}

/// Whether `found` are the definitions whose short name contains the query, case
/// aside, best first. An empty query matches nothing.
pub open spec fn is_search(
    stored: Seq<Definition>,
    query: Seq<char>,
    found: Seq<&Definition>,
) -> bool {
    if query.len() == 0 {
        found.len() == 0
    } else {
        exists|rows: Seq<usize>| #[trigger]
            is_ranking(
                crate::definition::definition_views(stored),
                crate::text::lowercased(query),
                Set::full(),
                rows,
            ) && crate::symbol_index::queries::stored_at(stored, rows, found)
    }
}

/// Whether `found` are the best `limit` of the definitions that match the query
/// and that `filter` admitted, best first, and `total` counts all of those.
pub open spec fn is_limited_search<F: Fn(&Definition) -> bool>(
    stored: Seq<Definition>,
    query: Seq<char>,
    limit: int,
    filter: F,
    found: Seq<&Definition>,
    total: int,
) -> bool {
    let needle = crate::text::lowercased(query);
    if query.len() == 0 {
        found.len() == 0 && total == 0
    } else {
        exists|admitted: Set<usize>, rows: Seq<usize>|
            {
                &&& #[trigger] is_ranking(
                    crate::definition::definition_views(stored),
                    needle,
                    admitted,
                    rows,
                )
                &&& admits(stored, needle, filter, admitted)
                &&& total == rows.len()
                &&& crate::symbol_index::queries::stored_at(
                    stored,
                    rows.take(at_most(rows.len() as int, limit)),
                    found,
                )
            }
    }
}

impl SymbolIndex {
    /// Whether `rows` are the definitions whose name contains `needle`, each
    /// once, and `ranks` says how well each matches.
    spec fn matches_all(&self, needle: Seq<char>, rows: Seq<usize>, ranks: Seq<u8>) -> bool {
        &&& rows.no_duplicates()
        &&& forall|x: usize| #[trigger]
            rows.contains(x) <==> x < self@.definitions.len() && is_match(
                self@.definitions[x as int],
                needle,
            )
        &&& ranks.len() == rows.len()
        &&& forall|k: int|
            0 <= k < rows.len() ==> #[trigger] ranks[k] == match_rank(
                crate::text::lowercased(self@.definitions[rows[k] as int].name),
                needle,
            )
    }

    /// The rows of the definitions whose name contains `needle`, and how well
    /// each matches.
    fn matching_rows(&self, needle: &str) -> (found: (Vec<usize>, Vec<u8>))
        requires
            self.wf(),
        ensures
            self.matches_all(needle@, found.0@, found.1@),
    {
        let part = chars_of(needle);
        let ghost definitions = self@.definitions;
        let n: usize = self.definitions.len();
        let ghost order = self.by_name.order();
        proof {
            self.by_name.lemma_order();
        }
        let mut rows: Vec<usize> = Vec::new();
        let mut ranks: Vec<u8> = Vec::new();
        let mut i: usize = 0;
        while i < self.by_name.len()
            invariant
                self.wf(),
                self.by_name.wf(),
                definitions == self@.definitions,
                n == definitions.len(),
                part@ == needle@,
                order == self.by_name.order(),
                order.no_duplicates(),
                i <= order.len(),
                rows@.no_duplicates(),
                ranks@.len() == rows@.len(),
                forall|k: int|
                    0 <= k < rows@.len() ==> #[trigger] ranks@[k] == match_rank(
                        crate::text::lowercased(definitions[rows@[k] as int].name),
                        needle@,
                    ),
                forall|x: usize| #[trigger]
                    rows@.contains(x) <==> x < n && is_match(definitions[x as int], needle@)
                        && order.take(i as int).contains(
                        crate::definition::cell(definitions[x as int], Column::Name),
                    ),
            decreases order.len() - i,
        {
            let name = self.by_name.key(i);
            let chars = chars_of(name);
            let row = self.by_name.row_at(i);
            proof {
                assert(order.take(i + 1) =~= order.take(i as int).push(name@));
                assert(crate::table::row_of(self.by_name@, name@) == row@);
                crate::definition::lemma_rows_for(definitions, Column::Name, name@);
            }
            let ghost before = rows@;
            let found = find(chars.as_slice(), part.as_slice());
            if found.is_some() {
                let how_well: u8 = rank(name, needle);
                let mut k: usize = 0;
                while k < row.len()
                    invariant
                        k <= row@.len(),
                        rows@ == before + row@.take(k as int),
                        how_well == match_rank(name@, needle@),
                        forall|j: int|
                            0 <= j < row@.len() ==> #[trigger] row@[j] < definitions.len()
                                && crate::definition::cell(
                                definitions[row@[j] as int],
                                Column::Name,
                            ) == name@,
                        ranks@.len() == rows@.len(),
                        forall|j: int|
                            0 <= j < rows@.len() ==> #[trigger] ranks@[j] == match_rank(
                                crate::text::lowercased(definitions[rows@[j] as int].name),
                                needle@,
                            ),
                    decreases row@.len() - k,
                {
                    assert(row@[k as int] < definitions.len());
                    rows.push(row[k]);
                    ranks.push(how_well);
                    assert(before + row@.take(k + 1) =~= (before + row@.take(k as int)).push(
                        row@[k as int],
                    ));
                    k += 1;
                }
                assert(rows@ =~= before + row@) by {
                    assert(row@.take(k as int) =~= row@);
                }
            }
            proof {
                assert forall|x: usize| #[trigger]
                    rows@.contains(x) <==> x < n && is_match(definitions[x as int], needle@)
                        && order.take(i + 1).contains(
                        crate::definition::cell(definitions[x as int], Column::Name),
                    ) by {
                    let cell = crate::definition::cell(definitions[x as int], Column::Name);
                    lemma_push_key(order.take(i as int), name@, cell);
                    assert(before.contains(x) <==> x < n && is_match(
                        definitions[x as int],
                        needle@,
                    ) && order.take(i as int).contains(cell));
                    if x < n && cell == name@ {
                        assert(definitions[x as int] == definitions[x as int]);
                        assert(row@.contains(x));
                    }
                    if row@.contains(x) {
                        let k = choose|k: int| 0 <= k < row@.len() && row@[k] == x;
                        assert(row@[k] < definitions.len());
                    }
                    lemma_concat_contains(before, row@, x);
                }
                if found is Some {
                    assert forall|a: int, b: int|
                        0 <= a < b < rows@.len() implies rows@[a] != rows@[b] by {
                        let m = before.len();
                        if a >= m {
                            assert(row@[a - m] < row@[b - m]);
                        } else if b >= m {
                            assert(row@[b - m] < definitions.len());
                            assert(before.contains(before[a]));
                            if before[a] == row@[b - m] {
                                let t = order.take(i as int);
                                let k = choose|k: int| 0 <= k < t.len() && t[k] == name@;
                                assert(order[k] == order[i as int]);
                            }
                        }
                    }
                }
            }
            i += 1;
        }
        proof {
            assert(order.take(i as int) =~= order);
            assert forall|x: usize| #[trigger]
                rows@.contains(x) <==> x < n && is_match(definitions[x as int], needle@) by {
                if x < n {
                    let cell = crate::definition::cell(definitions[x as int], Column::Name);
                    crate::definition::lemma_rows_for(definitions, Column::Name, cell);
                    assert(crate::table::row_of(self.by_name@, cell)
                        == crate::definition::rows_for(definitions, Column::Name, cell));
                    assert(crate::definition::rows_for(
                        definitions,
                        Column::Name,
                        cell,
                    ).contains(x));
                    assert(self.by_name@.contains_key(cell));
                    assert(order.contains(cell));
                }
            }
        }
        (rows, ranks)
    }
}

proof fn lemma_push_key(keys: Seq<Seq<char>>, key: Seq<char>, other: Seq<char>)
    ensures
        keys.push(key).contains(other) <==> keys.contains(other) || other == key,
{
    if keys.contains(other) {
        let k = choose|k: int| 0 <= k < keys.len() && keys[k] == other;
        assert(keys.push(key)[k] == other);
    }
    assert(keys.push(key)[keys.len() as int] == key);
    if keys.push(key).contains(other) && other != key {
        let k = choose|k: int| 0 <= k < keys.push(key).len() && keys.push(key)[k] == other;
        assert(keys[k] == other);
    }
}

proof fn lemma_concat_contains(a: Seq<usize>, b: Seq<usize>, x: usize)
    ensures
        (a + b).contains(x) <==> a.contains(x) || b.contains(x),
{
    if a.contains(x) {
        let k = choose|k: int| 0 <= k < a.len() && a[k] == x;
        assert((a + b)[k] == x);
    }
    if b.contains(x) {
        let k = choose|k: int| 0 <= k < b.len() && b[k] == x;
        assert((a + b)[a.len() + k] == x);
    }
    if (a + b).contains(x) {
        let k = choose|k: int| 0 <= k < (a + b).len() && (a + b)[k] == x;
        if k < a.len() {
            assert(a[k] == x);
        } else {
            assert(b[k - a.len()] == x);
        }
    }
}

/// There is one ranking for a query among the same definitions, so a limited
/// search returns the first results of an unlimited one.
pub proof fn rankings_agree(
    definitions: Seq<DefinitionView>,
    needle: Seq<char>,
    admitted: Set<usize>,
    a: Seq<usize>,
    b: Seq<usize>,
)
    requires
        is_ranking(definitions, needle, admitted, a),
        is_ranking(definitions, needle, admitted, b),
    ensures
        a == b,
{
    let order = Ranking { definitions, needle };
    assert forall|i: int, j: int| 0 <= i < j < a.len() implies #[trigger] order.before(
        a[i],
        a[j],
    ) by {
        assert(ranked_before(definitions, needle, a[i], a[j]));
    }
    assert forall|i: int, j: int| 0 <= i < j < b.len() implies #[trigger] order.before(
        b[i],
        b[j],
    ) by {
        assert(ranked_before(definitions, needle, b[i], b[j]));
    }
    assert forall|x: usize| a.contains(x) <==> b.contains(x) by {}
    crate::order::lemma_ordered_unique(&order, a, b);
}

/// The smaller of two numbers.
pub open spec fn at_most(n: int, limit: int) -> int {
    if n <= limit {
        n
    } else {
        limit
    }
}

impl SymbolIndex {
    /// Definitions whose short name contains `query`, case aside, best first.
    ///
    /// An empty query matches nothing rather than everything: the whole index
    /// would be a very expensive answer to a meaningless question.
    pub fn search(&self, query: &str) -> (found: Vec<&Definition>)
        requires
            self.wf(),
        ensures
            query@.len() == 0 ==> found@.len() == 0,
            query@.len() > 0 ==> exists|rows: Seq<usize>| #[trigger]
                is_ranking(
                    self@.definitions,
                    crate::text::lowercased(query@),
                    Set::full(),
                    rows,
                ) && crate::symbol_index::queries::found_at(self@.definitions, rows, found@),
            is_search(self.stored_definitions(), query@, found@),
    {
        if query.is_empty() {
            return Vec::new();
        }
        let needle = lower(query);
        let (rows, ranks) = self.matching_rows(&needle);
        let order = SearchOrder { definitions: &self.definitions, needle: &needle };
        let ghost definitions = self@.definitions;
        proof {
            assert forall|k: int| 0 <= k < rows@.len() implies #[trigger] order.known(
                rows@[k],
            ) by {
                assert(rows@.contains(rows@[k]));
            }
        }
        let sorted = sorted_rows(&order, &rows);
        proof {
            assert forall|i: int, j: int| 0 <= i < j < sorted@.len() implies #[trigger]
                ranked_before(definitions, needle@, sorted@[i], sorted@[j]) by {
                assert(order.before(sorted@[i], sorted@[j]));
            }
            assert forall|k: int| 0 <= k < sorted@.len() implies #[trigger] sorted@[k]
                < definitions.len() by {
                assert(sorted@.contains(sorted@[k]));
            }
            assert(is_ranking(definitions, needle@, Set::full(), sorted@));
            self.lemma_stored();
        }
        self.at_rows(&sorted)
    }

    /// The best `limit` search results and the total number of matches, among
    /// the definitions that `filter` admits.
    pub fn search_limited<F: Fn(&Definition) -> bool>(
        &self,
        query: &str,
        limit: usize,
        filter: F,
    ) -> (found: (Vec<&Definition>, usize))
        requires
            self.wf(),
            forall|i: int|
                0 <= i < self.stored_definitions().len() ==> filter.requires(
                    (&(#[trigger] self.stored_definitions()[i]),),
                ),
        ensures
            is_limited_search(
                self.stored_definitions(),
                query@,
                limit as int,
                filter,
                found.0@,
                found.1 as int,
            ),
    {
        if query.is_empty() {
            return (Vec::new(), 0);
        }
        let needle = lower(query);
        let (rows, ranks) = self.matching_rows(&needle);
        let order = SearchOrder { definitions: &self.definitions, needle: &needle };
        let n: usize = self.definitions.len();
        let ghost definitions = self@.definitions;
        let ghost mut admitted: Set<usize> = Set::empty();
        let ghost mut all: Seq<usize> = Seq::empty();
        let mut best: Vec<usize> = Vec::new();
        let mut best_ranks: Vec<u8> = Vec::new();
        let mut total: usize = 0;
        let mut k: usize = 0;
        assert(all.take(0) =~= Seq::<usize>::empty());
        while k < rows.len()
            invariant
                self.matches_all(needle@, rows@, ranks@),
                order.definitions@ == self.definitions@,
                order.needle@ == needle@,
                definitions == self@.definitions,
                n == self.definitions@.len(),
                forall|x: usize| #[trigger]
                    rows@.take(k as int).contains(x) ==> filter.ensures(
                        (&self.definitions@[x as int],),
                        admitted.contains(x),
                    ),
                forall|x: usize| #[trigger]
                    admitted.contains(x) ==> rows@.take(k as int).contains(x),
                forall|i: int|
                    0 <= i < self.stored_definitions().len() ==> filter.requires(
                        (&(#[trigger] self.stored_definitions()[i]),),
                    ),
                k <= rows@.len(),
                crate::order::ordered(&order, all),
                forall|x: usize| #[trigger]
                    all.contains(x) <==> rows@.take(k as int).contains(x) && admitted.contains(x),
                total == all.len(),
                best@ == all.take(at_most(all.len() as int, limit as int)),
                best_ranks@.len() == best@.len(),
                forall|j: int|
                    0 <= j < best@.len() ==> #[trigger] best_ranks@[j] == order.rank_of(best@[j]),
            decreases rows@.len() - k,
        {
            let row: usize = rows[k];
            proof {
                assert(rows@.contains(row));
                assert(rows@.take(k + 1) =~= rows@.take(k as int).push(row));
                assert forall|x: usize| #[trigger]
                    rows@.take(k + 1).contains(x) <==> rows@.take(k as int).contains(x) || x
                        == row by {
                    lemma_concat_contains(rows@.take(k as int), seq![row], x);
                    assert(rows@.take(k as int).push(row) =~= rows@.take(k as int) + seq![row]);
                    assert(seq![row][0] == row);
                }
                assert(!rows@.take(k as int).contains(row)) by {
                    if rows@.take(k as int).contains(row) {
                        let j = choose|j: int| 0 <= j < k && rows@.take(k as int)[j] == row;
                        assert(rows@[j] == rows@[k as int]);
                    }
                }
                assert(!all.contains(row));
            }
            let definition = &self.definitions[row];
            assert(*definition == self.stored_definitions()[row as int]);
            if filter(definition) {
                proof {
                    admitted = admitted.insert(row);
                    crate::order::lemma_ordered_distinct(&order, all);
                    assert forall|j: int| 0 <= j < all.len() implies #[trigger] all[j] < n by {
                        assert(all.contains(all[j]));
                        assert(rows@.take(k as int).contains(all[j]));
                        let i = choose|i: int|
                            0 <= i < k && rows@.take(k as int)[i] == all[j];
                        assert(rows@.contains(rows@[i]));
                    }
                    let more = all.push(row);
                    assert(more.no_duplicates()) by {
                        assert forall|i: int, j: int|
                            0 <= i < j < more.len() implies more[i] != more[j] by {
                            if j == all.len() {
                                assert(all.contains(all[i]));
                            }
                        }
                    }
                    crate::order::lemma_distinct_bounded(more, n as nat);
                }
                total += 1;
                let how_well: u8 = ranks[k];
                assert(how_well == order.rank_of(row));
                let mut at: usize = best.len();
                while at > 0
                    invariant_except_break
                        at <= best@.len(),
                        crate::order::ordered(&order, best@),
                        forall|j: int| 0 <= j < best@.len() ==> #[trigger] order.known(best@[j]),
                        order.known(row),
                        !best@.contains(row),
                        best_ranks@.len() == best@.len(),
                        how_well == order.rank_of(row),
                        forall|j: int|
                            0 <= j < best@.len() ==> #[trigger] best_ranks@[j] == order.rank_of(
                                best@[j],
                            ),
                        forall|j: int|
                            at <= j < best@.len() ==> #[trigger] order.before(row, best@[j]),
                    ensures
                        at <= best@.len(),
                        forall|j: int|
                            at <= j < best@.len() ==> #[trigger] order.before(row, best@[j]),
                        forall|j: int| 0 <= j < at ==> #[trigger] order.before(best@[j], row),
                    decreases at,
                {
                    let other: usize = best[at - 1];
                    assert(order.known(best@[at - 1]));
                    if !order.outranks(how_well, row, best_ranks[at - 1], other) {
                        proof {
                            assert(best@.contains(best@[at - 1]));
                            order.lemma_total(row, other);
                            assert forall|j: int| 0 <= j < at implies #[trigger] order.before(
                                best@[j],
                                row,
                            ) by {
                                if j < at - 1 {
                                    assert(order.before(best@[j], best@[at - 1]));
                                    order.lemma_transitive(best@[j], best@[at - 1], row);
                                }
                            }
                        }
                        break;
                    }
                    at -= 1;
                }
                let ghost before = all;
                if at < limit {
                    best.insert(at, row);
                    best_ranks.insert(at, how_well);
                    if best.len() > limit {
                        best.pop();
                        best_ranks.pop();
                    }
                    proof {
                        lemma_kept(&order, before, row, at as int, limit as int);
                        all = before.insert(at as int, row);
                        assert(best@ =~= all.take(at_most(all.len() as int, limit as int)));
                    }
                } else {
                    proof {
                        let place = crate::order::lemma_place(&order, before, row);
                        assert(place >= at_most(before.len() as int, limit as int)) by {
                            let kept = before.take(at_most(before.len() as int, limit as int));
                            if place < kept.len() {
                                assert(order.before(row, before[place]));
                                assert(order.before(kept[place], row));
                                order.lemma_transitive(row, before[place], row);
                                order.lemma_irreflexive(row);
                            }
                        }
                        crate::order::lemma_insert_ordered(&order, before, row, place);
                        all = before.insert(place, row);
                        assert(best@ =~= all.take(at_most(all.len() as int, limit as int)));
                    }
                }
            }
            k += 1;
        }
        proof {
            assert(rows@.take(k as int) =~= rows@);
            assert forall|i: int, j: int| 0 <= i < j < all.len() implies #[trigger] ranked_before(
                definitions,
                needle@,
                all[i],
                all[j],
            ) by {
                assert(order.before(all[i], all[j]));
            }
            assert(is_ranking(definitions, needle@, admitted, all));
            assert forall|j: int| 0 <= j < best@.len() implies #[trigger] best@[j]
                < definitions.len() by {
                assert(best@[j] == all[j]);
                assert(all.contains(all[j]));
            }
        }
        let found = self.at_rows(&best);
        proof {
            self.lemma_stored();
            assert forall|x: usize|
                x < self.definitions@.len() && is_match(
                    self.definitions@[x as int]@,
                    needle@,
                ) implies filter.ensures(
                (&self.definitions@[x as int],),
                #[trigger] admitted.contains(x),
            ) by {
                assert(self@.definitions[x as int] == self.definitions@[x as int]@);
                assert(rows@.contains(x));
                assert(rows@.take(k as int).contains(x));
            }
            assert(admits(self.definitions@, needle@, filter, admitted));
            assert(is_ranking(
                crate::definition::definition_views(self.stored_definitions()),
                needle@,
                admitted,
                all,
            ));
        }
        (found, total)
    }
}

/// A row whose place among the kept rows is `at` has the same place among all.
proof fn lemma_kept(order: &SearchOrder, all: Seq<usize>, row: usize, at: int, limit: int)
    requires
        crate::order::ordered(order, all),
        0 <= at < limit,
        at <= at_most(all.len() as int, limit),
        forall|j: int|
            at <= j < at_most(all.len() as int, limit) ==> #[trigger] order.before(
                row,
                all.take(at_most(all.len() as int, limit))[j],
            ),
        forall|j: int|
            0 <= j < at ==> #[trigger] order.before(
                all.take(at_most(all.len() as int, limit))[j],
                row,
            ),
    ensures
        crate::order::ordered(order, all.insert(at, row)),
        forall|y: usize| #[trigger]
            all.insert(at, row).contains(y) <==> all.contains(y) || y == row,
{
    let kept = all.take(at_most(all.len() as int, limit));
    assert forall|k: int| 0 <= k < at implies #[trigger] order.before(all[k], row) by {
        assert(order.before(kept[k], row));
    }
    assert forall|k: int| at <= k < all.len() implies #[trigger] order.before(row, all[k]) by {
        if k < kept.len() {
            assert(order.before(row, kept[k]));
        } else {
            assert(order.before(row, kept[at]));
            assert(order.before(all[at], all[k]));
            order.lemma_transitive(row, all[at], all[k]);
        }
    }
    crate::order::lemma_insert_ordered(order, all, row, at);
}

/// The definitions that a filter admits, in turn.
pub open spec fn filtered<F: Fn(&Definition) -> bool>(
    found: Seq<&Definition>,
    filter: F,
) -> Seq<&Definition>
    decreases found.len(),
{
    if found.len() == 0 {
        Seq::empty()
    } else if filter.ensures((found.last(),), true) {
        filtered(found.drop_last(), filter).push(found.last())
    } else {
        filtered(found.drop_last(), filter)
    }
}

/// The rows in a set, in turn.
spec fn picked(rows: Seq<usize>, admitted: Set<usize>) -> Seq<usize>
    decreases rows.len(),
{
    if rows.len() == 0 {
        Seq::empty()
    } else if admitted.contains(rows.last()) {
        picked(rows.drop_last(), admitted).push(rows.last())
    } else {
        picked(rows.drop_last(), admitted)
    }
}

/// The picked rows are those in the set, in the order in which they came.
proof fn lemma_picked(order: &Ranking, rows: Seq<usize>, admitted: Set<usize>)
    requires
        crate::order::ordered(order, rows),
    ensures
        crate::order::ordered(order, picked(rows, admitted)),
        forall|x: usize| #[trigger]
            picked(rows, admitted).contains(x) <==> rows.contains(x) && admitted.contains(x),
    decreases rows.len(),
{
    if rows.len() > 0 {
        let head = rows.drop_last();
        let last = rows.last();
        assert forall|i: int, j: int| 0 <= i < j < head.len() implies #[trigger] order.before(
            head[i],
            head[j],
        ) by {
            assert(order.before(rows[i], rows[j]));
        }
        lemma_picked(order, head, admitted);
        let before = picked(head, admitted);
        let after = picked(rows, admitted);
        assert(rows =~= head + seq![last]);
        assert(seq![last][0] == last);
        assert forall|x: usize| #[trigger]
            after.contains(x) <==> rows.contains(x) && admitted.contains(x) by {
            lemma_concat_contains(head, seq![last], x);
            if admitted.contains(last) {
                assert(after =~= before + seq![last]);
                lemma_concat_contains(before, seq![last], x);
            }
        }
        assert forall|i: int, j: int| 0 <= i < j < after.len() implies #[trigger] order.before(
            after[i],
            after[j],
        ) by {
            if j < before.len() {
                assert(order.before(before[i], before[j]));
            } else {
                assert(before.contains(before[i]));
                let k = choose|k: int| 0 <= k < head.len() && head[k] == before[i];
                assert(order.before(rows[k], rows[rows.len() - 1]));
            }
        }
    }
}

/// What a filter admits of the definitions at some rows stands at the rows that
/// it admits.
proof fn lemma_filtered<F: Fn(&Definition) -> bool>(
    stored: Seq<Definition>,
    filter: F,
    admitted: Set<usize>,
    rows: Seq<usize>,
    found: Seq<&Definition>,
)
    requires
        crate::symbol_index::queries::stored_at(stored, rows, found),
        forall|k: int|
            0 <= k < rows.len() ==> filter.ensures(
                (&stored[rows[k] as int],),
                true,
            ) == admitted.contains(#[trigger] rows[k]),
    ensures
        crate::symbol_index::queries::stored_at(
            stored,
            picked(rows, admitted),
            filtered(found, filter),
        ),
    decreases rows.len(),
{
    if rows.len() > 0 {
        let head = rows.drop_last();
        let rest = found.drop_last();
        assert forall|k: int| 0 <= k < rest.len() implies *(
        #[trigger] rest[k]) == stored[head[k] as int] && head[k] < stored.len() by {
            assert(*found[k] == stored[rows[k] as int]);
        }
        assert(crate::symbol_index::queries::stored_at(stored, head, rest));
        assert forall|k: int| 0 <= k < head.len() implies filter.ensures(
            (&stored[head[k] as int],),
            true,
        ) == admitted.contains(#[trigger] head[k]) by {
            assert(rows[k] == head[k]);
        }
        lemma_filtered(stored, filter, admitted, head, rest);
        let last = rows[rows.len() - 1];
        assert(*found[rows.len() - 1] == stored[last as int]);
        let before = filtered(rest, filter);
        if admitted.contains(last) {
            let after = filtered(found, filter);
            assert(after == before.push(found.last()));
            assert forall|k: int| 0 <= k < after.len() implies *(
            #[trigger] after[k]) == stored[picked(rows, admitted)[k] as int] && picked(
                rows,
                admitted,
            )[k] < stored.len() by {
                if k < before.len() {
                    assert(*before[k] == stored[picked(head, admitted)[k] as int]);
                }
            }
        }
    }
}

/// A limited search returns the first of what an unlimited one finds and the
/// filter admits, and counts all of that. The filter is one that never gives two
/// answers.
pub proof fn a_limited_search_cuts_the_filtered_search<F: Fn(&Definition) -> bool>(
    stored: Seq<Definition>,
    query: Seq<char>,
    limit: nat,
    filter: F,
    all: Seq<&Definition>,
    found: Seq<&Definition>,
    total: int,
)
    requires
        is_search(stored, query, all),
        is_limited_search(stored, query, limit as int, filter, found, total),
        forall|definition: &Definition|
            !(#[trigger] filter.ensures((definition,), true) && filter.ensures(
                (definition,),
                false,
            )),
    ensures
        total == filtered(all, filter).len(),
        found == filtered(all, filter).take(at_most(total, limit as int)),
{
    let definitions = crate::definition::definition_views(stored);
    let needle = crate::text::lowercased(query);
    if query.len() > 0 {
        let every = choose|rows: Seq<usize>| #[trigger]
            is_ranking(definitions, needle, Set::full(), rows)
                && crate::symbol_index::queries::stored_at(stored, rows, all);
        let (admitted, rows) = choose|admitted: Set<usize>, rows: Seq<usize>|
            {
                &&& #[trigger] is_ranking(definitions, needle, admitted, rows)
                &&& admits(stored, needle, filter, admitted)
                &&& total == rows.len()
                &&& crate::symbol_index::queries::stored_at(
                    stored,
                    rows.take(at_most(rows.len() as int, limit as int)),
                    found,
                )
            };
        let order = Ranking { definitions, needle };
        assert forall|i: int, j: int| 0 <= i < j < every.len() implies #[trigger] order.before(
            every[i],
            every[j],
        ) by {
            assert(ranked_before(definitions, needle, every[i], every[j]));
        }
        lemma_picked(&order, every, admitted);
        let kept = picked(every, admitted);
        assert forall|i: int, j: int| 0 <= i < j < kept.len() implies #[trigger] ranked_before(
            definitions,
            needle,
            kept[i],
            kept[j],
        ) by {
            assert(order.before(kept[i], kept[j]));
        }
        assert(is_ranking(definitions, needle, admitted, kept));
        rankings_agree(definitions, needle, admitted, rows, kept);
        assert forall|k: int| 0 <= k < every.len() implies filter.ensures(
            (&stored[every[k] as int],),
            true,
        ) == admitted.contains(#[trigger] every[k]) by {
            assert(every.contains(every[k]));
            assert(definitions[every[k] as int] == stored[every[k] as int]@);
        }
        lemma_filtered(stored, filter, admitted, every, all);
        let chosen = filtered(all, filter);
        let cut = at_most(total, limit as int);
        assert forall|k: int| 0 <= k < cut implies found[k] == #[trigger] chosen.take(cut)[k] by {
            assert(found[k] == stored[rows.take(cut)[k] as int]);
            assert(chosen[k] == stored[kept[k] as int]);
        }
        assert(found =~= chosen.take(cut));
    } else {
        assert(found =~= filtered(all, filter).take(0));
    }
}

} // verus!
