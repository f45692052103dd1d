//! Position lookups, call hierarchy lookups and the other reads of an index.
use rustc_hash::FxHashSet;
use vstd::prelude::*;

use crate::definition::{Column, Definition, DefinitionView, Lookup, SymbolKind};
use crate::index_model::{IndexView, Occurrence, StoredReference};
use crate::order::{sorted_rows, Precedence, TotalOrder};
use crate::span::{covers, encloses, span_len, PositionEncoding, Range};
use crate::symbol_index::SymbolIndex;
use crate::table::{Interner, Table};
use crate::text::same_text;

verus! {

/// Whether the occurrence at `k` is the one that a cursor at `(line, col)` is
/// on: it covers the position, no other that does is narrower, and no earlier
/// one that does is as narrow.
pub open spec fn is_under_cursor(row: Seq<Occurrence>, line: u32, col: u32, k: int) -> bool {
    &&& 0 <= k < row.len()
    &&& row[k].range.holds(line, col)
    &&& forall|j: int|
        0 <= j < row.len() && (#[trigger] row[j]).range.holds(line, col) ==> {
            ||| row[k].range.width() < row[j].range.width()
            ||| row[k].range.width() == row[j].range.width() && k <= j
        }
}

/// Whether nothing in the row covers `(line, col)`.
pub open spec fn nothing_under_cursor(row: Seq<Occurrence>, line: u32, col: u32) -> bool {
    forall|j: int| 0 <= j < row.len() ==> !(#[trigger] row[j]).range.holds(line, col)
}

/// Whether the definition at `i` is a method or constructor in `path` whose
/// declaration contains `range`.
pub open spec fn is_callable_around(
    definitions: Seq<DefinitionView>,
    path: Seq<char>,
    range: Range,
    i: int,
) -> bool {
    &&& 0 <= i < definitions.len()
    &&& definitions[i].path == path
    &&& definitions[i].kind == SymbolKind::Method || definitions[i].kind
        == SymbolKind::Constructor
    &&& definitions[i].enclosing matches Some(span) && span.contains(range)
}

/// Whether the definition at `i` is the innermost callable around `range`: none
/// around it is narrower, and no earlier one is as narrow.
pub open spec fn is_innermost_callable(
    definitions: Seq<DefinitionView>,
    path: Seq<char>,
    range: Range,
    i: int,
) -> bool {
    &&& is_callable_around(definitions, path, range, i)
    &&& forall|j: int| #[trigger]
        is_callable_around(definitions, path, range, j) ==> {
            let a = definitions[i].enclosing->0.width();
            let b = definitions[j].enclosing->0.width();
            a < b || (a == b && i <= j)
        }
}

/// Whether `range` in `path` belongs to `owner`: the innermost callable around
/// it is `owner`. What stands in no callable, such as a field initialiser,
/// belongs to none.
pub open spec fn belongs_to(
    definitions: Seq<DefinitionView>,
    path: Seq<char>,
    range: Range,
    owner: Seq<char>,
) -> bool {
    exists|i: int| #[trigger]
        is_innermost_callable(definitions, path, range, i) && definitions[i].symbol == owner
}

/// Whether an occurrence mentions a symbol within `span`: it stands inside, it
/// belongs to the owner where one is asked for, and it is no declaration.
pub open spec fn mentions(
    index: IndexView,
    path: Seq<char>,
    span: Range,
    owner: Option<Seq<char>>,
    occurrence: Occurrence,
) -> bool {
    &&& occurrence.range.start_line <= span.end_line
    &&& span.contains(occurrence.range)
    &&& owner matches Some(owner) ==> belongs_to(index.definitions, path, occurrence.range, owner)
    &&& !crate::index_model::declared_at(
        index.definitions,
        path,
        index.symbol_names[occurrence.symbol as int],
        occurrence.range,
    )
}

/// Whether one of the occurrences is of that symbol.
pub open spec fn names_symbol(occurrences: Seq<Occurrence>, symbol: usize) -> bool {
    exists|i: int| 0 <= i < occurrences.len() && (#[trigger] occurrences[i]).symbol == symbol
}

/// The occurrences of `row` that mention a symbol within `span`, the first for
/// each symbol.
pub open spec fn first_mentions(
    index: IndexView,
    path: Seq<char>,
    span: Range,
    owner: Option<Seq<char>>,
    row: Seq<Occurrence>,
) -> Seq<Occurrence>
    decreases row.len(),
{
    if row.len() == 0 {
        Seq::empty()
    } else {
        let before = first_mentions(index, path, span, owner, row.drop_last());
        if mentions(index, path, span, owner, row.last()) && !names_symbol(
            before,
            row.last().symbol,
        ) {
            before.push(row.last())
        } else {
            before
        }
    }
}

/// What an `FxHashSet` of symbol numbers holds.
pub uninterp spec fn symbols_of(symbols: FxHashSet<usize>) -> Set<usize>;

/// `FxHashSet::default`: a set without numbers.
#[verifier::external_body]
fn no_symbols() -> (symbols: FxHashSet<usize>)
    ensures
        forall|symbol: usize| !#[trigger] symbols_of(symbols).contains(symbol),
{
    FxHashSet::default()
}

/// `HashSet::insert`: adds `symbol`, and says whether it was not there before.
#[verifier::external_body]
fn see_symbol(symbols: &mut FxHashSet<usize>, symbol: usize) -> (added: bool)
    ensures
        symbols_of(*final(symbols)) == symbols_of(*old(symbols)).insert(symbol),
        added == !symbols_of(*old(symbols)).contains(symbol),
{
    symbols.insert(symbol)
}

impl SymbolIndex {
    /// The symbol whose occurrence covers `(line, col)` in `path`.
    ///
    /// `col` counts as the index stores columns; the caller converts from the
    /// client's encoding first.
    ///
    /// Ranges are half-open at the end, so a cursor resting immediately after
    /// an identifier does not select it. When occurrences overlap, a generic
    /// type argument inside a wider type reference, the narrowest wins, since
    /// that is what the cursor is most precisely on.
    pub fn symbol_at(&self, path: &str, line: u32, col: u32) -> (symbol: Option<&str>)
        requires
            self.wf(),
        ensures
            ({
                let row = crate::table::row_of(self@.occurrences, path@);
                match symbol {
                    Some(symbol) => exists|k: int| #[trigger]
                        is_under_cursor(row, line, col, k) && symbol@
                            == self@.symbol_names[row[k].symbol as int],
                    None => nothing_under_cursor(row, line, col),
                }
            }),
    {
        let row = match self.occurrences.get(path) {
            Some(row) => row,
            None => {
                return None;
            },
        };
        assert(crate::index_model::in_file_order(self@.occurrences[path@]));
        let mut best: Option<usize> = None;
        let mut k: usize = 0;
        let n: usize = row.len();
        assert(row@.take(n as int) =~= row@);
        while k < n
            invariant_except_break
                n == row@.len(),
                row@.take(n as int) == row@,
                k <= n,
                crate::index_model::in_file_order(row@),
                best matches Some(b) ==> b < k && is_under_cursor(
                    row@.take(k as int),
                    line,
                    col,
                    b as int,
                ),
                best is None ==> nothing_under_cursor(row@.take(k as int), line, col),
            ensures
                n == row@.len(),
                best matches Some(b) ==> is_under_cursor(row@, line, col, b as int),
                best is None ==> nothing_under_cursor(row@, line, col),
            decreases n - k,
        {
            let occurrence = row[k];
            let ghost head = row@.take(k as int);
            let ghost next = row@.take(k + 1);
            if occurrence.range.start_line > line {
                proof {
                    assert forall|j: int| k <= j < n implies !(#[trigger] row@[j]).range.holds(
                        line,
                        col,
                    ) by {
                        if j > k {
                            assert(crate::index_model::occurrence_before(row@[k as int], row@[j]));
                        }
                    }
                    assert forall|j: int|
                        0 <= j < n && (#[trigger] row@[j]).range.holds(line, col) implies head[j]
                        == row@[j] && j < k by {}
                }
                break;
            }
            proof {
                assert forall|j: int| 0 <= j < k implies #[trigger] next[j] == head[j] by {}
                assert(next[k as int] == occurrence);
            }
            if covers(&occurrence.range, line, col) {
                let narrower = match best {
                    None => true,
                    Some(b) => span_len(&occurrence.range) < span_len(&row[b].range),
                };
                if narrower {
                    proof {
                        assert forall|j: int|
                            0 <= j < next.len() && (#[trigger] next[j]).range.holds(
                                line,
                                col,
                            ) implies occurrence.range.width() < next[j].range.width() || (
                        occurrence.range.width() == next[j].range.width() && k <= j) by {
                            if j < k {
                                assert(next[j] == head[j]);
                            }
                        }
                    }
                    best = Some(k);
                }
            }
            k += 1;
        }
        match best {
            Some(b) => {
                assert(row@ == crate::table::row_of(self@.occurrences, path@));
                assert(is_under_cursor(row@, line, col, b as int));
                assert(self@.occurrences[path@][b as int].symbol < self@.symbol_names.len());
                Some(self.symbol_names.name(row[b].symbol))
            },
            None => None,
        }
    }

    /// The definitions at `rows`, by reference.
    pub(crate) fn at_rows(&self, rows: &Vec<usize>) -> (out: Vec<&Definition>)
        requires
            forall|k: int|
                0 <= k < rows@.len() ==> #[trigger] rows@[k] < self@.definitions.len(),
        ensures
            out@.len() == rows@.len(),
            forall|k: int|
                0 <= k < out@.len() ==> (#[trigger] out@[k])@
                    == self@.definitions[rows@[k] as int],
            stored_at(self.stored_definitions(), rows@, out@),
    {
        let mut out: Vec<&Definition> = Vec::new();
        let mut k: usize = 0;
        while k < rows.len()
            invariant
                k <= rows@.len(),
                out@.len() == k,
                forall|j: int|
                    0 <= j < rows@.len() ==> #[trigger] rows@[j] < self@.definitions.len(),
                forall|j: int|
                    0 <= j < k ==> (#[trigger] out@[j])@ == self@.definitions[rows@[j] as int],
                forall|j: int|
                    0 <= j < k ==> *(#[trigger] out@[j])
                        == self.stored_definitions()[rows@[j] as int] && rows@[j]
                        < self.stored_definitions().len(),
            decreases rows@.len() - k,
        {
            let i: usize = rows[k];
            proof {
                self.lemma_stored();
            }
            out.push(&self.definitions[i]);
            assert(self@.definitions[i as int] == self.definitions@[i as int]@);
            k += 1;
        }
        out
    }

    /// The innermost callable whose declaration span contains `range`.
    ///
    /// This is what turns a reference into a caller: an occurrence of `foo`
    /// sitting inside `bar`'s span means `bar` calls `foo`. Only methods and
    /// constructors qualify: a reference inside a class body but outside any
    /// method is a field initialiser, which has no caller to name.
    ///
    /// Innermost wins, so a call inside a nested class's method attributes to
    /// that method rather than to the outer one containing it.
    pub fn enclosing_callable(&self, path: &str, range: Range) -> (callable: Option<&Definition>)
        requires
            self.wf(),
        ensures
            match callable {
                Some(definition) => exists|i: int| #[trigger]
                    is_innermost_callable(self@.definitions, path@, range, i) && definition@
                        == self@.definitions[i],
                None => forall|i: int|
                    !#[trigger] is_callable_around(self@.definitions, path@, range, i),
            },
            callable matches Some(definition) ==> definition@.path == path@ && (definition@.kind
                is Method || definition@.kind is Constructor),
            forall|i: int|
                0 <= i < self@.definitions.len() && (#[trigger] self@.definitions[i]).path == path@
                    && (self@.definitions[i].kind is Method || self@.definitions[i].kind
                    is Constructor) && self@.definitions[i].enclosing is Some
                    && self@.definitions[i].enclosing->0.contains(range) ==> callable is Some,
    {
        let ghost definitions = self@.definitions;
        let n: usize = self.definitions.len();
        proof {
            crate::definition::lemma_rows_for(definitions, Column::Path, path@);
            assert(crate::table::row_of(self.by_path@, path@) == crate::definition::rows_for(
                definitions,
                Column::Path,
                path@,
            ));
        }
        let rows = match self.by_path.get(path) {
            Some(rows) => rows,
            None => {
                proof {
                    assert forall|i: int|
                        !#[trigger] is_callable_around(definitions, path@, range, i) by {
                        if is_callable_around(definitions, path@, range, i) {
                            assert(crate::definition::cell(definitions[i], Column::Path) == path@);
                            assert(crate::definition::rows_for(
                                definitions,
                                Column::Path,
                                path@,
                            ).contains(i as usize));
                        }
                    }
                }
                return None;
            },
        };
        let mut best: Option<usize> = None;
        let mut k: usize = 0;
        while k < rows.len()
            invariant
                k <= rows@.len(),
                n == definitions.len(),
                definitions == self@.definitions,
                n == self.definitions@.len(),
                forall|j: int|
                    0 <= j < rows@.len() ==> #[trigger] rows@[j] < n && definitions[rows@[j] as int].path
                        == path@,
                forall|i: int, j: int| 0 <= i < j < rows@.len() ==> rows@[i] < rows@[j],
                best matches Some(b) ==> {
                    &&& is_callable_around(definitions, path@, range, b as int)
                    &&& exists|j: int| 0 <= j < k && #[trigger] rows@[j] == b
                    &&& forall|j: int|
                        0 <= j < k && is_callable_around(
                            definitions,
                            path@,
                            range,
                            #[trigger] rows@[j] as int,
                        ) ==> {
                            let x = definitions[b as int].enclosing->0.width();
                            let y = definitions[rows@[j] as int].enclosing->0.width();
                            x < y || (x == y && b <= rows@[j])
                        }
                },
                best is None ==> forall|j: int|
                    0 <= j < k ==> !is_callable_around(
                        definitions,
                        path@,
                        range,
                        #[trigger] rows@[j] as int,
                    ),
            decreases rows@.len() - k,
        {
            let i: usize = rows[k];
            let definition = &self.definitions[i];
            assert(definitions[i as int] == definition@);
            let callable = match definition.kind {
                SymbolKind::Method | SymbolKind::Constructor => true,
                _ => false,
            };
            if callable {
                if let Some(span) = definition.enclosing {
                    if encloses(&span, &range) {
                        assert(is_callable_around(definitions, path@, range, i as int));
                        let narrower = match best {
                            None => true,
                            Some(b) => {
                                assert(definitions[b as int] == self.definitions@[b as int]@);
                                match self.definitions[b].enclosing {
                                    Some(other) => span_len(&span) < span_len(&other),
                                    None => true,
                                }
                            },
                        };
                        if narrower {
                            best = Some(i);
                            assert(rows@[k as int] == i);
                        }
                    }
                }
            }
            k += 1;
        }
        proof {
            assert forall|i: int| #[trigger]
                is_callable_around(definitions, path@, range, i) implies exists|j: int|
                0 <= j < rows@.len() && #[trigger] rows@[j] == i by {
                assert(crate::definition::cell(definitions[i], Column::Path) == path@);
                assert(rows@.contains(i as usize));
                let j = choose|j: int| 0 <= j < rows@.len() && rows@[j] == i as usize;
                assert(rows@[j] == i);
            }
        }
        match best {
            Some(b) => {
                assert(is_innermost_callable(definitions, path@, range, b as int));
                assert(definitions[b as int] == self.definitions@[b as int]@);
                Some(&self.definitions[b])
            },
            None => None,
        }
    }
}

impl SymbolIndex {
    /// Symbols referenced within `span` in `path`, excluding definitions.
    ///
    /// The reverse direction: what a method's body mentions. Returns each
    /// distinct symbol once, with the first position it appears at, because a
    /// call hierarchy wants "calls X" rather than "calls X four times".
    pub fn references_within(&self, path: &str, span: Range) -> (calls: Vec<(&str, Range)>)
        requires
            self.wf(),
        ensures
            is_call_list(self@, path@, span, None, calls@),
    {
        self.references_within_owner(path, span, None)
    }

    /// References whose innermost callable is `owner`.
    ///
    /// A method's declaration span can contain a nested class and its methods.
    /// Their calls belong to those nested methods, not to the outer method.
    pub fn references_within_callable(
        &self,
        path: &str,
        span: Range,
        owner: &str,
    ) -> (calls: Vec<(&str, Range)>)
        requires
            self.wf(),
        ensures
            is_call_list(self@, path@, span, Some(owner@), calls@),
    {
        self.references_within_owner(path, span, Some(owner))
    }

    fn references_within_owner(
        &self,
        path: &str,
        span: Range,
        owner: Option<&str>,
    ) -> (calls: Vec<(&str, Range)>)
        requires
            self.wf(),
        ensures
            is_call_list(self@, path@, span, owner_text(owner), calls@),
    {
        let ghost wanted = owner_text(owner);
        let mut calls: Vec<(&str, Range)> = Vec::new();
        let row = match self.occurrences.get(path) {
            Some(row) => row,
            None => {
                assert(crate::table::row_of(self@.occurrences, path@)
                    =~= Seq::<Occurrence>::empty());
                return calls;
            },
        };
        let mut seen = no_symbols();
        let ghost mut found: Seq<Occurrence> = Seq::empty();
        let n: usize = row.len();
        let mut k: usize = 0;
        assert(row@.take(n as int) =~= row@);
        assert(self@.occurrences[path@] == row@);
        while k < n
            invariant_except_break
                self.wf(),
                n == row@.len(),
                row@.take(n as int) == row@,
                self@.occurrences.contains_key(path@),
                row@ == self@.occurrences[path@],
                k <= n,
                wanted == owner_text(owner),
                found == first_mentions(self@, path@, span, wanted, row@.take(k as int)),
                lists_calls(self@, found, calls@),
                forall|symbol: usize| #[trigger]
                    symbols_of(seen).contains(symbol) <==> names_symbol(found, symbol),
            ensures
                found == first_mentions(self@, path@, span, wanted, row@),
                lists_calls(self@, found, calls@),
            decreases n - k,
        {
            let occurrence = row[k];
            let ghost head = row@.take(k as int);
            proof {
                assert(row@.take(k + 1).drop_last() =~= head);
                assert(row@.take(k + 1).last() == occurrence);
            }
            if occurrence.range.start_line > span.end_line {
                proof {
                    assert(crate::index_model::in_file_order(self@.occurrences[path@]));
                    lemma_no_later_mentions(self@, path@, span, wanted, row@, k as int);
                }
                break;
            }
            assert(self@.occurrences[path@][k as int].symbol < self@.symbol_names.len());
            let symbol = self.symbol_names.name(occurrence.symbol);
            let mut wanted_here = encloses(&span, &occurrence.range);
            if wanted_here {
                if let Some(owner) = owner {
                    match self.enclosing_callable(path, occurrence.range) {
                        Some(callable) => {
                            proof {
                                let i = choose|i: int| #[trigger]
                                    is_innermost_callable(
                                        self@.definitions,
                                        path@,
                                        occurrence.range,
                                        i,
                                    ) && callable@ == self@.definitions[i];
                                assert forall|j: int| #[trigger]
                                    is_innermost_callable(
                                        self@.definitions,
                                        path@,
                                        occurrence.range,
                                        j,
                                    ) implies j == i by {
                                    assert(is_callable_around(
                                        self@.definitions,
                                        path@,
                                        occurrence.range,
                                        i,
                                    ));
                                }
                            }
                            wanted_here = same_text(&callable.symbol, owner);
                        },
                        None => {
                            wanted_here = false;
                        },
                    }
                }
            }
            if wanted_here && !self.knows_site(path, symbol, &occurrence.range) {
                assert(mentions(self@, path@, span, wanted, occurrence));
                let ghost before = found;
                if see_symbol(&mut seen, occurrence.symbol) {
                    let ghost listed = calls@;
                    calls.push((symbol, occurrence.range));
                    proof {
                        found = before.push(occurrence);
                        assert forall|symbol: usize| #[trigger]
                            symbols_of(seen).contains(symbol) <==> names_symbol(found, symbol) by {
                            lemma_push_names(before, occurrence, symbol);
                        }
                    }
                } else {
                    assert forall|symbol: usize| #[trigger]
                        symbols_of(seen).contains(symbol) <==> names_symbol(found, symbol) by {
                        assert(names_symbol(before, occurrence.symbol));
                    }
                }
            } else {
                assert(!mentions(self@, path@, span, wanted, occurrence));
            }
            k += 1;
        }
        calls
    }
}

/// The text of an optional string.
spec fn owner_text(owner: Option<&str>) -> Option<Seq<char>> {
    match owner {
        Some(owner) => Some(owner@),
        None => None,
    }
}

/// Whether `calls` gives the symbol and the range of each occurrence in turn.
pub open spec fn lists_calls(
    index: IndexView,
    occurrences: Seq<Occurrence>,
    calls: Seq<(&str, Range)>,
) -> bool {
    &&& calls.len() == occurrences.len()
    &&& forall|i: int|
        0 <= i < calls.len() ==> (#[trigger] calls[i]).0@
            == index.symbol_names[occurrences[i].symbol as int] && calls[i].1
            == occurrences[i].range
}

/// Whether `calls` lists the symbols mentioned within `span` in `path`, each
/// once, at the first place that mentions it.
pub open spec fn is_call_list(
    index: IndexView,
    path: Seq<char>,
    span: Range,
    owner: Option<Seq<char>>,
    calls: Seq<(&str, Range)>,
) -> bool {
    lists_calls(
        index,
        first_mentions(index, path, span, owner, crate::table::row_of(index.occurrences, path)),
        calls,
    )
}

proof fn lemma_push_names(occurrences: Seq<Occurrence>, added: Occurrence, symbol: usize)
    ensures
        names_symbol(occurrences.push(added), symbol) <==> names_symbol(occurrences, symbol)
            || symbol == added.symbol,
{
    let after = occurrences.push(added);
    if names_symbol(occurrences, symbol) {
        let i = choose|i: int|
            0 <= i < occurrences.len() && (#[trigger] occurrences[i]).symbol == symbol;
        assert(after[i].symbol == symbol);
    }
    assert(after[occurrences.len() as int] == added);
    if names_symbol(after, symbol) && symbol != added.symbol {
        let i = choose|i: int| 0 <= i < after.len() && (#[trigger] after[i]).symbol == symbol;
        assert(occurrences[i].symbol == symbol);
    }
}

/// Behind an occurrence that starts below `span` nothing is mentioned in it.
proof fn lemma_no_later_mentions(
    index: IndexView,
    path: Seq<char>,
    span: Range,
    owner: Option<Seq<char>>,
    row: Seq<Occurrence>,
    k: int,
)
    requires
        crate::index_model::in_file_order(row),
        0 <= k < row.len(),
        row[k].range.start_line > span.end_line,
    ensures
        first_mentions(index, path, span, owner, row) == first_mentions(
            index,
            path,
            span,
            owner,
            row.take(k),
        ),
    decreases row.len(),
{
    let head = row.drop_last();
    if k < row.len() - 1 {
        assert(crate::index_model::occurrence_before(row[k], row[row.len() - 1]));
        assert forall|i: int, j: int| 0 <= i < j < head.len() implies #[trigger]
            crate::index_model::occurrence_before(head[i], head[j]) by {
            assert(crate::index_model::occurrence_before(row[i], row[j]));
        }
        lemma_no_later_mentions(index, path, span, owner, head, k);
        assert(head.take(k) =~= row.take(k));
    } else {
        assert(head =~= row.take(k));
    }
}

/// The order of the definitions in a file: by where their names start, and
/// those that start together as they came.
pub struct SourceOrder<'a> {
    definitions: &'a Vec<Definition>,
}

/// Whether the definition at `a` comes before that at `b` in a listing of their
/// file.
pub open spec fn listed_before(definitions: Seq<DefinitionView>, a: usize, b: usize) -> bool {
    let x = definitions[a as int].range;
    let y = definitions[b as int].range;
    if x.start_line != y.start_line {
        x.start_line < y.start_line
    } else if x.start_col != y.start_col {
        x.start_col < y.start_col
    } else {
        a < b
    }
}

impl<'a> TotalOrder for SourceOrder<'a> {
    closed spec fn before(&self, a: usize, b: usize) -> bool {
        listed_before(crate::definition::definition_views(self.definitions@), a, b)
    }

    proof fn lemma_irreflexive(&self, a: usize) {
    }

    proof fn lemma_transitive(&self, a: usize, b: usize, c: usize) {
    }

    proof fn lemma_total(&self, a: usize, b: usize) {
    }
}

impl<'a> Precedence for SourceOrder<'a> {
    closed spec fn known(&self, a: usize) -> bool {
        a < self.definitions@.len()
    }

    fn precedes(&self, a: usize, b: usize) -> (first: bool) {
        let x = self.definitions[a].range;
        let y = self.definitions[b].range;
        if x.start_line != y.start_line {
            x.start_line < y.start_line
        } else if x.start_col != y.start_col {
            x.start_col < y.start_col
        } else {
            a < b
        }
    }
}

/// Whether `rows` are the definitions in `path`, in source order.
pub open spec fn is_file_listing(
    definitions: Seq<DefinitionView>,
    path: Seq<char>,
    rows: Seq<usize>,
) -> bool {
    &&& forall|i: int, j: int|
        0 <= i < j < rows.len() ==> #[trigger] listed_before(definitions, rows[i], rows[j])
    &&& forall|x: usize| #[trigger]
        rows.contains(x) <==> x < definitions.len() && definitions[x as int].path == path
}

/// Whether `found` are the definitions at `rows`, in turn.
pub open spec fn found_at(
    definitions: Seq<DefinitionView>,
    rows: Seq<usize>,
    found: Seq<&Definition>,
) -> bool {
    &&& found.len() == rows.len()
    &&& forall|k: int|
        0 <= k < found.len() ==> (#[trigger] found[k])@ == definitions[rows[k] as int]
}

/// Whether `found` are the stored definitions at `rows`, in turn.
pub open spec fn stored_at(
    stored: Seq<Definition>,
    rows: Seq<usize>,
    found: Seq<&Definition>,
) -> bool {
    &&& found.len() == rows.len()
    &&& forall|k: int|
        0 <= k < found.len() ==> *(#[trigger] found[k]) == stored[rows[k] as int] && rows[k]
            < stored.len()
}

/// One borrowed use of a symbol somewhere other than its definition.
///
/// References are stored compactly inside [`SymbolIndex`]. This view gives the
/// query fields without allocating a symbol or path for every row.
#[derive(Copy, Clone, Debug)]
pub struct Reference<'a> {
    pub symbol: &'a str,
    pub path: &'a str,
    pub range: Range,
    pub encoding: PositionEncoding,
    /// True when the occurrence is an `import`, which a call-graph query wants
    /// to skip and a rename does not.
    pub is_import: bool,
}

/// Whether `reference` is the row `stored` of `symbol`, its path spelt out.
pub open spec fn shows_row(
    reference: Reference,
    symbol: Seq<char>,
    stored: StoredReference,
    paths: Seq<Seq<char>>,
) -> bool {
    &&& reference.symbol@ == symbol
    &&& reference.path@ == paths[stored.path as int]
    &&& reference.range == stored.range
    &&& reference.encoding == stored.encoding
    &&& reference.is_import == stored.is_import
}

/// Borrowed references for one symbol, those still to come.
pub struct References<'a> {
    symbol: &'a str,
    paths: &'a Interner,
    rows: Option<&'a Vec<StoredReference>>,
    /// How many were handed out.
    taken: usize,
}

impl<'a> References<'a> {
    /// All the rows.
    spec fn all(self) -> Seq<StoredReference> {
        match self.rows {
            Some(rows) => rows@,
            None => Seq::empty(),
        }
    }

    /// No more were handed out than there are.
    #[verifier::type_invariant]
    spec fn within(self) -> bool {
        self.taken <= self.all().len()
    }

    /// The symbol the references are to.
    pub closed spec fn symbol_text(&self) -> Seq<char> {
        self.symbol@
    }

    /// The compact rows still to come, in the order in which they came.
    pub closed spec fn stored(&self) -> Seq<StoredReference> {
        self.all().skip(self.taken as int)
    }

    /// The paths that the rows number.
    pub closed spec fn path_texts(&self) -> Seq<Seq<char>> {
        self.paths@
    }

    /// Whether every row numbers a path that is there.
    pub open spec fn wf(&self) -> bool {
        forall|i: int|
            0 <= i < self.stored().len() ==> (#[trigger] self.stored()[i]).path
                < self.path_texts().len()
    }

    /// How many references are still to come.
    pub fn len(&self) -> (n: usize)
        ensures
            n == self.stored().len(),
    {
        proof {
            use_type_invariant(self);
        }
        match self.rows {
            Some(rows) => rows.len() - self.taken,
            None => 0,
        }
    }

    /// Hands out the next reference, if there is one.
    pub fn next(&mut self) -> (reference: Option<Reference<'a>>)
        requires
            old(self).wf(),
        ensures
            final(self).wf(),
            final(self).symbol_text() == old(self).symbol_text(),
            final(self).path_texts() == old(self).path_texts(),
            reference is Some <==> old(self).stored().len() > 0,
            reference is Some ==> final(self).stored().len() + 1 == old(self).stored().len(),
            match reference {
                Some(reference) => {
                    &&& old(self).stored().len() > 0
                    &&& shows_row(
                        reference,
                        old(self).symbol_text(),
                        old(self).stored()[0],
                        old(self).path_texts(),
                    )
                    &&& final(self).stored() == old(self).stored().skip(1)
                },
                None => old(self).stored().len() == 0 && final(self).stored() == old(
                    self,
                ).stored(),
            },
    {
        let n: usize = match self.rows {
            Some(rows) => rows.len(),
            None => 0,
        };
        proof {
            use_type_invariant(&*self);
        }
        if self.taken == n {
            return None;
        }
        let reference = self.get(0);
        self.taken = self.taken + 1;
        proof {
            assert(self.stored() =~= old(self).stored().skip(1));
            assert forall|i: int| 0 <= i < self.stored().len() implies (
            #[trigger] self.stored()[i]).path < self.path_texts().len() by {
                assert(old(self).stored()[i + 1] == self.stored()[i]);
            }
        }
        Some(reference)
    }

    /// Whether no reference is still to come.
    pub fn is_empty(&self) -> (empty: bool)
        ensures
            empty == (self.stored().len() == 0),
    {
        self.len() == 0
    }

    /// The reference at position `i` of those still to come.
    pub fn get(&self, i: usize) -> (reference: Reference<'a>)
        requires
            self.wf(),
            i < self.stored().len(),
        ensures
            shows_row(
                reference,
                self.symbol_text(),
                self.stored()[i as int],
                self.path_texts(),
            ),
    {
        proof {
            use_type_invariant(self);
        }
        match self.rows {
            Some(rows) => {
                let n: usize = rows.len();
                assert(self.stored()[i as int] == rows@[self.taken + i]);
                assert(self.taken + i < n);
                let stored = rows[self.taken + i];
                Reference {
                    symbol: self.symbol,
                    path: self.paths.name(stored.path as usize),
                    range: stored.range,
                    encoding: stored.encoding,
                    is_import: stored.is_import,
                }
            },
            None => Reference {
                symbol: self.symbol,
                path: self.symbol,
                range: Range { start_line: 0, start_col: 0, end_line: 0, end_col: 0 },
                encoding: PositionEncoding::Utf16,
                is_import: false,
            },
        }
    }

    /// All the references still to come, in the order in which they came.
    pub fn iter(&self) -> (all: Vec<Reference<'a>>)
        requires
            self.wf(),
        ensures
            all@.len() == self.stored().len(),
            forall|i: int|
                0 <= i < all@.len() ==> shows_row(
                    #[trigger] all@[i],
                    self.symbol_text(),
                    self.stored()[i],
                    self.path_texts(),
                ),
    {
        let mut all: Vec<Reference<'a>> = Vec::new();
        let n: usize = self.len();
        let mut i: usize = 0;
        while i < n
            invariant
                self.wf(),
                n == self.stored().len(),
                i <= n,
                all@.len() == i,
                forall|j: int|
                    0 <= j < i ==> shows_row(
                        #[trigger] all@[j],
                        self.symbol_text(),
                        self.stored()[j],
                        self.path_texts(),
                    ),
            decreases n - i,
        {
            all.push(self.get(i));
            i += 1;
        }
        all
    }
}

/// Whether `keys` are the keys of `rows`, each once.
pub open spec fn enumerates<T>(keys: Seq<Seq<char>>, rows: Map<Seq<char>, Seq<T>>) -> bool {
    &&& keys.no_duplicates()
    &&& forall|key: Seq<char>| #[trigger] keys.contains(key) <==> rows.contains_key(key)
}

/// How many rows there are under `keys` together.
pub open spec fn total_rows<T>(keys: Seq<Seq<char>>, rows: Map<Seq<char>, Seq<T>>) -> nat
    decreases keys.len(),
{
    if keys.len() == 0 {
        0
    } else {
        total_rows(keys.drop_last(), rows) + rows[keys.last()].len()
    }
}

/// Whether `n` is the number of rows in `rows`, whatever order its keys are
/// counted in.
pub open spec fn counts_rows<T>(rows: Map<Seq<char>, Seq<T>>, n: int) -> bool {
    exists|keys: Seq<Seq<char>>| #[trigger] enumerates(keys, rows) && n == total_rows(keys, rows)
}

/// Whether the number of rows in `rows` fits a machine word.
pub open spec fn row_count_fits<T>(rows: Map<Seq<char>, Seq<T>>) -> bool {
    forall|keys: Seq<Seq<char>>| #[trigger]
        enumerates(keys, rows) ==> total_rows(keys, rows) <= usize::MAX
}

proof fn lemma_total_grows<T>(keys: Seq<Seq<char>>, rows: Map<Seq<char>, Seq<T>>, k: int)
    requires
        0 <= k <= keys.len(),
    ensures
        total_rows(keys.take(k), rows) <= total_rows(keys, rows),
    decreases keys.len(),
{
    if k == keys.len() {
        assert(keys.take(k) =~= keys);
    } else {
        lemma_total_grows(keys.drop_last(), rows, k);
        assert(keys.drop_last().take(k) =~= keys.take(k));
    }
}

/// The number of rows in a table.
fn count_rows<T>(table: &Table<T>) -> (n: usize)
    requires
        table.wf(),
        row_count_fits(table@),
    ensures
        counts_rows(table@, n as int),
{
    let ghost keys = table.order();
    proof {
        table.lemma_order();
        assert(enumerates(keys, table@));
    }
    let mut n: usize = 0;
    let mut i: usize = 0;
    while i < table.len()
        invariant
            table.wf(),
            keys == table.order(),
            i <= keys.len(),
            n == total_rows(keys.take(i as int), table@),
            total_rows(keys, table@) <= usize::MAX,
        decreases keys.len() - i,
    {
        proof {
            assert(keys.take(i + 1).drop_last() =~= keys.take(i as int));
            assert(keys.take(i + 1).last() == keys[i as int]);
            lemma_total_grows(keys, table@, i + 1);
        }
        n += table.row_at(i).len();
        i += 1;
    }
    assert(keys.take(i as int) =~= keys);
    n
}

impl SymbolIndex {
    /// Whether every file that the index names lies inside the workspace.
    pub fn has_relative_paths(&self) -> (relative: bool)
        requires
            self.wf(),
        ensures
            relative == crate::handlers::names_workspace_files(self@),
    {
        let mut i: usize = 0;
        while i < self.definitions.len()
            invariant
                i <= self.definitions@.len(),
                self@.definitions.len() == self.definitions@.len(),
                forall|k: int|
                    0 <= k < i ==> !crate::paths::absolute(
                        (#[trigger] self@.definitions[k]).path,
                    ),
            decreases self.definitions@.len() - i,
        {
            assert(self@.definitions[i as int] == self.definitions@[i as int]@);
            if crate::paths::is_absolute(&self.definitions[i].path) {
                return false;
            }
            i += 1;
        }
        let mut i: usize = 0;
        while i < self.reference_paths.len()
            invariant
                i <= self.reference_paths@.len(),
                self@.reference_paths == self.reference_paths@,
                forall|k: int|
                    0 <= k < i ==> !crate::paths::absolute(#[trigger] self@.reference_paths[k]),
            decreases self.reference_paths@.len() - i,
        {
            assert(self@.reference_paths[i as int] == self.reference_paths@[i as int]);
            if crate::paths::is_absolute(self.reference_paths.name(i)) {
                return false;
            }
            i += 1;
        }
        true
    }

    /// Every definition in one file, in source order.
    ///
    /// Ordered by position so a caller can nest them: a definition whose range
    /// falls inside a preceding one's `enclosing` span is a child of it.
    pub fn definitions_in(&self, path: &str) -> (found: Vec<&Definition>)
        requires
            self.wf(),
        ensures
            exists|rows: Seq<usize>| #[trigger]
                is_file_listing(self@.definitions, path@, rows) && found_at(
                    self@.definitions,
                    rows,
                    found@,
                ),
    {
        let ghost definitions = self@.definitions;
        let n: usize = self.definitions.len();
        proof {
            crate::definition::lemma_rows_for(definitions, Column::Path, path@);
            assert(crate::table::row_of(self.by_path@, path@) == crate::definition::rows_for(
                definitions,
                Column::Path,
                path@,
            ));
        }
        let none: Vec<usize> = Vec::new();
        let rows: &Vec<usize> = match self.by_path.get(path) {
            Some(rows) => rows,
            None => &none,
        };
        let order = SourceOrder { definitions: &self.definitions };
        proof {
            assert(rows@ =~= crate::definition::rows_for(definitions, Column::Path, path@));
            assert forall|k: int| 0 <= k < rows@.len() implies #[trigger] order.known(
                rows@[k],
            ) by {
                assert(rows@[k] < definitions.len());
            }
            assert forall|i: int, j: int|
                0 <= i < rows@.len() && 0 <= j < rows@.len() && i != j implies rows@[i]
                != rows@[j] by {
                if i < j {
                    assert(rows@[i] < rows@[j]);
                } else {
                    assert(rows@[j] < rows@[i]);
                }
            }
        }
        let sorted = sorted_rows(&order, rows);
        proof {
            assert forall|i: int, j: int| 0 <= i < j < sorted@.len() implies #[trigger]
                listed_before(definitions, sorted@[i], sorted@[j]) by {
                assert(order.before(sorted@[i], sorted@[j]));
            }
            assert forall|x: usize| #[trigger] sorted@.contains(x) <==> x < definitions.len()
                && definitions[x as int].path == path@ by {
                if rows@.contains(x) {
                    let k = choose|k: int| 0 <= k < rows@.len() && rows@[k] == x;
                    assert(rows@[k] < definitions.len());
                }
                if x < definitions.len() && definitions[x as int].path == path@ {
                    assert(crate::definition::cell(definitions[x as int], Column::Path) == path@);
                }
            }
            assert forall|k: int| 0 <= k < sorted@.len() implies #[trigger] sorted@[k]
                < definitions.len() by {
                assert(sorted@.contains(sorted@[k]));
            }
            assert(is_file_listing(definitions, path@, sorted@));
        }
        self.at_rows(&sorted)
    }

    /// The first definition of `symbol`.
    pub fn definition(&self, symbol: &str) -> (definition: Option<&Definition>)
        requires
            self.wf(),
        ensures
            match definition {
                Some(definition) => exists|i: int|
                    #![trigger self@.definitions[i]]
                    {
                        &&& 0 <= i < self@.definitions.len()
                        &&& self@.definitions[i] == definition@
                        &&& definition@.symbol == symbol@
                        &&& forall|j: int|
                            0 <= j < i ==> (#[trigger] self@.definitions[j]).symbol != symbol@
                    },
                None => forall|j: int|
                    0 <= j < self@.definitions.len() ==> (#[trigger] self@.definitions[j]).symbol
                        != symbol@,
            },
    {
        let ghost definitions = self@.definitions;
        let n: usize = self.definitions.len();
        let ghost rows = crate::definition::rows_for(definitions, Column::Symbol, symbol@);
        proof {
            crate::definition::lemma_rows_for(definitions, Column::Symbol, symbol@);
            assert(crate::table::row_of(self.by_symbol@, symbol@) == crate::definition::looked_up(
                definitions,
                Lookup::Symbol,
                symbol@,
            ));
            assert forall|j: int|
                0 <= j < definitions.len() && (#[trigger] definitions[j]).symbol
                    == symbol@ implies rows.contains(j as usize) by {
                assert(crate::definition::cell(definitions[j], Column::Symbol) == symbol@);
            }
        }
        match self.by_symbol.get(symbol) {
            Some(found) => {
                if found.len() == 0 {
                    return None;
                }
                let i: usize = found[0];
                proof {
                    assert(rows[0] < definitions.len());
                    assert(definitions[i as int] == self.definitions@[i as int]@);
                    assert forall|j: int| 0 <= j < i implies (#[trigger] definitions[j]).symbol
                        != symbol@ by {
                        if definitions[j].symbol == symbol@ {
                            assert(rows.contains(j as usize));
                            let k = choose|k: int| 0 <= k < rows.len() && rows[k] == j as usize;
                            if k > 0 {
                                assert(rows[0] < rows[k]);
                            }
                        }
                    }
                }
                Some(&self.definitions[i])
            },
            None => None,
        }
    }

    /// Every reference to `symbol`, definitions excluded.
    pub fn references<'a>(&'a self, symbol: &str) -> (references: References<'a>)
        requires
            self.wf(),
        ensures
            references.wf(),
            references.stored() == crate::table::row_of(self@.references, symbol@),
            references.path_texts() == self@.reference_paths,
            references.stored().len() > 0 ==> references.symbol_text() == symbol@,
    {
        let references = match self.references.position(symbol) {
            Some(i) => References {
                symbol: self.references.key(i),
                paths: &self.reference_paths,
                rows: Some(self.references.row_at(i)),
                taken: 0,
            },
            None => References { symbol: "", paths: &self.reference_paths, rows: None, taken: 0 },
        };
        assert(references.stored() =~= references.all());
        assert forall|i: int| 0 <= i < references.stored().len() implies (
        #[trigger] references.stored()[i]).path < references.path_texts().len() by {
            assert(self@.references[symbol@][i] == references.stored()[i]);
        }
        references
    }

    /// Definitions declaring `symbol` as a supertype, in the order in which
    /// they came.
    pub fn implementors(&self, symbol: &str) -> (found: Vec<&Definition>)
        requires
            self.wf(),
        ensures
            found_at(
                self@.definitions,
                crate::definition::implementor_rows(self@.definitions, symbol@),
                found@,
            ),
    {
        let n: usize = self.definitions.len();
        proof {
            crate::definition::lemma_implementor_rows(self@.definitions, symbol@);
            assert(crate::table::row_of(self.implementors@, symbol@)
                == crate::definition::implementor_rows(self@.definitions, symbol@));
        }
        let none: Vec<usize> = Vec::new();
        let rows: &Vec<usize> = match self.implementors.get(symbol) {
            Some(rows) => rows,
            None => &none,
        };
        assert(rows@ =~= crate::definition::implementor_rows(self@.definitions, symbol@));
        self.at_rows(rows)
    }

    /// How many shards went in.
    pub fn shard_count(&self) -> (n: usize)
        ensures
            n == self@.shards,
    {
        self.shards
    }

    /// How many definitions there are.
    pub fn definition_count(&self) -> (n: usize)
        ensures
            n == self@.definitions.len(),
    {
        self.definitions.len()
    }

    /// Whether there is no definition.
    pub fn is_empty(&self) -> (empty: bool)
        ensures
            empty == (self@.definitions.len() == 0),
    {
        self.definitions.len() == 0
    }

    /// Total references across every symbol.
    pub fn reference_count(&self) -> (n: usize)
        requires
            self.wf() || self.readable(),
            row_count_fits(self@.references),
        ensures
            counts_rows(self@.references, n as int),
    {
        count_rows(&self.references)
    }

    /// Number of distinct paths retained for reference rows.
    pub fn reference_path_count(&self) -> (n: usize)
        ensures
            n == self@.reference_paths.len(),
    {
        self.reference_paths.len()
    }

    /// Total occurrences held, across every file.
    pub fn occurrence_count(&self) -> (n: usize)
        requires
            self.wf() || self.readable(),
            row_count_fits(self@.occurrences),
        ensures
            counts_rows(self@.occurrences, n as int),
    {
        count_rows(&self.occurrences)
    }
}

/// Rows under one key are part of the total.
proof fn lemma_total_holds<T>(keys: Seq<Seq<char>>, rows: Map<Seq<char>, Seq<T>>, key: Seq<char>)
    requires
        keys.contains(key),
    ensures
        total_rows(keys, rows) >= rows[key].len(),
    decreases keys.len(),
{
    if keys.last() != key {
        let i = choose|i: int| 0 <= i < keys.len() && keys[i] == key;
        assert(keys.drop_last()[i] == key);
        lemma_total_holds(keys.drop_last(), rows, key);
    }
}

/// What is counted are the references themselves: none are there where there is
/// no symbol, a single symbol has all of them, and no symbol has more.
pub proof fn references_are_counted_by_row(index: &SymbolIndex, n: usize, symbol: Seq<char>)
    requires
        call_ensures(SymbolIndex::reference_count, (index,), n),
    ensures
        (forall|key: Seq<char>| !#[trigger] index@.references.contains_key(key)) ==> n == 0,
        index@.references.contains_key(symbol) ==> n >= index@.references[symbol].len(),
        index@.references.contains_key(symbol) && (forall|key: Seq<char>| #[trigger]
            index@.references.contains_key(key) ==> key == symbol) ==> n
            == index@.references[symbol].len(),
{
    lemma_counted(index@.references, n as int, symbol);
}

/// What is counted are the occurrences themselves: none are there where there is
/// no file, a single file has all of them, and no file has more.
pub proof fn occurrences_are_counted_by_row(index: &SymbolIndex, n: usize, path: Seq<char>)
    requires
        call_ensures(SymbolIndex::occurrence_count, (index,), n),
    ensures
        (forall|key: Seq<char>| !#[trigger] index@.occurrences.contains_key(key)) ==> n == 0,
        index@.occurrences.contains_key(path) ==> n >= index@.occurrences[path].len(),
        index@.occurrences.contains_key(path) && (forall|key: Seq<char>| #[trigger]
            index@.occurrences.contains_key(key) ==> key == path) ==> n
            == index@.occurrences[path].len(),
{
    lemma_counted(index@.occurrences, n as int, path);
}

proof fn lemma_counted<T>(rows: Map<Seq<char>, Seq<T>>, n: int, key: Seq<char>)
    requires
        counts_rows(rows, n),
    ensures
        (forall|k: Seq<char>| !#[trigger] rows.contains_key(k)) ==> n == 0,
        rows.contains_key(key) ==> n >= rows[key].len(),
        rows.contains_key(key) && (forall|k: Seq<char>| #[trigger] rows.contains_key(k) ==> k
            == key) ==> n == rows[key].len(),
{
    let keys = choose|keys: Seq<Seq<char>>| #[trigger]
        enumerates(keys, rows) && n == total_rows(keys, rows);
    if rows.contains_key(key) {
        assert(keys.contains(key));
        lemma_total_holds(keys, rows, key);
        if forall|k: Seq<char>| #[trigger] rows.contains_key(k) ==> k == key {
            assert(keys.len() > 0);
            assert(keys.contains(keys.last()));
            if keys.len() > 1 {
                assert(keys.contains(keys[0]));
                assert(keys[0] == keys.last());
            }
            assert(keys.drop_last().len() == 0);
            assert(total_rows(keys.drop_last(), rows) == 0);
        }
    }
    if forall|k: Seq<char>| !#[trigger] rows.contains_key(k) {
        if keys.len() > 0 {
            assert(keys.contains(keys[0]));
        }
    }
}

} // verus!
