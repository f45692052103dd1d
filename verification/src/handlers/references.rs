//! References to the symbol under a cursor, ranked and capped.
use vstd::prelude::*;

use crate::handlers::{find_definition, list_outcome, symbol_under_cursor, to_location, Location};
use crate::index_model::{IndexView, StoredReference};
use crate::line_index::{LinePosition, PositionEncoding};
use crate::order::{sorted_rows, Precedence, TotalOrder};
use crate::paths::AbsPath;
use crate::span::Range;
use crate::symbol_index::SymbolIndex;
use crate::telemetry::Outcome;
use crate::text::{chars_of, comes_before, same_text, slice_after_last, substring};

verus! {

/// How many references a single response carries.
///
/// Higher than what a search returns, because references are the query where
/// the caller most needs breadth, but still bounded, because the alternative on
/// a common symbol is a response no client can read.
pub const REFERENCE_LIMIT: usize = 5000;

/// A place where a symbol occurs.
#[derive(Copy, Clone, Debug)]
pub struct Hit<'a> {
    pub path: &'a str,
    pub range: Range,
    pub encoding: crate::span::PositionEncoding,
}

/// The view of a [`Hit`].
#[verifier::ext_equal]
pub struct HitView {
    pub path: Seq<char>,
    pub range: Range,
    pub encoding: crate::span::PositionEncoding,
}

impl<'a> View for Hit<'a> {
    type V = HitView;

    open spec fn view(&self) -> HitView {
        HitView { path: self.path@, range: self.range, encoding: self.encoding }
    }
}

/// The views of some hits.
pub open spec fn hit_views(hits: Seq<Hit>) -> Seq<HitView> {
    Seq::new(hits.len(), |i: int| hits[i]@)
}

/// Where a stored reference is.
pub open spec fn stored_hit(stored: StoredReference, paths: Seq<Seq<char>>) -> HitView {
    HitView {
        path: paths[stored.path as int],
        range: stored.range,
        encoding: stored.encoding,
    }
}

/// Where a symbol occurs: at its definition, where that is asked for and there
/// is one, and at its references.
pub open spec fn all_hits(index: IndexView, symbol: Seq<char>, declaration: bool) -> Seq<HitView> {
    let stored = crate::table::row_of(index.references, symbol);
    (match crate::handlers::first_definition(index.definitions, symbol) {
        Some(definition) if declaration => seq![
            HitView {
                path: definition.path,
                range: definition.range,
                encoding: definition.encoding,
            },
        ],
        _ => Seq::empty(),
    }) + Seq::new(stored.len(), |i: int| stored_hit(stored[i], index.reference_paths))
}

/// The directory that a file is in: what stands before the last slash of its
/// path.
pub open spec fn parent_dir(path: Seq<char>) -> Seq<char> {
    let name = crate::text::after_last(path, seq!['/']);
    if name.len() >= path.len() {
        Seq::empty()
    } else {
        path.take(path.len() - name.len() - 1)
    }
}

/// What follows the last slash is no longer than the whole.
proof fn lemma_after_last(path: Seq<char>)
    ensures
        crate::text::after_last(path, seq!['/']).len() <= path.len(),
    decreases path.len(),
{
    if path.len() > 0 {
        lemma_after_last(path.drop_last());
    }
}

/// Computes [`parent_dir`].
fn directory_of(path: &str) -> (dir: String)
    ensures
        dir@ == parent_dir(path@),
{
    let chars = chars_of(path);
    let slash = ['/'];
    assert(slash@ =~= seq!['/']);
    let name = slice_after_last(chars.as_slice(), slash.as_slice());
    if name.len() >= chars.len() {
        let none = String::new();
        assert(none@ =~= Seq::<char>::empty());
        none
    } else {
        let end: usize = chars.len() - name.len() - 1;
        let dir = substring(chars.as_slice(), 0, end);
        assert(dir@ =~= path@.take(end as int));
        dir
    }
}

/// How near a file is to another: the same, in the same directory, or further.
pub open spec fn proximity(path: Seq<char>, here: Seq<char>) -> u8 {
    if path == here {
        0
    } else if parent_dir(path) == parent_dir(here) {
        1
    } else {
        2
    }
}

/// Whether the hit at `a` comes before that at `b` in an answer about a cursor
/// in the file `here`.
///
/// Same file first, then same directory, then everything else. A caller reading
/// a truncated list gets the references nearest what it was looking at, which is
/// the ordering an agent can act on without re-querying.
pub open spec fn hit_before(hits: Seq<HitView>, here: Seq<char>, a: usize, b: usize) -> bool {
    let x = hits[a as int];
    let y = hits[b as int];
    if proximity(x.path, here) != proximity(y.path, here) {
        proximity(x.path, here) < proximity(y.path, here)
    } else if x.path != y.path {
        crate::text::text_before(x.path, y.path)
    } else if x.range.start_line != y.range.start_line {
        x.range.start_line < y.range.start_line
    } else if x.range.start_col != y.range.start_col {
        x.range.start_col < y.range.start_col
    } else {
        a < b
    }
}

/// Whether `rows` are all hits, in the order of an answer.
pub open spec fn is_hit_order(hits: Seq<HitView>, here: Seq<char>, rows: Seq<usize>) -> bool {
    &&& forall|i: int, j: int|
        0 <= i < j < rows.len() ==> #[trigger] hit_before(hits, here, rows[i], rows[j])
    &&& forall|x: usize| #[trigger] rows.contains(x) <==> x < hits.len()
    &&& rows.len() == hits.len()
}

/// The order of an answer.
struct NearestFirst<'a> {
    hits: &'a Vec<Hit<'a>>,
    nearness: &'a Vec<u8>,
    here: Ghost<Seq<char>>,
}

impl<'a> NearestFirst<'a> {
    /// Whether the nearness of each hit is known.
    spec fn wf(&self) -> bool {
        &&& self.nearness@.len() == self.hits@.len()
        &&& forall|i: int|
            0 <= i < self.hits@.len() ==> #[trigger] self.nearness@[i] == proximity(
                self.hits@[i].path@,
                self.here@,
            )
    }
}

impl<'a> TotalOrder for NearestFirst<'a> {
    closed spec fn before(&self, a: usize, b: usize) -> bool {
        hit_before(hit_views(self.hits@), self.here@, a, b)
    }

    proof fn lemma_irreflexive(&self, a: usize) {
    }

    proof fn lemma_transitive(&self, a: usize, b: usize, c: usize) {
        let hits = hit_views(self.hits@);
        let x = hits[a as int];
        let y = hits[b as int];
        let z = hits[c as int];
        if x.path != y.path && y.path != z.path && crate::text::text_before(x.path, y.path)
            && crate::text::text_before(y.path, z.path) {
            crate::text::lemma_text_transitive(x.path, y.path, z.path);
            crate::text::lemma_text_irreflexive(x.path);
        }
    }

    proof fn lemma_total(&self, a: usize, b: usize) {
        let hits = hit_views(self.hits@);
        let x = hits[a as int];
        let y = hits[b as int];
        if x.path != y.path {
            crate::text::lemma_text_total(x.path, y.path);
        }
    }
}

impl<'a> Precedence for NearestFirst<'a> {
    closed spec fn known(&self, a: usize) -> bool {
        a < self.hits@.len() && self.wf()
    }

    fn precedes(&self, a: usize, b: usize) -> (first: bool) {
        let x = self.hits[a];
        let y = self.hits[b];
        assert(hit_views(self.hits@)[a as int] == x@);
        assert(hit_views(self.hits@)[b as int] == y@);
        assert(self.nearness@[a as int] == proximity(x.path@, self.here@));
        assert(self.nearness@[b as int] == proximity(y.path@, self.here@));
        if self.nearness[a] != self.nearness[b] {
            self.nearness[a] < self.nearness[b]
        } else if !same_text(x.path, y.path) {
            comes_before(x.path, y.path)
        } else if x.range.start_line != y.range.start_line {
            x.range.start_line < y.range.start_line
        } else if x.range.start_col != y.range.start_col {
            x.range.start_col < y.range.start_col
        } else {
            a < b
        }
    }
}

/// The rows from 0 to `n`.
pub(crate) fn first_rows(n: usize) -> (rows: Vec<usize>)
    ensures
        rows@.len() == n,
        forall|i: int| 0 <= i < n ==> #[trigger] rows@[i] == i,
{
    let mut rows: Vec<usize> = Vec::new();
    let mut i: usize = 0;
    while i < n
        invariant
            i <= n,
            rows@.len() == i,
            forall|j: int| 0 <= j < i ==> #[trigger] rows@[j] == j,
        decreases n - i,
    {
        rows.push(i);
        i += 1;
    }
    rows
}

/// Rows that are distinct and name everything below `n` are `n`.
pub(crate) proof fn lemma_covers(rows: Seq<usize>, n: nat)
    requires
        n <= usize::MAX,
        rows.no_duplicates(),
        forall|x: usize| #[trigger] rows.contains(x) <==> x < n,
    ensures
        rows.len() == n,
    decreases n,
{
    if n == 0 {
        if rows.len() > 0 {
            assert(rows.contains(rows[0]));
        }
    } else {
        let last = (n - 1) as usize;
        assert(rows.contains(last));
        let k = choose|k: int| 0 <= k < rows.len() && rows[k] == last;
        let rest = rows.remove(k);
        assert forall|x: usize| #[trigger] rest.contains(x) <==> x < n - 1 by {
            if rest.contains(x) {
                let i = choose|i: int| 0 <= i < rest.len() && rest[i] == x;
                let j = if i < k {
                    i
                } else {
                    i + 1
                };
                assert(rows[j] == x);
                assert(rows.contains(x));
                assert(x != last) by {
                    if x == last {
                        assert(rows[j] == rows[k]);
                    }
                }
            }
            if x < n - 1 {
                assert(rows.contains(x));
                let j = choose|j: int| 0 <= j < rows.len() && rows[j] == x;
                let i = if j < k {
                    j
                } else {
                    j - 1
                };
                assert(rest[i] == x);
            }
        }
        assert(rest.no_duplicates()) by {
            assert forall|i: int, j: int|
                0 <= i < rest.len() && 0 <= j < rest.len() && i != j implies rest[i] != rest[j] by {
                let a = if i < k {
                    i
                } else {
                    i + 1
                };
                let b = if j < k {
                    j
                } else {
                    j + 1
                };
                assert(rows[a] != rows[b]);
            }
        }
        lemma_covers(rest, (n - 1) as nat);
    }
}

/// All hits in the order of an answer.
fn sort_hits(hits: &Vec<Hit>, here: &str) -> (rows: Vec<usize>)
    ensures
        is_hit_order(hit_views(hits@), here@, rows@),
{
    let here_dir = directory_of(here);
    let n: usize = hits.len();
    let mut nearness: Vec<u8> = Vec::new();
    let mut i: usize = 0;
    while i < n
        invariant
            n == hits@.len(),
            i <= n,
            here_dir@ == parent_dir(here@),
            nearness@.len() == i,
            forall|j: int|
                0 <= j < i ==> #[trigger] nearness@[j] == proximity(hits@[j].path@, here@),
        decreases n - i,
    {
        let path = hits[i].path;
        let near: u8 = if same_text(path, here) {
            0
        } else {
            let dir = directory_of(path);
            if same_text(&dir, &here_dir) {
                1
            } else {
                2
            }
        };
        nearness.push(near);
        i += 1;
    }
    let rows = first_rows(n);
    let order = NearestFirst { hits, nearness: &nearness, here: Ghost(here@) };
    proof {
        assert(order.wf());
        assert forall|k: int| 0 <= k < rows@.len() implies #[trigger] order.known(rows@[k]) by {
            assert(rows@[k] == k);
        }
    }
    let sorted = sorted_rows(&order, &rows);
    proof {
        let views = hit_views(hits@);
        assert forall|i: int, j: int| 0 <= i < j < sorted@.len() implies #[trigger] hit_before(
            views,
            here@,
            sorted@[i],
            sorted@[j],
        ) by {
            assert(order.before(sorted@[i], sorted@[j]));
        }
        assert forall|x: usize| #[trigger] sorted@.contains(x) <==> x < views.len() by {
            if rows@.contains(x) {
                let k = choose|k: int| 0 <= k < rows@.len() && rows@[k] == x;
                assert(rows@[k] == k);
            }
            if x < n {
                assert(rows@[x as int] == x);
                assert(rows@.contains(x));
            }
        }
        crate::order::lemma_ordered_distinct(&order, sorted@);
        lemma_covers(sorted@, n as nat);
    }
    sorted
}

/// There is one order of an answer.
pub proof fn hit_orders_agree(hits: Seq<HitView>, here: Seq<char>, a: Seq<usize>, b: Seq<usize>)
    requires
        is_hit_order(hits, here, a),
        is_hit_order(hits, here, b),
    ensures
        a == b,
{
    let order = HitOrder { hits, here };
    assert forall|i: int, j: int| 0 <= i < j < a.len() implies #[trigger] order.before(
        a[i],
        a[j],
    ) by {
        assert(hit_before(hits, here, a[i], a[j]));
    }
    assert forall|i: int, j: int| 0 <= i < j < b.len() implies #[trigger] order.before(
        b[i],
        b[j],
    ) by {
        assert(hit_before(hits, here, b[i], b[j]));
    }
    crate::order::lemma_ordered_unique(&order, a, b);
}

/// The order of an answer, over the views of the hits.
struct HitOrder {
    hits: Seq<HitView>,
    here: Seq<char>,
}

impl TotalOrder for HitOrder {
    closed spec fn before(&self, a: usize, b: usize) -> bool {
        hit_before(self.hits, self.here, a, b)
    }

    proof fn lemma_irreflexive(&self, a: usize) {
    }

    proof fn lemma_transitive(&self, a: usize, b: usize, c: usize) {
        let x = self.hits[a as int];
        let y = self.hits[b as int];
        let z = self.hits[c as int];
        if x.path != y.path && y.path != z.path && crate::text::text_before(x.path, y.path)
            && crate::text::text_before(y.path, z.path) {
            crate::text::lemma_text_transitive(x.path, y.path, z.path);
            crate::text::lemma_text_irreflexive(x.path);
        }
    }

    proof fn lemma_total(&self, a: usize, b: usize) {
        let x = self.hits[a as int];
        let y = self.hits[b as int];
        if x.path != y.path {
            crate::text::lemma_text_total(x.path, y.path);
        }
    }
}

/// The references of a symbol.
#[derive(Debug)]
pub struct ReferenceResults {
    pub symbol: String,
    pub locations: Vec<Location>,
    /// How many exist, which may exceed how many are given.
    pub total: usize,
}

impl ReferenceResults {
    /// How the query ended.
    pub fn outcome(&self) -> (outcome: Outcome)
        ensures
            outcome == crate::handlers::listed(self.locations@.len() as usize, self.total),
    {
        list_outcome(self.locations.len(), self.total)
    }
}

/// Whether `locations` are those of the first hits in the order of `rows`, as
/// many as a response carries.
pub open spec fn are_first<F: Fn(&str) -> Option<String>>(
    locations: Seq<Location>,
    hits: Seq<HitView>,
    rows: Seq<usize>,
    read: F,
    root: Seq<char>,
    client: PositionEncoding,
) -> bool {
    &&& locations.len() == crate::symbol_index::search::at_most(
        rows.len() as int,
        REFERENCE_LIMIT as int,
    )
    &&& forall|i: int|
        0 <= i < locations.len() ==> crate::handlers::locates(
            #[trigger] locations[i],
            read,
            root,
            hits[rows[i] as int].path,
            hits[rows[i] as int].range,
            hits[rows[i] as int].encoding,
            client,
        )
}

/// Whether the results answer for the references of a symbol: all are counted,
/// and the nearest are given, as many as a response carries.
pub open spec fn answers<F: Fn(&str) -> Option<String>>(
    results: ReferenceResults,
    index: IndexView,
    symbol: Seq<char>,
    declaration: bool,
    here: Seq<char>,
    read: F,
    root: Seq<char>,
    client: PositionEncoding,
) -> bool {
    let hits = all_hits(index, symbol, declaration);
    &&& results.symbol@ == symbol
    &&& results.total == hits.len()
    &&& exists|rows: Seq<usize>| #[trigger]
        is_hit_order(hits, here, rows) && are_first(
            results.locations@,
            hits,
            rows,
            read,
            root,
            client,
        )
}

/// The hits of a symbol.
fn collect_hits<'a>(index: &'a SymbolIndex, symbol: &str, declaration: bool) -> (hits: Vec<Hit<'a>>)
    requires
        index.wf(),
        crate::handlers::names_workspace_files(index@),
    ensures
        hit_views(hits@) == all_hits(index@, symbol@, declaration),
        forall|i: int| 0 <= i < hits@.len() ==> !crate::paths::absolute((#[trigger] hits@[i]).path@),
{
    let ghost view = index@;
    let ghost stored = crate::table::row_of(view.references, symbol@);
    let mut hits: Vec<Hit<'a>> = Vec::new();
    if declaration {
        if let Some(definition) = find_definition(index, symbol) {
            proof {
                crate::handlers::lemma_definition_listed(view.definitions, symbol@);
            }
            hits.push(
                Hit {
                    path: definition.path.as_str(),
                    range: definition.range,
                    encoding: definition.encoding,
                },
            );
        }
    }
    let ghost start = hit_views(hits@);
    let references = index.references(symbol);
    let n: usize = references.len();
    let mut i: usize = 0;
    let ghost rest = Seq::new(stored.len(), |i: int| stored_hit(stored[i], view.reference_paths));
    assert(start + rest.take(0) =~= hit_views(hits@));
    while i < n
        invariant
            view == index@,
            crate::handlers::names_workspace_files(view),
            references.wf(),
            references.stored() == stored,
            references.path_texts() == view.reference_paths,
            n == stored.len(),
            i <= n,
            rest == Seq::new(stored.len(), |i: int| stored_hit(stored[i], view.reference_paths)),
            hit_views(hits@) == start + rest.take(i as int),
            forall|j: int|
                0 <= j < hits@.len() ==> !crate::paths::absolute((#[trigger] hits@[j]).path@),
        decreases n - i,
    {
        let reference = references.get(i);
        proof {
            assert(references.stored()[i as int].path < references.path_texts().len());
            assert(!crate::paths::absolute(view.reference_paths[stored[i as int].path as int]));
        }
        let ghost before = hits@;
        hits.push(
            Hit { path: reference.path, range: reference.range, encoding: reference.encoding },
        );
        proof {
            assert(hit_views(hits@) =~= hit_views(before).push(rest[i as int]));
            assert(rest.take(i + 1) =~= rest.take(i as int).push(rest[i as int]));
            assert(start + rest.take(i + 1) =~= (start + rest.take(i as int)).push(
                rest[i as int],
            ));
        }
        i += 1;
    }
    assert(rest.take(i as int) =~= rest);
    hits
}

/// References to the symbol under a cursor, ranked and capped.
///
/// The definition is among them when `declaration` is set, which is what the LSP
/// request's own parameter asks for.
pub fn find_references<F: Fn(&str) -> Option<String>>(
    index: &SymbolIndex,
    path: &str,
    position: LinePosition,
    declaration: bool,
    root: &AbsPath,
    client: PositionEncoding,
    read: &F,
) -> (found: Option<ReferenceResults>)
    requires
        index.wf(),
        crate::handlers::names_workspace_files(index@),
        crate::handlers::is_reader(*read),
    ensures
        exists|symbol: Option<Seq<char>>| #[trigger]
            crate::handlers::under_cursor(index@, path@, position, client, *read, symbol)
                && match symbol {
                Some(symbol) => found matches Some(results) && answers(
                    results,
                    index@,
                    symbol,
                    declaration,
                    path@,
                    *read,
                    root@,
                    client,
                ),
                None => found is None,
            },
{
    let symbol = match symbol_under_cursor(index, path, position, client, read) {
        Some(symbol) => symbol,
        None => {
            return None;
        },
    };
    assert(crate::handlers::under_cursor(
        index@,
        path@,
        position,
        client,
        *read,
        Some(symbol@),
    ));
    let hits = collect_hits(index, &symbol, declaration);
    let ghost views = hit_views(hits@);
    let total: usize = hits.len();
    let rows = sort_hits(&hits, path);
    let mut locations: Vec<Location> = Vec::new();
    let mut i: usize = 0;
    while i < rows.len() && i < REFERENCE_LIMIT
        invariant
            i <= rows@.len(),
            i <= REFERENCE_LIMIT,
            views == hit_views(hits@),
            is_hit_order(views, path@, rows@),
            crate::handlers::is_reader(*read),
            forall|j: int|
                0 <= j < hits@.len() ==> !crate::paths::absolute((#[trigger] hits@[j]).path@),
            locations@.len() == i,
            forall|j: int|
                0 <= j < i ==> crate::handlers::locates(
                    #[trigger] locations@[j],
                    *read,
                    root@,
                    views[rows@[j] as int].path,
                    views[rows@[j] as int].range,
                    views[rows@[j] as int].encoding,
                    client,
                ),
        decreases rows@.len() - i,
    {
        proof {
            assert(rows@.contains(rows@[i as int]));
        }
        let hit = hits[rows[i]];
        assert(views[rows@[i as int] as int] == hit@);
        locations.push(to_location(hit.path, hit.range, hit.encoding, root, client, read));
        i += 1;
    }
    assert(are_first(locations@, views, rows@, *read, root@, client));
    Some(ReferenceResults { symbol, locations, total })
}

/// A truncated answer says so: where more references exist than a response
/// carries, the outcome is truncated, and otherwise every one is given.
pub proof fn truncation_is_reported<F: Fn(&str) -> Option<String>>(
    results: ReferenceResults,
    index: IndexView,
    symbol: Seq<char>,
    declaration: bool,
    here: Seq<char>,
    read: F,
    root: Seq<char>,
    client: PositionEncoding,
)
    requires
        answers(results, index, symbol, declaration, here, read, root, client),
    ensures
        ({
            let outcome = crate::handlers::listed(results.locations@.len() as usize, results.total);
            let n = all_hits(index, symbol, declaration).len();
            &&& crate::telemetry::truncated(outcome) == (n > REFERENCE_LIMIT)
            &&& n <= REFERENCE_LIMIT ==> results.locations@.len() == n
            &&& !crate::telemetry::misleading(outcome)
        }),
{
}

} // verus!
