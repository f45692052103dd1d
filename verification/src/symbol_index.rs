//! The global symbol index, built from SCIP shards.
//!
//! This is the shallow global tier. It holds names, kinds, positions and
//! relationships, enough for `workspaceSymbol`, `goToDefinition`,
//! `findReferences` and `goToImplementation`, and no method bodies.
//!
//! # Positions are UTF-16, and SCIP does not say so
//!
//! A document's position encoding exists, but scip-java leaves it unspecified
//! while emitting UTF-16 code-unit columns. So
//! [`PositionEncoding::of`](crate::span::PositionEncoding::of) takes UTF-16 when
//! the field is unspecified. The wrong reading does not fail: it returns
//! plausible garbage, and only on lines containing non-ASCII.
//!
//! # What an index is
//!
//! [`IndexView`] is the mathematical content of a [`SymbolIndex`]: the
//! definitions in the order in which they came, the references of each symbol,
//! the occurrences in each file, and the two numberings that the compact rows
//! refer to. Everything else in the structure is a lookup table over the
//! definitions, and its invariant says exactly which rows it holds.
pub mod lookup;
pub mod queries;
pub mod search;
pub mod snapshot;

use rustc_hash::FxHashSet;
use vstd::prelude::*;

use crate::definition::{Column, Definition, Lookup, SymbolKind};
use crate::index_model::{IndexView, Occurrence, StoredReference, DEFINITION_ROLE, IMPORT_ROLE};
use crate::shard::{
    decode_shard, short_name_of, ShardDocument, ShardOccurrence, ShardSymbol, SymbolFacts,
};
use crate::span::{PositionEncoding, Range};
use crate::table::{Interner, Table};
use crate::text::{chars_of, copy_texts, lower, same_text};

verus! {

/// The identity of one reference row: the slot of its symbol, then its fields.
pub type Site = (usize, u32, u32, u32, u32, u32, u8, bool);

/// What an `FxHashSet` of reference sites holds.
pub uninterp spec fn sites_of(sites: FxHashSet<Site>) -> Set<Site>;

/// `FxHashSet::default`: a set without sites.
#[verifier::external_body]
fn new_sites() -> (sites: FxHashSet<Site>)
    ensures
        forall|site: Site| !#[trigger] sites_of(sites).contains(site),
{
    FxHashSet::default()
}

/// `HashSet::insert`: adds `site`, and says whether it was not there before.
#[verifier::external_body]
fn add_site(sites: &mut FxHashSet<Site>, site: Site) -> (added: bool)
    ensures
        sites_of(*final(sites)) == sites_of(*old(sites)).insert(site),
        added == !sites_of(*old(sites)).contains(site),
{
    sites.insert(site)
}

/// The number of an encoding in a [`Site`].
spec fn encoding_number(encoding: PositionEncoding) -> u8 {
    match encoding {
        PositionEncoding::Utf8 => 0,
        PositionEncoding::Utf16 => 1,
        PositionEncoding::Utf32 => 2,
    }
}

/// The identity of `reference` under the symbol in `slot`.
spec fn site_of(slot: usize, reference: StoredReference) -> Site {
    (
        slot,
        reference.path,
        reference.range.start_line,
        reference.range.start_col,
        reference.range.end_line,
        reference.range.end_col,
        encoding_number(reference.encoding),
        reference.is_import,
    )
}

/// Computes [`site_of`].
fn make_site(slot: usize, reference: &StoredReference) -> (site: Site)
    ensures
        site == site_of(slot, *reference),
{
    let encoding: u8 = match reference.encoding {
        PositionEncoding::Utf8 => 0,
        PositionEncoding::Utf16 => 1,
        PositionEncoding::Utf32 => 2,
    };
    (
        slot,
        reference.path,
        reference.range.start_line,
        reference.range.start_col,
        reference.range.end_line,
        reference.range.end_col,
        encoding,
        reference.is_import,
    )
}

/// Symbols and references, keyed for lookup.
pub struct SymbolIndex {
    definitions: Vec<Definition>,
    /// Lowercased short name to definition positions, for case-insensitive
    /// search.
    by_name: Table<usize>,
    /// Symbol string to the position of its first definition.
    by_symbol: Table<usize>,
    /// Supertype symbol to the positions of the definitions implementing it.
    implementors: Table<usize>,
    /// File path to the positions of the definitions it contains.
    by_path: Table<usize>,
    /// Symbol string to every compact reference to it.
    references: Table<StoredReference>,
    /// Numbered paths used by `references`.
    reference_paths: Interner,
    /// Construction-only identity set over `references`. Complete while
    /// `sites_complete` says so, and rebuilt when a shard is added otherwise.
    reference_sites: FxHashSet<Site>,
    sites_complete: bool,
    /// Every occurrence in a file, ordered by position, for cursor lookup.
    occurrences: Table<Occurrence>,
    /// Numbered symbol strings used by `occurrences`.
    symbol_names: Interner,
    shards: usize,
}

impl View for SymbolIndex {
    type V = IndexView;

    closed spec fn view(&self) -> IndexView {
        IndexView {
            definitions: crate::definition::definition_views(self.definitions@),
            references: self.references@,
            reference_paths: self.reference_paths@,
            occurrences: self.occurrences@,
            symbol_names: self.symbol_names@,
            shards: self.shards as int,
        }
    }
}

impl SymbolIndex {
    /// What holds of every index.
    ///
    /// Each lookup table lists exactly the definitions with its key, references
    /// and occurrences refer only to numbers that were given, and the
    /// occurrences of a file stand in file order, each once.
    pub closed spec fn wf(&self) -> bool {
        &&& self.tables_wf()
        &&& self.rows_wf()
        &&& self.sites_wf()
    }

    /// The tables and the rows of the index can be walked.
    pub closed spec fn readable(&self) -> bool {
        &&& self.by_name.wf()
        &&& self.by_symbol.wf()
        &&& self.implementors.wf()
        &&& self.by_path.wf()
        &&& self.references.wf()
        &&& self.occurrences.wf()
        &&& self.reference_paths.numbers().dom().finite()
        &&& self.symbol_names.numbers().dom().finite()
        &&& self.sites_wf()
        &&& forall|symbol: Seq<char>|
            #![trigger self@.references[symbol]]
            self@.references.contains_key(symbol) ==> self@.references[symbol].no_duplicates()
        &&& forall|path: Seq<char>|
            #![trigger self@.occurrences[path]]
            self@.occurrences.contains_key(path) ==> crate::index_model::in_file_order(
                self@.occurrences[path],
            )
    }

    spec fn tables_wf(&self) -> bool {
        &&& self.by_name.wf()
        &&& self.by_symbol.wf()
        &&& self.by_path.wf()
        &&& self.implementors.wf()
        &&& lookup::is_lookup(self.by_name@, self@.definitions, Lookup::Name)
        &&& lookup::is_lookup(self.by_symbol@, self@.definitions, Lookup::Symbol)
        &&& lookup::is_lookup(self.by_path@, self@.definitions, Lookup::Path)
        &&& lookup::is_lookup(self.implementors@, self@.definitions, Lookup::Supertype)
    }

    spec fn rows_wf(&self) -> bool {
        &&& self.references.wf()
        &&& self.reference_paths.wf()
        &&& self.occurrences.wf()
        &&& self.symbol_names.wf()
        &&& crate::index_model::sound_rows(self@)
    }

    /// The definitions as they are stored.
    pub closed spec fn stored_definitions(&self) -> Seq<Definition> {
        self.definitions@
    }

    /// What is stored is what the index holds.
    pub proof fn lemma_stored(&self)
        ensures
            self@.definitions == crate::definition::definition_views(self.stored_definitions()),
    {
    }

    /// The compact rows of an index can be read.
    pub proof fn lemma_sound_rows(&self)
        requires
            self.wf(),
        ensures
            crate::index_model::sound_rows(self@),
    {
    }

    /// Whether the identity set over the references is complete.
    pub closed spec fn numbers_sites(&self) -> bool {
        self.sites_complete
    }

    /// The reference sites that the identity set holds.
    pub closed spec fn kept_sites(&self) -> Set<Site> {
        sites_of(self.reference_sites)
    }

    spec fn sites_wf(&self) -> bool {
        self.sites_complete ==> are_sites_of(self.reference_sites, self.references)
    }
}

impl SymbolIndex {
    /// An index that nothing went into.
    pub fn new() -> (index: Self)
        ensures
            index.wf(),
            index@ == crate::index_model::empty_index(),
            index.numbers_sites(),
    {
        let index = SymbolIndex {
            definitions: Vec::new(),
            by_name: Table::new(),
            by_symbol: Table::new(),
            implementors: Table::new(),
            by_path: Table::new(),
            references: Table::new(),
            reference_paths: Interner::new(),
            reference_sites: new_sites(),
            sites_complete: true,
            occurrences: Table::new(),
            symbol_names: Interner::new(),
            shards: 0,
        };
        assert(index@ =~= crate::index_model::empty_index());
        index
    }

    /// Adds a definition directly, for callers that build an index from
    /// something other than a SCIP shard: a dirty-file overlay, or a test.
    ///
    /// An already indexed declaration site is ignored, so overlapping targets
    /// cannot double it while distinct sites for one symbol remain visible.
    pub fn insert(&mut self, def: Definition)
        requires
            old(self).wf(),
        ensures
            final(self).wf(),
            final(self)@ == crate::index_model::inserted(old(self)@, def@),
            final(self).numbers_sites() == old(self).numbers_sites(),
    {
        if !self.knows_site(&def.path, &def.symbol, &def.range) {
            self.append(def);
        }
    }

    /// Whether the symbol is declared at that path and range.
    fn knows_site(&self, path: &str, symbol: &str, range: &Range) -> (known: bool)
        requires
            self.wf(),
        ensures
            known == crate::index_model::declared_at(self@.definitions, path@, symbol@, *range),
    {
        let rows = match self.by_path.get(path) {
            Some(rows) => rows,
            None => {
                proof {
                    assert(crate::table::row_of(self.by_path@, path@) == Seq::<usize>::empty());
                    let n = self.definitions.len();
                    crate::definition::lemma_rows_for(self@.definitions, Column::Path, path@);
                    assert forall|i: int| 0 <= i < self@.definitions.len() implies (#[trigger]
                    self@.definitions[i]).path != path@ by {
                        assert(crate::definition::cell(self@.definitions[i], Column::Path)
                            == self@.definitions[i].path);
                    }
                }
                return false;
            },
        };
        assert(crate::table::row_of(self.by_path@, path@) == rows@);
        let n: usize = self.definitions.len();
        proof {
            crate::definition::lemma_rows_for(self@.definitions, Column::Path, path@);
        }
        let mut k: usize = 0;
        while k < rows.len()
            invariant
                k <= rows@.len(),
                n == self.definitions@.len(),
                rows@ == crate::definition::rows_for(self@.definitions, Column::Path, path@),
                forall|j: int| 0 <= j < rows@.len() ==> #[trigger] rows@[j] < n,
                forall|j: int|
                    0 <= j < rows@.len() ==> self@.definitions[#[trigger] rows@[j] as int].path
                        == path@,
                forall|j: int|
                    0 <= j < k ==> {
                        let d = self@.definitions[#[trigger] rows@[j] as int];
                        !(d.symbol == symbol@ && d.range == *range)
                    },
            decreases rows@.len() - k,
        {
            let i: usize = rows[k];
            let definition = &self.definitions[i];
            assert(self@.definitions[i as int] == definition@);
            if same_text(&definition.symbol, symbol) && definition.range == *range {
                return true;
            }
            k += 1;
        }
        proof {
            assert forall|i: int|
                0 <= i < self@.definitions.len() && (#[trigger] self@.definitions[i]).path
                    == path@ implies !(self@.definitions[i].symbol == symbol@
                && self@.definitions[i].range == *range) by {
                assert(crate::definition::cell(self@.definitions[i], Column::Path) == path@);
                assert(rows@.contains(i as usize));
                let j = choose|j: int| 0 <= j < rows@.len() && rows@[j] == i as usize;
                assert(rows@[j] == i);
            }
        }
        false
    }

    /// Adds a definition behind the others.
    fn append(&mut self, def: Definition)
        requires
            old(self).wf(),
        ensures
            final(self).wf(),
            final(self)@ == (IndexView {
                definitions: old(self)@.definitions.push(def@),
                ..old(self)@
            }),
            final(self).sites_complete == old(self).sites_complete,
    {
        let idx: usize = self.definitions.len();
        let ghost before = self@.definitions;
        let ghost after = before.push(def@);
        let name = lower(&def.name);
        self.by_path.push(&def.path, idx);
        self.by_name.push(&name, idx);
        let is_first = match self.by_symbol.get(&def.symbol) {
            Some(row) => row.len() == 0,
            None => true,
        };
        if is_first {
            self.by_symbol.push(&def.symbol, idx);
        }
        let ghost at_loop = *self;
        proof {
            assert forall|key: Seq<char>| #[trigger]
                crate::table::row_of(self.implementors@, key)
                    == crate::definition::implementor_rows(before, key)
                    + crate::definition::row_copies(idx, def@.implements.take(0), key) by {
                assert(crate::definition::row_copies(idx, def@.implements.take(0), key)
                    =~= Seq::<usize>::empty());
                assert(crate::table::row_of(old(self).implementors@, key)
                    == crate::definition::implementor_rows(before, key));
                assert(crate::definition::implementor_rows(before, key) + Seq::<usize>::empty()
                    =~= crate::definition::implementor_rows(before, key));
            }
        }
        let mut k: usize = 0;
        while k < def.implements.len()
            invariant
                k <= def.implements@.len(),
                self.implementors.wf(),
                forall|key: Seq<char>| #[trigger]
                    crate::table::row_of(self.implementors@, key)
                        == crate::definition::implementor_rows(before, key)
                        + crate::definition::row_copies(idx, def@.implements.take(k as int), key),
                self.by_path == at_loop.by_path,
                self.by_name == at_loop.by_name,
                self.by_symbol == at_loop.by_symbol,
                self.definitions == at_loop.definitions,
                self.references == at_loop.references,
                self.reference_paths == at_loop.reference_paths,
                self.reference_sites == at_loop.reference_sites,
                self.sites_complete == at_loop.sites_complete,
                self.occurrences == at_loop.occurrences,
                self.symbol_names == at_loop.symbol_names,
                self.shards == at_loop.shards,
            decreases def.implements@.len() - k,
        {
            let ghost prior = self.implementors@;
            self.implementors.push(&def.implements[k], idx);
            proof {
                let list = def@.implements;
                assert(list.take(k + 1).drop_last() =~= list.take(k as int));
                assert(list.take(k + 1).last() == def.implements@[k as int]@);
                assert forall|key: Seq<char>| #[trigger]
                    crate::table::row_of(self.implementors@, key)
                        == crate::definition::implementor_rows(before, key)
                        + crate::definition::row_copies(idx, list.take(k + 1), key) by {
                    assert(crate::table::row_of(prior, key)
                        == crate::definition::implementor_rows(before, key)
                        + crate::definition::row_copies(idx, list.take(k as int), key));
                    if key == def.implements@[k as int]@ {
                        assert(crate::table::row_of(self.implementors@, key) =~= (
                        crate::definition::implementor_rows(before, key)
                            + crate::definition::row_copies(idx, list.take(k as int), key)).push(
                            idx,
                        ));
                        assert(crate::table::row_of(self.implementors@, key)
                            =~= crate::definition::implementor_rows(before, key)
                            + crate::definition::row_copies(idx, list.take(k + 1), key));
                    } else {
                        assert(crate::table::row_of(self.implementors@, key)
                            == crate::table::row_of(prior, key));
                    }
                }
            }
            k += 1;
        }
        let ghost view = def@;
        assert(view.implements.take(k as int) =~= view.implements);
        self.definitions.push(def);
        proof {
            assert(self@.definitions =~= after);
            assert(after.drop_last() =~= before);
            assert(self@ =~= (IndexView { definitions: after, ..old(self)@ }));
            assert forall|key: Seq<char>| #[trigger]
                crate::table::row_of(self.by_name@, key) == crate::definition::rows_for(
                    after,
                    Column::Name,
                    key,
                ) by {
                assert(crate::table::row_of(old(self).by_name@, key)
                    == crate::definition::rows_for(before, Column::Name, key));
            }
            assert forall|key: Seq<char>| #[trigger]
                crate::table::row_of(self.by_symbol@, key) == crate::definition::looked_up(
                    after,
                    Lookup::Symbol,
                    key,
                ) by {
                let rows = crate::definition::rows_for(before, Column::Symbol, key);
                assert(crate::table::row_of(old(self).by_symbol@, key)
                    == crate::definition::looked_up(before, Lookup::Symbol, key));
                assert(rows.push(idx).take(1) =~= if rows.len() == 0 {
                    seq![idx]
                } else {
                    rows.take(1)
                });
            }
            assert forall|key: Seq<char>| #[trigger]
                crate::table::row_of(self.by_path@, key) == crate::definition::rows_for(
                    after,
                    Column::Path,
                    key,
                ) by {
                assert(crate::table::row_of(old(self).by_path@, key)
                    == crate::definition::rows_for(before, Column::Path, key));
            }
        }
    }
}

/// Decides [`occurrence_before`](crate::index_model::occurrence_before).
fn stands_before(a: &Occurrence, b: &Occurrence) -> (first: bool)
    ensures
        first == crate::index_model::occurrence_before(*a, *b),
{
    if a.range.start_line != b.range.start_line {
        a.range.start_line < b.range.start_line
    } else if a.range.start_col != b.range.start_col {
        a.range.start_col < b.range.start_col
    } else if a.range.end_line != b.range.end_line {
        a.range.end_line < b.range.end_line
    } else if a.range.end_col != b.range.end_col {
        a.range.end_col < b.range.end_col
    } else {
        a.symbol < b.symbol
    }
}

/// The first position in `row` whose occurrence does not stand before `x`.
fn place_of(row: &Vec<Occurrence>, x: &Occurrence) -> (at: usize)
    requires
        crate::index_model::in_file_order(row@),
    ensures
        at <= row@.len(),
        forall|k: int|
            0 <= k < at ==> crate::index_model::occurrence_before(#[trigger] row@[k], *x),
        forall|k: int|
            at <= k < row@.len() ==> !crate::index_model::occurrence_before(
                #[trigger] row@[k],
                *x,
            ),
{
    let mut low: usize = 0;
    let mut high: usize = row.len();
    while low < high
        invariant
            low <= high <= row@.len(),
            crate::index_model::in_file_order(row@),
            forall|k: int|
                0 <= k < low ==> crate::index_model::occurrence_before(#[trigger] row@[k], *x),
            forall|k: int|
                high <= k < row@.len() ==> !crate::index_model::occurrence_before(
                    #[trigger] row@[k],
                    *x,
                ),
        decreases high - low,
    {
        let middle: usize = low + (high - low) / 2;
        if stands_before(&row[middle], x) {
            assert forall|k: int| 0 <= k <= middle implies crate::index_model::occurrence_before(
                #[trigger] row@[k],
                *x,
            ) by {
                if k < middle {
                    assert(crate::index_model::occurrence_before(row@[k], row@[middle as int]));
                }
            }
            low = middle + 1;
        } else {
            assert forall|k: int|
                middle <= k < row@.len() implies !crate::index_model::occurrence_before(
                #[trigger] row@[k],
                *x,
            ) by {
                if k > middle {
                    assert(crate::index_model::occurrence_before(row@[middle as int], row@[k]));
                }
            }
            high = middle;
        }
    }
    low
}

/// Which entries of a document's symbols are about which symbol.
fn facts_by_symbol(document: &ShardDocument) -> (facts: Table<usize>)
    ensures
        facts.wf(),
        finds_facts(facts@, document@.symbols),
{
    let mut facts: Table<usize> = Table::new();
    let mut k: usize = 0;
    while k < document.symbols.len()
        invariant
            k <= document.symbols@.len(),
            facts.wf(),
            finds_facts(facts@, document@.symbols.take(k as int)),
        decreases document.symbols@.len() - k,
    {
        let ghost prior = facts@;
        facts.push(&document.symbols[k].symbol, k);
        proof {
            let symbols = document@.symbols;
            assert(symbols.take(k + 1).drop_last() =~= symbols.take(k as int));
            assert(symbols.take(k + 1).last() == symbols[k as int]);
            assert(symbols[k as int] == document.symbols@[k as int]@);
            assert forall|key: Seq<char>| #[trigger] found_facts(
                facts@,
                symbols.take(k + 1),
                key,
            ) by {
                assert(found_facts(prior, symbols.take(k as int), key));
            }
        }
        k += 1;
    }
    assert(document@.symbols.take(k as int) =~= document@.symbols);
    facts
}

/// Whether the last row under `key` leads to what `symbols` say about it.
spec fn found_facts(
    facts: Map<Seq<char>, Seq<usize>>,
    symbols: Seq<SymbolFacts>,
    key: Seq<char>,
) -> bool {
    match crate::index_model::facts_about(symbols, key) {
        None => !facts.contains_key(key),
        Some(about) => {
            &&& facts.contains_key(key)
            &&& facts[key].len() > 0
            &&& facts[key].last() < symbols.len()
            &&& symbols[facts[key].last() as int] == about
        },
    }
}

/// Whether the last row under every key leads to what `symbols` say about it.
spec fn finds_facts(facts: Map<Seq<char>, Seq<usize>>, symbols: Seq<SymbolFacts>) -> bool {
    forall|key: Seq<char>| #[trigger] found_facts(facts, symbols, key)
}

/// The symbols that `symbol` implements or extends.
fn supertypes(symbol: &ShardSymbol) -> (out: Vec<String>)
    ensures
        crate::text::texts(out@) == crate::index_model::implemented(symbol@.implements),
{
    let mut out: Vec<String> = Vec::new();
    let mut k: usize = 0;
    while k < symbol.relationships.len()
        invariant
            k <= symbol.relationships@.len(),
            crate::text::texts(out@) == crate::index_model::implemented(
                symbol@.implements.take(k as int),
            ),
        decreases symbol.relationships@.len() - k,
    {
        let relationship = &symbol.relationships[k];
        let ghost before = out@;
        proof {
            let list = symbol@.implements;
            assert(list.take(k + 1).drop_last() =~= list.take(k as int));
            assert(list.take(k + 1).last() == (relationship.symbol@, relationship.is_implementation));
        }
        if relationship.is_implementation {
            out.push(relationship.symbol.clone());
            assert(crate::text::texts(out@) =~= crate::text::texts(before).push(
                relationship.symbol@,
            ));
        }
        k += 1;
    }
    assert(symbol@.implements.take(k as int) =~= symbol@.implements);
    out
}

/// Puts an occurrence into its place among those of its file.
fn place_in(occurrences: &mut Table<Occurrence>, path: &str, x: Occurrence)
    requires
        old(occurrences).wf(),
        crate::index_model::in_file_order(crate::table::row_of(old(occurrences)@, path@)),
    ensures
        final(occurrences).wf(),
        final(occurrences)@ == old(occurrences)@.insert(
            path@,
            crate::index_model::placed(crate::table::row_of(old(occurrences)@, path@), x),
        ),
{
    let ghost row = crate::table::row_of(occurrences@, path@);
    let mut at: usize = 0;
    let mut known = false;
    match occurrences.get(path) {
        Some(present) => {
            at = place_of(present, &x);
            known = at < present.len() && present[at] == x;
        },
        None => {},
    }
    proof {
        crate::index_model::lemma_placed(row, x, at as int);
        crate::index_model::lemma_placed_order(row, x);
    }
    if !known {
        occurrences.insert_at(path, at, x);
    }
    assert(occurrences@ =~= old(occurrences)@.insert(
        path@,
        crate::index_model::placed(row, x),
    ));
}

impl SymbolIndex {
    /// Puts an occurrence into its place in its file's row.
    fn place(&mut self, path: &str, x: Occurrence)
        requires
            old(self).wf(),
            x.symbol < old(self)@.symbol_names.len(),
        ensures
            final(self).wf(),
            final(self)@ == (IndexView {
                occurrences: old(self)@.occurrences.insert(
                    path@,
                    crate::index_model::placed(
                        crate::table::row_of(old(self)@.occurrences, path@),
                        x,
                    ),
                ),
                ..old(self)@
            }),
            final(self).sites_complete == old(self).sites_complete,
    {
        let ghost row = crate::table::row_of(self.occurrences@, path@);
        assert(crate::index_model::in_file_order(row)) by {
            if self.occurrences@.contains_key(path@) {
                assert(row == old(self)@.occurrences[path@]);
            }
        }
        place_in(&mut self.occurrences, path, x);
        proof {
            let placed = crate::index_model::placed(row, x);
            crate::index_model::lemma_placed_order(row, x);
            assert(self.occurrences@ =~= old(self)@.occurrences.insert(path@, placed));
            assert forall|i: int| 0 <= i < placed.len() implies (#[trigger] placed[i]).symbol
                < old(self)@.symbol_names.len() by {
                assert(placed.contains(placed[i]));
                if placed[i] != x {
                    assert(row.contains(placed[i]));
                    let k = choose|k: int| 0 <= k < row.len() && row[k] == placed[i];
                    assert(old(self)@.occurrences[path@][k] == placed[i]);
                }
            }
            lemma_new_path(old(self)@, path@, placed);
        }
    }

    /// Numbers the symbol and puts the occurrence into its file's row.
    fn add_position(&mut self, path: &str, symbol: &str, range: Range)
        requires
            old(self).wf(),
        ensures
            final(self).wf(),
            final(self)@ == crate::index_model::with_occurrence(
                old(self)@,
                path@,
                symbol@,
                range,
            ),
            final(self).sites_complete == old(self).sites_complete,
    {
        let id: usize = self.symbol_names.intern(symbol);
        proof {
            self.symbol_names.lemma_distinct();
            let names = self.symbol_names@;
            assert(self@ =~= (IndexView { symbol_names: names, ..old(self)@ }));
            lemma_more_symbols(old(self)@, names);
        }
        self.place(path, Occurrence { range, symbol: id });
        assert(self@ =~= crate::index_model::with_occurrence(
            old(self)@,
            path@,
            symbol@,
            range,
        ));
    }
}

/// More symbols leave the rows of an index readable.
proof fn lemma_more_symbols(index: IndexView, names: Seq<Seq<char>>)
    requires
        crate::index_model::sound_rows(index),
        names.no_duplicates(),
        names.len() >= index.symbol_names.len(),
    ensures
        crate::index_model::sound_rows(IndexView { symbol_names: names, ..index }),
{
    let after = IndexView { symbol_names: names, ..index };
    assert forall|s: Seq<char>|
        #![trigger after.references[s]]
        after.references.contains_key(s) implies after.references[s].no_duplicates() by {
        assert(index.references[s] == after.references[s]);
    }
    assert forall|s: Seq<char>, i: int|
        #![trigger after.references[s][i]]
        after.references.contains_key(s) && 0 <= i
            < after.references[s].len() implies after.references[s][i].path
        < after.reference_paths.len() by {
        assert(index.references[s][i] == after.references[s][i]);
    }
    assert forall|p: Seq<char>|
        #![trigger after.occurrences[p]]
        after.occurrences.contains_key(p) implies crate::index_model::in_file_order(
        after.occurrences[p],
    ) by {
        assert(index.occurrences[p] == after.occurrences[p]);
    }
    assert forall|p: Seq<char>, i: int|
        #![trigger after.occurrences[p][i]]
        after.occurrences.contains_key(p) && 0 <= i
            < after.occurrences[p].len() implies after.occurrences[p][i].symbol
        < after.symbol_names.len() by {
        assert(index.occurrences[p][i] == after.occurrences[p][i]);
    }
}

/// A readable row for one file leaves the rows of an index readable.
proof fn lemma_new_path(index: IndexView, path: Seq<char>, row: Seq<Occurrence>)
    requires
        crate::index_model::sound_rows(index),
        crate::index_model::in_file_order(row),
        forall|i: int| 0 <= i < row.len() ==> (#[trigger] row[i]).symbol < index.symbol_names.len(),
    ensures
        crate::index_model::sound_rows(
            IndexView { occurrences: index.occurrences.insert(path, row), ..index },
        ),
{
    let after = IndexView { occurrences: index.occurrences.insert(path, row), ..index };
    assert forall|s: Seq<char>|
        #![trigger after.references[s]]
        after.references.contains_key(s) implies after.references[s].no_duplicates() by {
        assert(index.references[s] == after.references[s]);
    }
    assert forall|s: Seq<char>, i: int|
        #![trigger after.references[s][i]]
        after.references.contains_key(s) && 0 <= i
            < after.references[s].len() implies after.references[s][i].path
        < after.reference_paths.len() by {
        assert(index.references[s][i] == after.references[s][i]);
    }
    assert forall|p: Seq<char>|
        #![trigger after.occurrences[p]]
        after.occurrences.contains_key(p) implies crate::index_model::in_file_order(
        after.occurrences[p],
    ) by {
        if p != path {
            assert(index.occurrences[p] == after.occurrences[p]);
        }
    }
    assert forall|p: Seq<char>, i: int|
        #![trigger after.occurrences[p][i]]
        after.occurrences.contains_key(p) && 0 <= i
            < after.occurrences[p].len() implies after.occurrences[p][i].symbol
        < after.symbol_names.len() by {
        if p != path {
            assert(index.occurrences[p][i] == after.occurrences[p][i]);
        }
    }
}

impl SymbolIndex {
    /// Completes the identity set from the reference rows, where a loaded or
    /// finished index released it.
    fn restore_sites(&mut self)
        requires
            old(self).wf(),
        ensures
            final(self).wf(),
            final(self)@ == old(self)@,
            final(self).sites_complete,
    {
        if self.sites_complete {
            return ;
        }
        let mut sites = new_sites();
        let mut i: usize = 0;
        while i < self.references.len()
            invariant
                self.references.wf(),
                i <= self.references.order().len(),
                forall|slot: usize, reference: StoredReference| #[trigger]
                    sites_of(sites).contains(site_of(slot, reference)) <==> slot < i
                        && self.references@[self.references.order()[slot as int]].contains(
                        reference,
                    ),
            decreases self.references.order().len() - i,
        {
            let row = self.references.row_at(i);
            let mut j: usize = 0;
            while j < row.len()
                invariant
                    self.references.wf(),
                    i < self.references.order().len(),
                    row@ == self.references@[self.references.order()[i as int]],
                    j <= row@.len(),
                    forall|slot: usize, reference: StoredReference| #[trigger]
                        sites_of(sites).contains(site_of(slot, reference)) <==> (slot < i
                            && self.references@[self.references.order()[slot as int]].contains(
                            reference,
                        )) || (slot == i && row@.take(j as int).contains(reference)),
                decreases row@.len() - j,
            {
                let reference = row[j];
                let ghost before = sites_of(sites);
                add_site(&mut sites, make_site(i, &reference));
                proof {
                    assert(row@.take(j + 1) =~= row@.take(j as int).push(reference));
                    assert forall|slot: usize, r: StoredReference| #[trigger]
                        sites_of(sites).contains(site_of(slot, r)) <==> (slot < i
                            && self.references@[self.references.order()[slot as int]].contains(r))
                            || (slot == i && row@.take(j + 1).contains(r)) by {
                        lemma_push_contains(row@.take(j as int), reference, r);
                        assert(before.contains(site_of(slot, r)) <==> (slot < i
                            && self.references@[self.references.order()[slot as int]].contains(r))
                            || (slot == i && row@.take(j as int).contains(r)));
                    }
                }
                j += 1;
            }
            assert(row@.take(j as int) =~= row@);
            i += 1;
        }
        self.reference_sites = sites;
        self.sites_complete = true;
        assert(self@ =~= old(self)@);
    }

    /// Numbers the path of a reference, where there is a number for it.
    fn intern_reference_path(&mut self, path: &str) -> (id: Option<u32>)
        requires
            old(self).wf(),
        ensures
            final(self).wf(),
            final(self).sites_complete == old(self).sites_complete,
            id is Some <==> crate::index_model::path_fits(old(self)@.reference_paths, path@),
            id is None ==> final(self)@ == old(self)@,
            id matches Some(n) ==> {
                let paths = crate::table::interned(old(self)@.reference_paths, path@);
                &&& final(self)@ == (IndexView { reference_paths: paths, ..old(self)@ })
                &&& n == crate::table::slot_in(paths, path@)
                &&& n < paths.len()
            },
    {
        proof {
            old(self).reference_paths.lemma_distinct();
        }
        let next: usize = match self.reference_paths.position(path) {
            Some(known) => known,
            None => self.reference_paths.len(),
        };
        proof {
            let paths = crate::table::interned(self@.reference_paths, path@);
            assert(paths.no_duplicates());
            assert(paths[next as int] == path@);
            assert(paths.contains(path@));
            assert(crate::table::slot_in(paths, path@) == next);
        }
        if next as u64 > u32::MAX as u64 {
            return None;
        }
        let slot: usize = self.reference_paths.intern(path);
        proof {
            self.reference_paths.lemma_distinct();
            let paths = crate::table::interned(old(self)@.reference_paths, path@);
            assert(self@ =~= (IndexView { reference_paths: paths, ..old(self)@ }));
            assert forall|s: Seq<char>|
                #![trigger self@.references[s]]
                self@.references.contains_key(s) implies self@.references[s].no_duplicates() by {
                assert(old(self)@.references.contains_key(s) ==> old(self)@.references[s].no_duplicates());
            }
            assert forall|s: Seq<char>, i: int|
                #![trigger self@.references[s][i]]
                self@.references.contains_key(s) && 0 <= i
                    < self@.references[s].len() implies self@.references[s][i].path
                < self@.reference_paths.len() by {
                assert(old(self)@.references[s][i] == self@.references[s][i]);
            }
            assert forall|p: Seq<char>, i: int|
                #![trigger self@.occurrences[p][i]]
                self@.occurrences.contains_key(p) && 0 <= i
                    < self@.occurrences[p].len() implies self@.occurrences[p][i].symbol
                < self@.symbol_names.len() by {
                assert(old(self)@.occurrences[p][i] == self@.occurrences[p][i]);
            }
            assert forall|p: Seq<char>|
                #![trigger self@.occurrences[p]]
                self@.occurrences.contains_key(p) implies crate::index_model::in_file_order(
                self@.occurrences[p],
            ) by {
                assert(old(self)@.occurrences[p] == self@.occurrences[p]);
            }
        }
        Some(slot as u32)
    }
}

proof fn lemma_push_contains(
    row: Seq<StoredReference>,
    added: StoredReference,
    other: StoredReference,
)
    ensures
        row.push(added).contains(other) <==> row.contains(other) || other == added,
{
    if row.contains(other) {
        let k = choose|k: int| 0 <= k < row.len() && row[k] == other;
        assert(row.push(added)[k] == other);
    }
    assert(row.push(added)[row.len() as int] == added);
    if row.push(added).contains(other) && other != added {
        let k = choose|k: int| 0 <= k < row.push(added).len() && row.push(added)[k] == other;
        assert(row[k] == other);
    }
}

/// Whether a set holds the sites of all the rows of a table, and no other.
spec fn are_sites_of(sites: FxHashSet<Site>, references: Table<StoredReference>) -> bool {
    forall|slot: usize, reference: StoredReference| #[trigger]
        sites_of(sites).contains(site_of(slot, reference)) <==> slot < references.order().len()
            && references@[references.order()[slot as int]].contains(reference)
}

/// Makes `symbol` one of the keys.
fn note_symbol(
    references: &mut Table<StoredReference>,
    sites: &FxHashSet<Site>,
    symbol: &str,
) -> (slot: usize)
    requires
        old(references).wf(),
        are_sites_of(*sites, *old(references)),
    ensures
        final(references).wf(),
        are_sites_of(*sites, *final(references)),
        final(references)@ == old(references)@.insert(
            symbol@,
            crate::table::row_of(old(references)@, symbol@),
        ),
        slot < final(references).order().len(),
        final(references).order()[slot as int] == symbol@,
{
    let slot: usize = references.intern(symbol);
    proof {
        let order = references.order();
        let was = old(references).order();
        references.lemma_order();
        old(references).lemma_order();
        assert forall|other: usize, r: StoredReference| #[trigger]
            sites_of(*sites).contains(site_of(other, r)) <==> other < order.len()
                && references@[order[other as int]].contains(r) by {
            assert(sites_of(*sites).contains(site_of(other, r)) <==> other < was.len() && old(
                references,
            )@[was[other as int]].contains(r));
            if other < was.len() {
                assert(was[other as int] == order[other as int]);
                assert(was.contains(was[other as int]));
            }
        }
    }
    slot
}

/// Adds a row for `symbol`, where it is not there yet.
fn note_row(
    references: &mut Table<StoredReference>,
    sites: &mut FxHashSet<Site>,
    symbol: &str,
    reference: StoredReference,
)
    requires
        old(references).wf(),
        are_sites_of(*old(sites), *old(references)),
    ensures
        final(references).wf(),
        are_sites_of(*final(sites), *final(references)),
        final(references)@ == old(references)@.insert(
            symbol@,
            crate::index_model::with_site(
                crate::table::row_of(old(references)@, symbol@),
                reference,
            ),
        ),
{
    let ghost row = crate::table::row_of(references@, symbol@);
    let slot: usize = note_symbol(references, sites, symbol);
    let ghost order = references.order();
    proof {
        references.lemma_order();
    }
    let added = add_site(sites, make_site(slot, &reference));
    assert(added == !row.contains(reference));
    if added {
        references.push(symbol, reference);
    }
    proof {
        references.lemma_order();
        assert(references.order() =~= order) by {
            assert(order.contains(symbol@));
        }
        assert forall|other: usize, r: StoredReference| #[trigger]
            sites_of(*sites).contains(site_of(other, r)) <==> other < order.len()
                && references@[order[other as int]].contains(r) by {
            lemma_push_contains(row, reference, r);
            if other < order.len() {
                assert(order[other as int] == symbol@ <==> other == slot);
            }
        }
        assert(references@ =~= old(references)@.insert(
            symbol@,
            crate::index_model::with_site(row, reference),
        ));
    }
}

impl SymbolIndex {
    /// Adds a reference row for `symbol`, where it is not there yet.
    fn add_row(&mut self, symbol: &str, reference: StoredReference)
        requires
            old(self).wf(),
            old(self).sites_complete,
            reference.path < old(self)@.reference_paths.len(),
        ensures
            final(self).wf(),
            final(self).sites_complete,
            final(self)@ == (IndexView {
                references: old(self)@.references.insert(
                    symbol@,
                    crate::index_model::with_site(
                        crate::table::row_of(old(self)@.references, symbol@),
                        reference,
                    ),
                ),
                ..old(self)@
            }),
    {
        let ghost row = crate::table::row_of(self.references@, symbol@);
        note_row(&mut self.references, &mut self.reference_sites, symbol, reference);
        proof {
            let after = IndexView {
                references: old(self)@.references.insert(
                    symbol@,
                    crate::index_model::with_site(row, reference),
                ),
                ..old(self)@
            };
            assert(self.references@ =~= after.references);
            assert(self@ =~= after);
            assert forall|s: Seq<char>|
                #![trigger self@.references[s]]
                self@.references.contains_key(s) implies self@.references[s].no_duplicates() by {
                assert(old(self)@.references.contains_key(s) ==> old(self)@.references[s].no_duplicates());
            }
            assert forall|s: Seq<char>, i: int|
                #![trigger self@.references[s][i]]
                self@.references.contains_key(s) && 0 <= i
                    < self@.references[s].len() implies self@.references[s][i].path
                < self@.reference_paths.len() by {
                if s == symbol@ {
                    if i < row.len() {
                        assert(row[i] == self@.references[s][i]);
                        assert(old(self)@.references[s][i] == row[i]);
                    }
                } else {
                    assert(old(self)@.references[s][i] == self@.references[s][i]);
                }
            }
            assert forall|p: Seq<char>, i: int|
                #![trigger self@.occurrences[p][i]]
                self@.occurrences.contains_key(p) && 0 <= i
                    < self@.occurrences[p].len() implies self@.occurrences[p][i].symbol
                < self@.symbol_names.len() by {
                assert(old(self)@.occurrences[p][i] == self@.occurrences[p][i]);
            }
            assert forall|p: Seq<char>|
                #![trigger self@.occurrences[p]]
                self@.occurrences.contains_key(p) implies crate::index_model::in_file_order(
                self@.occurrences[p],
            ) by {
                assert(old(self)@.occurrences[p] == self@.occurrences[p]);
            }
        }
    }

    /// Adds what one occurrence holds; false where it finds no room.
    fn add_occurrence(
        &mut self,
        document: &ShardDocument,
        facts: &Table<usize>,
        occurrence: &ShardOccurrence,
    ) -> (ok: bool)
        requires
            old(self).wf(),
            old(self).sites_complete,
            facts.wf(),
            finds_facts(facts@, document@.symbols),
        ensures
            final(self).wf(),
            final(self).sites_complete,
            (final(self)@, ok) == crate::index_model::added_occurrence(
                old(self)@,
                document@,
                occurrence@,
            ),
    {
        let range = match Range::from_scip(occurrence.range.as_slice()) {
            Some(range) => range,
            None => {
                return true;
            },
        };
        if is_local_symbol(&occurrence.symbol) || occurrence.symbol.as_str().is_empty() {
            return true;
        }
        let roles: i32 = occurrence.symbol_roles;
        let encoding = PositionEncoding::of(document.position_encoding);
        self.add_position(&document.relative_path, &occurrence.symbol, range);
        if roles & DEFINITION_ROLE != 0 {
            let definition = make_definition(document, facts, occurrence, range, encoding);
            self.insert(definition);
            return true;
        }
        let ghost with = self@;
        match self.intern_reference_path(&document.relative_path) {
            Some(path) => {
                let is_import = roles & IMPORT_ROLE != 0;
                let reference = StoredReference { path, range, encoding, is_import };
                self.add_row(&occurrence.symbol, reference);
                assert(self@ =~= crate::index_model::with_reference(
                    with,
                    document@,
                    occurrence.symbol@,
                    range,
                    is_import,
                ));
                true
            },
            None => false,
        }
    }
}

/// Whether a symbol string is that of a local.
fn is_local_symbol(symbol: &str) -> (local: bool)
    ensures
        local == crate::index_model::is_local(symbol@),
{
    let prefix = ['l', 'o', 'c', 'a', 'l', ' '];
    assert(prefix@ =~= seq!['l', 'o', 'c', 'a', 'l', ' ']);
    let chars = chars_of(symbol);
    crate::text::begins_with(chars.as_slice(), prefix.as_slice())
}

/// The definition that a defining occurrence makes.
fn make_definition(
    document: &ShardDocument,
    facts: &Table<usize>,
    occurrence: &ShardOccurrence,
    range: Range,
    encoding: PositionEncoding,
) -> (definition: Definition)
    requires
        facts.wf(),
        finds_facts(facts@, document@.symbols),
        encoding == PositionEncoding::numbered(document.position_encoding),
    ensures
        definition@ == crate::index_model::definition_at(document@, occurrence@, range),
{
    assert(found_facts(facts@, document@.symbols, occurrence.symbol@));
    let enclosing = Range::from_scip(occurrence.enclosing_range.as_slice());
    let about = facts.get(&occurrence.symbol);
    match about {
        Some(rows) => {
            let info = &document.symbols[rows[rows.len() - 1]];
            assert(info@ == document@.symbols[rows@.last() as int]);
            let name = if info.display_name.as_str().is_empty() {
                short_name_of(&occurrence.symbol)
            } else {
                info.display_name.clone()
            };
            let signature = match &info.signature {
                Some(text) => text.clone(),
                None => String::new(),
            };
            let definition = Definition {
                symbol: occurrence.symbol.clone(),
                name,
                kind: SymbolKind::from_scip(info.kind),
                path: document.relative_path.clone(),
                range,
                encoding,
                implements: supertypes(info),
                documentation: copy_texts(&info.documentation),
                signature,
                enclosing,
            };
            assert(definition@ =~= crate::index_model::definition_at(
                document@,
                occurrence@,
                range,
            ));
            definition
        },
        None => {
            let definition = Definition {
                symbol: occurrence.symbol.clone(),
                name: short_name_of(&occurrence.symbol),
                kind: SymbolKind::Other,
                path: document.relative_path.clone(),
                range,
                encoding,
                implements: Vec::new(),
                documentation: Vec::new(),
                signature: String::new(),
                enclosing,
            };
            assert(definition@ =~= crate::index_model::definition_at(
                document@,
                occurrence@,
                range,
            ));
            definition
        },
    }
}

impl SymbolIndex {
    /// Adds what the occurrences of one document hold, up to the first that
    /// finds no room.
    fn add_document(&mut self, document: &ShardDocument) -> (ok: bool)
        requires
            old(self).wf(),
            old(self).sites_complete,
        ensures
            final(self).wf(),
            final(self).sites_complete,
            (final(self)@, ok) == crate::index_model::added_occurrences(
                old(self)@,
                document@,
                document@.occurrences,
            ),
    {
        let facts = facts_by_symbol(document);
        let ghost occurrences = document@.occurrences;
        let mut k: usize = 0;
        while k < document.occurrences.len()
            invariant
                self.wf(),
                self.sites_complete,
                facts.wf(),
                finds_facts(facts@, document@.symbols),
                occurrences == document@.occurrences,
                k <= document.occurrences@.len(),
                (self@, true) == crate::index_model::added_occurrences(
                    old(self)@,
                    document@,
                    occurrences.take(k as int),
                ),
            decreases document.occurrences@.len() - k,
        {
            let ghost before = self@;
            proof {
                assert(occurrences.take(k + 1).drop_last() =~= occurrences.take(k as int));
                assert(occurrences.take(k + 1).last() == document.occurrences@[k as int]@);
            }
            if !self.add_occurrence(document, &facts, &document.occurrences[k]) {
                proof {
                    crate::index_model::lemma_no_room(
                        old(self)@,
                        document@,
                        occurrences,
                        k + 1,
                    );
                }
                return false;
            }
            k += 1;
        }
        assert(occurrences.take(k as int) =~= occurrences);
        true
    }

    /// Adds the documents of one decoded shard; false where they find no room,
    /// which leaves what came before in the index.
    pub fn add_documents(&mut self, documents: &Vec<ShardDocument>) -> (ok: bool)
        requires
            old(self).wf(),
            old(self)@.shards < usize::MAX,
        ensures
            final(self).wf(),
            (final(self)@, ok) == crate::index_model::added_shard(
                old(self)@,
                crate::shard::documents_of(documents@),
            ),
    {
        let ghost all = crate::shard::documents_of(documents@);
        let ghost start = IndexView { shards: self@.shards + 1, ..self@ };
        self.restore_sites();
        self.shards += 1;
        assert(self@ =~= start);
        proof {
            assert(crate::index_model::sound_rows(self@)) by {
                assert(crate::index_model::sound_rows(old(self)@));
                crate::index_model::lemma_same_rows(old(self)@, self@);
            }
        }
        let mut k: usize = 0;
        while k < documents.len()
            invariant
                self.wf(),
                self.sites_complete,
                all == crate::shard::documents_of(documents@),
                start == (IndexView { shards: old(self)@.shards + 1, ..old(self)@ }),
                k <= documents@.len(),
                (self@, true) == crate::index_model::added_documents(start, all.take(k as int)),
            decreases documents@.len() - k,
        {
            proof {
                assert(all.take(k + 1).drop_last() =~= all.take(k as int));
                assert(all.take(k + 1).last() == documents@[k as int]@);
            }
            if !self.add_document(&documents[k]) {
                proof {
                    crate::index_model::lemma_no_more_room(start, all, k + 1);
                }
                return false;
            }
            k += 1;
        }
        assert(all.take(k as int) =~= all);
        true
    }

    /// Adds one shard's contents, given as the bytes of its file.
    ///
    /// Bytes that are not a shard leave the index as it was.
    pub fn add_shard(&mut self, bytes: &[u8]) -> (ok: bool)
        requires
            old(self).wf(),
            old(self)@.shards < usize::MAX,
        ensures
            final(self).wf(),
            match crate::shard::decoded_shard(bytes@) {
                Some(documents) => (final(self)@, ok) == crate::index_model::added_shard(
                    old(self)@,
                    documents,
                ),
                None => final(self)@ == old(self)@ && !ok,
            },
    {
        match decode_shard(bytes) {
            Some(documents) => self.add_documents(&documents),
            None => false,
        }
    }
}

impl SymbolIndex {
    /// Ends construction: drops the identity set that only adding shards needs.
    /// A shard that is added after all has it rebuilt.
    pub fn finish(&mut self)
        requires
            old(self).wf(),
        ensures
            final(self).wf(),
            final(self)@ == old(self)@,
            final(self).kept_sites() == Set::<Site>::empty(),
            !final(self).numbers_sites(),
    {
        self.sites_complete = false;
        self.reference_sites = new_sites();
        assert(self@ =~= old(self)@);
        assert(self.kept_sites() =~= Set::<Site>::empty());
    }
}

} // verus!
