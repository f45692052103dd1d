//! The persistent form of an index.
use vstd::prelude::*;

use crate::definition::{Definition, DefinitionView, Lookup};
use crate::index_model::{IndexView, Occurrence, StoredReference};
use crate::symbol_index::lookup::{is_table_of, list_table, table_of, TableRows};
use crate::symbol_index::{new_sites, note_row, note_symbol, place_in, SymbolIndex};
use crate::table::{Interner, NameNumber, Table};

verus! {

/// The references of one symbol.
pub struct ReferenceRows {
    pub symbol: String,
    pub rows: Vec<StoredReference>,
}

/// The occurrences in one file.
pub struct OccurrenceRows {
    pub path: String,
    pub rows: Vec<Occurrence>,
}

/// An index as it is persisted: what [`IndexView`] lists, and the tables by which
/// definitions are looked up, so that reading it needs neither a shard nor
/// another table.
pub struct IndexSnapshot {
    pub definitions: Vec<Definition>,
    /// Lowercased short name to definition positions.
    pub by_name: Vec<TableRows>,
    /// Symbol string to the position of its first definition.
    pub by_symbol: Vec<TableRows>,
    pub references: Vec<ReferenceRows>,
    pub reference_paths: Vec<String>,
    /// Supertype symbol to the positions of the definitions implementing it.
    pub implementors: Vec<TableRows>,
    /// File path to the positions of the definitions it contains.
    pub by_path: Vec<TableRows>,
    pub occurrences: Vec<OccurrenceRows>,
    pub symbol_names: Vec<String>,
    /// Symbol string to its number.
    pub symbol_ids: Vec<NameNumber>,
    pub shards: usize,
}

/// The view of an [`IndexSnapshot`].
#[verifier::ext_equal]
pub struct SnapshotView {
    pub definitions: Seq<DefinitionView>,
    pub by_name: Seq<(Seq<char>, Seq<usize>)>,
    pub by_symbol: Seq<(Seq<char>, Seq<usize>)>,
    pub references: Seq<(Seq<char>, Seq<StoredReference>)>,
    pub reference_paths: Seq<Seq<char>>,
    pub implementors: Seq<(Seq<char>, Seq<usize>)>,
    pub by_path: Seq<(Seq<char>, Seq<usize>)>,
    pub occurrences: Seq<(Seq<char>, Seq<Occurrence>)>,
    pub symbol_names: Seq<Seq<char>>,
    pub symbol_ids: Seq<(Seq<char>, usize)>,
    pub shards: int,
}

impl View for IndexSnapshot {
    type V = SnapshotView;

    open spec fn view(&self) -> SnapshotView {
        SnapshotView {
            definitions: crate::definition::definition_views(self.definitions@),
            by_name: crate::symbol_index::lookup::row_views(self.by_name@),
            by_symbol: crate::symbol_index::lookup::row_views(self.by_symbol@),
            references: Seq::new(
                self.references@.len(),
                |i: int| (self.references@[i].symbol@, self.references@[i].rows@),
            ),
            reference_paths: crate::text::texts(self.reference_paths@),
            implementors: crate::symbol_index::lookup::row_views(self.implementors@),
            by_path: crate::symbol_index::lookup::row_views(self.by_path@),
            occurrences: Seq::new(
                self.occurrences@.len(),
                |i: int| (self.occurrences@[i].path@, self.occurrences@[i].rows@),
            ),
            symbol_names: crate::text::texts(self.symbol_names@),
            symbol_ids: crate::table::number_views(self.symbol_ids@),
            shards: self.shards as int,
        }
    }
}

/// Why a snapshot is not that of an index.
#[derive(Copy, Clone, Debug, PartialEq, Eq, Structural)]
pub enum SnapshotError {
    /// A reference has a path id that numbers no path.
    InvalidReferencePath,
}

/// Whether every reference has the number of a path.
pub open spec fn references_valid(snapshot: SnapshotView) -> bool {
    forall|i: int, j: int|
        #![trigger snapshot.references[i].1[j]]
        0 <= i < snapshot.references.len() && 0 <= j < snapshot.references[i].1.len()
            ==> snapshot.references[i].1[j].path < snapshot.reference_paths.len()
}

/// `row` with the references of `added` in it, each once.
pub open spec fn with_sites(
    row: Seq<StoredReference>,
    added: Seq<StoredReference>,
) -> Seq<StoredReference>
    decreases added.len(),
{
    if added.len() == 0 {
        row
    } else {
        crate::index_model::with_site(with_sites(row, added.drop_last()), added.last())
    }
}

/// `row` with the occurrences of `added` in their places, each once.
pub open spec fn with_placed(row: Seq<Occurrence>, added: Seq<Occurrence>) -> Seq<Occurrence>
    decreases added.len(),
{
    if added.len() == 0 {
        row
    } else {
        crate::index_model::placed(with_placed(row, added.drop_last()), added.last())
    }
}

/// The references that a snapshot lists, by symbol, without repetitions.
pub open spec fn restored_references(
    references: Seq<(Seq<char>, Seq<StoredReference>)>,
) -> Map<Seq<char>, Seq<StoredReference>>
    decreases references.len(),
{
    if references.len() == 0 {
        Map::empty()
    } else {
        let before = restored_references(references.drop_last());
        let (symbol, rows) = references.last();
        before.insert(symbol, with_sites(crate::table::row_of(before, symbol), rows))
    }
}

/// The occurrences that a snapshot lists, by path, in file order and without
/// repetitions.
pub open spec fn restored_occurrences(
    occurrences: Seq<(Seq<char>, Seq<Occurrence>)>,
) -> Map<Seq<char>, Seq<Occurrence>>
    decreases occurrences.len(),
{
    if occurrences.len() == 0 {
        Map::empty()
    } else {
        let before = restored_occurrences(occurrences.drop_last());
        let (path, rows) = occurrences.last();
        before.insert(path, with_placed(crate::table::row_of(before, path), rows))
    }
}

/// What is read from a snapshot: all that it says, but for the rows that it
/// repeats.
pub open spec fn restored(snapshot: SnapshotView) -> IndexView {
    IndexView {
        definitions: snapshot.definitions,
        references: restored_references(snapshot.references),
        reference_paths: snapshot.reference_paths,
        occurrences: restored_occurrences(snapshot.occurrences),
        symbol_names: snapshot.symbol_names,
        shards: snapshot.shards,
    }
}

/// The tables by which an index looks things up.
#[verifier::ext_equal]
pub struct LookupTables {
    pub by_name: Map<Seq<char>, Seq<usize>>,
    pub by_symbol: Map<Seq<char>, Seq<usize>>,
    pub implementors: Map<Seq<char>, Seq<usize>>,
    pub by_path: Map<Seq<char>, Seq<usize>>,
    pub symbol_ids: Map<Seq<char>, usize>,
}

/// The tables that a snapshot lists.
pub open spec fn restored_tables(snapshot: SnapshotView) -> LookupTables {
    LookupTables {
        by_name: crate::symbol_index::lookup::tabled(snapshot.by_name),
        by_symbol: crate::symbol_index::lookup::tabled(snapshot.by_symbol),
        implementors: crate::symbol_index::lookup::tabled(snapshot.implementors),
        by_path: crate::symbol_index::lookup::tabled(snapshot.by_path),
        symbol_ids: crate::table::numbering(snapshot.symbol_ids),
    }
}

/// Whether tables are those of an index.
pub open spec fn are_tables_of(tables: LookupTables, index: IndexView) -> bool {
    &&& crate::symbol_index::lookup::is_lookup(tables.by_name, index.definitions, Lookup::Name)
    &&& crate::symbol_index::lookup::is_lookup(tables.by_symbol, index.definitions, Lookup::Symbol)
    &&& crate::symbol_index::lookup::is_lookup(
        tables.implementors,
        index.definitions,
        Lookup::Supertype,
    )
    &&& crate::symbol_index::lookup::is_lookup(tables.by_path, index.definitions, Lookup::Path)
    &&& crate::table::numbers_names(tables.symbol_ids, index.symbol_names)
}

/// Whether what is read from a snapshot does not contradict itself: its tables
/// are those of what it lists, no name is numbered twice, and every number in a
/// row was given. Snapshots that were written are like that.
pub open spec fn is_consistent(snapshot: SnapshotView) -> bool {
    &&& are_tables_of(restored_tables(snapshot), restored(snapshot))
    &&& crate::index_model::sound_rows(restored(snapshot))
}

/// Whether `pairs` lists the rows of `rows`, each key once.
pub open spec fn lists_rows<T>(
    pairs: Seq<(Seq<char>, Seq<T>)>,
    rows: Map<Seq<char>, Seq<T>>,
) -> bool {
    &&& forall|i: int, j: int|
        0 <= i < j < pairs.len() ==> (#[trigger] pairs[i]).0 != (#[trigger] pairs[j]).0
    &&& forall|i: int|
        0 <= i < pairs.len() ==> rows.contains_key((#[trigger] pairs[i]).0) && rows[pairs[i].0]
            == pairs[i].1
    &&& forall|key: Seq<char>| #[trigger]
        rows.contains_key(key) ==> exists|i: int|
            0 <= i < pairs.len() && (#[trigger] pairs[i]).0 == key
}

proof fn lemma_lists_order<T>(table: &Table<T>, pairs: Seq<(Seq<char>, Seq<T>)>)
    requires
        table.wf(),
        pairs.len() == table.order().len(),
        forall|k: int|
            0 <= k < pairs.len() ==> (#[trigger] pairs[k]).0 == table.order()[k] && pairs[k].1
                == table@[table.order()[k]],
    ensures
        lists_rows(pairs, table@),
{
    table.lemma_order();
    assert forall|i: int| 0 <= i < pairs.len() implies table@.contains_key((#[trigger] pairs[i]).0)
        && table@[pairs[i].0] == pairs[i].1 by {
        assert(table.order().contains(table.order()[i]));
    }
    assert forall|key: Seq<char>| #[trigger] table@.contains_key(key) implies exists|i: int|
        0 <= i < pairs.len() && (#[trigger] pairs[i]).0 == key by {
        assert(table.order().contains(key));
        let i = choose|i: int| 0 <= i < table.order().len() && table.order()[i] == key;
        assert(pairs[i].0 == key);
    }
}

/// Whether the tables of a snapshot are those of its definitions.
pub open spec fn has_tables(snapshot: SnapshotView) -> bool {
    &&& crate::symbol_index::lookup::lists_lookup(
        snapshot.by_name,
        snapshot.definitions,
        Lookup::Name,
    )
    &&& crate::symbol_index::lookup::lists_lookup(
        snapshot.by_symbol,
        snapshot.definitions,
        Lookup::Symbol,
    )
    &&& crate::symbol_index::lookup::lists_lookup(
        snapshot.implementors,
        snapshot.definitions,
        Lookup::Supertype,
    )
    &&& crate::symbol_index::lookup::lists_lookup(
        snapshot.by_path,
        snapshot.definitions,
        Lookup::Path,
    )
}

/// Whether `snapshot` is one of `index`.
pub open spec fn is_snapshot_of(snapshot: SnapshotView, index: IndexView) -> bool {
    &&& snapshot.definitions == index.definitions
    &&& has_tables(snapshot)
    &&& crate::table::numbers_names(
        crate::table::numbering(snapshot.symbol_ids),
        snapshot.symbol_names,
    )
    &&& lists_rows(snapshot.references, index.references)
    &&& snapshot.reference_paths == index.reference_paths
    &&& lists_rows(snapshot.occurrences, index.occurrences)
    &&& snapshot.symbol_names == index.symbol_names
    &&& snapshot.shards == index.shards
}

proof fn lemma_sites_of_distinct(row: Seq<StoredReference>)
    requires
        row.no_duplicates(),
    ensures
        with_sites(Seq::empty(), row) == row,
    decreases row.len(),
{
    if row.len() > 0 {
        let head = row.drop_last();
        lemma_sites_of_distinct(head);
        assert(!head.contains(row.last())) by {
            if head.contains(row.last()) {
                let k = choose|k: int| 0 <= k < head.len() && head[k] == row.last();
                assert(row[k] == row[row.len() - 1]);
            }
        }
        assert(head.push(row.last()) =~= row);
    } else {
        assert(row =~= Seq::empty());
    }
}

proof fn lemma_placed_in_order(row: Seq<Occurrence>)
    requires
        crate::index_model::in_file_order(row),
    ensures
        with_placed(Seq::empty(), row) == row,
    decreases row.len(),
{
    if row.len() > 0 {
        let head = row.drop_last();
        assert forall|i: int, j: int| 0 <= i < j < head.len() implies #[trigger]
            crate::index_model::occurrence_before(head[i], head[j]) by {
            assert(crate::index_model::occurrence_before(row[i], row[j]));
        }
        lemma_placed_in_order(head);
        assert forall|k: int| 0 <= k < head.len() implies crate::index_model::occurrence_before(
            #[trigger] head[k],
            row.last(),
        ) by {
            assert(crate::index_model::occurrence_before(row[k], row[row.len() - 1]));
        }
        crate::index_model::lemma_placed(head, row.last(), head.len() as int);
        assert(head.insert(head.len() as int, row.last()) =~= row);
    } else {
        assert(row =~= Seq::empty());
    }
}

proof fn lemma_listed_references(
    pairs: Seq<(Seq<char>, Seq<StoredReference>)>,
    rows: Map<Seq<char>, Seq<StoredReference>>,
)
    requires
        lists_rows(pairs, rows),
        forall|key: Seq<char>|
            #![trigger rows[key]]
            rows.contains_key(key) ==> rows[key].no_duplicates(),
    ensures
        restored_references(pairs) == rows,
    decreases pairs.len(),
{
    if pairs.len() == 0 {
        assert(rows =~= Map::empty()) by {
            assert forall|key: Seq<char>| !rows.contains_key(key) by {
                if rows.contains_key(key) {
                    let i = choose|i: int| 0 <= i < pairs.len() && (#[trigger] pairs[i]).0 == key;
                }
            }
        }
    } else {
        let head = pairs.drop_last();
        let (key, row) = pairs.last();
        let fewer = rows.remove(key);
        assert(pairs[pairs.len() - 1] == pairs.last());
        assert(lists_rows(head, fewer)) by {
            assert forall|i: int| 0 <= i < head.len() implies fewer.contains_key(
                (#[trigger] head[i]).0,
            ) && fewer[head[i].0] == head[i].1 by {
                assert(head[i] == pairs[i]);
                assert(pairs[i].0 != pairs[pairs.len() - 1].0);
            }
            assert forall|i: int, j: int| 0 <= i < j < head.len() implies (#[trigger] head[i]).0
                != (#[trigger] head[j]).0 by {
                assert(pairs[i].0 != pairs[j].0);
            }
            assert forall|k: Seq<char>| #[trigger] fewer.contains_key(k) implies exists|i: int|
                0 <= i < head.len() && (#[trigger] head[i]).0 == k by {
                let i = choose|i: int| 0 <= i < pairs.len() && (#[trigger] pairs[i]).0 == k;
                assert(head[i].0 == k);
            }
        }
        assert forall|k: Seq<char>|
            #![trigger fewer[k]]
            fewer.contains_key(k) implies fewer[k].no_duplicates() by {
            assert(rows[k] == fewer[k]);
        }
        lemma_listed_references(head, fewer);
        assert(rows[key].no_duplicates());
        lemma_sites_of_distinct(row);
        assert(fewer.insert(key, row) =~= rows);
    }
}

proof fn lemma_listed_occurrences(
    pairs: Seq<(Seq<char>, Seq<Occurrence>)>,
    rows: Map<Seq<char>, Seq<Occurrence>>,
)
    requires
        lists_rows(pairs, rows),
        forall|key: Seq<char>|
            #![trigger rows[key]]
            rows.contains_key(key) ==> crate::index_model::in_file_order(rows[key]),
    ensures
        restored_occurrences(pairs) == rows,
    decreases pairs.len(),
{
    if pairs.len() == 0 {
        assert(rows =~= Map::empty()) by {
            assert forall|key: Seq<char>| !rows.contains_key(key) by {
                if rows.contains_key(key) {
                    let i = choose|i: int| 0 <= i < pairs.len() && (#[trigger] pairs[i]).0 == key;
                }
            }
        }
    } else {
        let head = pairs.drop_last();
        let (key, row) = pairs.last();
        let fewer = rows.remove(key);
        assert(pairs[pairs.len() - 1] == pairs.last());
        assert(lists_rows(head, fewer)) by {
            assert forall|i: int| 0 <= i < head.len() implies fewer.contains_key(
                (#[trigger] head[i]).0,
            ) && fewer[head[i].0] == head[i].1 by {
                assert(head[i] == pairs[i]);
                assert(pairs[i].0 != pairs[pairs.len() - 1].0);
            }
            assert forall|i: int, j: int| 0 <= i < j < head.len() implies (#[trigger] head[i]).0
                != (#[trigger] head[j]).0 by {
                assert(pairs[i].0 != pairs[j].0);
            }
            assert forall|k: Seq<char>| #[trigger] fewer.contains_key(k) implies exists|i: int|
                0 <= i < head.len() && (#[trigger] head[i]).0 == k by {
                let i = choose|i: int| 0 <= i < pairs.len() && (#[trigger] pairs[i]).0 == k;
                assert(head[i].0 == k);
            }
        }
        assert forall|k: Seq<char>|
            #![trigger fewer[k]]
            fewer.contains_key(k) implies crate::index_model::in_file_order(fewer[k]) by {
            assert(rows[k] == fewer[k]);
        }
        lemma_listed_occurrences(head, fewer);
        assert(crate::index_model::in_file_order(rows[key]));
        lemma_placed_in_order(row);
        assert(fewer.insert(key, row) =~= rows);
    }
}

/// A snapshot of readable rows is valid, and reading it gives them back.
pub proof fn lemma_reads_back(index: IndexView, snapshot: SnapshotView)
    requires
        crate::index_model::sound_rows(index),
        is_snapshot_of(snapshot, index),
    ensures
        references_valid(snapshot),
        restored(snapshot) == index,
        is_consistent(snapshot),
{
    assert forall|i: int, j: int|
        #![trigger snapshot.references[i].1[j]]
        0 <= i < snapshot.references.len() && 0 <= j
            < snapshot.references[i].1.len() implies snapshot.references[i].1[j].path
        < snapshot.reference_paths.len() by {
        let symbol = snapshot.references[i].0;
        assert(index.references[symbol][j] == snapshot.references[i].1[j]);
    }
    lemma_listed_references(snapshot.references, index.references);
    lemma_listed_occurrences(snapshot.occurrences, index.occurrences);
    crate::symbol_index::lookup::lemma_listing(
        snapshot.by_name,
        snapshot.definitions,
        Lookup::Name,
    );
    crate::symbol_index::lookup::lemma_listing(
        snapshot.by_symbol,
        snapshot.definitions,
        Lookup::Symbol,
    );
    crate::symbol_index::lookup::lemma_listing(
        snapshot.implementors,
        snapshot.definitions,
        Lookup::Supertype,
    );
    crate::symbol_index::lookup::lemma_listing(
        snapshot.by_path,
        snapshot.definitions,
        Lookup::Path,
    );
    assert(restored(snapshot) =~= index);
}

/// A snapshot of an index can be read, does not contradict itself, and gives the
/// index back.
pub proof fn a_snapshot_reads_back(index: &SymbolIndex, snapshot: SnapshotView)
    requires
        index.wf(),
        is_snapshot_of(snapshot, index@),
    ensures
        references_valid(snapshot),
        is_consistent(snapshot),
        restored(snapshot) == index@,
{
    index.lemma_sound_rows();
    lemma_reads_back(index@, snapshot);
}

/// Rows to which sites are added stay without repetitions.
proof fn lemma_with_sites(row: Seq<StoredReference>, added: Seq<StoredReference>)
    requires
        row.no_duplicates(),
    ensures
        with_sites(row, added).no_duplicates(),
    decreases added.len(),
{
    if added.len() > 0 {
        lemma_with_sites(row, added.drop_last());
    }
}

/// Rows into which occurrences are put stay in file order.
proof fn lemma_with_placed(row: Seq<Occurrence>, added: Seq<Occurrence>)
    requires
        crate::index_model::in_file_order(row),
    ensures
        crate::index_model::in_file_order(with_placed(row, added)),
    decreases added.len(),
{
    if added.len() > 0 {
        lemma_with_placed(row, added.drop_last());
        crate::index_model::lemma_placed_order(
            with_placed(row, added.drop_last()),
            added.last(),
        );
    }
}

/// Computes [`restored_references`].
fn gather_references(listed: &Vec<ReferenceRows>) -> (table: Table<StoredReference>)
    ensures
        table.wf(),
        table@ == restored_references(
            Seq::new(listed@.len(), |i: int| (listed@[i].symbol@, listed@[i].rows@)),
        ),
        forall|symbol: Seq<char>|
            #![trigger table@[symbol]]
            table@.contains_key(symbol) ==> table@[symbol].no_duplicates(),
{
    let ghost pairs = Seq::new(listed@.len(), |i: int| (listed@[i].symbol@, listed@[i].rows@));
    let mut table: Table<StoredReference> = Table::new();
    let mut sites = new_sites();
    let mut i: usize = 0;
    proof {
        assert(pairs.take(0) =~= Seq::empty());
    }
    while i < listed.len()
        invariant
            pairs == Seq::new(listed@.len(), |i: int| (listed@[i].symbol@, listed@[i].rows@)),
            i <= listed@.len(),
            table.wf(),
            crate::symbol_index::are_sites_of(sites, table),
            table@ == restored_references(pairs.take(i as int)),
            forall|symbol: Seq<char>|
                #![trigger table@[symbol]]
                table@.contains_key(symbol) ==> table@[symbol].no_duplicates(),
        decreases listed@.len() - i,
    {
        let symbol = listed[i].symbol.as_str();
        let rows = &listed[i].rows;
        let ghost before = table@;
        let ghost row = crate::table::row_of(before, symbol@);
        let _ = note_symbol(&mut table, &sites, symbol);
        let mut k: usize = 0;
        assert(rows@.take(0) =~= Seq::empty());
        while k < rows.len()
            invariant
                k <= rows@.len(),
                table.wf(),
                crate::symbol_index::are_sites_of(sites, table),
                row == crate::table::row_of(before, symbol@),
                table@ == before.insert(symbol@, with_sites(row, rows@.take(k as int))),
            decreases rows@.len() - k,
        {
            proof {
                assert(rows@.take(k + 1).drop_last() =~= rows@.take(k as int));
                assert(rows@.take(k + 1).last() == rows@[k as int]);
            }
            note_row(&mut table, &mut sites, symbol, rows[k]);
            assert(table@ =~= before.insert(symbol@, with_sites(row, rows@.take(k + 1))));
            k += 1;
        }
        proof {
            assert(rows@.take(k as int) =~= rows@);
            assert(pairs.take(i + 1).drop_last() =~= pairs.take(i as int));
            assert(pairs.take(i + 1).last() == pairs[i as int]);
            assert(row.no_duplicates());
            lemma_with_sites(row, rows@);
        }
        i += 1;
    }
    assert(pairs.take(i as int) =~= pairs);
    table
}

/// Computes [`restored_occurrences`].
fn gather_occurrences(listed: &Vec<OccurrenceRows>) -> (table: Table<Occurrence>)
    ensures
        table.wf(),
        table@ == restored_occurrences(
            Seq::new(listed@.len(), |i: int| (listed@[i].path@, listed@[i].rows@)),
        ),
        forall|path: Seq<char>|
            #![trigger table@[path]]
            table@.contains_key(path) ==> crate::index_model::in_file_order(table@[path]),
{
    let ghost pairs = Seq::new(listed@.len(), |i: int| (listed@[i].path@, listed@[i].rows@));
    let mut table: Table<Occurrence> = Table::new();
    let mut i: usize = 0;
    proof {
        assert(pairs.take(0) =~= Seq::empty());
    }
    while i < listed.len()
        invariant
            pairs == Seq::new(listed@.len(), |i: int| (listed@[i].path@, listed@[i].rows@)),
            i <= listed@.len(),
            table.wf(),
            table@ == restored_occurrences(pairs.take(i as int)),
            forall|path: Seq<char>|
                #![trigger table@[path]]
                table@.contains_key(path) ==> crate::index_model::in_file_order(table@[path]),
        decreases listed@.len() - i,
    {
        let path = listed[i].path.as_str();
        let rows = &listed[i].rows;
        let ghost before = table@;
        let ghost row = crate::table::row_of(before, path@);
        proof {
            assert(crate::index_model::in_file_order(row));
        }
        let _ = table.intern(path);
        let mut k: usize = 0;
        assert(rows@.take(0) =~= Seq::empty());
        while k < rows.len()
            invariant
                k <= rows@.len(),
                table.wf(),
                row == crate::table::row_of(before, path@),
                crate::index_model::in_file_order(row),
                table@ == before.insert(path@, with_placed(row, rows@.take(k as int))),
            decreases rows@.len() - k,
        {
            proof {
                assert(rows@.take(k + 1).drop_last() =~= rows@.take(k as int));
                assert(rows@.take(k + 1).last() == rows@[k as int]);
                lemma_with_placed(row, rows@.take(k as int));
            }
            place_in(&mut table, path, rows[k]);
            assert(table@ =~= before.insert(path@, with_placed(row, rows@.take(k + 1))));
            k += 1;
        }
        proof {
            assert(rows@.take(k as int) =~= rows@);
            assert(pairs.take(i + 1).drop_last() =~= pairs.take(i as int));
            assert(pairs.take(i + 1).last() == pairs[i as int]);
            lemma_with_placed(row, rows@);
        }
        i += 1;
    }
    assert(pairs.take(i as int) =~= pairs);
    table
}

impl IndexSnapshot {
    /// Whether every reference has the number of a path.
    fn has_valid_references(&self) -> (valid: bool)
        ensures
            valid == references_valid(self@),
    {
        let n: usize = self.reference_paths.len();
        let mut i: usize = 0;
        while i < self.references.len()
            invariant
                n == self@.reference_paths.len(),
                i <= self.references@.len(),
                forall|a: int, j: int|
                    #![trigger self@.references[a].1[j]]
                    0 <= a < i && 0 <= j < self@.references[a].1.len()
                        ==> self@.references[a].1[j].path < n,
            decreases self.references@.len() - i,
        {
            let rows = &self.references[i].rows;
            assert(self@.references[i as int].1 == rows@);
            let mut j: usize = 0;
            while j < rows.len()
                invariant
                    n == self@.reference_paths.len(),
                    i < self.references@.len(),
                    self@.references[i as int].1 == rows@,
                    j <= rows@.len(),
                    forall|k: int| 0 <= k < j ==> (#[trigger] rows@[k]).path < n,
                decreases rows@.len() - j,
            {
                if rows[j].path as usize >= n {
                    assert(self@.references[i as int].1[j as int].path >= n);
                    return false;
                }
                j += 1;
            }
            i += 1;
        }
        true
    }
}

impl SymbolIndex {
    /// What to persist of the index, so that reading it back needs no shard.
    pub fn to_snapshot(&self) -> (snapshot: IndexSnapshot)
        requires
            self.wf(),
        ensures
            is_snapshot_of(snapshot@, self@),
    {
        let mut definitions: Vec<Definition> = Vec::new();
        let mut i: usize = 0;
        while i < self.definitions.len()
            invariant
                i <= self.definitions@.len(),
                crate::definition::definition_views(definitions@) == self@.definitions.take(
                    i as int,
                ),
                definitions@.len() == i,
            decreases self.definitions@.len() - i,
        {
            let ghost before = definitions@;
            let definition = self.definitions[i].copy();
            definitions.push(definition);
            assert(crate::definition::definition_views(definitions@)
                =~= crate::definition::definition_views(before).push(definition@));
            assert(self@.definitions.take(i + 1) =~= self@.definitions.take(i as int).push(
                self.definitions@[i as int]@,
            ));
            i += 1;
        }
        assert(self@.definitions.take(i as int) =~= self@.definitions);
        let mut references: Vec<ReferenceRows> = Vec::new();
        let mut i: usize = 0;
        while i < self.references.len()
            invariant
                self.references.wf(),
                i <= self.references.order().len(),
                references@.len() == i,
                forall|k: int|
                    0 <= k < i ==> (#[trigger] references@[k]).symbol@
                        == self.references.order()[k] && references@[k].rows@
                        == self.references@[self.references.order()[k]],
            decreases self.references.order().len() - i,
        {
            let row = self.references.row_at(i);
            let mut rows: Vec<StoredReference> = Vec::new();
            let mut j: usize = 0;
            while j < row.len()
                invariant
                    j <= row@.len(),
                    rows@ == row@.take(j as int),
                decreases row@.len() - j,
            {
                rows.push(row[j]);
                assert(row@.take(j + 1) =~= row@.take(j as int).push(row@[j as int]));
                j += 1;
            }
            assert(row@.take(j as int) =~= row@);
            references.push(ReferenceRows { symbol: self.references.key(i).to_owned(), rows });
            i += 1;
        }
        let mut occurrences: Vec<OccurrenceRows> = Vec::new();
        let mut i: usize = 0;
        while i < self.occurrences.len()
            invariant
                self.occurrences.wf(),
                i <= self.occurrences.order().len(),
                occurrences@.len() == i,
                forall|k: int|
                    0 <= k < i ==> (#[trigger] occurrences@[k]).path@
                        == self.occurrences.order()[k] && occurrences@[k].rows@
                        == self.occurrences@[self.occurrences.order()[k]],
            decreases self.occurrences.order().len() - i,
        {
            let row = self.occurrences.row_at(i);
            let mut rows: Vec<Occurrence> = Vec::new();
            let mut j: usize = 0;
            while j < row.len()
                invariant
                    j <= row@.len(),
                    rows@ == row@.take(j as int),
                decreases row@.len() - j,
            {
                rows.push(row[j]);
                assert(row@.take(j + 1) =~= row@.take(j as int).push(row@[j as int]));
                j += 1;
            }
            assert(row@.take(j as int) =~= row@);
            occurrences.push(OccurrenceRows { path: self.occurrences.key(i).to_owned(), rows });
            i += 1;
        }
        let ghost views = self@.definitions;
        let by_name = list_table(&self.by_name, Ghost(views), Ghost(Lookup::Name));
        let by_symbol = list_table(&self.by_symbol, Ghost(views), Ghost(Lookup::Symbol));
        let implementors = list_table(&self.implementors, Ghost(views), Ghost(Lookup::Supertype));
        let by_path = list_table(&self.by_path, Ghost(views), Ghost(Lookup::Path));
        let snapshot = IndexSnapshot {
            definitions,
            by_name,
            by_symbol,
            references,
            reference_paths: self.reference_paths.names(),
            implementors,
            by_path,
            occurrences,
            symbol_names: self.symbol_names.names(),
            symbol_ids: self.symbol_names.name_numbers(),
            shards: self.shards,
        };
        proof {
            self.symbol_names.lemma_distinct();
            crate::table::lemma_positions(self.symbol_names@);
            lemma_lists_order(&self.references, snapshot@.references);
            lemma_lists_order(&self.occurrences, snapshot@.occurrences);
        }
        snapshot
    }

    /// The index that a snapshot stands for.
    ///
    /// Nothing is built that it lists: its tables are taken as they are. Rows that
    /// it repeats are taken once. A snapshot with a reference to a path that it
    /// does not give is refused.
    pub fn from_snapshot(snapshot: IndexSnapshot) -> (index: Result<SymbolIndex, SnapshotError>)
        ensures
            match index {
                Ok(index) => {
                    &&& references_valid(snapshot@)
                    &&& index.readable()
                    &&& index@ == restored(snapshot@)
                    &&& index.tables() == restored_tables(snapshot@)
                    &&& index.wf() == is_consistent(snapshot@)
                },
                Err(SnapshotError::InvalidReferencePath) => !references_valid(snapshot@),
            },
    {
        if !snapshot.has_valid_references() {
            return Err(SnapshotError::InvalidReferencePath);
        }
        let ghost given = snapshot@;
        let references = gather_references(&snapshot.references);
        let occurrences = gather_occurrences(&snapshot.occurrences);
        let index = SymbolIndex {
            definitions: snapshot.definitions,
            by_name: table_of(snapshot.by_name),
            by_symbol: table_of(snapshot.by_symbol),
            implementors: table_of(snapshot.implementors),
            by_path: table_of(snapshot.by_path),
            references,
            reference_paths: Interner::positioned(snapshot.reference_paths),
            reference_sites: new_sites(),
            sites_complete: false,
            occurrences,
            symbol_names: Interner::listed(snapshot.symbol_names, &snapshot.symbol_ids),
            shards: snapshot.shards,
        };
        proof {
            assert(index@ =~= restored(given));
            assert(index.tables() =~= restored_tables(given));
            crate::table::lemma_numbering(given.symbol_ids);
            crate::table::lemma_numbering(crate::table::positions(given.reference_paths));
            index.reference_paths.lemma_wf();
            index.symbol_names.lemma_wf();
            crate::table::lemma_positions(given.reference_paths);
        }
        Ok(index)
    }

    /// The tables by which things are looked up.
    pub closed spec fn tables(&self) -> LookupTables {
        LookupTables {
            by_name: self.by_name@,
            by_symbol: self.by_symbol@,
            implementors: self.implementors@,
            by_path: self.by_path@,
            symbol_ids: self.symbol_names.numbers(),
        }
    }

    /// An index that keeps its rules can be walked.
    pub proof fn lemma_readable(&self)
        requires
            self.wf(),
        ensures
            self.readable(),
    {
        self.reference_paths.lemma_finite();
        self.symbol_names.lemma_finite();
    }

    /// Whether the index does not contradict itself. One that was read from a
    /// snapshot that nobody wrote may, and cannot be queried.
    pub fn is_sound(&self) -> (sound: bool)
        requires
            self.readable(),
        ensures
            sound == self.wf(),
    {
        if !self.reference_paths.keeps_rules() || !self.symbol_names.keeps_rules() {
            return false;
        }
        proof {
            self.reference_paths.lemma_distinct();
            self.symbol_names.lemma_distinct();
        }
        is_table_of(&self.by_name, &self.definitions, Lookup::Name) && is_table_of(
            &self.by_symbol,
            &self.definitions,
            Lookup::Symbol,
        ) && is_table_of(&self.implementors, &self.definitions, Lookup::Supertype) && is_table_of(
            &self.by_path,
            &self.definitions,
            Lookup::Path,
        ) && self.numbers_paths() && self.numbers_symbols()
    }

    /// Whether every reference has the number of a path.
    fn numbers_paths(&self) -> (all: bool)
        requires
            self.references.wf(),
        ensures
            all == forall|symbol: Seq<char>, i: int|
                #![trigger self@.references[symbol][i]]
                self@.references.contains_key(symbol) && 0 <= i < self@.references[symbol].len()
                    ==> self@.references[symbol][i].path < self@.reference_paths.len(),
    {
        let ghost order = self.references.order();
        let n: usize = self.reference_paths.len();
        proof {
            self.references.lemma_order();
        }
        let mut s: usize = 0;
        while s < self.references.len()
            invariant
                self.references.wf(),
                order == self.references.order(),
                n == self@.reference_paths.len(),
                s <= order.len(),
                forall|a: int, i: int|
                    #![trigger self@.references[order[a]][i]]
                    0 <= a < s && 0 <= i < self@.references[order[a]].len()
                        ==> self@.references[order[a]][i].path < n,
            decreases order.len() - s,
        {
            let row = self.references.row_at(s);
            let mut k: usize = 0;
            while k < row.len()
                invariant
                    k <= row@.len(),
                    s < order.len(),
                    n == self@.reference_paths.len(),
                    self@.references.contains_key(order[s as int]),
                    row@ == self@.references[order[s as int]],
                    forall|i: int| 0 <= i < k ==> (#[trigger] row@[i]).path < n,
                decreases row@.len() - k,
            {
                if row[k].path as usize >= n {
                    assert(self@.references[order[s as int]][k as int].path >= n);
                    return false;
                }
                k += 1;
            }
            s += 1;
        }
        proof {
            assert forall|symbol: Seq<char>, i: int|
                #![trigger self@.references[symbol][i]]
                self@.references.contains_key(symbol) && 0 <= i
                    < self@.references[symbol].len() implies self@.references[symbol][i].path
                < self@.reference_paths.len() by {
                assert(order.contains(symbol));
                let a = choose|a: int| 0 <= a < order.len() && order[a] == symbol;
                assert(self@.references[order[a]][i].path < n);
            }
        }
        true
    }

    /// Whether every occurrence has the number of a symbol.
    fn numbers_symbols(&self) -> (all: bool)
        requires
            self.occurrences.wf(),
        ensures
            all == forall|path: Seq<char>, i: int|
                #![trigger self@.occurrences[path][i]]
                self@.occurrences.contains_key(path) && 0 <= i < self@.occurrences[path].len()
                    ==> self@.occurrences[path][i].symbol < self@.symbol_names.len(),
    {
        let ghost order = self.occurrences.order();
        let n: usize = self.symbol_names.len();
        proof {
            self.occurrences.lemma_order();
        }
        let mut s: usize = 0;
        while s < self.occurrences.len()
            invariant
                self.occurrences.wf(),
                order == self.occurrences.order(),
                n == self@.symbol_names.len(),
                s <= order.len(),
                forall|a: int, i: int|
                    #![trigger self@.occurrences[order[a]][i]]
                    0 <= a < s && 0 <= i < self@.occurrences[order[a]].len()
                        ==> self@.occurrences[order[a]][i].symbol < n,
            decreases order.len() - s,
        {
            let row = self.occurrences.row_at(s);
            let mut k: usize = 0;
            while k < row.len()
                invariant
                    k <= row@.len(),
                    s < order.len(),
                    n == self@.symbol_names.len(),
                    self@.occurrences.contains_key(order[s as int]),
                    row@ == self@.occurrences[order[s as int]],
                    forall|i: int| 0 <= i < k ==> (#[trigger] row@[i]).symbol < n,
                decreases row@.len() - k,
            {
                if row[k].symbol >= n {
                    assert(self@.occurrences[order[s as int]][k as int].symbol >= n);
                    return false;
                }
                k += 1;
            }
            s += 1;
        }
        proof {
            assert forall|path: Seq<char>, i: int|
                #![trigger self@.occurrences[path][i]]
                self@.occurrences.contains_key(path) && 0 <= i
                    < self@.occurrences[path].len() implies self@.occurrences[path][i].symbol
                < self@.symbol_names.len() by {
                assert(order.contains(path));
                let a = choose|a: int| 0 <= a < order.len() && order[a] == path;
                assert(self@.occurrences[order[a]][i].symbol < n);
            }
        }
        true
    }
}

} // verus!
