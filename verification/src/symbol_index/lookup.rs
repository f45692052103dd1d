//! The tables by which definitions are looked up.
//!
//! They follow from the definitions. A snapshot lists them nevertheless, and
//! reading it takes them as they are. Whether they are those of the definitions
//! can be asked.
use vstd::prelude::*;

use crate::definition::{Definition, DefinitionView, Lookup};
use crate::table::Table;
use crate::text::lower;

verus! {

/// Whether a table has the rows that a lookup gives.
pub open spec fn is_lookup(
    table: Map<Seq<char>, Seq<usize>>,
    definitions: Seq<DefinitionView>,
    lookup: Lookup,
) -> bool {
    forall|key: Seq<char>| #[trigger]
        crate::table::row_of(table, key) == crate::definition::looked_up(definitions, lookup, key)
}

/// The rows that a table has for one key.
pub struct TableRows {
    pub key: String,
    pub rows: Vec<usize>,
}

/// The keys of a table, with their rows.
pub open spec fn row_views(rows: Seq<TableRows>) -> Seq<(Seq<char>, Seq<usize>)> {
    Seq::new(rows.len(), |i: int| (rows[i].key@, rows[i].rows@))
}

/// Whether `pairs` lists the rows that a lookup gives, each key once.
pub open spec fn lists_lookup(
    pairs: Seq<(Seq<char>, Seq<usize>)>,
    definitions: Seq<DefinitionView>,
    lookup: Lookup,
) -> bool {
    &&& forall|i: int, j: int|
        0 <= i < j < pairs.len() ==> (#[trigger] pairs[i]).0 != (#[trigger] pairs[j]).0
    &&& forall|i: int|
        0 <= i < pairs.len() ==> (#[trigger] pairs[i]).1 == crate::definition::looked_up(
            definitions,
            lookup,
            pairs[i].0,
        )
    &&& forall|key: Seq<char>|
        (#[trigger] crate::definition::looked_up(definitions, lookup, key)).len() > 0
            ==> exists|i: int| 0 <= i < pairs.len() && (#[trigger] pairs[i]).0 == key
}

/// Lists the rows of a table.
pub(crate) fn list_table(
    table: &Table<usize>,
    definitions: Ghost<Seq<DefinitionView>>,
    lookup: Ghost<Lookup>,
) -> (out: Vec<TableRows>)
    requires
        table.wf(),
        is_lookup(table@, definitions@, lookup@),
    ensures
        lists_lookup(row_views(out@), definitions@, lookup@),
{
    let mut out: Vec<TableRows> = Vec::new();
    let mut i: usize = 0;
    while i < table.len()
        invariant
            table.wf(),
            i <= table.order().len(),
            out@.len() == i,
            forall|k: int|
                0 <= k < i ==> (#[trigger] out@[k]).key@ == table.order()[k] && out@[k].rows@
                    == table@[table.order()[k]],
        decreases table.order().len() - i,
    {
        let row = table.row_at(i);
        let mut rows: Vec<usize> = Vec::new();
        let mut j: usize = 0;
        while j < row.len()
            invariant
                j <= row@.len(),
                rows@ == row@.take(j as int),
            decreases row@.len() - j,
        {
            rows.push(row[j]);
            assert(row@.take(j + 1) =~= row@.take(j as int).push(row@[j as int]));
            j += 1;
        }
        assert(row@.take(j as int) =~= row@);
        out.push(TableRows { key: table.key(i).to_owned(), rows });
        i += 1;
    }
    proof {
        let pairs = row_views(out@);
        table.lemma_order();
        assert forall|k: int| 0 <= k < pairs.len() implies (#[trigger] pairs[k]).1
            == crate::definition::looked_up(definitions@, lookup@, pairs[k].0) by {
            assert(table.order().contains(table.order()[k]));
            assert(out@[k].key@ == table.order()[k]);
            assert(crate::table::row_of(table@, pairs[k].0) == pairs[k].1);
        }
        assert forall|a: int, b: int| 0 <= a < b < pairs.len() implies (#[trigger] pairs[a]).0
            != (#[trigger] pairs[b]).0 by {
            assert(out@[a].key@ == table.order()[a]);
            assert(out@[b].key@ == table.order()[b]);
        }
        assert forall|key: Seq<char>|
            (#[trigger] crate::definition::looked_up(definitions@, lookup@, key)).len()
                > 0 implies exists|k: int| 0 <= k < pairs.len() && (#[trigger] pairs[k]).0 == key by {
            assert(crate::table::row_of(table@, key).len() > 0);
            assert(table.order().contains(key));
            let k = choose|k: int| 0 <= k < table.order().len() && table.order()[k] == key;
            assert(out@[k].key@ == table.order()[k]);
            assert(pairs[k].0 == key);
        }
    }
    out
}

/// The table that a list stands for: what it has for a key, one after the other.
pub open spec fn tabled(pairs: Seq<(Seq<char>, Seq<usize>)>) -> Map<Seq<char>, Seq<usize>>
    decreases pairs.len(),
{
    if pairs.len() == 0 {
        Map::empty()
    } else {
        let before = tabled(pairs.drop_last());
        let (key, rows) = pairs.last();
        before.insert(key, crate::table::row_of(before, key) + rows)
    }
}

/// Computes [`tabled`].
pub(crate) fn table_of(listed: Vec<TableRows>) -> (table: Table<usize>)
    ensures
        table.wf(),
        table@ == tabled(row_views(listed@)),
{
    let ghost all = row_views(listed@);
    let mut rest = listed;
    let n: usize = rest.len();
    let mut table: Table<usize> = Table::new();
    let mut i: usize = 0;
    assert(all.take(0) =~= Seq::empty());
    while i < n
        invariant
            i <= n,
            n == rest@.len(),
            n == all.len(),
            forall|k: int| i <= k < n ==> (#[trigger] rest@[k]).key@ == all[k].0,
            forall|k: int| i <= k < n ==> (#[trigger] rest@[k]).rows@ == all[k].1,
            table.wf(),
            table@ == tabled(all.take(i as int)),
        decreases n - i,
    {
        let mut entry = TableRows { key: String::new(), rows: Vec::new() };
        std::mem::swap(&mut entry, &mut rest[i]);
        proof {
            assert(all.take(i + 1).drop_last() =~= all.take(i as int));
            assert(all.take(i + 1).last() == all[i as int]);
        }
        table.extend(&entry.key, entry.rows);
        i += 1;
    }
    assert(all.take(i as int) =~= all);
    table
}

/// A list that has each key once lists the rows of its table.
proof fn lemma_tabled(pairs: Seq<(Seq<char>, Seq<usize>)>)
    requires
        forall|i: int, j: int|
            0 <= i < j < pairs.len() ==> (#[trigger] pairs[i]).0 != (#[trigger] pairs[j]).0,
    ensures
        crate::symbol_index::snapshot::lists_rows(pairs, tabled(pairs)),
    decreases pairs.len(),
{
    let table = tabled(pairs);
    if pairs.len() > 0 {
        let head = pairs.drop_last();
        let before = tabled(head);
        let n = pairs.len() - 1;
        assert forall|i: int, j: int| 0 <= i < j < head.len() implies (#[trigger] head[i]).0 != (
        #[trigger] head[j]).0 by {
            assert(pairs[i].0 != pairs[j].0);
        }
        lemma_tabled(head);
        assert(pairs.last() == pairs[n]);
        assert(!before.contains_key(pairs[n].0)) by {
            if before.contains_key(pairs[n].0) {
                let i = choose|i: int| 0 <= i < head.len() && (#[trigger] head[i]).0 == pairs[n].0;
                assert(pairs[i].0 != pairs[n].0);
            }
        }
        assert(Seq::<usize>::empty() + pairs[n].1 =~= pairs[n].1);
        assert forall|i: int| 0 <= i < pairs.len() implies table.contains_key(
            (#[trigger] pairs[i]).0,
        ) && table[pairs[i].0] == pairs[i].1 by {
            if i < n {
                assert(head[i] == pairs[i]);
                assert(pairs[i].0 != pairs[n].0);
            }
        }
        assert forall|key: Seq<char>| #[trigger] table.contains_key(key) implies exists|i: int|
            0 <= i < pairs.len() && (#[trigger] pairs[i]).0 == key by {
            if key == pairs[n].0 {
            } else {
                assert(before.contains_key(key));
                let i = choose|i: int| 0 <= i < head.len() && (#[trigger] head[i]).0 == key;
                assert(pairs[i].0 == key);
            }
        }
    }
}

/// Whether a sequence begins with another.
spec fn begins(rows: Seq<usize>, start: Seq<usize>) -> bool {
    start.len() <= rows.len() && rows.take(start.len() as int) == start
}

/// Whether the rows of a table begin with the wanted ones.
spec fn fits(
    table: Map<Seq<char>, Seq<usize>>,
    wanted: spec_fn(Seq<char>) -> Seq<usize>,
) -> bool {
    forall|key: Seq<char>| begins(#[trigger] crate::table::row_of(table, key), wanted(key))
}

/// Whether the rows of a table, up to the position in `upto` for each key, are
/// the wanted ones, and no row is wanted of a key that it has not.
spec fn compared(
    table: Table<usize>,
    upto: Seq<usize>,
    wanted: spec_fn(Seq<char>) -> Seq<usize>,
) -> bool {
    &&& upto.len() == table.order().len()
    &&& forall|s: int|
        0 <= s < upto.len() ==> #[trigger] upto[s] <= table@[table.order()[s]].len()
            && table@[table.order()[s]].take(upto[s] as int) == wanted(table.order()[s])
    &&& forall|key: Seq<char>| !#[trigger] table@.contains_key(key) ==> wanted(key).len() == 0
}

/// What is wanted once `row` is wanted of `cell` too.
spec fn with_wanted(
    wanted: spec_fn(Seq<char>) -> Seq<usize>,
    cell: Seq<char>,
    row: usize,
) -> spec_fn(Seq<char>) -> Seq<usize> {
    |key: Seq<char>|
        if key == cell {
            wanted(key).push(row)
        } else {
            wanted(key)
        }
}

proof fn lemma_compared(
    table: Table<usize>,
    upto: Seq<usize>,
    a: spec_fn(Seq<char>) -> Seq<usize>,
    b: spec_fn(Seq<char>) -> Seq<usize>,
)
    requires
        compared(table, upto, a),
        forall|key: Seq<char>| #[trigger] a(key) == b(key),
    ensures
        compared(table, upto, b),
{
    assert forall|s: int| 0 <= s < upto.len() implies #[trigger] upto[s]
        <= table@[table.order()[s]].len() && table@[table.order()[s]].take(upto[s] as int)
        == b(table.order()[s]) by {
        assert(a(table.order()[s]) == b(table.order()[s]));
    }
    assert forall|key: Seq<char>| !#[trigger] table@.contains_key(key) implies b(key).len()
        == 0 by {
        assert(a(key) == b(key));
    }
}

proof fn lemma_settled(
    table: Table<usize>,
    upto: Seq<usize>,
    a: spec_fn(Seq<char>) -> Seq<usize>,
    b: spec_fn(Seq<char>) -> Seq<usize>,
    same: bool,
)
    requires
        same ==> compared(table, upto, a),
        !same ==> !fits(table@, a),
        forall|key: Seq<char>| #[trigger] a(key) == b(key),
    ensures
        same ==> compared(table, upto, b),
        !same ==> !fits(table@, b),
{
    if same {
        lemma_compared(table, upto, a, b);
    } else if fits(table@, b) {
        assert forall|key: Seq<char>|
            begins(#[trigger] crate::table::row_of(table@, key), a(key)) by {
            assert(a(key) == b(key));
        }
    }
}

/// Whether the next row of `cell` is `row`. If so, it has been compared.
fn compare(
    table: &Table<usize>,
    upto: &mut Vec<usize>,
    wanted: Ghost<spec_fn(Seq<char>) -> Seq<usize>>,
    cell: &str,
    row: usize,
) -> (same: bool)
    requires
        table.wf(),
        compared(*table, old(upto)@, wanted@),
    ensures
        same ==> compared(*table, final(upto)@, with_wanted(wanted@, cell@, row)),
        !same ==> !fits(table@, with_wanted(wanted@, cell@, row)),
{
    let ghost held = crate::table::row_of(table@, cell@);
    let slot: usize = match table.position(cell) {
        Some(slot) => slot,
        None => {
            assert(!begins(held, with_wanted(wanted@, cell@, row)(cell@)));
            return false;
        },
    };
    let rows = table.row_at(slot);
    let next: usize = upto[slot];
    if next >= rows.len() || rows[next] != row {
        proof {
            let more = with_wanted(wanted@, cell@, row)(cell@);
            assert(more.len() == next + 1);
            assert(more[next as int] == row);
            if begins(held, more) {
                assert(held.take(more.len() as int)[next as int] == row);
            }
        }
        return false;
    }
    upto.set(slot, next + 1);
    proof {
        let more = with_wanted(wanted@, cell@, row);
        table.lemma_order();
        assert(rows@.take(next + 1) =~= rows@.take(next as int).push(row));
        assert forall|s: int| 0 <= s < upto@.len() implies #[trigger] upto@[s]
            <= table@[table.order()[s]].len() && table@[table.order()[s]].take(upto@[s] as int)
            == more(table.order()[s]) by {
            assert(old(upto)@[s] <= table@[table.order()[s]].len());
            if s != slot {
                assert(table.order()[s] != table.order()[slot as int]);
            }
        }
    }
    true
}

/// What is wanted of a table for the first `n` definitions.
spec fn wanted_for(
    definitions: Seq<DefinitionView>,
    n: int,
    lookup: Lookup,
) -> spec_fn(Seq<char>) -> Seq<usize> {
    |key: Seq<char>| crate::definition::looked_up(definitions.take(n), lookup, key)
}

/// What is wanted of a table by supertype for the first `n` definitions and the
/// first `k` supertypes of the next.
spec fn wanted_implementors(
    definitions: Seq<DefinitionView>,
    n: int,
    k: int,
) -> spec_fn(Seq<char>) -> Seq<usize> {
    |key: Seq<char>|
        crate::definition::implementor_rows(definitions.take(n), key)
            + crate::definition::row_copies(n as usize, definitions[n].implements.take(k), key)
}

proof fn lemma_begins(a: Seq<usize>, b: Seq<usize>, c: Seq<usize>)
    requires
        begins(b, a),
        begins(c, b),
    ensures
        begins(c, a),
{
    assert(c.take(a.len() as int) =~= c.take(b.len() as int).take(a.len() as int));
}

/// The rows for the first definitions begin those for one more.
proof fn lemma_lookup_step(
    definitions: Seq<DefinitionView>,
    n: int,
    lookup: Lookup,
    key: Seq<char>,
)
    requires
        0 <= n < definitions.len(),
    ensures
        begins(
            crate::definition::looked_up(definitions.take(n + 1), lookup, key),
            crate::definition::looked_up(definitions.take(n), lookup, key),
        ),
{
    let a = crate::definition::looked_up(definitions.take(n), lookup, key);
    let b = crate::definition::looked_up(definitions.take(n + 1), lookup, key);
    assert(definitions.take(n + 1).drop_last() =~= definitions.take(n));
    assert(b.take(a.len() as int) =~= a);
}

/// The rows for the first definitions begin those for all of them.
proof fn lemma_lookup_grows(
    definitions: Seq<DefinitionView>,
    n: int,
    lookup: Lookup,
    key: Seq<char>,
)
    requires
        0 <= n <= definitions.len(),
    ensures
        begins(
            crate::definition::looked_up(definitions, lookup, key),
            crate::definition::looked_up(definitions.take(n), lookup, key),
        ),
    decreases definitions.len() - n,
{
    let all = crate::definition::looked_up(definitions, lookup, key);
    if n == definitions.len() {
        assert(definitions.take(n) =~= definitions);
        assert(all.take(all.len() as int) =~= all);
    } else {
        lemma_lookup_step(definitions, n, lookup, key);
        lemma_lookup_grows(definitions, n + 1, lookup, key);
        lemma_begins(
            crate::definition::looked_up(definitions.take(n), lookup, key),
            crate::definition::looked_up(definitions.take(n + 1), lookup, key),
            all,
        );
    }
}

/// The copies for the first names begin those for all of them.
proof fn lemma_copies_grow(row: usize, names: Seq<Seq<char>>, k: int, key: Seq<char>)
    requires
        0 <= k <= names.len(),
    ensures
        begins(
            crate::definition::row_copies(row, names, key),
            crate::definition::row_copies(row, names.take(k), key),
        ),
    decreases names.len(),
{
    let all = crate::definition::row_copies(row, names, key);
    if k == names.len() {
        assert(names.take(k) =~= names);
        assert(all.take(all.len() as int) =~= all);
    } else {
        let head = names.drop_last();
        let rest = crate::definition::row_copies(row, head, key);
        lemma_copies_grow(row, head, k, key);
        assert(head.take(k) =~= names.take(k));
        assert(all.take(rest.len() as int) =~= rest);
        lemma_begins(crate::definition::row_copies(row, names.take(k), key), rest, all);
    }
}

/// The rows for some supertypes of a definition begin those for all of them.
proof fn lemma_implementors_grow(
    definitions: Seq<DefinitionView>,
    n: int,
    k: int,
    key: Seq<char>,
)
    requires
        0 <= n < definitions.len(),
        0 <= k <= definitions[n].implements.len(),
    ensures
        begins(
            crate::definition::implementor_rows(definitions.take(n + 1), key),
            wanted_implementors(definitions, n, k)(key),
        ),
{
    let names = definitions[n].implements;
    let before = crate::definition::implementor_rows(definitions.take(n), key);
    let some = crate::definition::row_copies(n as usize, names.take(k), key);
    let all = crate::definition::row_copies(n as usize, names, key);
    lemma_copies_grow(n as usize, names, k, key);
    assert(definitions.take(n + 1).drop_last() =~= definitions.take(n));
    assert(definitions.take(n + 1).last() == definitions[n]);
    assert((before + all).take((before + some).len() as int) =~= before + all.take(
        some.len() as int,
    ));
}

/// Whether the next rows of the supertypes of the definition at `i` are `i`.
fn compare_supertypes(
    table: &Table<usize>,
    upto: &mut Vec<usize>,
    definitions: &Vec<Definition>,
    i: usize,
) -> (same: bool)
    requires
        table.wf(),
        i < definitions@.len(),
        compared(
            *table,
            old(upto)@,
            wanted_for(
                crate::definition::definition_views(definitions@),
                i as int,
                Lookup::Supertype,
            ),
        ),
    ensures
        same ==> compared(
            *table,
            final(upto)@,
            wanted_for(
                crate::definition::definition_views(definitions@),
                i + 1,
                Lookup::Supertype,
            ),
        ),
        !same ==> !fits(
            table@,
            wanted_for(
                crate::definition::definition_views(definitions@),
                i + 1,
                Lookup::Supertype,
            ),
        ),
{
    let ghost views = crate::definition::definition_views(definitions@);
    let list = &definitions[i].implements;
    let ghost names = views[i as int].implements;
    proof {
        let a = wanted_for(views, i as int, Lookup::Supertype);
        let b = wanted_implementors(views, i as int, 0);
        assert forall|key: Seq<char>| #[trigger] a(key) == b(key) by {
            assert(names.take(0) =~= Seq::empty());
            assert(a(key) =~= b(key));
        }
        lemma_compared(*table, upto@, a, b);
    }
    let mut k: usize = 0;
    while k < list.len()
        invariant
            table.wf(),
            i < definitions@.len(),
            views == crate::definition::definition_views(definitions@),
            names == views[i as int].implements,
            names == crate::text::texts(list@),
            k <= list@.len(),
            compared(*table, upto@, wanted_implementors(views, i as int, k as int)),
        decreases list@.len() - k,
    {
        let ghost before = wanted_implementors(views, i as int, k as int);
        let same = compare(table, upto, Ghost(before), &list[k], i);
        proof {
            let cell = list@[k as int]@;
            let a = with_wanted(before, cell, i);
            let b = wanted_implementors(views, i as int, k + 1);
            let all = wanted_for(views, i + 1, Lookup::Supertype);
            assert(names.take(k + 1).drop_last() =~= names.take(k as int));
            assert(names.take(k + 1).last() == cell);
            assert forall|key: Seq<char>| #[trigger] a(key) == b(key) by {
                assert(a(key) =~= b(key));
            }
            if same {
                lemma_compared(*table, upto@, a, b);
            } else if fits(table@, all) {
                assert forall|key: Seq<char>|
                    begins(#[trigger] crate::table::row_of(table@, key), a(key)) by {
                    lemma_implementors_grow(views, i as int, k + 1, key);
                    assert(a(key) == b(key));
                    lemma_begins(a(key), all(key), crate::table::row_of(table@, key));
                }
            }
        }
        if !same {
            return false;
        }
        k += 1;
    }
    proof {
        let a = wanted_implementors(views, i as int, k as int);
        let b = wanted_for(views, i + 1, Lookup::Supertype);
        assert(names.take(k as int) =~= names);
        assert(views.take(i + 1).drop_last() =~= views.take(i as int));
        assert(views.take(i + 1).last() == views[i as int]);
        assert forall|key: Seq<char>| #[trigger] a(key) == b(key) by {}
        lemma_compared(*table, upto@, a, b);
    }
    true
}

/// Whether the next rows of the definition at `i` are `i`.
fn compare_definition(
    table: &Table<usize>,
    upto: &mut Vec<usize>,
    definitions: &Vec<Definition>,
    i: usize,
    lookup: Lookup,
) -> (same: bool)
    requires
        table.wf(),
        i < definitions@.len(),
        compared(
            *table,
            old(upto)@,
            wanted_for(crate::definition::definition_views(definitions@), i as int, lookup),
        ),
    ensures
        same ==> compared(
            *table,
            final(upto)@,
            wanted_for(crate::definition::definition_views(definitions@), i + 1, lookup),
        ),
        !same ==> !fits(
            table@,
            wanted_for(crate::definition::definition_views(definitions@), i + 1, lookup),
        ),
{
    let ghost views = crate::definition::definition_views(definitions@);
    let definition = &definitions[i];
    let ghost before = wanted_for(views, i as int, lookup);
    let ghost after = wanted_for(views, i + 1, lookup);
    proof {
        assert(views.take(i + 1).drop_last() =~= views.take(i as int));
        assert(views.take(i + 1).last() == definition@);
    }
    match lookup {
        Lookup::Name => {
            let name = lower(&definition.name);
            let same = compare(table, upto, Ghost(before), &name, i);
            proof {
                let a = with_wanted(before, name@, i);
                assert forall|key: Seq<char>| #[trigger] a(key) == after(key) by {}
                lemma_settled(*table, upto@, a, after, same);
            }
            same
        },
        Lookup::Path => {
            let same = compare(table, upto, Ghost(before), &definition.path, i);
            proof {
                let a = with_wanted(before, definition.path@, i);
                assert forall|key: Seq<char>| #[trigger] a(key) == after(key) by {}
                lemma_settled(*table, upto@, a, after, same);
            }
            same
        },
        Lookup::Supertype => compare_supertypes(table, upto, definitions, i),
        Lookup::Symbol => {
            let slot: usize = match table.position(&definition.symbol) {
                Some(slot) => slot,
                None => {
                    proof {
                        let symbol = definition.symbol@;
                        assert(after(symbol).len() > 0);
                        assert(!begins(crate::table::row_of(table@, symbol), after(symbol)));
                    }
                    return false;
                },
            };
            let is_known = upto[slot] > 0;
            let same = is_known || compare(table, upto, Ghost(before), &definition.symbol, i);
            proof {
                let symbol = definition.symbol@;
                let a = if is_known {
                    before
                } else {
                    with_wanted(before, symbol, i)
                };
                assert(old(upto)@[slot as int] <= table@[table.order()[slot as int]].len());
                assert(before(symbol).len() == old(upto)@[slot as int]);
                assert forall|key: Seq<char>| #[trigger] a(key) == after(key) by {
                    assert(a(key) =~= after(key));
                }
                lemma_settled(*table, upto@, a, after, same);
            }
            same
        },
    }
}

/// A table of the definitions fits the first of them.
proof fn lemma_fits(
    table: Map<Seq<char>, Seq<usize>>,
    definitions: Seq<DefinitionView>,
    n: int,
    lookup: Lookup,
)
    requires
        0 <= n <= definitions.len(),
        is_lookup(table, definitions, lookup),
    ensures
        fits(table, wanted_for(definitions, n, lookup)),
{
    assert forall|key: Seq<char>|
        begins(
            #[trigger] crate::table::row_of(table, key),
            wanted_for(definitions, n, lookup)(key),
        ) by {
        lemma_lookup_grows(definitions, n, lookup, key);
    }
}

/// Whether a table is that of the definitions.
pub(crate) fn is_table_of(table: &Table<usize>, definitions: &Vec<Definition>, lookup: Lookup) -> (same: bool)
    requires
        table.wf(),
    ensures
        same == is_lookup(
            table@,
            crate::definition::definition_views(definitions@),
            lookup,
        ),
{
    let ghost views = crate::definition::definition_views(definitions@);
    let mut upto: Vec<usize> = Vec::new();
    let n: usize = table.len();
    while upto.len() < n
        invariant
            n == table.order().len(),
            upto@.len() <= n,
            forall|s: int| 0 <= s < upto@.len() ==> #[trigger] upto@[s] == 0,
        decreases n - upto@.len(),
    {
        upto.push(0);
    }
    proof {
        assert(views.take(0) =~= Seq::empty());
        let wanted = wanted_for(views, 0, lookup);
        assert forall|key: Seq<char>| #[trigger] wanted(key).len() == 0 by {}
        assert forall|s: int| 0 <= s < upto@.len() implies #[trigger] upto@[s]
            <= table@[table.order()[s]].len() && table@[table.order()[s]].take(upto@[s] as int)
            == wanted(table.order()[s]) by {
            assert(table@[table.order()[s]].take(0) =~= wanted(table.order()[s]));
        }
        assert(compared(*table, upto@, wanted));
    }
    let mut i: usize = 0;
    while i < definitions.len()
        invariant
            table.wf(),
            views == crate::definition::definition_views(definitions@),
            i <= definitions@.len(),
            compared(*table, upto@, wanted_for(views, i as int, lookup)),
        decreases definitions@.len() - i,
    {
        if !compare_definition(table, &mut upto, definitions, i, lookup) {
            proof {
                if is_lookup(table@, views, lookup) {
                    lemma_fits(table@, views, i + 1, lookup);
                }
            }
            return false;
        }
        i += 1;
    }
    let mut s: usize = 0;
    while s < n
        invariant
            table.wf(),
            n == table.order().len(),
            upto@.len() == n,
            s <= n,
            i == definitions@.len(),
            views == crate::definition::definition_views(definitions@),
            compared(*table, upto@, wanted_for(views, i as int, lookup)),
            forall|k: int|
                0 <= k < s ==> #[trigger] upto@[k] == table@[table.order()[k]].len(),
        decreases n - s,
    {
        if upto[s] != table.row_at(s).len() {
            proof {
                let key = table.order()[s as int];
                assert(views.take(i as int) =~= views);
                assert(crate::table::row_of(table@, key) == table@[key]);
                assert(wanted_for(views, i as int, lookup)(key).len() == upto@[s as int]);
            }
            return false;
        }
        s += 1;
    }
    proof {
        let wanted = wanted_for(views, i as int, lookup);
        assert(views.take(i as int) =~= views);
        table.lemma_order();
        assert forall|key: Seq<char>| #[trigger] crate::table::row_of(table@, key)
            == crate::definition::looked_up(views, lookup, key) by {
            if table@.contains_key(key) {
                assert(table.order().contains(key));
                let k = choose|k: int| 0 <= k < table.order().len() && table.order()[k] == key;
                assert(upto@[k] == table@[key].len());
                assert(table@[key].take(upto@[k] as int) =~= table@[key]);
            } else {
                assert(wanted(key).len() == 0);
                assert(crate::table::row_of(table@, key) =~= wanted(key));
            }
        }
    }
    true
}

/// The table of a list of what a lookup gives is that of the lookup.
pub proof fn lemma_listing(
    pairs: Seq<(Seq<char>, Seq<usize>)>,
    definitions: Seq<DefinitionView>,
    lookup: Lookup,
)
    requires
        lists_lookup(pairs, definitions, lookup),
    ensures
        is_lookup(tabled(pairs), definitions, lookup),
{
    let table = tabled(pairs);
    lemma_tabled(pairs);
    assert forall|key: Seq<char>| #[trigger] crate::table::row_of(table, key)
        == crate::definition::looked_up(definitions, lookup, key) by {
        let given = crate::definition::looked_up(definitions, lookup, key);
        if table.contains_key(key) {
            let i = choose|i: int| 0 <= i < pairs.len() && (#[trigger] pairs[i]).0 == key;
            assert(table[pairs[i].0] == pairs[i].1);
        } else {
            if given.len() > 0 {
                let i = choose|i: int| 0 <= i < pairs.len() && (#[trigger] pairs[i]).0 == key;
                assert(table.contains_key(pairs[i].0));
            }
            assert(given =~= Seq::empty());
        }
    }
}

} // verus!
