//! Definition sites and the tables that find them.
use vstd::prelude::*;

use crate::span::{PositionEncoding, Range};

verus! {

/// What kind of thing a symbol is. A narrowing of SCIP's much longer list to
/// what a Java client can act on.
#[derive(Copy, Clone, Debug, PartialEq, Eq, Structural)]
pub enum SymbolKind {
    Class,
    Interface,
    Enum,
    Method,
    Constructor,
    Field,
    Other,
}

impl SymbolKind {
    /// The kind that SCIP's number for it stands for.
    pub open spec fn numbered(number: i32) -> SymbolKind {
        if number == 7 {
            SymbolKind::Class
        } else if number == 21 {
            SymbolKind::Interface
        } else if number == 11 {
            SymbolKind::Enum
        } else if number == 26 || number == 80 || number == 66 {
            SymbolKind::Method
        } else if number == 9 {
            SymbolKind::Constructor
        } else if number == 15 || number == 79 || number == 12 {
            SymbolKind::Field
        } else {
            SymbolKind::Other
        }
    }

    /// Narrows SCIP's number for a kind: methods, static methods and abstract
    /// methods are methods, and fields, static fields and enum members fields.
    pub fn from_scip(number: i32) -> (kind: SymbolKind)
        ensures
            kind == SymbolKind::numbered(number),
    {
        match number {
            7 => SymbolKind::Class,
            21 => SymbolKind::Interface,
            11 => SymbolKind::Enum,
            26 | 80 | 66 => SymbolKind::Method,
            9 => SymbolKind::Constructor,
            15 | 79 | 12 => SymbolKind::Field,
            _ => SymbolKind::Other,
        }
    }
}

/// A symbol's definition site.
#[derive(Debug)]
pub struct Definition {
    /// The SCIP symbol string. Globally unique, and the key everything joins on.
    pub symbol: String,
    /// The short name a human searches for: `RetryPolicy`, `checkNotNull`.
    pub name: String,
    pub kind: SymbolKind,
    /// Workspace-relative path of the defining file.
    pub path: String,
    pub range: Range,
    pub encoding: PositionEncoding,
    /// Symbols this one implements or extends.
    pub implements: Vec<String>,
    /// Javadoc, if the indexer captured any.
    pub documentation: Vec<String>,
    /// The signature as it should be shown in a tooltip, e.g.
    /// `public boolean shouldRetry(int, Throwable)`. Empty when the indexer
    /// did not record one.
    pub signature: String,
    /// The span of the whole declaration, not just its name: the class body,
    /// the method including its body.
    ///
    /// Absent for symbols the indexer did not scope, and for anything whose
    /// declaration is its name. Used to nest symbols in `documentSymbol`.
    pub enclosing: Option<Range>,
}

impl Definition {
    /// A copy of the definition.
    pub fn copy(&self) -> (out: Definition)
        ensures
            out@ == self@,
    {
        Definition {
            symbol: self.symbol.clone(),
            name: self.name.clone(),
            kind: self.kind,
            path: self.path.clone(),
            range: self.range,
            encoding: self.encoding,
            implements: crate::text::copy_texts(&self.implements),
            documentation: crate::text::copy_texts(&self.documentation),
            signature: self.signature.clone(),
            enclosing: self.enclosing,
        }
    }
}

/// The view of a [`Definition`].
#[verifier::ext_equal]
pub struct DefinitionView {
    pub symbol: Seq<char>,
    pub name: Seq<char>,
    pub kind: SymbolKind,
    pub path: Seq<char>,
    pub range: Range,
    pub encoding: PositionEncoding,
    pub implements: Seq<Seq<char>>,
    pub documentation: Seq<Seq<char>>,
    pub signature: Seq<char>,
    pub enclosing: Option<Range>,
}

impl View for Definition {
    type V = DefinitionView;

    open spec fn view(&self) -> DefinitionView {
        DefinitionView {
            symbol: self.symbol@,
            name: self.name@,
            kind: self.kind,
            path: self.path@,
            range: self.range,
            encoding: self.encoding,
            implements: crate::text::texts(self.implements@),
            documentation: crate::text::texts(self.documentation@),
            signature: self.signature@,
            enclosing: self.enclosing,
        }
    }
}

/// The views of a sequence of definitions.
pub open spec fn definition_views(definitions: Seq<Definition>) -> Seq<DefinitionView> {
    Seq::new(definitions.len(), |i: int| definitions[i]@)
}

/// What a lookup table keys definitions by.
pub enum Column {
    /// The path of the defining file.
    Path,
    /// The short name in lower case, for case-insensitive search.
    Name,
    /// The symbol string.
    Symbol,
}

/// What stands in a column for one definition.
pub open spec fn cell(definition: DefinitionView, column: Column) -> Seq<char> {
    match column {
        Column::Path => definition.path,
        Column::Name => crate::text::lowercased(definition.name),
        Column::Symbol => definition.symbol,
    }
}

/// The positions of the definitions that have `key` in `column`, in order.
pub open spec fn rows_for(
    definitions: Seq<DefinitionView>,
    column: Column,
    key: Seq<char>,
) -> Seq<usize>
    decreases definitions.len(),
{
    if definitions.len() == 0 {
        Seq::empty()
    } else {
        let rest = rows_for(definitions.drop_last(), column, key);
        if cell(definitions.last(), column) == key {
            rest.push((definitions.len() - 1) as usize)
        } else {
            rest
        }
    }
}

/// `row`, once for every time that `list` names `key`.
pub open spec fn row_copies(row: usize, list: Seq<Seq<char>>, key: Seq<char>) -> Seq<usize>
    decreases list.len(),
{
    if list.len() == 0 {
        Seq::empty()
    } else if list.last() == key {
        row_copies(row, list.drop_last(), key).push(row)
    } else {
        row_copies(row, list.drop_last(), key)
    }
}

/// The positions of the definitions that declare `key` as a supertype, in
/// order, each once for every time it does.
pub open spec fn implementor_rows(
    definitions: Seq<DefinitionView>,
    key: Seq<char>,
) -> Seq<usize>
    decreases definitions.len(),
{
    if definitions.len() == 0 {
        Seq::empty()
    } else {
        implementor_rows(definitions.drop_last(), key) + row_copies(
            (definitions.len() - 1) as usize,
            definitions.last().implements,
            key,
        )
    }
}

/// A table by which definitions are looked up.
#[derive(Copy, Clone, Debug, PartialEq, Eq, Structural)]
pub enum Lookup {
    /// By short name in lower case, for case-insensitive search.
    Name,
    /// By symbol string; the first definition alone.
    Symbol,
    /// By a supertype that is declared.
    Supertype,
    /// By the path of the defining file.
    Path,
}

/// The first of some rows, if there is one.
pub open spec fn first_row(rows: Seq<usize>) -> Seq<usize> {
    if rows.len() == 0 {
        rows
    } else {
        rows.take(1)
    }
}

/// The positions of the definitions that a table has for `key`.
pub open spec fn looked_up(
    definitions: Seq<DefinitionView>,
    lookup: Lookup,
    key: Seq<char>,
) -> Seq<usize> {
    match lookup {
        Lookup::Name => rows_for(definitions, Column::Name, key),
        Lookup::Symbol => first_row(rows_for(definitions, Column::Symbol, key)),
        Lookup::Supertype => implementor_rows(definitions, key),
        Lookup::Path => rows_for(definitions, Column::Path, key),
    }
}

/// What [`rows_for`] lists: the definitions with the key, each once, in order.
pub proof fn lemma_rows_for(definitions: Seq<DefinitionView>, column: Column, key: Seq<char>)
    requires
        definitions.len() <= usize::MAX,
    ensures
        ({
            let rows = rows_for(definitions, column, key);
            &&& forall|k: int|
                0 <= k < rows.len() ==> #[trigger] rows[k] < definitions.len() && cell(
                    definitions[rows[k] as int],
                    column,
                ) == key
            &&& forall|i: int|
                0 <= i < definitions.len() && cell(#[trigger] definitions[i], column) == key
                    ==> rows.contains(i as usize)
            &&& forall|j: int, k: int| 0 <= j < k < rows.len() ==> rows[j] < rows[k]
        }),
    decreases definitions.len(),
{
    if definitions.len() > 0 {
        let head = definitions.drop_last();
        lemma_rows_for(head, column, key);
        let rest = rows_for(head, column, key);
        let rows = rows_for(definitions, column, key);
        assert forall|k: int| 0 <= k < rows.len() implies #[trigger] rows[k] < definitions.len()
            && cell(definitions[rows[k] as int], column) == key by {
            if k < rest.len() {
                assert(rest[k] < head.len());
                assert(head[rest[k] as int] == definitions[rest[k] as int]);
            }
        }
        assert forall|i: int|
            0 <= i < definitions.len() && cell(#[trigger] definitions[i], column)
                == key implies rows.contains(i as usize) by {
            if i < head.len() {
                assert(head[i] == definitions[i]);
                assert(rest.contains(i as usize));
                let k = choose|k: int| 0 <= k < rest.len() && rest[k] == i as usize;
                assert(rows[k] == i as usize);
            } else {
                assert(rows[rows.len() - 1] == i as usize);
            }
        }
    }
}

/// Every position that [`implementor_rows`] lists is that of a definition that
/// declares the supertype.
pub proof fn lemma_implementor_rows(definitions: Seq<DefinitionView>, key: Seq<char>)
    requires
        definitions.len() <= usize::MAX,
    ensures
        forall|k: int|
            0 <= k < implementor_rows(definitions, key).len() ==> #[trigger] implementor_rows(
                definitions,
                key,
            )[k] < definitions.len() && definitions[implementor_rows(
                definitions,
                key,
            )[k] as int].implements.contains(key),
    decreases definitions.len(),
{
    if definitions.len() > 0 {
        let head = definitions.drop_last();
        let row = (definitions.len() - 1) as usize;
        lemma_implementor_rows(head, key);
        lemma_row_copies(row, definitions.last().implements, key);
        let rest = implementor_rows(head, key);
        let rows = implementor_rows(definitions, key);
        assert forall|k: int| 0 <= k < rows.len() implies #[trigger] rows[k] < definitions.len()
            && definitions[rows[k] as int].implements.contains(key) by {
            if k < rest.len() {
                assert(rest[k] < head.len());
                assert(head[rest[k] as int] == definitions[rest[k] as int]);
            } else {
                let copies = row_copies(row, definitions.last().implements, key);
                assert(rows[k] == copies[k - rest.len()]);
            }
        }
    }
}

proof fn lemma_row_copies(row: usize, list: Seq<Seq<char>>, key: Seq<char>)
    ensures
        forall|k: int|
            0 <= k < row_copies(row, list, key).len() ==> #[trigger] row_copies(row, list, key)[k]
                == row,
        row_copies(row, list, key).len() > 0 ==> list.contains(key),
    decreases list.len(),
{
    if list.len() > 0 {
        lemma_row_copies(row, list.drop_last(), key);
        if list.last() == key {
            assert(list[list.len() - 1] == key);
        } else if row_copies(row, list.drop_last(), key).len() > 0 {
            let k = choose|k: int| 0 <= k < list.drop_last().len() && list.drop_last()[k] == key;
            assert(list[k] == key);
        }
    }
}

/// A kind is read from the number that SCIP gives it.
pub proof fn kinds_are_read_from_their_number(number: i32, kind: SymbolKind)
    requires
        call_ensures(SymbolKind::from_scip, (number,), kind),
    ensures
        kind is Class <==> number == 7,
        kind is Constructor <==> number == 9,
        kind is Enum <==> number == 11,
        kind is Interface <==> number == 21,
        kind is Method <==> number == 26 || number == 66 || number == 80,
        kind is Field <==> number == 12 || number == 15 || number == 79,
{
    crate::index_laws::shards::kinds_are_numbered(number);
}

} // verus!
