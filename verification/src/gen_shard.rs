//! Synthetic SCIP shards, so that a benchmark can be tried end to end without
//! Bazel, a JDK, or `scip-java`.
//!
//! Each name becomes a class definition in `src/<Name>.java`.
use vstd::prelude::*;

use crate::line_index::PositionEncoding;
use crate::shard::{encode_shard, DocumentFacts, OccurrenceFacts, ShardDocument, ShardOccurrence,
    ShardSymbol, SymbolFacts};

verus! {

/// SCIP's number for the kind of a class.
pub const CLASS_KIND: i32 = 7;

/// SCIP's number for the role of a definition.
pub const DEFINITION_ROLE: i32 = 1;

/// The symbol of a class.
pub open spec fn class_symbol(name: Seq<char>) -> Seq<char> {
    "semanticdb maven . . example/"@ + name + "#"@
}

/// The file of a class.
pub open spec fn class_path(name: Seq<char>) -> Seq<char> {
    "src/"@ + name + ".java"@
}

/// A document that defines a class behind the word `class`.
pub open spec fn class_facts(name: Seq<char>) -> DocumentFacts {
    DocumentFacts {
        relative_path: class_path(name),
        position_encoding: 0,
        symbols: seq![
            SymbolFacts {
                symbol: class_symbol(name),
                display_name: name,
                kind: CLASS_KIND,
                implements: Seq::empty(),
                documentation: Seq::empty(),
                signature: None,
            },
        ],
        occurrences: seq![
            OccurrenceFacts {
                range: seq![0i32, 6i32, (6 + vstd::utf8::encode_utf8(name).len()) as i32],
                symbol: class_symbol(name),
                symbol_roles: DEFINITION_ROLE,
                enclosing_range: Seq::empty(),
            },
        ],
    }
}

/// Whether the columns of a class fit.
pub open spec fn is_short(name: Seq<char>) -> bool {
    6 + vstd::utf8::encode_utf8(name).len() <= i32::MAX
}

/// Whether the document of a class can be framed: the name stands in it four
/// times.
pub open spec fn is_readable(name: Seq<char>) -> bool {
    4 * vstd::utf8::encode_utf8(name).len() + 512 <= u32::MAX
}

/// The bytes of two texts, one behind the other.
proof fn lemma_bytes(a: Seq<char>, b: Seq<char>)
    ensures
        crate::shard::text_bytes(a + b) == crate::shard::text_bytes(a) + crate::shard::text_bytes(b),
{
    crate::line_index::lemma_units_are_bytes(a);
    crate::line_index::lemma_units_are_bytes(b);
    crate::line_index::lemma_units_are_bytes(a + b);
    crate::line_index::lemma_units_concat(a, b, PositionEncoding::Utf8);
}

/// A text takes at most four bytes for each character.
proof fn lemma_few_bytes(text: Seq<char>)
    ensures
        crate::shard::text_bytes(text) <= 4 * text.len(),
    decreases text.len(),
{
    crate::line_index::lemma_units_are_bytes(text);
    if text.len() > 0 {
        crate::line_index::lemma_units_are_bytes(text.drop_last());
        lemma_few_bytes(text.drop_last());
    }
}

/// The document of a class whose name can be framed is small.
proof fn lemma_small(name: Seq<char>)
    requires
        is_readable(name),
    ensures
        crate::shard::is_small(class_facts(name), "java"@),
{
    reveal_strlit("java");
    reveal_strlit("src/");
    reveal_strlit(".java");
    reveal_strlit("semanticdb maven . . example/");
    reveal_strlit("#");
    lemma_few_bytes("java"@);
    lemma_few_bytes("src/"@);
    lemma_few_bytes(".java"@);
    lemma_few_bytes("semanticdb maven . . example/"@);
    lemma_few_bytes("#"@);
    lemma_bytes("src/"@, name);
    lemma_bytes("src/"@ + name, ".java"@);
    lemma_bytes("semanticdb maven . . example/"@, name);
    lemma_bytes("semanticdb maven . . example/"@ + name, "#"@);
    let facts = class_facts(name);
    assert(facts.symbols.drop_last() =~= Seq::<SymbolFacts>::empty());
    assert(facts.occurrences.drop_last() =~= Seq::<OccurrenceFacts>::empty());
    reveal_with_fuel(crate::shard::symbols_room, 2);
    reveal_with_fuel(crate::shard::occurrences_room, 2);
}

/// Makes the document of a class.
pub fn class_document(name: &str) -> (document: ShardDocument)
    requires
        is_short(name@),
    ensures
        document@ == class_facts(name@),
{
    let mut symbol = "semanticdb maven . . example/".to_owned();
    symbol.append(name);
    symbol.append("#");
    let mut path = "src/".to_owned();
    path.append(name);
    path.append(".java");
    let end: i32 = (6 + name.as_bytes().len()) as i32;
    let mut range: Vec<i32> = Vec::new();
    range.push(0);
    range.push(6);
    range.push(end);
    let occurrence = ShardOccurrence {
        range,
        symbol: symbol.clone(),
        symbol_roles: DEFINITION_ROLE,
        enclosing_range: Vec::new(),
    };
    let information = ShardSymbol {
        symbol,
        display_name: name.to_owned(),
        kind: CLASS_KIND,
        relationships: Vec::new(),
        documentation: Vec::new(),
        signature: None,
    };
    let mut symbols: Vec<ShardSymbol> = Vec::new();
    symbols.push(information);
    let mut occurrences: Vec<ShardOccurrence> = Vec::new();
    occurrences.push(occurrence);
    let document = ShardDocument { relative_path: path, position_encoding: 0, symbols, occurrences };
    proof {
        let wanted = class_facts(name@);
        assert(document@.symbols[0].implements =~= Seq::<(Seq<char>, bool)>::empty());
        assert(document@.symbols[0].documentation =~= Seq::<Seq<char>>::empty());
        assert(document@.symbols[0] == wanted.symbols[0]);
        assert(document@.symbols =~= wanted.symbols);
        assert(document@.occurrences[0].range =~= wanted.occurrences[0].range);
        assert(document@.occurrences[0].enclosing_range =~= Seq::<i32>::empty());
        assert(document@.occurrences[0] == wanted.occurrences[0]);
        assert(document@.occurrences =~= wanted.occurrences);
    }
    document
}

/// The documents of some classes, or of one where none is named.
pub open spec fn shard_facts(names: Seq<Seq<char>>) -> Seq<DocumentFacts> {
    if names.len() == 0 {
        seq![class_facts("Widget"@)]
    } else {
        Seq::new(names.len(), |i: int| class_facts(names[i]))
    }
}

/// Makes a shard that defines some classes, or one where none is named. What
/// is read from it is what was put in, unless a name is so long that its
/// document cannot be framed.
pub fn class_shard(names: &Vec<String>) -> (bytes: Option<Vec<u8>>)
    requires
        forall|i: int| 0 <= i < names@.len() ==> is_short((#[trigger] names@[i])@),
    ensures
        bytes is Some,
        (forall|i: int| 0 <= i < names@.len() ==> is_readable((#[trigger] names@[i])@))
            ==> crate::shard::decoded_shard(bytes->0@) == Some(
            shard_facts(crate::text::texts(names@)),
        ),
{
    let mut documents: Vec<ShardDocument> = Vec::new();
    if names.len() == 0 {
        proof {
            reveal_strlit("Widget");
            crate::line_index::lemma_units_are_bytes("Widget"@);
            reveal_with_fuel(crate::line_index::units, 7);
        }
        documents.push(class_document("Widget"));
    }
    let mut i: usize = 0;
    while i < names.len()
        invariant
            i <= names@.len(),
            forall|k: int| 0 <= k < names@.len() ==> is_short((#[trigger] names@[k])@),
            names@.len() > 0 ==> documents@.len() == i,
            names@.len() == 0 ==> documents@.len() == 1 && documents@[0]@ == class_facts(
                "Widget"@,
            ),
            forall|k: int| 0 <= k < i ==> (#[trigger] documents@[k])@ == class_facts(names@[k]@),
        decreases names@.len() - i,
    {
        documents.push(class_document(names[i].as_str()));
        i += 1;
    }
    proof {
        let facts = crate::shard::documents_of(documents@);
        assert(facts =~= shard_facts(crate::text::texts(names@)));
        assert forall|k: int| 0 <= k < facts.len() implies crate::shard::is_plain(
            #[trigger] facts[k],
        ) by {
            let name = if names@.len() == 0 {
                "Widget"@
            } else {
                names@[k]@
            };
            assert(facts[k] == class_facts(name));
        }
        if forall|i: int| 0 <= i < names@.len() ==> is_readable((#[trigger] names@[i])@) {
            assert forall|k: int| 0 <= k < documents@.len() implies crate::shard::is_small(
                #[trigger] documents@[k]@,
                "java"@,
            ) by {
                if names@.len() == 0 {
                    lemma_few_bytes("Widget"@);
                    lemma_small("Widget"@);
                } else {
                    lemma_small(names@[k]@);
                }
            }
        }
    }
    encode_shard(documents, "java")
}

/// The document of a class stands in a file with the name of the class. It holds
/// one symbol, a class, and one occurrence, which defines that symbol behind the
/// word `class` and as long as the name is.
pub proof fn documents_define_their_class(name: &str, document: ShardDocument)
    requires
        call_ensures(class_document, (name,), document),
        is_short(name@),
    ensures
        document.relative_path@ == "src/"@ + name@ + ".java"@,
        document.symbols@.len() == 1,
        document.occurrences@.len() == 1,
        document.symbols@[0].symbol@ == document.occurrences@[0].symbol@,
        document.symbols@[0].symbol@ == "semanticdb maven . . example/"@ + name@ + "#"@,
        document.symbols@[0].display_name@ == name@,
        document.symbols@[0].kind == 7,
        document.occurrences@[0].symbol_roles == 1,
        document.occurrences@[0].range@.len() == 3,
        document.occurrences@[0].range@[0] == 0,
        document.occurrences@[0].range@[1] == 6,
        document.occurrences@[0].range@[2] - document.occurrences@[0].range@[1]
            == crate::shard::text_bytes(name@),
{
    let facts = document@;
    assert(facts == class_facts(name@));
    assert(facts.symbols.len() == 1 && facts.occurrences.len() == 1);
    assert(facts.symbols.len() == document.symbols@.len());
    assert(facts.occurrences.len() == document.occurrences@.len());
    assert(facts.symbols[0] == document.symbols@[0]@);
    assert(facts.occurrences[0] == document.occurrences@[0]@);
}

} // verus!
