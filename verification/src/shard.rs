//! The contents of a SCIP shard, as plain values.
//!
//! One shard per Bazel target. Shards compose by construction: a symbol string
//! like `semanticdb maven . . com/acme/core/RetryPolicy#` means the same thing
//! in every shard, so the target that *defines* it and the targets that
//! *reference* it agree without any linking step.
use protobuf::{EnumOrUnknown, Message};
use scip::types::{Document, Index, Occurrence, SymbolInformation};
use vstd::prelude::*;

use crate::text::{
    chars_of, slice_after_last, slice_before_first, slice_trim_end, slice_trim_start, string_of,
};

pub mod laws;

verus! {

/// A relationship of one symbol to another.
pub struct ShardRelationship {
    pub symbol: String,
    pub is_implementation: bool,
}

/// What a document says about one symbol besides where it stands.
pub struct ShardSymbol {
    pub symbol: String,
    pub display_name: String,
    /// SCIP's number for the kind of the symbol.
    pub kind: i32,
    pub relationships: Vec<ShardRelationship>,
    pub documentation: Vec<String>,
    pub signature: Option<String>,
}

/// One place where a symbol stands.
pub struct ShardOccurrence {
    pub range: Vec<i32>,
    pub symbol: String,
    pub symbol_roles: i32,
    pub enclosing_range: Vec<i32>,
}

/// One source file of a shard.
pub struct ShardDocument {
    pub relative_path: String,
    /// SCIP's number for how the document counts columns.
    pub position_encoding: i32,
    pub symbols: Vec<ShardSymbol>,
    pub occurrences: Vec<ShardOccurrence>,
}

/// The view of a [`ShardSymbol`].
pub struct SymbolFacts {
    pub symbol: Seq<char>,
    pub display_name: Seq<char>,
    pub kind: i32,
    pub implements: Seq<(Seq<char>, bool)>,
    pub documentation: Seq<Seq<char>>,
    pub signature: Option<Seq<char>>,
}

/// The view of a [`ShardOccurrence`].
pub struct OccurrenceFacts {
    pub range: Seq<i32>,
    pub symbol: Seq<char>,
    pub symbol_roles: i32,
    pub enclosing_range: Seq<i32>,
}

/// The view of a [`ShardDocument`].
pub struct DocumentFacts {
    pub relative_path: Seq<char>,
    pub position_encoding: i32,
    pub symbols: Seq<SymbolFacts>,
    pub occurrences: Seq<OccurrenceFacts>,
}

impl View for ShardSymbol {
    type V = SymbolFacts;

    open spec fn view(&self) -> SymbolFacts {
        SymbolFacts {
            symbol: self.symbol@,
            display_name: self.display_name@,
            kind: self.kind,
            implements: Seq::new(
                self.relationships@.len(),
                |i: int|
                    (self.relationships@[i].symbol@, self.relationships@[i].is_implementation),
            ),
            documentation: crate::text::texts(self.documentation@),
            signature: match self.signature {
                Some(text) => Some(text@),
                None => None,
            },
        }
    }
}

impl View for ShardOccurrence {
    type V = OccurrenceFacts;

    open spec fn view(&self) -> OccurrenceFacts {
        OccurrenceFacts {
            range: self.range@,
            symbol: self.symbol@,
            symbol_roles: self.symbol_roles,
            enclosing_range: self.enclosing_range@,
        }
    }
}

impl View for ShardDocument {
    type V = DocumentFacts;

    open spec fn view(&self) -> DocumentFacts {
        DocumentFacts {
            relative_path: self.relative_path@,
            position_encoding: self.position_encoding,
            symbols: Seq::new(self.symbols@.len(), |i: int| self.symbols@[i]@),
            occurrences: Seq::new(self.occurrences@.len(), |i: int| self.occurrences@[i]@),
        }
    }
}

/// The documents that the bytes of a shard hold, where they are a shard.
pub uninterp spec fn decoded_shard(bytes: Seq<u8>) -> Option<Seq<DocumentFacts>>;

/// The views of a sequence of documents.
pub open spec fn documents_of(documents: Seq<ShardDocument>) -> Seq<DocumentFacts> {
    Seq::new(documents.len(), |i: int| documents[i]@)
}

/// `scip::types::Index::parse_from_bytes`, which decodes the protobuf bytes of a
/// SCIP index: its documents, field by field, or nothing where the bytes are not
/// such an index. The decoding depends on the bytes alone.
#[verifier::external_body]
pub(crate) fn decode_shard(bytes: &[u8]) -> (documents: Option<Vec<ShardDocument>>)
    ensures
        (match documents {
            Some(documents) => Some(documents_of(documents@)),
            None => None,
        }) == decoded_shard(bytes@),
{
    Some(Index::parse_from_bytes(bytes).ok()?.documents.into_iter().map(|d| ShardDocument {
        relative_path: d.relative_path, position_encoding: d.position_encoding.value(),
        symbols: d.symbols.into_iter().map(|s| ShardSymbol {
            symbol: s.symbol, display_name: s.display_name, kind: s.kind.value(),
            relationships: s.relationships.into_iter().map(|r| ShardRelationship {
                symbol: r.symbol, is_implementation: r.is_implementation
            }).collect(),
            documentation: s.documentation,
            signature: s.signature_documentation.0.map(|text| text.text)
        }).collect(),
        occurrences: d.occurrences.into_iter().map(|o| ShardOccurrence {
            range: o.range, symbol: o.symbol, symbol_roles: o.symbol_roles,
            enclosing_range: o.enclosing_range
        }).collect()
    }).collect())
}

/// Whether documents hold nothing but symbols with a name and a kind, and where
/// they stand.
pub open spec fn are_plain(documents: Seq<DocumentFacts>) -> bool {
    forall|i: int|
        0 <= i < documents.len() ==> is_plain(#[trigger] documents[i])
}

/// Whether a document holds nothing but symbols with a name and a kind, and
/// where they stand.
pub open spec fn is_plain(document: DocumentFacts) -> bool {
    &&& document.position_encoding == 0
    &&& forall|i: int|
        0 <= i < document.symbols.len() ==> {
            &&& (#[trigger] document.symbols[i]).implements.len() == 0
            &&& document.symbols[i].documentation.len() == 0
            &&& document.symbols[i].signature is None
        }
    &&& forall|i: int|
        0 <= i < document.occurrences.len() ==> (
        #[trigger] document.occurrences[i]).enclosing_range.len() == 0
}

/// How many bytes a text takes.
pub open spec fn text_bytes(text: Seq<char>) -> nat {
    vstd::utf8::encode_utf8(text).len()
}

/// The bytes of some symbols in a shard, with room for what frames them.
pub open spec fn symbols_room(symbols: Seq<SymbolFacts>) -> nat
    decreases symbols.len(),
{
    if symbols.len() == 0 {
        0
    } else {
        symbols_room(symbols.drop_last()) + 64 + text_bytes(symbols.last().symbol) + text_bytes(
            symbols.last().display_name,
        )
    }
}

/// The bytes of some occurrences in a shard, with room for what frames them.
pub open spec fn occurrences_room(occurrences: Seq<OccurrenceFacts>) -> nat
    decreases occurrences.len(),
{
    if occurrences.len() == 0 {
        0
    } else {
        occurrences_room(occurrences.drop_last()) + 64 + 10 * occurrences.last().range.len()
            + text_bytes(occurrences.last().symbol)
    }
}

/// Whether a document is so small that its length can be written before it.
pub open spec fn is_small(document: DocumentFacts, language: Seq<char>) -> bool {
    64 + text_bytes(language) + text_bytes(document.relative_path) + symbols_room(document.symbols)
        + occurrences_room(document.occurrences) <= u32::MAX
}

/// `scip::types::Index::write_to_bytes`, which encodes a SCIP index as protobuf
/// bytes: its documents, field by field, all in one language. Decoding the bytes
/// gives the documents back, unless one is so large that its length is cut off.
#[verifier::external_body]
pub(crate) fn encode_shard(documents: Vec<ShardDocument>, language: &str) -> (bytes: Option<
    Vec<u8>,
>)
    requires
        are_plain(documents_of(documents@)),
    ensures
        bytes is Some,
        (forall|i: int| 0 <= i < documents@.len() ==> is_small(#[trigger] documents@[i]@, language@))
            ==> decoded_shard(bytes->0@) == Some(documents_of(documents@)),
{
    let documents = documents.into_iter().map(|d| Document {
        relative_path: d.relative_path, language: language.to_owned(),
        symbols: d.symbols.into_iter().map(|s| SymbolInformation {
            symbol: s.symbol, display_name: s.display_name, kind: EnumOrUnknown::from_i32(s.kind),
            ..Default::default()
        }).collect(),
        occurrences: d.occurrences.into_iter().map(|o| Occurrence {
            range: o.range, symbol: o.symbol, symbol_roles: o.symbol_roles, ..Default::default()
        }).collect(),
        ..Default::default()
    }).collect();
    Index { documents, ..Default::default() }.write_to_bytes().ok()
}

/// The searchable short name in a SCIP symbol string.
///
/// SCIP symbols look like `semanticdb maven . . com/acme/core/RetryPolicy#` or
/// `.../Preconditions#checkNotNull().`, with trailing sigils marking what kind
/// of thing the symbol is. What follows the last `/` or blank is the
/// descriptor. A type parameter in brackets is its innermost name. Otherwise
/// the parameter list and the trailing sigils go, and what follows the last `#`
/// is the name. Backticks around a name go too.
pub open spec fn short_name(symbol: Seq<char>) -> Seq<char> {
    let tail = crate::text::after_last(symbol, seq!['/', ' ']);
    let param = crate::text::trim_end(
        crate::text::after_last(tail, seq!['[']),
        seq![']'],
    );
    if tail.contains('[') && param.len() > 0 {
        without_backticks(param)
    } else {
        let head = crate::text::before_first(tail, seq!['(']);
        let bare = crate::text::trim_end(head, seq!['#', '.', ')']);
        without_backticks(crate::text::after_last(bare, seq!['#']))
    }
}

/// `s` without the backticks at its two ends.
pub open spec fn without_backticks(s: Seq<char>) -> Seq<char> {
    crate::text::trim_end(crate::text::trim_start(s, seq!['`']), seq!['`'])
}

/// Computes [`short_name`].
///
/// For callers rendering a symbol they only have as a string: a supertype named
/// in a relationship, say, which may be defined in a shard that was never
/// loaded.
pub fn short_name_of(symbol: &str) -> (name: String)
    ensures
        name@ == short_name(symbol@),
{
    let chars = chars_of(symbol);
    let separators = ['/', ' '];
    let opening = ['['];
    let closing = [']'];
    let parameters = ['('];
    let sigils = ['#', '.', ')'];
    let members = ['#'];
    let backticks = ['`'];
    proof {
        assert(separators@ =~= seq!['/', ' ']);
        assert(opening@ =~= seq!['[']);
        assert(closing@ =~= seq![']']);
        assert(parameters@ =~= seq!['(']);
        assert(sigils@ =~= seq!['#', '.', ')']);
        assert(members@ =~= seq!['#']);
        assert(backticks@ =~= seq!['`']);
    }
    let tail = slice_after_last(chars.as_slice(), separators.as_slice());
    if crate::text::is_one_of('[', tail) {
        let param = slice_trim_end(
            slice_after_last(tail, opening.as_slice()),
            closing.as_slice(),
        );
        if param.len() > 0 {
            let inner = slice_trim_start(param, backticks.as_slice());
            return string_of(slice_trim_end(inner, backticks.as_slice()));
        }
    }
    let head = slice_before_first(tail, parameters.as_slice());
    let bare = slice_trim_end(head, sigils.as_slice());
    let member = slice_after_last(bare, members.as_slice());
    let inner = slice_trim_start(member, backticks.as_slice());
    string_of(slice_trim_end(inner, backticks.as_slice()))
}

} // verus!
