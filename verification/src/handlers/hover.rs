//! What the index knows about the symbol under a cursor.
use vstd::prelude::*;

use crate::definition::{Definition, DefinitionView};
use crate::handlers::{find_definition, symbol_under_cursor};
use crate::line_index::{LinePosition, PositionEncoding};
use crate::symbol_index::SymbolIndex;
use crate::text::join_texts;

verus! {

/// A signature as a block of Java.
pub open spec fn signature_block(signature: Seq<char>) -> Seq<char> {
    "```java\n"@ + signature + "\n```"@
}

/// What is shown of a definition, in paragraphs: its signature, where it has
/// one, and its documentation; its name where it has neither.
pub open spec fn paragraphs(definition: DefinitionView) -> Seq<Seq<char>> {
    let first: Seq<Seq<char>> = if definition.signature.len() > 0 {
        seq![signature_block(definition.signature)]
    } else {
        Seq::empty()
    };
    let all = first + definition.documentation;
    if all.len() == 0 {
        seq![definition.name]
    } else {
        all
    }
}

/// What is shown of a definition.
pub open spec fn hover_text(definition: DefinitionView) -> Seq<char> {
    crate::text::joined_by(paragraphs(definition), "\n\n"@)
}

/// Whether a text shows what is known of a definition: it begins with the
/// signature as a block of Java, where there is one, holds every text of the
/// documentation, and is the name where there is neither.
pub open spec fn shows_facts(text: Seq<char>, definition: DefinitionView) -> bool {
    &&& definition.signature.len() > 0 ==> ("```java\n"@ + definition.signature
        + "\n```"@).is_prefix_of(text)
    &&& forall|i: int|
        0 <= i < definition.documentation.len() ==> crate::text::occurs_in(
            text,
            #[trigger] definition.documentation[i],
        )
    &&& definition.signature.len() == 0 && definition.documentation.len() == 0 ==> text
        == definition.name
}

/// Computes [`hover_text`].
fn render(definition: &Definition) -> (text: String)
    ensures
        text@ == hover_text(definition@),
{
    let mut parts: Vec<String> = Vec::new();
    let ghost first: Seq<Seq<char>> = if definition@.signature.len() > 0 {
        seq![signature_block(definition@.signature)]
    } else {
        Seq::empty()
    };
    if !definition.signature.as_str().is_empty() {
        let mut block = "```java\n".to_owned();
        block.append(definition.signature.as_str());
        block.append("\n```");
        parts.push(block);
    }
    assert(crate::text::texts(parts@) =~= first);
    let ghost documentation = definition@.documentation;
    let mut i: usize = 0;
    assert(first + documentation.take(0) =~= first);
    while i < definition.documentation.len()
        invariant
            i <= definition.documentation@.len(),
            documentation == crate::text::texts(definition.documentation@),
            crate::text::texts(parts@) == first + documentation.take(i as int),
        decreases definition.documentation@.len() - i,
    {
        let ghost before = parts@;
        let text = definition.documentation[i].clone();
        assert(text@ == documentation[i as int]);
        parts.push(text);
        assert(crate::text::texts(parts@) =~= crate::text::texts(before).push(
            documentation[i as int],
        ));
        assert(first + documentation.take(i + 1) =~= (first + documentation.take(i as int)).push(
            documentation[i as int],
        ));
        i += 1;
    }
    assert(documentation.take(i as int) =~= documentation);
    assert(crate::text::texts(parts@).len() == parts@.len());
    if parts.len() == 0 {
        parts.push(definition.name.clone());
        assert(crate::text::texts(parts@) =~= seq![definition@.name]);
    }
    join_texts(&parts, "\n\n")
}

/// Says what the index knows about the symbol under a cursor.
///
/// Nothing where nothing stands there, or where the index does not define what
/// does.
pub fn hover<F: Fn(&str) -> Option<String>>(
    index: &SymbolIndex,
    path: &str,
    position: LinePosition,
    client: PositionEncoding,
    read: &F,
) -> (text: Option<String>)
    requires
        index.wf(),
        crate::handlers::is_reader(*read),
    ensures
        exists|symbol: Option<Seq<char>>| #[trigger]
            crate::handlers::under_cursor(index@, path@, position, client, *read, symbol)
                && crate::config::text_of(text) == (match symbol {
                Some(symbol) => match crate::handlers::first_definition(
                    index@.definitions,
                    symbol,
                ) {
                    Some(definition) => Some(hover_text(definition)),
                    None => None,
                },
                None => None,
            }),
        text matches Some(text) ==> exists|d: int|
            0 <= d < index@.definitions.len() && shows_facts(
                text@,
                #[trigger] index@.definitions[d],
            ),
{
    let symbol = match symbol_under_cursor(index, path, position, client, read) {
        Some(symbol) => symbol,
        None => {
            return None;
        },
    };
    assert(crate::handlers::under_cursor(
        index@,
        path@,
        position,
        client,
        *read,
        Some(symbol@),
    ));
    match find_definition(index, &symbol) {
        Some(definition) => {
            proof {
                let text = hover_text(definition@);
                crate::handlers::laws::hover_begins_with_the_signature(definition@, text);
                let at = crate::handlers::laws::hover_shows_the_documentation(definition@, text);
                assert forall|i: int|
                    0 <= i < definition@.documentation.len() implies crate::text::occurs_in(
                    text,
                    #[trigger] definition@.documentation[i],
                ) by {
                    assert(crate::text::occurs_at(text, definition@.documentation[i], at[i]));
                }
                assert(shows_facts(text, definition@));
                crate::handlers::lemma_definition_listed(index@.definitions, symbol@);
            }
            Some(render(definition))
        },
        None => None,
    }
}

} // verus!
