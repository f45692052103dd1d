//! What a symbol is called for short, and what the plain values of a shard are.
use vstd::prelude::*;

use crate::shard::{ShardDocument, ShardOccurrence, ShardSymbol};

verus! {

/// A name that nothing of a symbol's notation occurs in.
pub open spec fn plain(name: Seq<char>) -> bool {
    &&& name.len() > 0
    &&& forall|c: char| #[trigger]
        name.contains(c) ==> c != '/' && c != ' ' && c != '[' && c != ']' && c != '(' && c != ')'
            && c != '#' && c != '.' && c != '`'
}

/// The short name of a type is its last part, without the mark behind it.
pub proof fn types_are_called_by_their_last_part(package: Seq<char>, name: Seq<char>)
    requires
        plain(name),
    ensures
        crate::shard::short_name(package + "/"@ + name + "#"@) == name,
        crate::shard::short_name(package + " "@ + name + "#"@) == name,
{
    reveal_strlit("/");
    reveal_strlit(" ");
    reveal_strlit("#");
    assert("/"@ =~= seq!['/']);
    assert(" "@ =~= seq![' ']);
    assert("#"@ =~= seq!['#']);
    lemma_bare(Seq::empty(), name, seq!['#'], Seq::empty());
    assert(Seq::<char>::empty() + name + seq!['#'] + Seq::<char>::empty() =~= name + seq!['#']);
    assert(package + "/"@ + name + "#"@ =~= package + seq!['/'] + (name + seq!['#']));
    assert(package + " "@ + name + "#"@ =~= package + seq![' '] + (name + seq!['#']));
    lemma_tail(package, '/', name + seq!['#']);
    lemma_tail(package, ' ', name + seq!['#']);
}

/// The short name of a member is what stands behind its type: a method without
/// its parameters and the marks around them, a field without its mark.
pub proof fn members_are_called_without_their_type(
    package: Seq<char>,
    owner: Seq<char>,
    name: Seq<char>,
    overload: Seq<char>,
)
    requires
        plain(owner),
        plain(name),
        forall|c: char| #[trigger] overload.contains(c) ==> c != '/' && c != ' ' && c != '[',
    ensures
        crate::shard::short_name(package + "/"@ + owner + "#"@ + name + "."@) == name,
        crate::shard::short_name(package + "/"@ + owner + "#"@ + name + "("@ + overload) == name,
{
    reveal_strlit("/");
    reveal_strlit("#");
    reveal_strlit(".");
    reveal_strlit("(");
    assert("/"@ =~= seq!['/']);
    assert("#"@ =~= seq!['#']);
    assert("."@ =~= seq!['.']);
    assert("("@ =~= seq!['(']);
    let before = owner + seq!['#'];
    assert forall|c: char| #[trigger] before.contains(c) implies c != '/' && c != ' ' && c != '['
        && c != '(' by {
        let i = choose|i: int| 0 <= i < before.len() && before[i] == c;
        if i < owner.len() {
            assert(owner[i] == c);
            assert(owner.contains(c));
        }
    }
    let rest = seq!['('] + overload;
    assert forall|c: char| #[trigger] rest.contains(c) implies c != '/' && c != ' ' && c
        != '[' by {
        let i = choose|i: int| 0 <= i < rest.len() && rest[i] == c;
        if i > 0 {
            assert(overload[i - 1] == c);
            assert(overload.contains(c));
        }
    }
    lemma_bare(before, name, seq!['.'], Seq::empty());
    lemma_bare(before, name, Seq::empty(), seq!['('] + overload);
    let field = before + name + seq!['.'] + Seq::<char>::empty();
    let method = before + name + Seq::<char>::empty() + (seq!['('] + overload);
    assert(package + "/"@ + owner + "#"@ + name + "."@ =~= package + seq!['/'] + field);
    assert(package + "/"@ + owner + "#"@ + name + "("@ + overload =~= package + seq!['/'] + method);
    lemma_tail(package, '/', field);
    lemma_tail(package, '/', method);
}

/// The short name of a type parameter is what its brackets hold.
pub proof fn type_parameters_are_called_by_their_name(
    package: Seq<char>,
    owner: Seq<char>,
    name: Seq<char>,
)
    requires
        plain(owner),
        plain(name),
    ensures
        crate::shard::short_name(package + "/"@ + owner + "#["@ + name + "]"@) == name,
{
    reveal_strlit("/");
    reveal_strlit("#[");
    reveal_strlit("]");
    assert("/"@ =~= seq!['/']);
    assert("#["@ =~= seq!['#', '[']);
    assert("]"@ =~= seq![']']);
    let tail = owner + seq!['#', '['] + name + seq![']'];
    assert(package + "/"@ + owner + "#["@ + name + "]"@ =~= package + seq!['/'] + tail);
    assert forall|c: char| #[trigger] tail.contains(c) implies !seq!['/', ' '].contains(c) by {
        let i = choose|i: int| 0 <= i < tail.len() && tail[i] == c;
        if i < owner.len() {
            assert(owner[i] == c);
            assert(owner.contains(c));
        } else if i >= owner.len() + 2 && i < owner.len() + 2 + name.len() {
            assert(name[i - owner.len() - 2] == c);
            assert(name.contains(c));
        }
    }
    assert(seq!['/', ' '][0] == '/');
    crate::text::laws::what_follows_the_last_is_after_it(package, '/', tail, seq!['/', ' ']);
    let inside = name + seq![']'];
    assert(tail =~= (owner + seq!['#']) + seq!['['] + inside);
    assert(seq!['['][0] == '[');
    assert forall|c: char| #[trigger] inside.contains(c) implies !seq!['['].contains(c) by {
        let i = choose|i: int| 0 <= i < inside.len() && inside[i] == c;
        if i < name.len() {
            assert(name[i] == c);
            assert(name.contains(c));
        }
    }
    crate::text::laws::what_follows_the_last_is_after_it(
        owner + seq!['#'],
        '[',
        inside,
        seq!['['],
    );
    assert(name.contains(name.last()));
    assert(seq![']'][0] == ']');
    crate::text::laws::ends_are_trimmed(name, seq![']'], seq![']']);
    lemma_no_backticks(name);
    assert(tail[owner.len() + 1int] == '[');
    assert(tail.contains('['));
}

/// A symbol's plain value holds its fields, and each relationship says whether
/// it is an implementation.
pub proof fn symbols_hold_their_fields(symbol: ShardSymbol, i: int)
    requires
        0 <= i < symbol.relationships@.len(),
    ensures
        symbol@.symbol == symbol.symbol@,
        symbol@.display_name == symbol.display_name@,
        symbol@.kind == symbol.kind,
        symbol@.implements.len() == symbol.relationships@.len(),
        symbol@.implements[i].0 == symbol.relationships@[i].symbol@,
        symbol@.implements[i].1 == symbol.relationships@[i].is_implementation,
        symbol@.documentation.len() == symbol.documentation@.len(),
        forall|k: int|
            0 <= k < symbol.documentation@.len() ==> #[trigger] symbol@.documentation[k]
                == symbol.documentation@[k]@,
        symbol.signature matches Some(text) ==> symbol@.signature == Some(text@),
        symbol.signature is None ==> symbol@.signature is None,
{
}

/// An occurrence's plain value holds its fields.
pub proof fn occurrences_hold_their_fields(occurrence: ShardOccurrence)
    ensures
        occurrence@.range == occurrence.range@,
        occurrence@.symbol == occurrence.symbol@,
        occurrence@.symbol_roles == occurrence.symbol_roles,
        occurrence@.enclosing_range == occurrence.enclosing_range@,
{
}

/// A document's plain value holds its path, its encoding, and the plain values of
/// its symbols and occurrences in order.
pub proof fn documents_hold_their_fields(document: ShardDocument)
    ensures
        document@.relative_path == document.relative_path@,
        document@.position_encoding == document.position_encoding,
        document@.symbols.len() == document.symbols@.len(),
        forall|k: int|
            0 <= k < document.symbols@.len() ==> #[trigger] document@.symbols[k]
                == document.symbols@[k]@,
        document@.occurrences.len() == document.occurrences@.len(),
        forall|k: int|
            0 <= k < document.occurrences@.len() ==> #[trigger] document@.occurrences[k]
                == document.occurrences@[k]@,
{
}

proof fn lemma_tail(package: Seq<char>, separator: char, tail: Seq<char>)
    requires
        separator == '/' || separator == ' ',
        forall|c: char| #[trigger] tail.contains(c) ==> c != '/' && c != ' ',
    ensures
        crate::text::after_last(package + seq![separator] + tail, seq!['/', ' ']) == tail,
        crate::text::after_last(tail, seq!['/', ' ']) == tail,
        crate::shard::short_name(package + seq![separator] + tail) == crate::shard::short_name(tail),
{
    let set = seq!['/', ' '];
    assert(set[0] == '/' && set[1] == ' ');
    assert(set.contains(separator));
    crate::text::laws::what_follows_the_last_is_after_it(package, separator, tail, set);
}

proof fn lemma_no_backticks(name: Seq<char>)
    requires
        plain(name),
    ensures
        crate::shard::without_backticks(name) == name,
{
    let set = seq!['`'];
    assert(name.contains(name[0]));
    assert(name.contains(name.last()));
    assert(Seq::<char>::empty() + name =~= name);
    assert(name + Seq::<char>::empty() =~= name);
    crate::text::laws::starts_are_trimmed(Seq::empty(), name, set);
    crate::text::laws::ends_are_trimmed(name, Seq::empty(), set);
}

/// A tail without brackets is called by what stands between the last `#` before
/// its marks and those marks.
proof fn lemma_bare(before: Seq<char>, name: Seq<char>, marks: Seq<char>, parameters: Seq<char>)
    requires
        plain(name),
        before.len() > 0 ==> before.last() == '#',
        forall|c: char| #[trigger]
            before.contains(c) ==> c != '/' && c != ' ' && c != '[' && c != '(',
        forall|c: char| #[trigger] marks.contains(c) ==> c == '#' || c == '.',
        parameters.len() > 0 ==> parameters[0] == '(',
        forall|c: char| #[trigger] parameters.contains(c) ==> c != '/' && c != ' ' && c != '[',
    ensures
        crate::shard::short_name(before + name + marks + parameters) == name,
        forall|c: char| #[trigger]
            (before + name + marks + parameters).contains(c) ==> c != '/' && c != ' ' && c != '[',
{
    let tail = before + name + marks + parameters;
    let head = before + name + marks;
    let bare = before + name;
    assert forall|c: char| #[trigger] tail.contains(c) implies c != '/' && c != ' ' && c
        != '[' by {
        let i = choose|i: int| 0 <= i < tail.len() && tail[i] == c;
        lemma_part(before, name, marks, parameters, i);
    }
    lemma_tail(Seq::empty(), '/', tail);
    assert(!tail.contains('['));
    assert forall|c: char| #[trigger] head.contains(c) implies !seq!['('].contains(c) by {
        let i = choose|i: int| 0 <= i < head.len() && head[i] == c;
        assert(head[i] == tail[i]);
        lemma_part(before, name, marks, parameters, i);
    }
    assert(seq!['('][0] == '(');
    if parameters.len() > 0 {
        assert(tail =~= head + seq!['('] + parameters.drop_first());
        crate::text::laws::what_precedes_the_first_is_before_it(
            head,
            '(',
            parameters.drop_first(),
            seq!['('],
        );
    } else {
        assert(tail =~= head);
        crate::text::laws::what_precedes_the_first_is_before_it(
            head,
            '(',
            Seq::empty(),
            seq!['('],
        );
    }
    let set = seq!['#', '.', ')'];
    assert(set[0] == '#' && set[1] == '.' && set[2] == ')');
    assert(name.contains(name.last()));
    assert(bare.last() == name.last());
    assert forall|c: char| #[trigger] marks.contains(c) implies set.contains(c) by {}
    crate::text::laws::ends_are_trimmed(bare, marks, set);
    assert(seq!['#'][0] == '#');
    if before.len() > 0 {
        assert(bare =~= before.drop_last() + seq!['#'] + name);
        crate::text::laws::what_follows_the_last_is_after_it(
            before.drop_last(),
            '#',
            name,
            seq!['#'],
        );
    } else {
        assert(bare =~= name);
        crate::text::laws::what_follows_the_last_is_after_it(
            Seq::empty(),
            '#',
            name,
            seq!['#'],
        );
    }
    lemma_no_backticks(name);
}

proof fn lemma_part(
    before: Seq<char>,
    name: Seq<char>,
    marks: Seq<char>,
    parameters: Seq<char>,
    i: int,
)
    requires
        0 <= i < (before + name + marks + parameters).len(),
    ensures
        ({
            let c = (before + name + marks + parameters)[i];
            ||| before.contains(c)
            ||| name.contains(c)
            ||| marks.contains(c)
            ||| i >= before.len() + name.len() + marks.len() && parameters.contains(c)
        }),
{
    let c = (before + name + marks + parameters)[i];
    if i < before.len() {
        assert(before[i] == c);
    } else if i < before.len() + name.len() {
        assert(name[i - before.len()] == c);
    } else if i < before.len() + name.len() + marks.len() {
        assert(marks[i - before.len() - name.len()] == c);
    } else {
        assert(parameters[i - before.len() - name.len() - marks.len()] == c);
    }
}

} // verus!
