//! What a syntax tree declares.
use vstd::prelude::*;

use crate::definition::{DefinitionView, SymbolKind};
use crate::overlay::SyntaxView;

verus! {

/// What is declared by which node. A record is a class.
pub proof fn nodes_declare_by_their_kind(kind: Seq<char>)
    ensures
        crate::overlay::declared_kind(kind) == Some(SymbolKind::Class) <==> kind
            == "class_declaration"@ || kind == "record_declaration"@,
        crate::overlay::declared_kind(kind) == Some(SymbolKind::Interface) <==> kind
            == "interface_declaration"@,
        crate::overlay::declared_kind(kind) == Some(SymbolKind::Enum) <==> kind
            == "enum_declaration"@,
        crate::overlay::declared_kind(kind) == Some(SymbolKind::Method) <==> kind
            == "method_declaration"@,
        crate::overlay::declared_kind(kind) == Some(SymbolKind::Constructor) <==> kind
            == "constructor_declaration"@,
        crate::overlay::declared_kind(kind) == Some(SymbolKind::Field) <==> kind
            == "enum_constant"@,
        crate::overlay::declared_kind(kind) != Some(SymbolKind::Other),
{
    reveal_strlit("class_declaration");
    reveal_strlit("record_declaration");
    reveal_strlit("interface_declaration");
    reveal_strlit("enum_declaration");
    reveal_strlit("method_declaration");
    reveal_strlit("constructor_declaration");
    reveal_strlit("enum_constant");
    assert("class_declaration"@.len() == 17);
    assert("record_declaration"@.len() == 18);
    assert("interface_declaration"@.len() == 21);
    assert("enum_declaration"@.len() == 16);
    assert("method_declaration"@.len() == 18);
    assert("constructor_declaration"@.len() == 23);
    assert("enum_constant"@.len() == 13);
    assert("record_declaration"@[0] == 'r' && "method_declaration"@[0] == 'm');
}

/// A declaration has the node's name, where its name stands, and what it spans.
/// Its symbol is marked as parsed, and holds the file and the names of the types
/// around it.
pub proof fn declarations_show_their_node(
    node: SyntaxView,
    path: Seq<char>,
    scope: Seq<Seq<char>>,
    kind: SymbolKind,
    declaration: SyntaxView,
    name: Seq<char>,
    at: ((usize, usize), (usize, usize)),
)
    requires
        node.name == Some((name, at)),
        name.len() > 0,
    ensures
        crate::overlay::definition_of(node, path, scope, kind, declaration) matches Some(definition)
            && {
            &&& definition.name == name
            &&& definition.kind == kind
            &&& definition.path == path
            &&& at.0.0 <= u32::MAX ==> definition.range.start_line == at.0.0
            &&& at.0.1 <= u32::MAX ==> definition.range.start_col == at.0.1
            &&& at.1.0 <= u32::MAX ==> definition.range.end_line == at.1.0
            &&& at.1.1 <= u32::MAX ==> definition.range.end_col == at.1.1
            &&& definition.enclosing matches Some(span) && (declaration.span.0.0 <= u32::MAX
                ==> span.start_line == declaration.span.0.0) && (declaration.span.1.0 <= u32::MAX
                ==> span.end_line == declaration.span.1.0) && (declaration.span.0.1 <= u32::MAX
                ==> span.start_col == declaration.span.0.1) && (declaration.span.1.1 <= u32::MAX
                ==> span.end_col == declaration.span.1.1)
            &&& definition.encoding is Utf8
            &&& scope.len() == 0 ==> definition.symbol == "jabar-overlay"@ + " "@ + path + "#"@
                + name
            &&& scope.len() == 1 ==> definition.symbol == "jabar-overlay"@ + " "@ + path + "#"@ + (
            scope[0] + "."@ + name)
        },
        crate::overlay::opens_scope(kind) <==> kind is Class || kind is Interface || kind is Enum,
{
}

/// A node without a name declares nothing.
pub proof fn nameless_nodes_declare_nothing(
    node: SyntaxView,
    path: Seq<char>,
    scope: Seq<Seq<char>>,
    kind: SymbolKind,
    declaration: SyntaxView,
)
    requires
        node.name matches Some((name, _)) ==> name.len() == 0,
    ensures
        crate::overlay::definition_of(node, path, scope, kind, declaration) is None,
{
}

/// Every named node that declares something is found, however deep it lies, as
/// long as no token and no field declaration is above or before it.
pub proof fn declarations_are_found_at_any_depth(
    nodes: Seq<SyntaxView>,
    from: int,
    end: int,
    path: Seq<char>,
    scope: Seq<Seq<char>>,
    i: int,
    kind: SymbolKind,
    name: Seq<char>,
    at: ((usize, usize), (usize, usize)),
)
    requires
        0 <= from <= i < end <= nodes.len(),
        forall|j: int|
            from <= j <= i ==> (#[trigger] nodes[j]).named && nodes[j].kind
                != "field_declaration"@,
        crate::overlay::declared_kind(nodes[i].kind) == Some(kind),
        nodes[i].name == Some((name, at)),
        name.len() > 0,
    ensures
        exists|k: int|
            0 <= k < crate::overlay::declarations(nodes, from, end, path, scope).len() && {
                let found = #[trigger] crate::overlay::declarations(
                    nodes,
                    from,
                    end,
                    path,
                    scope,
                )[k];
                &&& found.name == name
                &&& found.kind == kind
                &&& found.path == path
                &&& found.range == crate::overlay::span_between(at.0, at.1)
            },
    decreases end - from,
{
    let all = crate::overlay::declarations(nodes, from, end, path, scope);
    let node = nodes[from];
    let next = crate::overlay::behind(nodes, from, from + 1, end);
    crate::overlay::lemma_behind(nodes, from, from + 1, end);
    let rest = crate::overlay::declarations(nodes, next, end, path, scope);
    assert(node.named && node.kind != "field_declaration"@);
    let own = match crate::overlay::declared_kind(node.kind) {
        Some(kind) => crate::overlay::definition_of(node, path, scope, kind, node),
        None => None,
    };
    let inner = match own {
        Some(definition) => if crate::overlay::opens_scope(definition.kind) {
            scope.push(definition.name)
        } else {
            scope
        },
        None => scope,
    };
    let below = crate::overlay::declarations(nodes, from + 1, next, path, inner);
    let first: Seq<DefinitionView> = match own {
        Some(definition) => seq![definition],
        None => Seq::empty(),
    };
    assert(all =~= first + below + rest);
    if i == from {
        assert(all[0] == own->0);
    } else if i < next {
        declarations_are_found_at_any_depth(nodes, from + 1, next, path, inner, i, kind, name, at);
        let k = choose|k: int|
            0 <= k < below.len() && {
                let found = #[trigger] below[k];
                &&& found.name == name
                &&& found.kind == kind
                &&& found.path == path
                &&& found.range == crate::overlay::span_between(at.0, at.1)
            };
        assert(all[first.len() + k] == below[k]);
    } else {
        declarations_are_found_at_any_depth(nodes, next, end, path, scope, i, kind, name, at);
        let k = choose|k: int|
            0 <= k < rest.len() && {
                let found = #[trigger] rest[k];
                &&& found.name == name
                &&& found.kind == kind
                &&& found.path == path
                &&& found.range == crate::overlay::span_between(at.0, at.1)
            };
        assert(all[first.len() + below.len() + k] == rest[k]);
    }
}

/// A field declaration declares a field for each variable directly below it.
pub proof fn fields_are_found_in_their_declaration(
    nodes: Seq<SyntaxView>,
    from: int,
    end: int,
    path: Seq<char>,
    scope: Seq<Seq<char>>,
    declaration: SyntaxView,
    i: int,
    name: Seq<char>,
    at: ((usize, usize), (usize, usize)),
)
    requires
        0 <= from <= i < end <= nodes.len(),
        forall|j: int| from <= j < i ==> (#[trigger] nodes[j]).depth >= nodes[i].depth,
        nodes[i].named,
        nodes[i].kind == "variable_declarator"@,
        nodes[i].name == Some((name, at)),
        name.len() > 0,
    ensures
        exists|k: int|
            0 <= k < crate::overlay::variables(
                nodes,
                from,
                end,
                path,
                scope,
                declaration,
            ).len() && {
                let found = #[trigger] crate::overlay::variables(
                    nodes,
                    from,
                    end,
                    path,
                    scope,
                    declaration,
                )[k];
                &&& found.name == name
                &&& found.kind is Field
                &&& found.path == path
                &&& found.range == crate::overlay::span_between(at.0, at.1)
            },
    decreases end - from,
{
    let all = crate::overlay::variables(nodes, from, end, path, scope, declaration);
    let next = crate::overlay::behind(nodes, from, from + 1, end);
    crate::overlay::lemma_behind(nodes, from, from + 1, end);
    let rest = crate::overlay::variables(nodes, next, end, path, scope, declaration);
    if i == from {
        assert(all[0].name == name);
    } else {
        lemma_not_skipped(nodes, from, from + 1, end, i);
        fields_are_found_in_their_declaration(
            nodes,
            next,
            end,
            path,
            scope,
            declaration,
            i,
            name,
            at,
        );
        let k = choose|k: int|
            0 <= k < rest.len() && {
                let found = #[trigger] rest[k];
                &&& found.name == name
                &&& found.kind is Field
                &&& found.path == path
                &&& found.range == crate::overlay::span_between(at.0, at.1)
            };
        let first = all.len() - rest.len();
        assert(all[first + k] == rest[k]);
    }
}

proof fn lemma_not_skipped(nodes: Seq<SyntaxView>, from: int, at: int, end: int, i: int)
    requires
        from < at <= i < end,
        nodes[i].depth <= nodes[from].depth,
    ensures
        crate::overlay::behind(nodes, from, at, end) <= i,
    decreases end - at,
{
    if at < i && nodes[at].depth > nodes[from].depth {
        lemma_not_skipped(nodes, from, at + 1, end, i);
    }
}

} // verus!
