//! Declarations parsed from source, for files the index cannot see yet.
//!
//! The SCIP index is a build output, so it describes the tree as it was when
//! the aspect last ran. Everything an agent has just written is missing from it.
//! That gap is the one place the server would otherwise say something untrue: a
//! query for a class written thirty seconds ago finds nothing, and "nothing
//! found" is indistinguishable from "no such class".
//!
//! This closes it for the operations that only need declarations:
//! `documentSymbol`, and a symbol's name and position. It deliberately does not
//! attempt more.
//!
//! # What it cannot do
//!
//! tree-sitter parses; it does not resolve. So an overlay symbol has a name and
//! a range and nothing else: no supertypes, no references, no idea whether two
//! `Foo`s in different files are the same `Foo`. The symbols it produces are
//! marked distinctly, so nothing downstream joins them to indexed symbols by
//! accident.
//!
//! # Positions
//!
//! tree-sitter counts columns in bytes, so definitions are emitted as
//! [`PositionEncoding::Utf8`]. The index emits UTF-16. Both flow through the
//! same conversion on the way out, which is why that field exists per
//! definition rather than per index.
use tree_sitter::{Node, Parser, Point, Tree};
use tree_sitter_java::LANGUAGE;
use vstd::prelude::*;

use crate::definition::{Definition, DefinitionView, SymbolKind};
use crate::span::{PositionEncoding, Range};
use crate::text::{copy_texts, join_texts, same_text};

pub mod laws;

verus! {

/// Marks a symbol as parsed rather than indexed.
///
/// SCIP symbols begin with a scheme like `semanticdb maven`. This prefix cannot
/// collide with one, and makes an overlay symbol obvious in a log or a test.
pub const OVERLAY_PREFIX: &'static str = "jabar-overlay";

/// A node of a syntax tree. The nodes of a tree are listed each before those
/// below it, from left to right.
#[derive(Debug)]
pub struct SyntaxNode {
    /// The rule of the grammar, or the token.
    pub kind: String,
    /// Whether the grammar names the rule; tokens are not named.
    pub named: bool,
    /// How far below the root the node is.
    pub depth: u32,
    /// Row and column of the first byte, and behind the last.
    pub span: ((usize, usize), (usize, usize)),
    /// The text and the span of the child that names what is declared, if there
    /// is one.
    pub name: Option<(String, ((usize, usize), (usize, usize)))>,
}

/// The view of a [`SyntaxNode`].
#[verifier::ext_equal]
pub struct SyntaxView {
    pub kind: Seq<char>,
    pub named: bool,
    pub depth: u32,
    pub span: ((usize, usize), (usize, usize)),
    pub name: Option<(Seq<char>, ((usize, usize), (usize, usize)))>,
}

impl View for SyntaxNode {
    type V = SyntaxView;

    open spec fn view(&self) -> SyntaxView {
        SyntaxView {
            kind: self.kind@,
            named: self.named,
            depth: self.depth,
            span: self.span,
            name: match self.name {
                Some((name, span)) => Some((name@, span)),
                None => None,
            },
        }
    }
}

/// The views of some nodes.
pub open spec fn syntax_views(nodes: Seq<SyntaxNode>) -> Seq<SyntaxView> {
    Seq::new(nodes.len(), |i: int| nodes[i]@)
}

/// A syntax tree.
#[verifier::external_type_specification]
#[verifier::external_body]
pub struct ExTree(Tree);

/// The nodes that a syntax tree holds, each before those below it, from left to
/// right.
pub uninterp spec fn nodes_of(tree: Tree) -> Seq<SyntaxView>;

/// The text that a syntax tree is one of.
pub uninterp spec fn source_of(tree: Tree) -> Seq<char>;

/// The nodes of the syntax tree of a Java source text.
pub uninterp spec fn parsed_source(text: Seq<char>) -> Option<Seq<SyntaxView>>;

/// `tree_sitter::Parser::parse` with the Java grammar of `tree_sitter_java`, on
/// a text of its own: the tree of the text, whose nodes depend on the text alone.
/// What tree a text has is left to the grammar.
#[verifier::external_body]
fn parse_tree(text: &str) -> (tree: Option<Tree>)
    ensures
        (match tree {
            Some(tree) => Some(nodes_of(tree)),
            None => None,
        }) == parsed_source(text@),
        tree matches Some(tree) ==> source_of(tree) == text@,
{
    let mut parser = Parser::new();
    parser.set_language(&LANGUAGE.into()).ok()?;
    parser.parse(text, None)
}

/// `tree_sitter::TreeCursor::goto_descendant`, `node` and `depth`: the nodes of a
/// tree, listed by their descendant index, each with its kind, position and depth
/// and the text and position of the child that the grammar's field `name` gives.
#[verifier::external_body]
fn list_nodes(tree: &Tree, text: &str) -> (nodes: Vec<SyntaxNode>)
    requires
        source_of(*tree) == text@,
    ensures
        syntax_views(nodes@) == nodes_of(*tree),
{
    let mut cursor = tree.walk();
    let at = |p: Point| (p.row, p.column);
    let span = |n: Node| (at(n.start_position()), at(n.end_position()));
    let count = tree.root_node().descendant_count();
    (0..count).map(|i| {
        cursor.goto_descendant(i);
        let node = cursor.node();
        let name = node.child_by_field_name("name").and_then(|n| {
            Some((n.utf8_text(text.as_bytes()).ok()?.to_owned(), span(n)))
        });
        SyntaxNode {
            kind: node.kind().to_owned(), named: node.is_named(),
            depth: cursor.depth(), span: span(node), name,
        }
    }).collect()
}

/// A span between two places.
pub open spec fn span_between(start: (usize, usize), end: (usize, usize)) -> Range {
    Range {
        start_line: start.0 as u32,
        start_col: start.1 as u32,
        end_line: end.0 as u32,
        end_col: end.1 as u32,
    }
}

/// Computes [`span_between`].
fn to_range(start: (usize, usize), end: (usize, usize)) -> (range: Range)
    ensures
        range == span_between(start, end),
{
    Range {
        start_line: start.0 as u32,
        start_col: start.1 as u32,
        end_line: end.0 as u32,
        end_col: end.1 as u32,
    }
}

/// What a node of this kind declares, if anything.
pub open spec fn declared_kind(kind: Seq<char>) -> Option<SymbolKind> {
    if kind == "class_declaration"@ {
        Some(SymbolKind::Class)
    } else if kind == "interface_declaration"@ {
        Some(SymbolKind::Interface)
    } else if kind == "enum_declaration"@ {
        Some(SymbolKind::Enum)
    } else if kind == "record_declaration"@ {
        // A record is a class as far as any client is concerned.
        Some(SymbolKind::Class)
    } else if kind == "method_declaration"@ {
        Some(SymbolKind::Method)
    } else if kind == "constructor_declaration"@ {
        Some(SymbolKind::Constructor)
    } else if kind == "enum_constant"@ {
        Some(SymbolKind::Field)
    } else {
        None
    }
}

/// Computes [`declared_kind`].
fn kind_of(kind: &str) -> (declared: Option<SymbolKind>)
    ensures
        declared == declared_kind(kind@),
{
    if same_text(kind, "class_declaration") {
        Some(SymbolKind::Class)
    } else if same_text(kind, "interface_declaration") {
        Some(SymbolKind::Interface)
    } else if same_text(kind, "enum_declaration") {
        Some(SymbolKind::Enum)
    } else if same_text(kind, "record_declaration") {
        Some(SymbolKind::Class)
    } else if same_text(kind, "method_declaration") {
        Some(SymbolKind::Method)
    } else if same_text(kind, "constructor_declaration") {
        Some(SymbolKind::Constructor)
    } else if same_text(kind, "enum_constant") {
        Some(SymbolKind::Field)
    } else {
        None
    }
}

/// Whether a declaration introduces a scope. Only types do; a method's locals
/// are not indexed.
pub open spec fn opens_scope(kind: SymbolKind) -> bool {
    kind is Class || kind is Interface || kind is Enum
}

/// A name with the types around it.
pub open spec fn qualified(scope: Seq<Seq<char>>, name: Seq<char>) -> Seq<char> {
    if scope.len() == 0 {
        name
    } else {
        crate::text::joined_by(scope, "."@) + "."@ + name
    }
}

/// The definition that a node gives: it has the node's name and the span of
/// `declaration`, and nothing that only a compiler knows. Nothing where the
/// node has no name.
pub open spec fn definition_of(
    node: SyntaxView,
    path: Seq<char>,
    scope: Seq<Seq<char>>,
    kind: SymbolKind,
    declaration: SyntaxView,
) -> Option<DefinitionView> {
    match node.name {
        Some((name, span)) => if name.len() == 0 {
            None
        } else {
            Some(
                DefinitionView {
                    symbol: OVERLAY_PREFIX@ + " "@ + path + "#"@ + qualified(scope, name),
                    name,
                    kind,
                    path,
                    range: span_between(span.0, span.1),
                    encoding: PositionEncoding::Utf8,
                    implements: Seq::empty(),
                    documentation: Seq::empty(),
                    signature: Seq::empty(),
                    enclosing: Some(span_between(declaration.span.0, declaration.span.1)),
                },
            )
        },
        None => None,
    }
}

/// Computes [`definition_of`].
fn definition(
    node: &SyntaxNode,
    path: &str,
    scope: &Vec<String>,
    kind: SymbolKind,
    declaration: &SyntaxNode,
) -> (definition: Option<Definition>)
    ensures
        (match definition {
            Some(definition) => Some(definition@),
            None => None,
        }) == definition_of(node@, path@, crate::text::texts(scope@), kind, declaration@),
{
    proof {
        reveal_strlit("");
        assert(""@ =~= Seq::<char>::empty());
    }
    let (name, span) = match &node.name {
        Some((name, span)) => (name, *span),
        None => {
            return None;
        },
    };
    if same_text(name, "") {
        return None;
    }
    assert(name@.len() > 0) by {
        if name@.len() == 0 {
            assert(name@ =~= ""@);
        }
    }
    let mut symbol = OVERLAY_PREFIX.to_owned();
    symbol.append(" ");
    symbol.append(path);
    symbol.append("#");
    if scope.len() > 0 {
        let around = join_texts(scope, ".");
        symbol.append(around.as_str());
        symbol.append(".");
    }
    symbol.append(name.as_str());
    assert(symbol@ =~= OVERLAY_PREFIX@ + " "@ + path@ + "#"@ + qualified(
        crate::text::texts(scope@),
        name@,
    ));
    let none: Vec<String> = Vec::new();
    let empty: Vec<String> = Vec::new();
    assert(crate::text::texts(none@) =~= Seq::<Seq<char>>::empty());
    assert(crate::text::texts(empty@) =~= Seq::<Seq<char>>::empty());
    let signature = String::new();
    assert(signature@ =~= Seq::<char>::empty());
    Some(
        Definition {
            symbol,
            name: name.clone(),
            kind,
            path: path.to_owned(),
            range: to_range(span.0, span.1),
            encoding: PositionEncoding::Utf8,
            implements: none,
            documentation: empty,
            signature,
            enclosing: Some(to_range(declaration.span.0, declaration.span.1)),
        },
    )
}

/// Where the nodes below the one at `i` end: the first later node that is no
/// deeper, or `end`.
pub open spec fn behind(nodes: Seq<SyntaxView>, i: int, at: int, end: int) -> int
    decreases end - at,
{
    if at >= end || nodes[at].depth <= nodes[i].depth {
        at
    } else {
        behind(nodes, i, at + 1, end)
    }
}

/// Nodes below one lie behind it.
pub proof fn lemma_behind(nodes: Seq<SyntaxView>, i: int, at: int, end: int)
    requires
        at <= end,
    ensures
        at <= behind(nodes, i, at, end) <= end,
    decreases end - at,
{
    if !(at >= end || nodes[at].depth <= nodes[i].depth) {
        lemma_behind(nodes, i, at + 1, end);
    }
}

/// The definitions that the variables of a field declaration give: those of its
/// named children that declare one, since a declaration can bind several names.
pub open spec fn variables(
    nodes: Seq<SyntaxView>,
    from: int,
    end: int,
    path: Seq<char>,
    scope: Seq<Seq<char>>,
    declaration: SyntaxView,
) -> Seq<DefinitionView>
    decreases end - from,
{
    if from < 0 || from >= end || end > nodes.len() {
        Seq::empty()
    } else {
        proof {
            lemma_behind(nodes, from, from + 1, end);
        }
        let node = nodes[from];
        let own = if node.named && node.kind == "variable_declarator"@ {
            definition_of(node, path, scope, SymbolKind::Field, declaration)
        } else {
            None
        };
        (match own {
            Some(definition) => seq![definition],
            None => Seq::empty(),
        }) + variables(
            nodes,
            behind(nodes, from, from + 1, end),
            end,
            path,
            scope,
            declaration,
        )
    }
}

/// The definitions that the siblings from `from` to `end`, and what lies below
/// them, give in the scope of the types around them. What lies below a token is
/// not looked at.
pub open spec fn declarations(
    nodes: Seq<SyntaxView>,
    from: int,
    end: int,
    path: Seq<char>,
    scope: Seq<Seq<char>>,
) -> Seq<DefinitionView>
    decreases end - from,
{
    if from < 0 || from >= end || end > nodes.len() {
        Seq::empty()
    } else {
        proof {
            lemma_behind(nodes, from, from + 1, end);
        }
        let node = nodes[from];
        let next = behind(nodes, from, from + 1, end);
        let rest = declarations(nodes, next, end, path, scope);
        if !node.named {
            rest
        } else if node.kind == "field_declaration"@ {
            variables(nodes, from + 1, next, path, scope, node) + rest
        } else {
            let own = match declared_kind(node.kind) {
                Some(kind) => definition_of(node, path, scope, kind, node),
                None => None,
            };
            match own {
                Some(definition) => seq![definition] + declarations(
                    nodes,
                    from + 1,
                    next,
                    path,
                    if opens_scope(definition.kind) {
                        scope.push(definition.name)
                    } else {
                        scope
                    },
                ) + rest,
                None => declarations(nodes, from + 1, next, path, scope) + rest,
            }
        }
    }
}

/// Finds [`behind`].
fn find_behind(nodes: &Vec<SyntaxNode>, i: usize, end: usize) -> (next: usize)
    requires
        i < end <= nodes@.len(),
    ensures
        next == behind(syntax_views(nodes@), i as int, i + 1, end as int),
        i < next <= end,
{
    let ghost views = syntax_views(nodes@);
    let mut at: usize = i + 1;
    while at < end && nodes[at].depth > nodes[i].depth
        invariant
            views == syntax_views(nodes@),
            i < at <= end <= nodes@.len(),
            behind(views, i as int, i + 1, end as int) == behind(
                views,
                i as int,
                at as int,
                end as int,
            ),
        decreases end - at,
    {
        assert(views[at as int].depth == nodes@[at as int].depth);
        assert(views[i as int].depth == nodes@[i as int].depth);
        at += 1;
    }
    if at < end {
        assert(views[at as int].depth == nodes@[at as int].depth);
        assert(views[i as int].depth == nodes@[i as int].depth);
    }
    at
}

/// Adds [`variables`] to `out`.
fn collect_variables(
    nodes: &Vec<SyntaxNode>,
    from: usize,
    end: usize,
    path: &str,
    scope: &Vec<String>,
    declaration: &SyntaxNode,
    out: &mut Vec<Definition>,
)
    requires
        from <= end <= nodes@.len(),
    ensures
        crate::definition::definition_views(final(out)@) == crate::definition::definition_views(
            old(out)@,
        ) + variables(
            syntax_views(nodes@),
            from as int,
            end as int,
            path@,
            crate::text::texts(scope@),
            declaration@,
        ),
{
    let ghost views = syntax_views(nodes@);
    let ghost start = crate::definition::definition_views(out@);
    let ghost whole = start + variables(
        views,
        from as int,
        end as int,
        path@,
        crate::text::texts(scope@),
        declaration@,
    );
    let mut at: usize = from;
    while at < end
        invariant
            views == syntax_views(nodes@),
            at <= end <= nodes@.len(),
            whole == crate::definition::definition_views(out@) + variables(
                views,
                at as int,
                end as int,
                path@,
                crate::text::texts(scope@),
                declaration@,
            ),
        decreases end - at,
    {
        let next: usize = find_behind(nodes, at, end);
        let node = &nodes[at];
        let ghost before = crate::definition::definition_views(out@);
        assert(views[at as int] == node@);
        if node.named && same_text(&node.kind, "variable_declarator") {
            if let Some(found) = definition(node, path, scope, SymbolKind::Field, declaration) {
                let ghost view = found@;
                out.push(found);
                assert(crate::definition::definition_views(out@) =~= before.push(view));
            }
        }
        proof {
            let rest = variables(
                views,
                next as int,
                end as int,
                path@,
                crate::text::texts(scope@),
                declaration@,
            );
            assert(whole =~= crate::definition::definition_views(out@) + rest);
        }
        at = next;
    }
    assert(whole =~= crate::definition::definition_views(out@));
}

/// Adds [`declarations`] to `out`.
fn collect(
    nodes: &Vec<SyntaxNode>,
    from: usize,
    end: usize,
    path: &str,
    scope: &Vec<String>,
    out: &mut Vec<Definition>,
)
    requires
        from <= end <= nodes@.len(),
    ensures
        crate::definition::definition_views(final(out)@) == crate::definition::definition_views(
            old(out)@,
        ) + declarations(
            syntax_views(nodes@),
            from as int,
            end as int,
            path@,
            crate::text::texts(scope@),
        ),
    decreases end - from,
{
    let ghost views = syntax_views(nodes@);
    let ghost around = crate::text::texts(scope@);
    let ghost start = crate::definition::definition_views(out@);
    let ghost whole = start + declarations(views, from as int, end as int, path@, around);
    let mut at: usize = from;
    while at < end
        invariant
            views == syntax_views(nodes@),
            around == crate::text::texts(scope@),
            from <= at <= end <= nodes@.len(),
            whole == crate::definition::definition_views(out@) + declarations(
                views,
                at as int,
                end as int,
                path@,
                around,
            ),
        decreases end - at,
    {
        let next: usize = find_behind(nodes, at, end);
        let node = &nodes[at];
        let ghost before = crate::definition::definition_views(out@);
        let ghost rest = declarations(views, next as int, end as int, path@, around);
        assert(views[at as int] == node@);
        if node.named {
            if same_text(&node.kind, "field_declaration") {
                // A field's name lives on a nested `variable_declarator`, not on
                // the declaration itself.
                collect_variables(nodes, at + 1, next, path, scope, node, out);
                assert(whole =~= crate::definition::definition_views(out@) + rest);
            } else {
                let found = match kind_of(&node.kind) {
                    Some(kind) => definition(node, path, scope, kind, node),
                    None => None,
                };
                match found {
                    Some(found) => {
                        let opens = matches!(
                            found.kind,
                            SymbolKind::Class | SymbolKind::Interface | SymbolKind::Enum
                        );
                        let mut inner = copy_texts(scope);
                        let ghost copied = inner@;
                        if opens {
                            inner.push(found.name.clone());
                            assert(crate::text::texts(inner@) =~= crate::text::texts(copied).push(
                                found.name@,
                            ));
                        }
                        let ghost view = found@;
                        out.push(found);
                        assert(crate::definition::definition_views(out@) =~= before.push(view));
                        collect(nodes, at + 1, next, path, &inner, out);
                        assert(whole =~= crate::definition::definition_views(out@) + rest);
                    },
                    None => {
                        collect(nodes, at + 1, next, path, scope, out);
                        assert(whole =~= crate::definition::definition_views(out@) + rest);
                    },
                }
            }
        }
        at = next;
    }
    assert(whole =~= crate::definition::definition_views(out@));
}

/// The declarations in a syntax tree, in source order.
///
/// Nested types are qualified by those around them, so that two files' `Nested`
/// do not collide.
pub fn declarations_in(nodes: &Vec<SyntaxNode>, path: &str) -> (definitions: Vec<Definition>)
    ensures
        crate::definition::definition_views(definitions@) == declarations(
            syntax_views(nodes@),
            0,
            nodes@.len() as int,
            path@,
            Seq::empty(),
        ),
{
    let mut out: Vec<Definition> = Vec::new();
    let scope: Vec<String> = Vec::new();
    assert(crate::text::texts(scope@) =~= Seq::<Seq<char>>::empty());
    let ghost start = crate::definition::definition_views(out@);
    collect(nodes, 0, nodes.len(), path, &scope, &mut out);
    assert(crate::definition::definition_views(out@) =~= declarations(
        syntax_views(nodes@),
        0,
        nodes@.len() as int,
        path@,
        Seq::empty(),
    ));
    out
}

/// Parses Java source into declarations.
#[derive(Copy, Clone, Debug)]
pub struct Overlay;

/// What the text of a file declares, in source order.
pub open spec fn parsed_declarations(path: Seq<char>, text: Seq<char>) -> Seq<DefinitionView> {
    match parsed_source(text) {
        Some(nodes) => declarations(nodes, 0, nodes.len() as int, path, Seq::empty()),
        None => Seq::empty(),
    }
}

impl Overlay {
    /// A parser of Java source.
    pub fn new() -> (overlay: Overlay)
        ensures
            overlay == Overlay,
    {
        Overlay
    }

    /// Declarations in `text`, in source order.
    ///
    /// `path` is workspace-relative and used both to build symbol names and to
    /// say where a declaration is.
    ///
    /// Never fails. tree-sitter recovers from syntax errors, which is the whole
    /// reason it is here: a file mid-edit is the normal case, and returning
    /// nothing for it would put us back where we started.
    pub fn parse(&self, path: &str, text: &str) -> (definitions: Vec<Definition>)
        ensures
            crate::definition::definition_views(definitions@) == parsed_declarations(
                path@,
                text@,
            ),
    {
        match parse_tree(text) {
            Some(tree) => {
                let nodes = list_nodes(&tree, text);
                declarations_in(&nodes, path)
            },
            None => {
                let none: Vec<Definition> = Vec::new();
                assert(crate::definition::definition_views(none@) =~= Seq::<
                    DefinitionView,
                >::empty());
                none
            },
        }
    }
}

/// What an overlay claims of a declaration: its symbol is marked as parsed, its
/// columns count bytes, it lies in the file that was parsed, and it says nothing
/// that needs resolution.
pub open spec fn claims_only_syntax(definition: DefinitionView, path: Seq<char>) -> bool {
    &&& OVERLAY_PREFIX@.is_prefix_of(definition.symbol)
    &&& definition.path == path
    &&& definition.encoding is Utf8
    &&& definition.implements.len() == 0
    &&& definition.documentation.len() == 0
    &&& definition.signature.len() == 0
    &&& definition.enclosing is Some
    &&& definition.name.len() > 0
}

/// Nothing unresolvable is invented: every declaration of every tree claims
/// only what its syntax shows.
pub proof fn nothing_is_invented(
    nodes: Seq<SyntaxView>,
    from: int,
    end: int,
    path: Seq<char>,
    scope: Seq<Seq<char>>,
)
    ensures
        forall|k: int|
            0 <= k < declarations(nodes, from, end, path, scope).len() ==> claims_only_syntax(
                #[trigger] declarations(nodes, from, end, path, scope)[k],
                path,
            ),
    decreases end - from,
{
    if !(from < 0 || from >= end || end > nodes.len()) {
        lemma_behind(nodes, from, from + 1, end);
        let node = nodes[from];
        let next = behind(nodes, from, from + 1, end);
        let all = declarations(nodes, from, end, path, scope);
        let rest = declarations(nodes, next, end, path, scope);
        nothing_is_invented(nodes, next, end, path, scope);
        if !node.named {
        } else if node.kind == "field_declaration"@ {
            let fields = variables(nodes, from + 1, next, path, scope, node);
            lemma_variables(nodes, from + 1, next, path, scope, node);
            assert forall|k: int| 0 <= k < all.len() implies claims_only_syntax(
                #[trigger] all[k],
                path,
            ) by {
                if k < fields.len() {
                    assert(all[k] == fields[k]);
                } else {
                    assert(all[k] == rest[k - fields.len()]);
                }
            }
        } else {
            let own = match declared_kind(node.kind) {
                Some(kind) => definition_of(node, path, scope, kind, node),
                None => None,
            };
            match own {
                Some(definition) => {
                    lemma_claims(node, path, scope, definition.kind, node);
                    let inner = if opens_scope(definition.kind) {
                        scope.push(definition.name)
                    } else {
                        scope
                    };
                    let below = declarations(nodes, from + 1, next, path, inner);
                    nothing_is_invented(nodes, from + 1, next, path, inner);
                    assert forall|k: int| 0 <= k < all.len() implies claims_only_syntax(
                        #[trigger] all[k],
                        path,
                    ) by {
                        if k == 0 {
                            assert(all[k] == definition);
                        } else if k < below.len() + 1 {
                            assert(all[k] == below[k - 1]);
                        } else {
                            assert(all[k] == rest[k - 1 - below.len()]);
                        }
                    }
                },
                None => {
                    let below = declarations(nodes, from + 1, next, path, scope);
                    nothing_is_invented(nodes, from + 1, next, path, scope);
                    assert forall|k: int| 0 <= k < all.len() implies claims_only_syntax(
                        #[trigger] all[k],
                        path,
                    ) by {
                        if k < below.len() {
                            assert(all[k] == below[k]);
                        } else {
                            assert(all[k] == rest[k - below.len()]);
                        }
                    }
                },
            }
        }
    }
}

/// A definition of a node claims only syntax.
proof fn lemma_claims(
    node: SyntaxView,
    path: Seq<char>,
    scope: Seq<Seq<char>>,
    kind: SymbolKind,
    declaration: SyntaxView,
)
    ensures
        definition_of(node, path, scope, kind, declaration) matches Some(definition)
            ==> claims_only_syntax(definition, path) && definition.kind == kind,
{
    if let Some(definition) = definition_of(node, path, scope, kind, declaration) {
        assert(definition.symbol.take(OVERLAY_PREFIX@.len() as int) =~= OVERLAY_PREFIX@);
    }
}

/// The definitions of a field declaration claim only syntax.
proof fn lemma_variables(
    nodes: Seq<SyntaxView>,
    from: int,
    end: int,
    path: Seq<char>,
    scope: Seq<Seq<char>>,
    declaration: SyntaxView,
)
    ensures
        forall|k: int|
            0 <= k < variables(nodes, from, end, path, scope, declaration).len()
                ==> claims_only_syntax(
                #[trigger] variables(nodes, from, end, path, scope, declaration)[k],
                path,
            ),
    decreases end - from,
{
    if !(from < 0 || from >= end || end > nodes.len()) {
        lemma_behind(nodes, from, from + 1, end);
        let node = nodes[from];
        let next = behind(nodes, from, from + 1, end);
        let all = variables(nodes, from, end, path, scope, declaration);
        let rest = variables(nodes, next, end, path, scope, declaration);
        lemma_variables(nodes, next, end, path, scope, declaration);
        lemma_claims(node, path, scope, SymbolKind::Field, declaration);
        let n = all.len() - rest.len();
        assert forall|k: int| 0 <= k < all.len() implies claims_only_syntax(
            #[trigger] all[k],
            path,
        ) by {
            if k >= n {
                assert(all[k] == rest[k - n]);
            }
        }
    }
}

} // verus!
