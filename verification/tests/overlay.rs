//! Declarations parsed from source.
use jabar::definition::{Definition, SymbolKind};
use jabar::overlay::{declarations_in, Overlay, SyntaxNode, OVERLAY_PREFIX};
use jabar::span::{PositionEncoding, Range};

fn parse(source: &str) -> Vec<Definition> {
    Overlay::new().parse("java/com/acme/A.java", source)
}

fn names(defs: &[Definition]) -> Vec<&str> {
    defs.iter().map(|d| d.name.as_str()).collect()
}

#[test]
fn declarations_come_back_in_source_order() {
    let defs = parse(
        "package com.acme;\n\
         public class Outer {\n\
           private int count;\n\
           public Outer() {}\n\
           public void run() {}\n\
         }\n",
    );
    assert_eq!(names(&defs), ["Outer", "count", "Outer", "run"]);
    let lines: Vec<u32> = defs.iter().map(|d| d.range.start_line).collect();
    assert!(lines.windows(2).all(|w| w[0] <= w[1]), "not in source order: {lines:?}");
}

#[test]
fn kinds_are_distinguished() {
    let defs = parse(
        "class C {}\n\
         interface I {}\n\
         enum E { A }\n\
         record R(int x) {}\n",
    );
    let kinds: Vec<SymbolKind> = defs.iter().map(|d| d.kind).collect();
    assert_eq!(kinds[0], SymbolKind::Class);
    assert_eq!(kinds[1], SymbolKind::Interface);
    assert_eq!(kinds[2], SymbolKind::Enum);
    // An enum constant is a member, and a record is a class to any client.
    assert!(kinds.contains(&SymbolKind::Field));
    assert_eq!(*kinds.last().unwrap(), SymbolKind::Class);
}

#[test]
fn nested_types_are_qualified_but_keep_their_short_name() {
    let defs = parse("class Outer {\n  static class Nested {\n    void inner() {}\n  }\n}\n");
    let nested = defs.iter().find(|d| d.name == "Nested").expect("the nested class");
    // The short name is what a client searches for.
    assert_eq!(nested.name, "Nested");
    // The symbol carries the scope, so two files' `Nested` do not collide.
    assert!(nested.symbol.ends_with("#Outer.Nested"), "symbol: {}", nested.symbol);

    let inner = defs.iter().find(|d| d.name == "inner").expect("the method");
    assert!(inner.symbol.ends_with("#Outer.Nested.inner"), "symbol: {}", inner.symbol);
}

#[test]
fn one_field_declaration_can_bind_several_names() {
    let defs = parse("class C { private int a, b, c; }\n");
    assert_eq!(names(&defs), ["C", "a", "b", "c"]);
}

#[test]
fn a_half_written_file_still_yields_what_it_can() {
    // The reason tree-sitter is here rather than a stricter parser: a file
    // being edited is the normal case, and returning nothing for it puts us
    // back to answering "no such symbol".
    //
    // Recovery is partial, and this pins how partial. Declarations before
    // the error survive, including the broken one's own name. What follows
    // a malformed signature does not: the open paren swallows the rest of
    // the class body into an error node. So the overlay degrades toward
    // fewer symbols, never toward wrong ones -- which is the direction that
    // matters, since a missing symbol is a worse answer only than a correct
    // one, while a fabricated symbol is worse than nothing.
    let defs = parse(
        "public class Broken {\n\
           public void done() {}\n\
           public void half( {\n\
           public void after() {}\n",
    );
    let found = names(&defs);
    assert!(found.contains(&"Broken"), "the class survives: {found:?}");
    assert!(found.contains(&"done"), "declarations before the error survive: {found:?}");
    assert!(found.contains(&"half"), "including the broken one's name: {found:?}");
    assert!(
        !found.contains(&"after"),
        "recovery does not reach past a malformed signature; if this starts \
         passing, tree-sitter improved and the docs above should say so: {found:?}"
    );
}

#[test]
fn an_unclosed_brace_does_not_lose_the_file() {
    // The commoner shape of "mid-edit": a body not yet closed. Everything
    // declared so far is still found.
    let defs = parse("class C {\n  void a() {}\n  void b() {\n");
    let found = names(&defs);
    assert!(found.contains(&"C") && found.contains(&"a") && found.contains(&"b"), "{found:?}");
}

#[test]
fn an_empty_or_nonsense_file_is_not_an_error() {
    assert!(parse("").is_empty());
    assert!(parse("\u{0}\u{1}not java at all").is_empty());
}

#[test]
fn columns_are_bytes_and_the_definition_says_so() {
    // The whole reason `encoding` is per definition. tree-sitter counts
    // bytes; the index counts UTF-16 units. Both convert on the way out.
    let source = "class Grüße { void après() {} }\n";
    let defs = parse(source);
    let method = defs.iter().find(|d| d.name == "après").expect("the method");
    assert_eq!(method.encoding, PositionEncoding::Utf8);

    let line = source.lines().next().unwrap();
    let start = method.range.start_col as usize;
    assert_eq!(&line[start..start + "après".len()], "après", "byte columns, not UTF-16");

    // And the two genuinely disagree on this line, which is what makes the
    // per-definition encoding field load-bearing rather than decorative:
    // `Grüße` costs two extra bytes before this column.
    let utf16_col = line[..start].encode_utf16().count();
    assert_eq!((start, utf16_col), (21, 19));
}

#[test]
fn overlay_symbols_cannot_be_mistaken_for_indexed_ones() {
    // Joining an overlay symbol to an indexed one would fabricate a
    // relationship no compiler established.
    let defs = parse("class C {}\n");
    assert!(defs[0].symbol.starts_with(OVERLAY_PREFIX));
    assert!(!defs[0].symbol.starts_with("semanticdb"));
}

#[test]
fn nothing_unresolvable_is_invented() {
    // tree-sitter parses; it does not resolve. Claiming otherwise is how a
    // plausible wrong answer gets made.
    let defs = parse("class C implements Runnable {\n  /** Docs. */ public void run() {}\n}\n");
    let class = &defs[0];
    assert!(class.implements.is_empty(), "supertypes need resolution");
    assert!(class.documentation.is_empty(), "javadoc is not extracted");
    assert!(class.signature.is_empty(), "signatures need types");
}

#[test]
fn the_declaration_span_contains_the_name() {
    // `documentSymbol` nests by this, and LSP requires the outer range to
    // contain the selection range.
    let defs = parse("class Outer {\n  void method() {\n    int x = 1;\n  }\n}\n");
    for def in &defs {
        let span = def.enclosing.expect("every declaration has a span");
        assert!(
            (span.start_line, span.start_col) <= (def.range.start_line, def.range.start_col),
            "{} span starts after its name",
            def.name
        );
        assert!(
            (def.range.end_line, def.range.end_col) <= (span.end_line, span.end_col),
            "{} name ends after its span",
            def.name
        );
    }
}

type Span = ((usize, usize), (usize, usize));

fn node(kind: &str, depth: u32, span: Span, name: Option<(&str, Span)>) -> SyntaxNode {
    SyntaxNode {
        kind: kind.to_owned(),
        named: true,
        depth,
        span,
        name: name.map(|(text, at)| (text.to_owned(), at)),
    }
}

#[test]
fn a_tree_is_read_without_its_parser() {
    let nodes = vec![
        node("program", 0, ((0, 0), (4, 0)), None),
        node("class_declaration", 1, ((0, 0), (3, 1)), Some(("Outer", ((0, 6), (0, 11))))),
        node("class_body", 2, ((0, 12), (3, 1)), None),
        node("method_declaration", 3, ((1, 2), (2, 3)), Some(("run", ((1, 7), (1, 10))))),
        node("interface_declaration", 1, ((3, 2), (3, 16)), Some(("Next", ((3, 12), (3, 16))))),
    ];
    let found = declarations_in(&nodes, "A.java");
    assert_eq!(names(&found), ["Outer", "run", "Next"]);
    assert!(found[1].symbol.ends_with("#Outer.run"), "{}", found[1].symbol);
    assert!(found[2].symbol.ends_with("#Next"), "the class is behind: {}", found[2].symbol);
    assert_eq!(
        found[1].enclosing,
        Some(Range { start_line: 1, start_col: 2, end_line: 2, end_col: 3 })
    );
    assert_eq!(found[1].path, "A.java");
}
