# jabar

A language server for navigating Java in large Bazel workspaces. It answers
`workspace/symbol`, go-to-definition, references, hover, implementations,
outlines and call hierarchies from an index of SCIP shards, which a Bazel aspect
builds, and from the text of the files that the client has open.

Its rule is that no answer is better than a wrong one: without an index, or where
a file is newer than the index, a query is refused rather than answered empty.

## Layout

- `src/` is the library, written in Verus. Every function states what it does, and
  the statements are proved. Functions named as sentences, such as
  `newer_source_is_not_looked_up`, are laws of the library as a whole.
- `app/` is the executable around it: the event loop, files, processes, JSON and
  MessagePack. It performs what the library decides.
- `tests/` runs the library.

What is not proved is what other crates do. Each function that calls one says, in
the comment above it, what it takes for granted: how paths are split (`camino`),
how URLs are read (`url`, through `lsp-types`), what a shard holds (`scip`,
`protobuf`), what a Java file declares (`tree-sitter`), and what hash tables hold
(`rustc-hash`, `indexmap`).

One program serves three purposes, by the name it is called by: `jabar` is the
server, `jabar-bench` measures one, and `jabar-gen-shard` writes a shard to try one
on.
