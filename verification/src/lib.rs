//! A navigation server for Java in Bazel workspaces.
//!
//! This crate is what the server decides and computes, with what each part does
//! stated and proved beside it. It reads no file and sends no message: the
//! executable hands it what it read, and performs what it says.
//!
//! - What is named: [`label`], [`paths`], [`vfs_path`], [`uri`].
//! - What a file holds: [`line_index`], [`documents`], [`vfs`], [`base_db`],
//!   [`sources`], [`overlay`].
//! - The index: [`span`], [`definition`], [`shard`], [`shard_set`],
//!   [`symbol_index`], with its model in [`index_model`] and laws in
//!   [`index_laws`], and [`index_cache`], which keeps it from one run to the next.
//! - What is asked of it: [`handlers`], [`server`], [`protocol`],
//!   [`capabilities`].
//! - How it comes and goes: [`startup`], [`reconcile`], [`session`], [`watcher`].
//! - What Bazel is asked and answers: [`bazel`], [`aquery`], [`aspect`],
//!   [`config`].
//! - How the server fares: [`telemetry`], [`bench`], [`bench_client`],
//!   [`gen_shard`].
//! - What all of these use: [`text`], [`order`], [`table`], [`path_interner`].

pub mod aquery;
pub mod aspect;
pub mod base_db;
pub mod bazel;
pub mod bench;
pub mod bench_client;
pub mod capabilities;
pub mod config;
pub mod definition;
pub mod documents;
pub mod gen_shard;
pub mod handlers;
pub mod index_cache;
pub mod index_laws;
pub mod index_model;
pub mod label;
pub mod line_index;
pub mod order;
pub mod overlay;
pub mod path_interner;
pub mod paths;
pub mod protocol;
pub mod reconcile;
pub mod server;
pub mod session;
pub mod shard;
pub mod shard_set;
pub mod sources;
pub mod span;
pub mod startup;
pub mod symbol_index;
pub mod table;
pub mod telemetry;
pub mod text;
pub mod uri;
pub mod vfs;
pub mod vfs_path;
pub mod watcher;
