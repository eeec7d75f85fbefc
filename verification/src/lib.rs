//! A miniature single-node, in-memory key-value store with a command
//! language covering scalar values, counters, and set algebra.
//!
//! The crate is organised around four components:
//! - the value model ([`domain`]): primitives, stored values, commands;
//! - the parser ([`parse`]): turns one line of text into a [`domain::Command`];
//! - the store operations ([`incr`], [`sadd`], [`scard`], [`set`]): one
//!   operation per command kind, each a verified transition on the store;
//! - the dispatcher ([`dispatch`]): maps a parsed command to its operation
//!   and renders the outcome to display text.
//!
//! Every operation carries a contract that pins down, over the store's
//! mathematical view (`Map<Seq<char>, DataV>`), exactly which inputs succeed,
//! which fail with which error, and how the store changes.

pub mod domain;
pub mod errors;
pub mod text;
pub mod store;
pub mod set;
pub mod incr;
pub mod sadd;
pub mod scard;
pub mod parse;
pub mod dispatch;
pub mod laws;
