//! Near-exact clone detection.
//!
//! Tokens come from the leaves of a syntax tree with identifiers, strings and numbers collapsed to
//! classes, so renamed copies still match. Every k-token window is hashed; winnowing keeps one
//! fingerprint per w-window, which guarantees any shared run of at least k+w-1 tokens is found while
//! indexing a fraction of the hashes. Matching fingerprints on the same diagonal are merged into
//! runs.
//!
//! Two tree-aware steps follow: a same-file run whose two ranges sit in one container (the first
//! half of a `match` matching its second half) is a repetition, not a copy, and is dropped; a
//! surviving run whose sides are both runs of uniform sibling entries (a dispatch match, a registry
//! array, a map literal) is tagged as a table so it is listed apart from duplicated logic.

pub mod classify;
pub mod compare;
pub mod contexts;
pub mod detect;
pub mod families;
pub mod found;
pub mod laws;
pub mod listed;
pub mod render;
pub mod runs;
pub mod tables;
pub mod tokens;
pub mod winnow;
