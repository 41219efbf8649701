//! Declared but unconsumed: dependencies a manifest declares that no file in its scope imports,
//! feature flags nothing checks that gate only such dependencies, and config knobs a `Deserialize`
//! struct accepts that no code reads.
//!
//! Every finding is a zero-reference test on a manifest or a struct field, enriched with the commit
//! that declared it or removed its last consumer. Only Cargo manifests are parsed; the manifests of
//! other ecosystems are counted.

pub mod features;
pub mod history;
pub mod knobs;
pub mod laws;
pub mod uses;
pub mod links;
pub mod lives;
pub mod manifest;
pub mod names;
pub mod orphans;
pub mod render;
pub mod report;
pub mod scope;
pub mod side;
pub mod sources;
pub mod structs;
pub mod told;
pub mod words;
