//! Import graph: who depends on whom, and where the graph is tangled.
//!
//! Imports are read off syntax trees ([`extract`]), resolved against the discovered file set and
//! never the filesystem, so the graph matches what other passes see ([`resolve`]), and collapsed
//! to strongly connected components ([`graph`], [`assemble`]). Cycles are reported at two
//! granularities: file cycles are the concrete tangle, directory cycles are the architectural one.
//! Every edge knows what it carries, so a large file cycle also gets the cheapest import to cut and
//! what that buys ([`cuts`], [`words`]).

pub mod aliases;
pub mod edges;
pub mod extract;
pub mod resolve;
pub mod graph;
pub mod cuts;
pub mod words;
pub mod assemble;
pub mod statements;
pub mod tsconfig;
pub mod laws;
