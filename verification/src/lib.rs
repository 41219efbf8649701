//! Code hotspot analysis.

pub mod clones;
pub mod clumps;
pub mod comments;
pub mod config;
pub mod cursor;
pub mod dead;
pub mod declared;
pub mod deps;
pub mod discover;
pub mod docs;
pub mod fallback;
pub mod globs;
pub mod lang;
pub mod laws;
pub mod layers;
pub mod lines;
pub mod names;
pub mod order;
pub mod paths;
pub mod patterns;
pub mod regions;
pub mod rows;
pub mod sorting;
pub mod text;
pub mod tree;
pub mod units;
