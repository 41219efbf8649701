//! Comments as structure: the banners and phase labels an author wrote into the source.
//!
//! Banners at the file root partition it into labelled sections ([`banners`]); phase comments
//! inside a function over the cognitive threshold say where to cut it ([`phases`]). One walk feeds
//! both ([`walker`]); neither is a score input.

pub mod banners;
pub mod kinds;
pub mod laws;
pub mod lines;
pub mod phases;
pub mod render;
pub mod report;
pub mod titles;
