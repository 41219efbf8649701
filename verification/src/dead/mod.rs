//! Dead surface: exported symbols nothing outside their file uses, symbols only tests keep alive,
//! and (Rust) struct fields nothing reads and enum variants nothing constructs.
//!
//! One walk over each parsed tree ([`walk`]) collects definitions and identifier references by
//! bare name, split into production and test context; [`index`] puts the files side by side;
//! [`modes`] decides what counts as an API; [`report`] sorts every candidate into a category.

pub mod analyze;
pub mod index;
pub mod laws;
pub mod modes;
pub mod render;
pub mod report;
pub mod shapes;
pub mod verdicts;
pub mod walk;
