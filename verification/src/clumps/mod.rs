//! Parameter tuple clumps: one group of parameter names recurring across functions, with the slots
//! no member reads.
//!
//! A family of functions is extended by copying the last sibling's signature, so five `plan_*`
//! functions carry `(s, f, a, _m)` and every one of them leaves `_m` unread. Per function the pass
//! keeps the named parameters (receivers out) with their type text; every combination of names is
//! grouped over all files, a group is a clump when it has enough members or files and enough slots
//! agree on a type, and each slot says how many members leave it unused. A lead, not a defect.

pub mod choices;
pub mod clump;
pub mod groups;
pub mod laws;
pub mod params;
pub mod render;
pub mod report;
pub mod side;
