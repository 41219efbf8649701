//! Parse-default fallbacks: a literal default applied to the result of a fallible transform.
//!
//! `fields.next().unwrap_or("")` and `t.parse().ok().unwrap_or(0)` are how a malformed input line
//! turns into author "" at timestamp 0 without a word: the failure is swallowed at the one site
//! that could have reported it. The measure counts, per unit, the fallback sites whose receiver
//! chain holds a syntactically fallible transform and whose default is a literal or an empty
//! constructor ([`sites`]); two such sites in one unit make a reason ([`reasons`]).

pub mod laws;
pub mod literals;
pub mod reasons;
pub mod sites;
