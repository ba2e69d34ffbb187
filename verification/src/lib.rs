//! Flattens a parsed import tree — possibly holding nested groups, renames,
//! wildcard markers and self-references — into a flat, source-ordered
//! sequence of fully-qualified import records.

pub mod flatten;
pub mod import;
pub mod laws;
