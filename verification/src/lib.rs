//! Verified parsing of a metadata tool's line-oriented `tag: value` output
//! into a typed attribute store, with include-all, whitelist and blacklist
//! filtering policies.

pub mod exif;
pub mod laws;
pub mod text;
