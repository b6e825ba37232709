//! A minifier for Rust token trees.
//!
//! The library re-serializes a token tree into the shortest text that still
//! lexes to an equivalent token sequence, re-checks the candidate by
//! re-tokenizing it, and falls back to an always-safe space-separated
//! rendering when the check fails.  An independent pass removes
//! documentation attributes and documentation-lint entries from an item's
//! metadata.

pub mod canonical;
pub mod docstrip;
pub mod minify;
pub mod serialize;
pub mod token;
