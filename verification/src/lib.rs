//! Redaction engine and tree synchronizer for publishing a private source
//! tree as a public skeleton: comment-embedded directives mark private
//! regions, which are hidden or replaced by placeholder lines, and the
//! destination tree is kept in sync with a declared set of entries.

pub mod bytes;
pub mod directive;
pub mod engine;
pub mod laws;
pub mod sync;
