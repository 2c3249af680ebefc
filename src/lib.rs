//! Structured comments: foldable, indentation-significant regions marked
//! inside ordinary line comments.
pub mod text;
pub mod classify;
pub mod format;
pub mod scfmt;
pub mod style;
pub mod lookup;
pub mod nullify;
pub mod strip;
pub mod infer;
pub mod laws;
pub mod textlaws;
