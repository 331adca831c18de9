//! Compiler for a compact schema notation.
//!
//! A schema is a comma-separated list of `key: type` or
//! `key: type => constraints` entries, optionally wrapped in braces. The
//! compiler turns it into one descriptor per field: the key, the type tag and
//! the four-slot encoding of the field's constraints.
//!
//! Every function is specified over `Seq<char>` views and proved against that
//! specification.

pub mod compiler;
pub mod entry;
pub mod error;
pub mod mask;
pub mod number;
pub mod text;
pub mod validators;
