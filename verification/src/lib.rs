//! Batch renaming by regular expression and template.
//!
//! A name is matched against a pattern; where it matches, a new name is built
//! from a template whose placeholders `$(0)`, `$(1)`, ... stand for the
//! pattern's capture groups. The library decides what is to be done with each
//! entry of a directory and keeps the run's totals; listing directories and
//! renaming entries is left to the caller.

pub mod text;
pub mod decimal;
pub mod engine;
pub mod pattern;
pub mod template;
pub mod outcome;
pub mod classify;
pub mod traverse;
