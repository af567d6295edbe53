//! A verified lexical scanner.
//!
//! The scanner turns raw source text into an ordered sequence of classified
//! tokens: delimiters, identifiers, numeric literals (binary, decimal or
//! hexadecimal, with underscores as digit separators and an optional
//! fractional part), string literals with escapes preserved verbatim, and
//! comments (consumed, never emitted). The `model` module gives the
//! mathematical description of the scan, `scan` the executable scanner proved
//! against it, and `laws` the properties that hold of every scan.

pub mod laws;
pub mod model;
pub mod scan;
