//! Separates program text into outside text and block-comment bodies.
//!
//! A scanner walks the text one character at a time, with one character of
//! lookbehind and one of lookahead, and classifies every character as outside
//! text, comment text, or part of a `/*` or `*/` delimiter. An accumulator
//! groups what the scanner emits into slices, and the slices are rendered back
//! to text with every multi-line comment body padded by newlines.
//!
//! - [`scanner`]: the statuses, the three-character window and the step rules.
//! - [`accumulator`]: slices, and how emitted characters are grouped into them.
//! - [`format`]: the comment formatter.
//! - [`parser`]: the scan of a whole text, rendering, and rewriting.
//! - [`shape`]: what every scan keeps true of the runs it builds.
//! - [`rescan`]: how a rendered text is scanned, piece by piece.
//! - [`literal`]: string literals come through unchanged.
//! - [`laws`]: what holds of rewriting, for every text.
//! - [`text`]: what is taken on trust of the standard library.
pub mod accumulator;
pub mod format;
pub mod laws;
pub mod literal;
pub mod parser;
pub mod rescan;
pub mod scanner;
pub mod shape;
pub mod text;
