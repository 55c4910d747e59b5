//! A pull scanner for whitespace-separated tokens, and the loop that runs a
//! handler once per test case.
//!
//! - `text`: what whitespace, tokens and lines are, and how a line is split.
//! - `parse`: what a token denotes, as an integer or as a string.
//! - `source`: a source of text that is read line by line.
//! - `scanner`: the scanner, which pulls one token at a time from a source.
//! - `driver`: the loop that reads the number of cases and handles each.
//! - `laws`: what holds of reads in a row, whatever the layout of the input.
//!
//! The text that is still to be read is modelled as a `Seq<char>`. What a
//! scanner will hand out is the sequence of the tokens of that text, and
//! the contracts are stated over it.

pub mod driver;
pub mod laws;
pub mod parse;
pub mod scanner;
pub mod source;
pub mod text;

pub use driver::{run, solve};
pub use parse::FromToken;
pub use scanner::{ScanError, Scanner};
pub use source::{LineSource, TextSource};
