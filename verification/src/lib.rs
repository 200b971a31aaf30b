//! A scanner for whitespace-delimited input: it splits a byte source into tokens and
//! converts them into numbers, text, tuples and sequences.

pub mod error;
pub mod grammar;
pub mod iter;
pub mod line;
pub mod parse;
pub mod scan;
pub mod sequence;
pub mod stream;
pub mod tokenizer;

pub use error::Error;
pub use grammar::is_ascii_whitespace;
pub use iter::{fscan_iter, fscanln_iter, next_item, scan_iter, FscanIter, ScanIter, ScanlnIter};
pub use line::{fread_line, fscanln};
pub use scan::{fscan, FromTokens};
pub use sequence::{scan_all, scan_vec};
pub use stream::{ReadEvent, Step, StreamScan};
pub use tokenizer::Tokenizer;
