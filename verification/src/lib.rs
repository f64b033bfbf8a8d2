//! An incremental, byte-oriented CSV tokenizer. Bytes go in chunk by chunk, as
//! they arrive from a stream; every row comes out as soon as it is complete, and
//! the unfinished rest is carried to the next chunk.
//!
//! The parts, leaves first:
//!
//! - [`text`]: the conversions between bytes, numbers and strings;
//! - [`encoding`]: byte-order marks, and UTF-16 input brought to UTF-8;
//! - [`scan`]: the one rule for quotes that rows and cells share;
//! - [`cell`]: where the cells of a row lie, and which text a cell holds;
//! - [`row`]: rows as they leave the parser, and how cells are filed under labels;
//! - [`line_model`] and [`parser`]: the line parser, as a state machine over
//!   plain values and as the code that runs it;
//! - [`segment`]: the carried text cut into rows, and rows run through the line
//!   parser;
//! - [`stream_model`] and [`stream`]: the streaming parser, again as a state
//!   machine and as the code that runs it;
//! - [`cutting`] and [`laws`]: what holds of the cutting of text into rows and
//!   cells, and of the parser, whatever the input.
//!
//! Every function states what it returns over the state machines, and is proved
//! to do so. What is taken on trust are the standard library's conversions
//! between UTF-8 bytes and strings and from numbers to numerals, and the
//! decoding of UTF-16 by `encoding_rs`.

pub mod cell;
pub mod cutting;
pub mod encoding;
pub mod error;
pub mod laws;
pub mod line_model;
pub mod parser;
pub mod row;
pub mod scan;
pub mod segment;
pub mod stream;
pub mod stream_model;
pub mod text;

pub use row::{LabeledRow, ParsedRow};
pub use stream::{CsvParser, HeadersOption, JsCsvParserOptions};
