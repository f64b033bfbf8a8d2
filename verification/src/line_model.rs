//! The line parser as a state machine over plain values: what one row does to the
//! parser's state, and what comes out of it.

use vstd::prelude::*;

use crate::cell::row_texts;
use crate::error::ParseError;
use crate::row::{assemble, numeric_labels, Entries};

verus! {

/// A parser's configuration as a value.
#[verifier::ext_equal]
pub struct OptionsModel {
    pub escape: u8,
    pub quote: u8,
    pub separator: u8,
    pub newline: u8,
    pub raw: bool,
    pub strict: bool,
    pub max_row_bytes: i64,
    /// `None`: the first row names the columns. An empty list: the columns are
    /// numbered. Any other list: these are the column labels.
    pub headers: Option<Seq<Seq<char>>>,
    /// The byte that marks a comment row, if comments are skipped.
    pub comment: Option<u8>,
    pub skip_lines: Option<i64>,
}

/// A line parser's state as a value.
#[verifier::ext_equal]
pub struct ParserModel {
    pub options: OptionsModel,
    /// The column labels, once they are known.
    pub headers: Option<Seq<Seq<char>>>,
    /// True until the first row that is neither a comment nor skipped has been seen.
    pub first: bool,
    /// How many rows were seen: comments, skipped rows, the header row and data rows.
    pub line_number: u64,
    /// How many rows the skip-lines policy has discarded.
    pub lines_skipped: u64,
}

/// The outcome of one row: nothing, a labeled row, or a failure.
pub type LineResult = Result<Option<Entries>, ParseError>;

/// A counter one higher, held at its maximum.
pub open spec fn next_count(n: u64) -> u64 {
    if n < u64::MAX {
        (n + 1) as u64
    } else {
        n
    }
}

/// The number of leading rows to discard. A negative setting stands for the number
/// it wraps to as an unsigned 64-bit value.
pub open spec fn skip_threshold(skip_lines: Option<i64>) -> int {
    match skip_lines {
        None => 0,
        Some(k) => if k >= 0 {
            k as int
        } else {
            0x1_0000_0000_0000_0000 + k
        },
    }
}

/// Whether a row of `span` bytes is over the limit. A negative limit is no limit.
pub open spec fn exceeds_limit(span: int, max_row_bytes: i64) -> bool {
    max_row_bytes >= 0 && span > max_row_bytes
}

/// ASCII whitespace: space, tab, line feed, form feed, carriage return.
pub open spec fn is_blank(byte: u8) -> bool {
    byte == 32 || byte == 9 || byte == 10 || byte == 12 || byte == 13
}

/// The index of the first byte at or after `i` that is not whitespace, or the
/// row's length.
pub open spec fn blanks_end(row: Seq<u8>, i: int) -> int
    decreases row.len() - i,
{
    if 0 <= i < row.len() && is_blank(row[i]) {
        blanks_end(row, i + 1)
    } else {
        i
    }
}

/// The index of the byte that decides whether a row is a comment: its first byte
/// that is not whitespace, or its first byte if it holds nothing else.
pub open spec fn marker_index(row: Seq<u8>) -> int {
    if blanks_end(row, 0) < row.len() {
        blanks_end(row, 0)
    } else {
        0
    }
}

/// Whether the comment policy discards the row.
pub open spec fn is_comment_row(row: Seq<u8>, comment: Option<u8>) -> bool {
    match comment {
        None => false,
        Some(marker) => row.len() > 0 && row[marker_index(row)] == marker,
    }
}

/// A row without its terminator: one terminator byte at the end is dropped, then
/// one carriage return.
pub open spec fn trim_row(raw: Seq<u8>, newline: u8) -> Seq<u8> {
    let cut = if raw.len() > 0 && raw.last() == newline {
        raw.drop_last()
    } else {
        raw
    };
    if cut.len() > 0 && cut.last() == 13u8 {
        cut.drop_last()
    } else {
        cut
    }
}

impl ParserModel {
    /// The state in which a parser starts.
    pub open spec fn fresh(options: OptionsModel) -> ParserModel {
        let explicit = options.headers is Some && options.headers.unwrap().len() > 0;
        ParserModel {
            options,
            headers: if explicit {
                options.headers
            } else {
                None
            },
            first: !explicit,
            line_number: 0,
            lines_skipped: 0,
        }
    }

    /// Once the first row is behind, the labels are known.
    pub open spec fn wf(self) -> bool {
        !self.first ==> self.headers is Some
    }

    /// The state after a row that only counts.
    pub open spec fn counted(self) -> ParserModel {
        ParserModel { line_number: next_count(self.line_number), ..self }
    }

    /// The state after a row that the skip-lines policy discards.
    pub open spec fn skipped(self) -> ParserModel {
        ParserModel {
            line_number: next_count(self.line_number),
            lines_skipped: (self.lines_skipped + 1) as u64,
            ..self
        }
    }

    /// The state after the first row has settled the labels.
    pub open spec fn resolved(self, labels: Seq<Seq<char>>) -> ParserModel {
        ParserModel { headers: Some(labels), first: false, ..self }
    }
}

/// The labeled row of a cell list: without labels that fails, and in strict mode
/// a cell count other than the label count fails.
pub open spec fn label_row(
    headers: Option<Seq<Seq<char>>>,
    strict: bool,
    cells: Seq<Seq<char>>,
) -> Result<Entries, ParseError> {
    match headers {
        None => Err(ParseError::NoHeadersDefinedError),
        Some(labels) => if strict && cells.len() != labels.len() {
            Err(ParseError::SchemaMismatchError)
        } else {
            Ok(assemble(labels, cells))
        },
    }
}

/// A cell list is labeled under the parser's labels; a row that comes out counts,
/// a failure leaves the state as it is.
pub open spec fn emit_row(p: ParserModel, cells: Seq<Seq<char>>) -> (ParserModel, LineResult) {
    match label_row(p.headers, p.options.strict, cells) {
        Err(e) => (p, Err(e)),
        Ok(row) => (p.counted(), Ok(Some(row))),
    }
}

/// What a list of cell texts does to a parser that takes it for its next row. The
/// first such list settles the labels: it becomes the labels itself, and yields
/// no row, where the labels are to be detected; it is numbered where the columns
/// are to be numbered. Every list that is not the labels is labeled.
pub open spec fn resolve_row(p: ParserModel, cells: Seq<Seq<char>>) -> (ParserModel, LineResult) {
    if p.first {
        match p.options.headers {
            None => (p.resolved(cells).counted(), Ok(None)),
            Some(given) => if given.len() == 0 {
                emit_row(p.resolved(numeric_labels(cells.len())), cells)
            } else {
                emit_row(p.resolved(given), cells)
            },
        }
    } else {
        emit_row(p, cells)
    }
}

/// What the row `raw` (with or without its terminator) does to a parser in state
/// `p`. In this order: an empty row is passed over; a comment row only counts; a
/// row within the leading rows to skip is discarded; a row over the size limit
/// fails; a cell without text fails; what is left is a list of cell texts, which
/// the parser takes for its next row.
pub open spec fn parse_line_spec(p: ParserModel, raw: Seq<u8>) -> (ParserModel, LineResult) {
    let o = p.options;
    let row = trim_row(raw, o.newline);
    if row.len() == 0 {
        (p, Ok(None))
    } else if is_comment_row(row, o.comment) {
        (p.counted(), Ok(None))
    } else if p.lines_skipped < skip_threshold(o.skip_lines) {
        (p.skipped(), Ok(None))
    } else if exceeds_limit(raw.len() as int, o.max_row_bytes) {
        (p, Err(ParseError::OversizedRowError))
    } else {
        match row_texts(row, o.separator, o.quote, o.escape, o.raw) {
            None => (p, Err(ParseError::Utf8DecodeError)),
            Some(cells) => resolve_row(p, cells),
        }
    }
}

} // verus!
