//! The line parser: one row of bytes in, at most one labeled row out.

use vstd::prelude::*;
use vstd::slice::{slice_subrange, slice_to_vec};
use vstd::string::StringExecFns;
use vstd::utf8::*;

use crate::cell::{
    cell_content, cell_text, content_text, is_wrapped, row_texts, split_cells, unescape,
};
use crate::error::ParseError;
use crate::line_model::{
    blanks_end, is_blank, is_comment_row, label_row, marker_index, next_count, parse_line_spec,
    resolve_row, skip_threshold, trim_row, LineResult, OptionsModel, ParserModel,
};
use crate::row::{assemble_prefix, numeric_labels, texts, Entries, LabeledRow, ParsedRow};
use crate::scan::find_delimiter;
use crate::text::{decimal_text, usize_to_string, utf8_to_string, utf8_to_string_lossy};

verus! {

/// The counters and flags that a line parser carries from row to row.
#[derive(Debug)]
pub struct CsvParserState {
    pub(crate) first: bool,
    pub(crate) line_number: u64,
    pub(crate) lines_skipped: u64,
}

impl CsvParserState {
    /// True until the first row that is neither a comment nor skipped has been seen.
    pub closed spec fn awaits_first_row(&self) -> bool {
        self.first
    }

    /// How many rows were seen.
    pub closed spec fn rows_seen(&self) -> u64 {
        self.line_number
    }

    /// How many rows the skip-lines policy has discarded.
    pub closed spec fn rows_skipped(&self) -> u64 {
        self.lines_skipped
    }

    /// The state before any row: the first row is awaited, nothing was counted.
    pub fn new() -> (state: Self)
        ensures
            state.awaits_first_row(),
            state.rows_seen() == 0,
            state.rows_skipped() == 0,
    {
        Self { first: true, line_number: 0, lines_skipped: 0 }
    }
}

/// Which rows are comments: none or those that start with `#`, or those that start
/// with the first byte of the given text.
#[derive(Debug)]
pub enum SkipComments {
    Boolean(bool),
    String(String),
}

impl SkipComments {
    /// A comment text must hold at least one byte.
    pub open spec fn wf(&self) -> bool {
        self matches SkipComments::String(s) ==> s@.len() > 0
    }

    /// The byte that marks a comment row, if there is one.
    pub open spec fn marker(&self) -> Option<u8> {
        match self {
            SkipComments::Boolean(on) => if *on {
                Some(35u8)
            } else {
                None
            },
            SkipComments::String(s) => Some(encode_utf8(s@)[0]),
        }
    }
}

/// The views of an optional label list.
pub open spec fn labels_view(labels: Option<Vec<String>>) -> Option<Seq<Seq<char>>> {
    match labels {
        None => None,
        Some(list) => Some(texts(list@)),
    }
}

/// A parser's configuration.
pub struct CsvParserOptions {
    /// The escape byte; 0 stands for the quote byte.
    pub escape: u8,
    pub quote: u8,
    pub separator: u8,
    pub newline: u8,
    /// Decode cells lossily instead of failing on invalid UTF-8.
    pub raw: bool,
    /// Fail on rows whose cell count differs from the label count.
    pub strict: bool,
    /// The largest row in bytes; a negative number is no limit.
    pub max_row_bytes: i64,
    /// `None`: take the labels from the first row. An empty list: number the
    /// columns. Any other list: the labels.
    pub headers: Option<Vec<String>>,
    pub skip_comments: Option<SkipComments>,
    pub skip_lines: Option<i64>,
}

impl View for CsvParserOptions {
    type V = OptionsModel;

    open spec fn view(&self) -> OptionsModel {
        OptionsModel {
            escape: self.escape,
            quote: self.quote,
            separator: self.separator,
            newline: self.newline,
            raw: self.raw,
            strict: self.strict,
            max_row_bytes: self.max_row_bytes,
            headers: labels_view(self.headers),
            comment: match self.skip_comments {
                Some(policy) => policy.marker(),
                None => None,
            },
            skip_lines: self.skip_lines,
        }
    }
}

impl CsvParserOptions {
    /// A comment text, if one is set, holds at least one byte.
    pub open spec fn wf(&self) -> bool {
        self.skip_comments matches Some(policy) ==> policy.wf()
    }
}

impl Default for CsvParserOptions {
    /// Comma-separated, double-quoted, newline-terminated rows; labels from the
    /// first row; nothing skipped, no limit, strict decoding.
    fn default() -> (options: Self)
        ensures
            options.wf(),
            options@ == (OptionsModel {
                escape: 34,
                quote: 34,
                separator: 44,
                newline: 10,
                raw: false,
                strict: false,
                max_row_bytes: i64::MAX,
                headers: None,
                comment: None,
                skip_lines: None,
            }),
    {
        Self {
            escape: 34,
            quote: 34,
            separator: 44,
            newline: 10,
            raw: false,
            strict: false,
            max_row_bytes: i64::MAX,
            headers: None,
            skip_comments: None,
            skip_lines: None,
        }
    }
}

/// The configuration that a parser works with: an escape byte of 0 is replaced by
/// the quote byte.
pub open spec fn effective_options(o: OptionsModel) -> OptionsModel {
    OptionsModel {
        escape: if o.escape == 0 {
            o.quote
        } else {
            o.escape
        },
        ..o
    }
}

/// The bytes `buffer[start..end]`, or none where the range is empty.
pub open spec fn span(buffer: Seq<u8>, start: int, end: int) -> Seq<u8> {
    if 0 <= start < end <= buffer.len() {
        buffer.subrange(start, end)
    } else {
        Seq::empty()
    }
}

/// A copy of a list of strings.
pub(crate) fn clone_strings(list: &Vec<String>) -> (copy: Vec<String>)
    ensures
        texts(copy@) == texts(list@),
{
    let mut copy: Vec<String> = Vec::new();
    let mut i: usize = 0;
    while i < list.len()
        invariant
            i <= list@.len(),
            copy@.len() == i,
            forall|k: int| 0 <= k < i ==> (#[trigger] copy@[k])@ == list@[k]@,
        decreases list@.len() - i,
    {
        copy.push(list[i].clone());
        i += 1;
    }
    copy
}

/// What a call of `parse_line` hands back, as a value.
pub open spec fn line_result_view(res: Result<Option<LabeledRow>, ParseError>) -> LineResult {
    match res {
        Ok(Some(row)) => Ok(Some(row@)),
        Ok(None) => Ok(None),
        Err(e) => Err(e),
    }
}

/// Whether a byte is ASCII whitespace.
fn is_blank_byte(byte: u8) -> (blank: bool)
    ensures
        blank == is_blank(byte),
{
    byte == 32 || byte == 9 || byte == 10 || byte == 12 || byte == 13
}

/// A counter one higher, held at its maximum.
fn bump(n: u64) -> (next: u64)
    ensures
        next == next_count(n),
{
    if n < u64::MAX {
        n + 1
    } else {
        n
    }
}

/// The number of leading rows to discard under a skip-lines setting.
fn rows_to_skip(skip_lines: Option<i64>) -> (count: u64)
    ensures
        count == skip_threshold(skip_lines),
{
    match skip_lines {
        None => 0,
        Some(k) => if k >= 0 {
            k as u64
        } else {
            u64::MAX - ((-(k + 1)) as u64)
        },
    }
}

/// The labels `0`, `1`, ... for `n` columns.
fn numbered_labels(n: usize) -> (labels: Vec<String>)
    ensures
        texts(labels@) == numeric_labels(n as nat),
{
    let mut labels: Vec<String> = Vec::new();
    let mut i: usize = 0;
    while i < n
        invariant
            i <= n,
            labels@.len() == i,
            forall|k: int| 0 <= k < i ==> (#[trigger] labels@[k])@ == decimal_text(k as nat),
        decreases n - i,
    {
        labels.push(usize_to_string(i));
        i += 1;
    }
    labels
}

/// The label of a cell past the end of the label list: `_` and its position.
fn overflow_label(i: usize) -> (label: String)
    ensures
        label@ == seq!['_'] + decimal_text(i as nat),
{
    let digits = usize_to_string(i);
    let label = String::from_str("_").concat(digits.as_str());
    proof {
        reveal_strlit("_");
    }
    label
}

/// Whether a label is the single character `_`.
fn is_placeholder(label: &String) -> (same: bool)
    ensures
        same == (label@ == seq!['_']),
{
    let placeholder = String::from_str("_");
    proof {
        reveal_strlit("_");
        assert("_"@ =~= seq!['_']);
    }
    *label == placeholder
}

/// The line parser: its configuration, its counters, and the column labels once
/// they are known.
pub struct CsvParser {
    pub(crate) state: CsvParserState,
    pub(crate) options: CsvParserOptions,
    pub(crate) headers: Option<Vec<String>>,
}

impl View for CsvParser {
    type V = ParserModel;

    closed spec fn view(&self) -> ParserModel {
        ParserModel {
            options: self.options@,
            headers: labels_view(self.headers),
            first: self.state.first,
            line_number: self.state.line_number,
            lines_skipped: self.state.lines_skipped,
        }
    }
}

impl CsvParser {
    /// The configuration is well-formed, and labels are known once the first row
    /// is behind.
    pub closed spec fn wf(&self) -> bool {
        &&& self.options.wf()
        &&& self@.wf()
    }

    /// A parser before its first row. An escape byte of 0 is replaced by the quote
    /// byte; a non-empty label list is in force from the start.
    pub fn new(options: CsvParserOptions) -> (parser: Self)
        requires
            options.wf(),
        ensures
            parser.wf(),
            parser@ == ParserModel::fresh(effective_options(options@)),
    {
        let mut options = options;
        if options.escape == 0 {
            options.escape = options.quote;
        }
        let mut state = CsvParserState::new();
        let mut headers: Option<Vec<String>> = None;
        match &options.headers {
            Some(given) => {
                if given.len() > 0 {
                    state.first = false;
                    headers = Some(clone_strings(given));
                }
            },
            None => {},
        }
        Self { state, options, headers }
    }

    /// The configuration in force.
    pub fn options(&self) -> (options: &CsvParserOptions)
        ensures
            options@ == self@.options,
            self.wf() ==> options.wf(),
    {
        &self.options
    }

    /// The column labels, if they are known.
    pub fn headers(&self) -> (labels: &Option<Vec<String>>)
        ensures
            labels_view(*labels) == self@.headers,
    {
        &self.headers
    }

    /// The text of `buffer[start..end]`: decoded strictly, or lossily in raw mode.
    fn parse_value(&self, buffer: &[u8], start: usize, end: usize) -> (res: Result<
        String,
        ParseError,
    >)
        requires
            start <= end <= buffer@.len(),
        ensures
            match res {
                Ok(text) => content_text(
                    buffer@.subrange(start as int, end as int),
                    self@.options.raw,
                ) == Some(text@),
                Err(e) => e == ParseError::Utf8DecodeError && content_text(
                    buffer@.subrange(start as int, end as int),
                    self@.options.raw,
                ) is None,
            },
    {
        let bytes = slice_subrange(buffer, start, end);
        if self.options.raw {
            Ok(utf8_to_string_lossy(bytes))
        } else {
            match utf8_to_string(slice_to_vec(bytes)) {
                Some(text) => Ok(text),
                None => Err(ParseError::Utf8DecodeError),
            }
        }
    }

    /// The text of the cell `buffer[start..end]`. A cell that begins and ends with
    /// the quote byte loses both, and inside it a quote byte or an escape byte
    /// directly before a quote byte is dropped. An empty range is the empty text.
    pub fn parse_cell(&self, buffer: &[u8], start: usize, end: usize) -> (res: Result<
        String,
        ParseError,
    >)
        requires
            start < end ==> end <= buffer@.len(),
        ensures
            match res {
                Ok(text) => cell_text(
                    span(buffer@, start as int, end as int),
                    self@.options.quote,
                    self@.options.escape,
                    self@.options.raw,
                ) == Some(text@),
                Err(e) => e == ParseError::Utf8DecodeError && cell_text(
                    span(buffer@, start as int, end as int),
                    self@.options.quote,
                    self@.options.escape,
                    self@.options.raw,
                ) is None,
            },
    {
        let quote: u8 = self.options.quote;
        let escape: u8 = self.options.escape;
        if start >= end {
            return Ok(String::new());
        }
        let ghost raw = buffer@.subrange(start as int, end as int);
        if !(buffer[start] == quote && buffer[end - 1] == quote) {
            return self.parse_value(buffer, start, end);
        }
        let mut content: Vec<u8> = Vec::new();
        if end - start >= 2 {
            let from: usize = start + 1;
            let to: usize = end - 1;
            let ghost inner = buffer@.subrange(from as int, to as int);
            assert(inner =~= raw.subrange(1, raw.len() - 1));
            let mut i: usize = from;
            assert(inner.subrange(0, inner.len() as int) =~= inner);
            while i < to
                invariant
                    from <= i <= to <= buffer@.len(),
                    inner == buffer@.subrange(from as int, to as int),
                    content@ + unescape(inner.subrange(i - from, inner.len() as int), quote, escape)
                        == unescape(inner, quote, escape),
                decreases to - i,
            {
                let ghost rest = inner.subrange(i - from, inner.len() as int);
                if i + 1 < to && (buffer[i] == quote || buffer[i] == escape) && buffer[i + 1]
                    == quote {
                    assert(rest.subrange(2, rest.len() as int) =~= inner.subrange(
                        i + 2 - from,
                        inner.len() as int,
                    ));
                    content.push(quote);
                    i += 2;
                } else {
                    assert(rest.subrange(1, rest.len() as int) =~= inner.subrange(
                        i + 1 - from,
                        inner.len() as int,
                    ));
                    content.push(buffer[i]);
                    i += 1;
                }
            }
        }
        let n: usize = content.len();
        assert(content@.subrange(0, n as int) =~= content@);
        self.parse_value(content.as_slice(), 0, n)
    }

    /// The texts of the cells of the row `buffer[start..end]`, which has its
    /// terminator removed.
    pub fn parse_cells(&self, buffer: &[u8], start: usize, end: usize) -> (res: Result<
        ParsedRow,
        ParseError,
    >)
        requires
            start <= end <= buffer@.len(),
        ensures
            match res {
                Ok(cells) => row_texts(
                    buffer@.subrange(start as int, end as int),
                    self@.options.separator,
                    self@.options.quote,
                    self@.options.escape,
                    self@.options.raw,
                ) == Some(cells@),
                Err(e) => e == ParseError::Utf8DecodeError && row_texts(
                    buffer@.subrange(start as int, end as int),
                    self@.options.separator,
                    self@.options.quote,
                    self@.options.escape,
                    self@.options.raw,
                ) is None,
            },
    {
        let separator: u8 = self.options.separator;
        let quote: u8 = self.options.quote;
        let ghost escape = self.options.escape;
        let ghost lossy = self.options.raw;
        let ghost row = buffer@.subrange(start as int, end as int);
        let ghost mut done: Seq<Seq<u8>> = Seq::empty();
        let mut values: Vec<String> = Vec::new();
        let mut offset: usize = start;
        loop
            invariant
                start <= offset <= end <= buffer@.len(),
                row == buffer@.subrange(start as int, end as int),
                separator == self@.options.separator,
                quote == self@.options.quote,
                escape == self@.options.escape,
                lossy == self@.options.raw,
                split_cells(row, separator, quote) == done + split_cells(
                    buffer@.subrange(offset as int, end as int),
                    separator,
                    quote,
                ),
                values@.len() == done.len(),
                forall|k: int|
                    0 <= k < done.len() ==> (#[trigger] cell_text(done[k], quote, escape, lossy))
                        == Some(values@[k]@),
            decreases end - offset,
        {
            let ghost rest = buffer@.subrange(offset as int, end as int);
            let ghost all = split_cells(row, separator, quote);
            let at: usize = find_delimiter(buffer, offset, end, separator, quote);
            let ghost cell = span(buffer@, offset as int, at as int);
            proof {
                // `cell` is the first of the cells that are left, and so the next of all.
                if at < end {
                    assert(rest.subrange(at - offset + 1, rest.len() as int) =~= buffer@.subrange(
                        at + 1,
                        end as int,
                    ));
                } else {
                    assert(cell =~= rest);
                }
                assert(all[done.len() as int] == cell);
            }
            match self.parse_cell(buffer, offset, at) {
                Err(e) => {
                    return Err(e);
                },
                Ok(text) => {
                    values.push(text);
                    proof {
                        done = done.push(cell);
                    }
                },
            }
            if at >= end {
                let cells = ParsedRow { values };
                proof {
                    assert forall|i: int| 0 <= i < all.len() implies (#[trigger] cell_text(
                        all[i],
                        quote,
                        escape,
                        lossy,
                    )) is Some by {}
                    assert(cells@ =~= Seq::new(
                        all.len(),
                        |i: int| cell_text(all[i], quote, escape, lossy).unwrap(),
                    ));
                }
                return Ok(cells);
            }
            offset = at + 1;
        }
    }

    /// Whether the comment policy discards the row `buffer[start..end]`: it does
    /// where the row's first byte that is not whitespace (its first byte, if it
    /// holds nothing else) is the comment marker.
    pub fn should_skip_comment(&self, buffer: &[u8], start: usize, end: usize) -> (skip: bool)
        requires
            self.wf(),
            start < end <= buffer@.len(),
        ensures
            skip == is_comment_row(
                buffer@.subrange(start as int, end as int),
                self@.options.comment,
            ),
    {
        let marker: u8 = match &self.options.skip_comments {
            Some(SkipComments::Boolean(true)) => 35u8,
            Some(SkipComments::String(text)) => text.as_str().as_bytes()[0],
            _ => {
                return false;
            },
        };
        let ghost row = buffer@.subrange(start as int, end as int);
        let mut i: usize = start;
        while i < end && is_blank_byte(buffer[i])
            invariant
                start <= i <= end <= buffer@.len(),
                row == buffer@.subrange(start as int, end as int),
                blanks_end(row, i - start) == blanks_end(row, 0),
            decreases end - i,
        {
            i += 1;
        }
        let at: usize = if i < end {
            i
        } else {
            start
        };
        buffer[at] == marker
    }

    /// Files the cells under the labels. Fails where no labels are known, and in
    /// strict mode where the cell count differs from the label count.
    pub fn write_row(&self, cells: Vec<String>) -> (res: Result<LabeledRow, ParseError>)
        ensures
            match res {
                Ok(row) => label_row(self@.headers, self@.options.strict, texts(cells@)) == Ok::<
                    Entries,
                    ParseError,
                >(row@),
                Err(e) => label_row(self@.headers, self@.options.strict, texts(cells@)) == Err::<
                    Entries,
                    ParseError,
                >(e),
            },
    {
        let headers = match &self.headers {
            Some(labels) => labels,
            None => {
                return Err(ParseError::NoHeadersDefinedError);
            },
        };
        if self.options.strict && cells.len() != headers.len() {
            return Err(ParseError::SchemaMismatchError);
        }
        let mut row = LabeledRow::new();
        let mut i: usize = 0;
        while i < cells.len()
            invariant
                i <= cells@.len(),
                row@ == assemble_prefix(texts(headers@), texts(cells@), i as int),
            decreases cells@.len() - i,
        {
            if i < headers.len() {
                let header = &headers[i];
                if !header.as_str().is_empty() && !is_placeholder(header) {
                    row.insert(header.clone(), cells[i].clone());
                }
            } else {
                row.insert(overflow_label(i), cells[i].clone());
            }
            i += 1;
        }
        Ok(row)
    }

    /// Takes the row `buffer[start..end]`, with or without its terminator, and
    /// hands back the labeled row that it yields, if any. See `parse_line_spec`
    /// for the steps. A failure leaves the counters as they were.
    pub fn parse_line(&mut self, buffer: &[u8], start: usize, end: usize) -> (res: Result<
        Option<LabeledRow>,
        ParseError,
    >)
        requires
            old(self).wf(),
            start < end ==> end <= buffer@.len(),
        ensures
            final(self).wf(),
            (final(self)@, line_result_view(res)) == parse_line_spec(
                old(self)@,
                span(buffer@, start as int, end as int),
            ),
    {
        if start >= end {
            return Ok(None);
        }
        let ghost raw = buffer@.subrange(start as int, end as int);
        let mut stop: usize = end;
        if buffer[stop - 1] == self.options.newline {
            stop -= 1;
        }
        if stop > start && buffer[stop - 1] == 13u8 {
            stop -= 1;
        }
        assert(span(buffer@, start as int, stop as int) =~= trim_row(raw, self.options.newline));
        if start >= stop {
            return Ok(None);
        }
        if self.should_skip_comment(buffer, start, stop) {
            self.state.line_number = bump(self.state.line_number);
            return Ok(None);
        }
        if self.state.lines_skipped < rows_to_skip(self.options.skip_lines) {
            self.state.lines_skipped += 1;
            self.state.line_number = bump(self.state.line_number);
            return Ok(None);
        }
        let limit: i64 = self.options.max_row_bytes;
        if limit >= 0 && (end - start) as u64 > limit as u64 {
            return Err(ParseError::OversizedRowError);
        }
        let cells = match self.parse_cells(buffer, start, stop) {
            Ok(cells) => cells,
            Err(e) => {
                return Err(e);
            },
        };
        self.assemble_row(cells)
    }

    /// Takes a list of cell texts for the next row. The first list settles the
    /// labels: where they are to be detected it becomes the labels and yields no
    /// row, where the columns are to be numbered it is numbered. Every list that
    /// is not the labels is labeled and handed back. See `resolve_row`.
    pub fn assemble_row(&mut self, cells: ParsedRow) -> (res: Result<
        Option<LabeledRow>,
        ParseError,
    >)
        requires
            old(self).wf(),
        ensures
            final(self).wf(),
            (final(self)@, line_result_view(res)) == resolve_row(old(self)@, cells@),
    {
        if self.state.first {
            self.state.first = false;
            match &self.options.headers {
                None => {
                    self.headers = Some(cells.values);
                    self.state.line_number = bump(self.state.line_number);
                    return Ok(None);
                },
                Some(given) => {
                    if given.len() == 0 {
                        self.headers = Some(numbered_labels(cells.values.len()));
                    } else {
                        self.headers = Some(clone_strings(given));
                    }
                },
            }
        }
        match self.write_row(cells.values) {
            Err(e) => Err(e),
            Ok(labeled) => {
                self.state.line_number = bump(self.state.line_number);
                Ok(Some(labeled))
            },
        }
    }
}

} // verus!
