//! The streaming parser: chunks of bytes in, labeled rows out.

use vstd::prelude::*;
use vstd::slice::slice_subrange;
use vstd::utf8::*;

use crate::encoding::{
    decode, held_back, normalized_text, sniff, TextEncoding, MAX_DECODE_BYTES,
};
use crate::error::ParseError;
use crate::line_model::OptionsModel;
use crate::parser::{clone_strings, labels_view, span, CsvParserOptions, SkipComments};
use crate::row::{texts, Entries, LabeledRow};
use crate::scan::{find_delimiter, next_delimiter};
use crate::segment::{
    byte_from, complete_rows, find_byte, lemma_run_rows_stops, plain_rows, plain_tail, run_rows,
    unfinished_tail, BatchModel,
};
use crate::stream_model::{
    drain, finish_spec, lemma_finish_wf, lemma_push_text_wf, lemma_push_wf, lemma_transform_wf,
    push_spec, push_text_spec, transform_spec, RowsResult, StreamModel,
};

verus! {

/// How the column labels are given: by a flag (`true`: take them from the first
/// row, `false`: number the columns) or as a list.
#[derive(Debug)]
pub enum HeadersOption {
    Boolean(bool),
    List(Vec<String>),
}

impl HeadersOption {
    /// The label list that the setting stands for.
    pub open spec fn labels(&self) -> Option<Seq<Seq<char>>> {
        match self {
            HeadersOption::Boolean(detect) => if *detect {
                None
            } else {
                Some(Seq::empty())
            },
            HeadersOption::List(list) => Some(texts(list@)),
        }
    }
}

/// The settings as a caller gives them: every one may be left out. The four bytes
/// are given as texts, of which the first byte counts.
#[derive(Debug)]
pub struct JsCsvParserOptions {
    pub escape: Option<String>,
    pub quote: Option<String>,
    pub separator: Option<String>,
    pub newline: Option<String>,
    pub raw: Option<bool>,
    pub strict: Option<bool>,
    pub max_row_bytes: Option<i64>,
    pub headers: Option<HeadersOption>,
    pub skip_comments: Option<SkipComments>,
    pub skip_lines: Option<i64>,
}

impl Default for JsCsvParserOptions {
    /// Settings with everything left out.
    fn default() -> (settings: Self)
        ensures
            settings.wf(),
            settings.escape is None,
            settings.quote is None,
            settings.separator is None,
            settings.newline is None,
            settings.raw is None,
            settings.strict is None,
            settings.max_row_bytes is None,
            settings.headers is None,
            settings.skip_comments is None,
            settings.skip_lines is None,
    {
        Self {
            escape: None,
            quote: None,
            separator: None,
            newline: None,
            raw: None,
            strict: None,
            max_row_bytes: None,
            headers: None,
            skip_comments: None,
            skip_lines: None,
        }
    }
}

/// The first byte of a text that is given, or the default.
pub open spec fn byte_setting(text: Option<String>, default: u8) -> u8 {
    match text {
        Some(t) => encode_utf8(t@)[0],
        None => default,
    }
}

/// A text that is given holds at least one byte.
pub open spec fn byte_setting_wf(text: Option<String>) -> bool {
    text matches Some(t) ==> t@.len() > 0
}

impl JsCsvParserOptions {
    /// Every text that is given holds at least one byte.
    pub open spec fn wf(&self) -> bool {
        &&& byte_setting_wf(self.escape)
        &&& byte_setting_wf(self.quote)
        &&& byte_setting_wf(self.separator)
        &&& byte_setting_wf(self.newline)
        &&& self.skip_comments matches Some(policy) ==> policy.wf()
    }

    /// The configuration that the settings stand for. What is left out takes its
    /// default: `"` as quote, the quote byte as escape, `,` as separator, line
    /// feed as terminator, strict decoding, no strict mode, no size limit, labels
    /// from the first row, nothing skipped.
    pub open spec fn model(&self) -> OptionsModel {
        OptionsModel {
            escape: byte_setting(self.escape, 0),
            quote: byte_setting(self.quote, 34),
            separator: byte_setting(self.separator, 44),
            newline: byte_setting(self.newline, 10),
            raw: self.raw == Some(true),
            strict: self.strict == Some(true),
            max_row_bytes: match self.max_row_bytes {
                Some(limit) => limit,
                None => i64::MAX,
            },
            headers: match self.headers {
                Some(setting) => setting.labels(),
                None => None,
            },
            comment: match self.skip_comments {
                Some(policy) => policy.marker(),
                None => None,
            },
            skip_lines: self.skip_lines,
        }
    }
}

/// The configuration that optional settings stand for.
pub open spec fn settings_model(options: Option<JsCsvParserOptions>) -> OptionsModel {
    match options {
        Some(settings) => settings.model(),
        None => OptionsModel {
            escape: 34,
            quote: 34,
            separator: 44,
            newline: 10,
            raw: false,
            strict: false,
            max_row_bytes: i64::MAX,
            headers: None,
            comment: None,
            skip_lines: None,
        },
    }
}

/// The first byte of a text that is given, or the default.
fn first_byte(text: &Option<String>, default: u8) -> (byte: u8)
    requires
        byte_setting_wf(*text),
    ensures
        byte == byte_setting(*text, default),
{
    match text {
        Some(t) => {
            let bytes = t.as_str().as_bytes();
            bytes[0]
        },
        None => default,
    }
}

/// The views of a list of rows.
pub open spec fn rows_view(rows: Seq<LabeledRow>) -> Seq<Entries> {
    Seq::new(rows.len(), |i: int| rows[i]@)
}

/// What a call hands back, as a value.
pub open spec fn rows_result_view(res: Result<Vec<LabeledRow>, ParseError>) -> RowsResult {
    match res {
        Ok(rows) => Ok(rows_view(rows@)),
        Err(e) => Err(e),
    }
}

/// The streaming parser. It is fed chunks of bytes of any size with `push`, hands
/// back the rows that each chunk completes, and carries the unfinished rest to the
/// next call; `finish` parses what is left when the input has ended.
pub struct CsvParser {
    inner: crate::parser::CsvParser,
    buffer: Vec<u8>,
    pending_error: Option<ParseError>,
    encoding: TextEncoding,
    bom_detected: bool,
    utf8_buffer: Vec<u8>,
}

impl View for CsvParser {
    type V = StreamModel;

    closed spec fn view(&self) -> StreamModel {
        StreamModel {
            parser: self.inner@,
            raw: self.buffer@,
            carry: self.utf8_buffer@,
            pending: self.pending_error,
            encoding: self.encoding,
            bom_detected: self.bom_detected,
        }
    }
}

impl CsvParser {
    /// The parser's parts are well-formed, and so is its state as a value: the
    /// carried text holds no complete row.
    pub closed spec fn wf(&self) -> bool {
        &&& self.inner.wf()
        &&& self@.wf()
    }

    /// A parser for the given settings, before any input.
    pub fn new(options: Option<JsCsvParserOptions>) -> (parser: Self)
        requires
            options matches Some(settings) ==> settings.wf(),
        ensures
            parser.wf(),
            parser@.wf(),
            parser@ == StreamModel::fresh(settings_model(options)),
    {
        let configured = match options {
            Some(settings) => CsvParserOptions {
                escape: first_byte(&settings.escape, 0),
                quote: first_byte(&settings.quote, 34),
                separator: first_byte(&settings.separator, 44),
                newline: first_byte(&settings.newline, 10),
                raw: match settings.raw {
                    Some(on) => on,
                    None => false,
                },
                strict: match settings.strict {
                    Some(on) => on,
                    None => false,
                },
                max_row_bytes: match settings.max_row_bytes {
                    Some(limit) => limit,
                    None => i64::MAX,
                },
                headers: match settings.headers {
                    Some(HeadersOption::Boolean(detect)) => if detect {
                        None
                    } else {
                        Some(Vec::new())
                    },
                    Some(HeadersOption::List(list)) => Some(list),
                    None => None,
                },
                skip_comments: settings.skip_comments,
                skip_lines: settings.skip_lines,
            },
            None => CsvParserOptions::default(),
        };
        Self {
            inner: crate::parser::CsvParser::new(configured),
            buffer: Vec::new(),
            pending_error: None,
            encoding: TextEncoding::Utf8,
            bom_detected: false,
            utf8_buffer: Vec::new(),
        }
    }

    /// Examines the start of the received bytes for a byte-order mark, sets the
    /// encoding by it, and removes a UTF-8 mark.
    fn detect_encoding(&mut self)
        requires
            old(self).buffer@.len() >= 2,
        ensures
            final(self).encoding == sniff(old(self).buffer@).0,
            final(self).buffer@ == sniff(old(self).buffer@).1,
            final(self).inner == old(self).inner,
            final(self).utf8_buffer == old(self).utf8_buffer,
            final(self).pending_error == old(self).pending_error,
            final(self).bom_detected == old(self).bom_detected,
    {
        if self.buffer[0] == 0xFF && self.buffer[1] == 0xFE {
            self.encoding = TextEncoding::Utf16Le;
        } else if self.buffer[0] == 0xFE && self.buffer[1] == 0xFF {
            self.encoding = TextEncoding::Utf16Be;
        } else if self.buffer.len() >= 3 && self.buffer[0] == 0xEF && self.buffer[1] == 0xBB
            && self.buffer[2] == 0xBF {
            let rest = self.buffer.split_off(3);
            self.buffer = rest;
            self.encoding = TextEncoding::Utf8;
        } else {
            self.encoding = TextEncoding::Utf8;
        }
    }

    /// Takes the whole units out of the received bytes and hands them back as
    /// UTF-8; an incomplete unit at the end stays behind. Where the units cannot be
    /// decoded they are dropped, and the call fails.
    fn process_encoding(&mut self) -> (res: Result<Vec<u8>, ParseError>)
        ensures
            final(self).buffer@ == held_back(old(self).encoding, old(self).buffer@),
            match normalized_text(old(self).encoding, old(self).buffer@) {
                Some(text) => res matches Ok(bytes) && bytes@ == text,
                None => res matches Err(e) && e == ParseError::EncodingError,
            },
            final(self).inner == old(self).inner,
            final(self).utf8_buffer == old(self).utf8_buffer,
            final(self).encoding == old(self).encoding,
            final(self).pending_error == old(self).pending_error,
            final(self).bom_detected == old(self).bom_detected,
    {
        match self.encoding {
            TextEncoding::Utf8 => {
                let mut text: Vec<u8> = Vec::new();
                text.append(&mut self.buffer);
                Ok(text)
            },
            _ => {
                let n: usize = self.buffer.len() - self.buffer.len() % 2;
                if n == 0 {
                    return Ok(Vec::new());
                }
                if n > MAX_DECODE_BYTES {
                    let rest = self.buffer.split_off(n);
                    self.buffer = rest;
                    return Err(ParseError::EncodingError);
                }
                let (text, had_errors) = decode(
                    self.encoding,
                    slice_subrange(self.buffer.as_slice(), 0, n),
                );
                let rest = self.buffer.split_off(n);
                self.buffer = rest;
                if had_errors {
                    return Err(ParseError::EncodingError);
                }
                Ok(text)
            },
        }
    }

    /// Parses the complete rows of the carried text and keeps its unfinished rest.
    fn drain_rows(&mut self) -> (res: Result<Vec<LabeledRow>, ParseError>)
        requires
            old(self).inner.wf(),
            old(self).pending_error is None,
        ensures
            final(self).inner.wf(),
            (final(self)@, rows_result_view(res)) == drain(old(self)@),
    {
        let newline: u8 = self.inner.options().newline;
        let quote: u8 = self.inner.options().quote;
        let ghost s = self@;
        let ghost text = self.utf8_buffer@;
        let len: usize = self.utf8_buffer.len();
        let mut rows: Vec<LabeledRow> = Vec::new();
        let mut failure: Option<ParseError> = None;
        let mut start: usize = 0;
        let ghost mut seen: Seq<Seq<u8>> = Seq::empty();
        let mut at: usize = find_delimiter(self.utf8_buffer.as_slice(), 0, len, newline, quote);
        assert(text.subrange(0, len as int) =~= text);
        while at < len
            invariant
                start <= at <= len == text.len(),
                at - start == next_delimiter(
                    text.subrange(start as int, len as int),
                    newline,
                    quote,
                ),
                self.utf8_buffer@ == text,
                self.buffer@ == s.raw,
                self.pending_error is None,
                self.encoding == s.encoding,
                self.bom_detected == s.bom_detected,
                s.pending is None,
                s.carry == text,
                self.inner.wf(),
                self.inner@.options == s.parser.options,
                newline == s.parser.options.newline,
                quote == s.parser.options.quote,
                complete_rows(text, newline, quote) == seen + complete_rows(
                    text.subrange(start as int, len as int),
                    newline,
                    quote,
                ),
                unfinished_tail(text, newline, quote) == unfinished_tail(
                    text.subrange(start as int, len as int),
                    newline,
                    quote,
                ),
                run_rows(s.parser, seen) == (BatchModel {
                    parser: self.inner@,
                    rows: rows_view(rows@),
                    failure,
                }),
            decreases len - start,
        {
            let ghost rest = text.subrange(start as int, len as int);
            let ghost row = text.subrange(start as int, at + 1);
            proof {
                assert(rest.subrange(0, at - start + 1) =~= row);
                assert(rest.subrange(at - start + 1, rest.len() as int) =~= text.subrange(
                    at + 1,
                    len as int,
                ));
                assert(seen.push(row).drop_last() =~= seen);
            }
            if failure.is_none() {
                match self.inner.parse_line(self.utf8_buffer.as_slice(), start, at + 1) {
                    Ok(Some(labeled)) => {
                        rows.push(labeled);
                    },
                    Ok(None) => {},
                    Err(e) => {
                        failure = Some(e);
                    },
                }
            }
            proof {
                seen = seen.push(row);
            }
            start = at + 1;
            at = find_delimiter(self.utf8_buffer.as_slice(), start, len, newline, quote);
        }
        let tail = self.utf8_buffer.split_off(start);
        self.utf8_buffer = tail;
        match failure {
            None => Ok(rows),
            Some(e) => {
                if rows.len() == 0 {
                    Err(e)
                } else {
                    self.pending_error = Some(e);
                    Ok(rows)
                }
            },
        }
    }

    /// Takes a chunk of input and hands back the rows that it completes. See
    /// `push_spec` for the steps. A failure that arises after rows have come out
    /// of the same call is held back: the rows are returned, and the next call
    /// reports the failure and does nothing else.
    pub fn push(&mut self, chunk: &[u8]) -> (res: Result<Vec<LabeledRow>, ParseError>)
        requires
            old(self).wf(),
        ensures
            final(self).wf(),
            final(self)@.wf(),
            (final(self)@, rows_result_view(res)) == push_spec(old(self)@, chunk@),
    {
        proof {
            lemma_push_wf(self@, chunk@);
        }
        match self.pending_error {
            Some(e) => {
                self.pending_error = None;
                return Err(e);
            },
            None => {},
        }
        let ghost s = self@;
        self.buffer.extend_from_slice(chunk);
        if !self.bom_detected {
            if self.buffer.len() < 2 {
                let none: Vec<LabeledRow> = Vec::new();
                assert(rows_view(none@) =~= Seq::<Entries>::empty());
                return Ok(none);
            }
            self.detect_encoding();
            self.bom_detected = true;
        }
        assert(self@ =~= s.examined(s.raw + chunk@));
        match self.process_encoding() {
            Err(e) => Err(e),
            Ok(text) => self.push_text(text.as_slice()),
        }
    }

    /// Takes text that is UTF-8 already, whatever the encoding of the input was,
    /// and hands back the rows that it completes: the text joins the carried text,
    /// whose complete rows are parsed. See `push_text_spec`. A failure kept from
    /// the call before is reported first, and the text is then not taken.
    pub fn push_text(&mut self, text: &[u8]) -> (res: Result<Vec<LabeledRow>, ParseError>)
        requires
            old(self).wf(),
        ensures
            final(self).wf(),
            final(self)@.wf(),
            (final(self)@, rows_result_view(res)) == push_text_spec(old(self)@, text@),
    {
        proof {
            lemma_push_text_wf(self@, text@);
        }
        match self.pending_error {
            Some(e) => {
                self.pending_error = None;
                return Err(e);
            },
            None => {},
        }
        let ghost s = self@;
        self.utf8_buffer.extend_from_slice(text);
        assert(self@ =~= StreamModel { carry: s.carry + text@, ..s });
        self.drain_rows()
    }

    /// Ends the input: what is still buffered is parsed as one last row, and all
    /// buffers are emptied. At most one row comes back. See `finish_spec`. On a
    /// parser with nothing buffered and nothing to report the call changes
    /// nothing and hands back no row, however often it is repeated.
    pub fn finish(&mut self) -> (res: Result<Vec<LabeledRow>, ParseError>)
        requires
            old(self).wf(),
        ensures
            final(self).wf(),
            final(self)@.wf(),
            (final(self)@, rows_result_view(res)) == finish_spec(old(self)@),
            old(self)@.is_exhausted() ==> final(self)@ == old(self)@ && rows_result_view(res)
                == Ok::<Seq<Entries>, ParseError>(Seq::empty()),
            old(self)@.pending is None ==> final(self)@.is_exhausted(),
    {
        proof {
            lemma_finish_wf(self@);
        }
        match self.pending_error {
            Some(e) => {
                self.pending_error = None;
                return Err(e);
            },
            None => {},
        }
        let mut found: Vec<LabeledRow> = Vec::new();
        assert(rows_view(found@) =~= Seq::<Entries>::empty());
        if self.buffer.len() == 0 && self.utf8_buffer.len() == 0 {
            return Ok(found);
        }
        let ghost s = self@;
        if !self.bom_detected && self.buffer.len() >= 2 {
            self.detect_encoding();
            self.bom_detected = true;
        }
        let ghost t = self@;
        let decoded = self.process_encoding();
        self.buffer.clear();
        match decoded {
            Err(e) => {
                self.utf8_buffer.clear();
                return Err(e);
            },
            Ok(text) => {
                self.utf8_buffer.extend_from_slice(text.as_slice());
            },
        }
        let ghost last = self.utf8_buffer@;
        assert(last == s.carry + normalized_text(t.encoding, t.raw)->Some_0);
        let len: usize = self.utf8_buffer.len();
        if len == 0 {
            return Ok(found);
        }
        assert(span(last, 0, len as int) =~= last);
        let outcome = self.inner.parse_line(self.utf8_buffer.as_slice(), 0, len);
        self.utf8_buffer.clear();
        match outcome {
            Err(e) => Err(e),
            Ok(None) => Ok(found),
            Ok(Some(labeled)) => {
                found.push(labeled);
                assert(rows_view(found@) =~= seq![labeled@]);
                Ok(found)
            },
        }
    }

    /// The column labels, or `None` while they are not known.
    pub fn get_headers(&self) -> (labels: Option<Vec<String>>)
        ensures
            labels_view(labels) == self@.parser.headers,
    {
        match self.inner.headers() {
            Some(list) => Some(clone_strings(list)),
            None => None,
        }
    }

    /// Takes a chunk on the plain path: no encoding is detected and quotes do not
    /// protect a terminator. See `transform_spec`. The encoding name that a stream
    /// hands over with the chunk is not looked at.
    pub fn transform(&mut self, chunk: &[u8], _enc: String) -> (res: Result<
        Vec<LabeledRow>,
        ParseError,
    >)
        requires
            old(self).wf(),
        ensures
            final(self).wf(),
            final(self)@.wf(),
            (final(self)@, rows_result_view(res)) == transform_spec(old(self)@, chunk@),
    {
        proof {
            lemma_transform_wf(self@, chunk@);
        }
        let ghost s = self@;
        self.buffer.extend_from_slice(chunk);
        let newline: u8 = self.inner.options().newline;
        let ghost text = self.buffer@;
        let len: usize = self.buffer.len();
        let mut rows: Vec<LabeledRow> = Vec::new();
        let mut start: usize = 0;
        let ghost mut seen: Seq<Seq<u8>> = Seq::empty();
        let mut at: usize = find_byte(self.buffer.as_slice(), 0, len, newline);
        assert(text.subrange(0, len as int) =~= text);
        while at < len
            invariant
                start <= at <= len == text.len(),
                at - start == byte_from(
                    text.subrange(start as int, len as int),
                    newline,
                    0,
                ),
                self.buffer@ == text,
                text == s.raw + chunk@,
                s == old(self)@,
                s.wf(),
                self.utf8_buffer@ == s.carry,
                self.pending_error == s.pending,
                self.encoding == s.encoding,
                self.bom_detected == s.bom_detected,
                self.inner.wf(),
                self.inner@.options == s.parser.options,
                newline == s.parser.options.newline,
                plain_rows(text, newline) == seen + plain_rows(
                    text.subrange(start as int, len as int),
                    newline,
                ),
                plain_tail(text, newline) == plain_tail(
                    text.subrange(start as int, len as int),
                    newline,
                ),
                run_rows(s.parser, seen) == (BatchModel {
                    parser: self.inner@,
                    rows: rows_view(rows@),
                    failure: None,
                }),
            decreases len - start,
        {
            let ghost rest = text.subrange(start as int, len as int);
            let ghost row = text.subrange(start as int, at + 1);
            let ghost more = plain_rows(text.subrange(at + 1, len as int), newline);
            proof {
                assert(rest.subrange(0, at - start + 1) =~= row);
                assert(rest.subrange(at - start + 1, rest.len() as int) =~= text.subrange(
                    at + 1,
                    len as int,
                ));
                assert(seen + (seq![row] + more) =~= seen.push(row) + more);
                assert(seen.push(row).drop_last() =~= seen);
            }
            match self.inner.parse_line(self.buffer.as_slice(), start, at + 1) {
                Ok(Some(labeled)) => {
                    rows.push(labeled);
                },
                Ok(None) => {},
                Err(e) => {
                    proof {
                        lemma_run_rows_stops(s.parser, seen.push(row), more);
                        lemma_transform_wf(s, chunk@);
                    }
                    return Err(e);
                },
            }
            proof {
                seen = seen.push(row);
            }
            start = at + 1;
            at = find_byte(self.buffer.as_slice(), start, len, newline);
        }
        let tail = self.buffer.split_off(start);
        self.buffer = tail;
        Ok(rows)
    }

    /// Ends the input, as `finish` does.
    pub fn flush(&mut self) -> (res: Result<Vec<LabeledRow>, ParseError>)
        requires
            old(self).wf(),
        ensures
            final(self).wf(),
            final(self)@.wf(),
            (final(self)@, rows_result_view(res)) == finish_spec(old(self)@),
    {
        self.finish()
    }
}

} // verus!
