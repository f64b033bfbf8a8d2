//! The streaming parser as a state machine over plain values: what a chunk, and
//! the end of input, do to the parser's state, and which rows come out.

use vstd::prelude::*;

use crate::encoding::{held_back, normalized_text, sniff, TextEncoding};
use crate::error::ParseError;
use crate::line_model::{parse_line_spec, OptionsModel, ParserModel};
use crate::parser::effective_options;
use crate::row::Entries;
use crate::segment::{
    complete_rows, is_unfinished, lemma_run_rows_wf, lemma_tail_is_unfinished, plain_rows,
    plain_tail, run_rows, unfinished_tail,
};

verus! {

/// A streaming parser's state as a value.
#[verifier::ext_equal]
pub struct StreamModel {
    /// The line parser.
    pub parser: ParserModel,
    /// Bytes that were received and not yet brought to UTF-8.
    pub raw: Seq<u8>,
    /// The UTF-8 text of the row whose terminator has not arrived.
    pub carry: Seq<u8>,
    /// A failure that the next call reports.
    pub pending: Option<ParseError>,
    /// The encoding of the input.
    pub encoding: TextEncoding,
    /// Whether the start of the input has been examined for a byte-order mark.
    pub bom_detected: bool,
}

/// What a call hands back: the rows that it completed, or a failure.
pub type RowsResult = Result<Seq<Entries>, ParseError>;

impl StreamModel {
    /// The state in which a parser starts.
    pub open spec fn fresh(options: OptionsModel) -> StreamModel {
        StreamModel {
            parser: ParserModel::fresh(effective_options(options)),
            raw: Seq::empty(),
            carry: Seq::empty(),
            pending: None,
            encoding: TextEncoding::Utf8,
            bom_detected: false,
        }
    }

    /// The line parser is well-formed, and the carried text holds no complete
    /// row: no terminator stands outside quotes in it.
    pub open spec fn wf(self) -> bool {
        &&& self.parser.wf()
        &&& is_unfinished(self.carry, self.parser.options.newline, self.parser.options.quote)
    }

    /// Nothing is buffered and nothing is left to report.
    pub open spec fn is_exhausted(self) -> bool {
        &&& self.raw.len() == 0
        &&& self.carry.len() == 0
        &&& self.pending is None
    }

    /// The state once the start of the input has been examined: the encoding that
    /// was found, and the bytes that go on to decoding.
    pub open spec fn examined(self, raw: Seq<u8>) -> StreamModel {
        if self.bom_detected {
            StreamModel { raw, ..self }
        } else {
            StreamModel { raw: sniff(raw).1, encoding: sniff(raw).0, bom_detected: true, ..self }
        }
    }
}

/// The one row of a final call: none, or the row that the rest of the input gave.
pub open spec fn final_rows(outcome: Result<Option<Entries>, ParseError>) -> RowsResult {
    match outcome {
        Ok(None) => Ok(Seq::empty()),
        Ok(Some(row)) => Ok(seq![row]),
        Err(e) => Err(e),
    }
}

/// Takes the complete rows out of the carried text and runs them through the
/// line parser. A failure ends the run: the failing row and the complete rows
/// behind it are dropped, and the failure is handed back at once if no row came
/// out before it, and kept for the next call otherwise.
pub open spec fn drain(s: StreamModel) -> (StreamModel, RowsResult) {
    let newline = s.parser.options.newline;
    let quote = s.parser.options.quote;
    let batch = run_rows(s.parser, complete_rows(s.carry, newline, quote));
    let after = StreamModel {
        parser: batch.parser,
        carry: unfinished_tail(s.carry, newline, quote),
        ..s
    };
    match batch.failure {
        None => (after, Ok(batch.rows)),
        Some(e) => if batch.rows.len() == 0 {
            (after, Err(e))
        } else {
            (StreamModel { pending: Some(e), ..after }, Ok(batch.rows))
        },
    }
}

/// What text does that is UTF-8 already. A failure kept from the call before is
/// reported first, and the text is then not taken. Otherwise the text joins the
/// carried text, whose complete rows are then parsed.
pub open spec fn push_text_spec(s: StreamModel, text: Seq<u8>) -> (StreamModel, RowsResult) {
    match s.pending {
        Some(e) => (StreamModel { pending: None, ..s }, Err(e)),
        None => drain(StreamModel { carry: s.carry + text, ..s }),
    }
}

/// What a chunk does. A failure kept from the call before is reported first, and
/// the chunk is then not taken. Otherwise the chunk joins the received bytes.
/// While fewer than two bytes of the input have arrived, they wait. The start of
/// the input is examined once, for a byte-order mark. The whole units received
/// are brought to UTF-8, which fails the call if they cannot be decoded, and
/// their text is taken as any UTF-8 text is.
pub open spec fn push_spec(s: StreamModel, chunk: Seq<u8>) -> (StreamModel, RowsResult) {
    match s.pending {
        Some(e) => (StreamModel { pending: None, ..s }, Err(e)),
        None => {
            let raw = s.raw + chunk;
            if !s.bom_detected && raw.len() < 2 {
                (StreamModel { raw, ..s }, Ok(Seq::empty()))
            } else {
                let t = s.examined(raw);
                let rest = StreamModel { raw: held_back(t.encoding, t.raw), ..t };
                match normalized_text(t.encoding, t.raw) {
                    None => (rest, Err(ParseError::EncodingError)),
                    Some(text) => push_text_spec(rest, text),
                }
            }
        },
    }
}

/// What the end of input does. A failure kept from the call before is reported
/// first, and nothing else happens. Otherwise what is buffered is brought to
/// UTF-8 and parsed as one last row without terminator, and all buffers are
/// emptied, whatever the outcome.
pub open spec fn finish_spec(s: StreamModel) -> (StreamModel, RowsResult) {
    match s.pending {
        Some(e) => (StreamModel { pending: None, ..s }, Err(e)),
        None => if s.raw.len() == 0 && s.carry.len() == 0 {
            (s, Ok(Seq::empty()))
        } else {
            let t = if s.raw.len() >= 2 {
                s.examined(s.raw)
            } else {
                s
            };
            let cleared = StreamModel { raw: Seq::empty(), carry: Seq::empty(), ..t };
            match normalized_text(t.encoding, t.raw) {
                None => (cleared, Err(ParseError::EncodingError)),
                Some(text) => if (s.carry + text).len() == 0 {
                    (cleared, Ok(Seq::empty()))
                } else {
                    let (parser, outcome) = parse_line_spec(s.parser, s.carry + text);
                    (StreamModel { parser, ..cleared }, final_rows(outcome))
                },
            }
        },
    }
}

/// What a chunk does on the plain path, which knows no encodings and no quotes:
/// the chunk joins the received bytes, every terminator byte ends a row, and the
/// rows are parsed in order. A failure is handed back at once; the received bytes
/// then all stay where they are.
pub open spec fn transform_spec(s: StreamModel, chunk: Seq<u8>) -> (StreamModel, RowsResult) {
    let raw = s.raw + chunk;
    let newline = s.parser.options.newline;
    let batch = run_rows(s.parser, plain_rows(raw, newline));
    match batch.failure {
        Some(e) => (StreamModel { parser: batch.parser, raw, ..s }, Err(e)),
        None => (
            StreamModel { parser: batch.parser, raw: plain_tail(raw, newline), ..s },
            Ok(batch.rows),
        ),
    }
}

/// Text leaves the parser well-formed.
pub proof fn lemma_push_text_wf(s: StreamModel, text: Seq<u8>)
    requires
        s.wf(),
    ensures
        push_text_spec(s, text).0.wf(),
        push_text_spec(s, text).0.parser.options == s.parser.options,
{
    let newline = s.parser.options.newline;
    let quote = s.parser.options.quote;
    lemma_run_rows_wf(s.parser, complete_rows(s.carry + text, newline, quote));
    lemma_tail_is_unfinished(s.carry + text, newline, quote);
}

/// A chunk leaves the parser well-formed: in particular, the carried text never
/// holds a complete row between calls.
pub proof fn lemma_push_wf(s: StreamModel, chunk: Seq<u8>)
    requires
        s.wf(),
    ensures
        push_spec(s, chunk).0.wf(),
        push_spec(s, chunk).0.parser.options == s.parser.options,
{
    let newline = s.parser.options.newline;
    let quote = s.parser.options.quote;
    if s.pending is None {
        let raw = s.raw + chunk;
        if !(!s.bom_detected && raw.len() < 2) {
            let t = s.examined(raw);
            match normalized_text(t.encoding, t.raw) {
                None => {},
                Some(text) => {
                    let carry = s.carry + text;
                    lemma_run_rows_wf(s.parser, complete_rows(carry, newline, quote));
                    lemma_tail_is_unfinished(carry, newline, quote);
                },
            }
        }
    }
}

/// The end of input leaves the parser well-formed.
pub proof fn lemma_finish_wf(s: StreamModel)
    requires
        s.wf(),
    ensures
        finish_spec(s).0.wf(),
        finish_spec(s).0.parser.options == s.parser.options,
{
}

/// A chunk on the plain path leaves the parser well-formed.
pub proof fn lemma_transform_wf(s: StreamModel, chunk: Seq<u8>)
    requires
        s.wf(),
    ensures
        transform_spec(s, chunk).0.wf(),
        transform_spec(s, chunk).0.parser.options == s.parser.options,
{
    lemma_run_rows_wf(s.parser, plain_rows(s.raw + chunk, s.parser.options.newline));
}

} // verus!
