//! Laws of the streaming parser, stated over its state machine.

use vstd::prelude::*;

use crate::cell::row_texts;
use crate::encoding::{decoded_text, normalized_text, sniff, TextEncoding, MAX_DECODE_BYTES};
use crate::error::ParseError;
use crate::line_model::{
    exceeds_limit, is_comment_row, parse_line_spec, skip_threshold, trim_row, ParserModel,
};
use crate::row::{
    assemble_prefix, distinct_labels, label_for, labels_are_faithful, lemma_assemble_faithful,
    lemma_lookup_after_insert, lemma_numeric_labels_faithful, lemma_row_insert_distinct, listed,
    lookup, numeric_labels, Entries,
};
use crate::scan::{lemma_next_delimiter_result, next_delimiter};
use crate::segment::{
    complete_rows, is_unfinished, lemma_complete_rows_append, lemma_one_complete_row,
    lemma_run_no_rows, lemma_run_one_row, lemma_run_rows_append, lemma_run_rows_wf,
    lemma_unfinished_text, plain_rows, run_rows, unfinished_tail,
};
use crate::stream_model::{
    drain, final_rows, finish_spec, push_spec, push_text_spec, transform_spec, StreamModel,
};
use crate::text::decimal_text;

verus! {

/// The parser reads UTF-8, has examined the start of its input, and holds no bytes
/// that wait for decoding and no failure to report.
pub open spec fn reads_utf8(s: StreamModel) -> bool {
    &&& s.bom_detected
    &&& s.encoding == TextEncoding::Utf8
    &&& s.raw.len() == 0
    &&& s.pending is None
}

/// In a parser that reads UTF-8, a chunk joins the carried text, and the complete
/// rows of the whole are parsed.
pub proof fn lemma_push_utf8(s: StreamModel, chunk: Seq<u8>)
    requires
        reads_utf8(s),
    ensures
        push_spec(s, chunk) == drain(StreamModel { carry: s.carry + chunk, ..s }),
{
}

/// The rows that a call hands back; none, if it fails.
pub open spec fn rows_of(outcome: (StreamModel, Result<Seq<Entries>, ParseError>)) -> Seq<Entries> {
    match outcome.1 {
        Ok(rows) => rows,
        Err(_) => Seq::empty(),
    }
}

/// The failure that a call met: the one it hands back, or the one it keeps for
/// the next call.
pub open spec fn failure_of(
    outcome: (StreamModel, Result<Seq<Entries>, ParseError>),
) -> Option<ParseError> {
    match outcome.1 {
        Ok(_) => outcome.0.pending,
        Err(e) => Some(e),
    }
}

/// Cutting text elsewhere changes nothing: where the first of two pieces of
/// text passes without a failure, the rows that the two hand back, one after the
/// other, are the rows that they hand back as one. A failure that the second
/// meets is met either way, and the line parser and the carried text end up the
/// same. Only whether that failure is handed back at once or kept for the next
/// call may differ, since that depends on the rows that came before it in the
/// same call.
pub proof fn law_text_chunking_is_invisible(s: StreamModel, first: Seq<u8>, second: Seq<u8>)
    requires
        s.pending is None,
        failure_of(push_text_spec(s, first)) is None,
    ensures
        rows_of(push_text_spec(s, first + second)) == rows_of(push_text_spec(s, first))
            + rows_of(push_text_spec(push_text_spec(s, first).0, second)),
        failure_of(push_text_spec(s, first + second)) == failure_of(
            push_text_spec(push_text_spec(s, first).0, second),
        ),
        push_text_spec(s, first + second).0.parser == push_text_spec(
            push_text_spec(s, first).0,
            second,
        ).0.parser,
        push_text_spec(s, first + second).0.carry == push_text_spec(
            push_text_spec(s, first).0,
            second,
        ).0.carry,
        failure_of(push_text_spec(s, first + second)) is None ==> push_text_spec(
            s,
            first + second,
        ).0 == push_text_spec(push_text_spec(s, first).0, second).0,
{
    let newline = s.parser.options.newline;
    let quote = s.parser.options.quote;
    let text = s.carry + first;
    assert(s.carry + (first + second) =~= text + second);
    lemma_complete_rows_append(text, second, newline, quote);
    let rows_a = complete_rows(text, newline, quote);
    let rows_b = complete_rows(unfinished_tail(text, newline, quote) + second, newline, quote);
    lemma_run_rows_append(s.parser, rows_a, rows_b);
    lemma_run_rows_wf(s.parser, rows_a);
}

/// Cutting the input elsewhere changes nothing: in a parser that reads UTF-8,
/// where the first of two chunks passes without a failure, the rows that the two
/// hand back, one after the other, are the rows that they hand back as one. A
/// failure that the second meets is met either way, and the line parser and the
/// carried text end up the same.
pub proof fn law_chunking_is_invisible(s: StreamModel, first: Seq<u8>, second: Seq<u8>)
    requires
        reads_utf8(s),
        failure_of(push_spec(s, first)) is None,
    ensures
        rows_of(push_spec(s, first + second)) == rows_of(push_spec(s, first)) + rows_of(
            push_spec(push_spec(s, first).0, second),
        ),
        failure_of(push_spec(s, first + second)) == failure_of(
            push_spec(push_spec(s, first).0, second),
        ),
        push_spec(s, first + second).0.parser == push_spec(push_spec(s, first).0, second).0.parser,
        push_spec(s, first + second).0.carry == push_spec(push_spec(s, first).0, second).0.carry,
        failure_of(push_spec(s, first + second)) is None ==> push_spec(s, first + second).0
            == push_spec(push_spec(s, first).0, second).0,
{
    lemma_push_utf8(s, first);
    lemma_push_utf8(s, first + second);
    lemma_push_utf8(push_spec(s, first).0, second);
    law_text_chunking_is_invisible(s, first, second);
}

/// A row may arrive in pieces: while the carried text and a chunk together hold no
/// complete row, the chunk only joins the carried text, and what follows is parsed
/// as if the chunk and its successor had arrived as one. The cut may fall
/// anywhere, inside a quoted cell too.
pub proof fn law_row_in_pieces(s: StreamModel, first: Seq<u8>, second: Seq<u8>)
    requires
        reads_utf8(s),
        is_unfinished(s.carry + first, s.parser.options.newline, s.parser.options.quote),
    ensures
        push_spec(s, first) == (
            StreamModel { carry: s.carry + first, ..s },
            Ok::<Seq<Entries>, ParseError>(Seq::empty()),
        ),
        push_spec(push_spec(s, first).0, second) == push_spec(s, first + second),
{
    let newline = s.parser.options.newline;
    let quote = s.parser.options.quote;
    let mid = StreamModel { carry: s.carry + first, ..s };
    lemma_push_utf8(s, first);
    lemma_unfinished_text(s.carry + first, newline, quote);
    lemma_push_utf8(mid, second);
    lemma_push_utf8(s, first + second);
    assert(s.carry + (first + second) =~= (s.carry + first) + second);
}

/// Ending the input twice: unless the first call had a kept failure to report,
/// it leaves nothing buffered, and the second call hands back no row and changes
/// nothing.
pub proof fn law_finish_twice(s: StreamModel)
    requires
        s.pending is None,
    ensures
        finish_spec(s).0.is_exhausted(),
        finish_spec(finish_spec(s).0) == (
            finish_spec(s).0,
            Ok::<Seq<Entries>, ParseError>(Seq::empty()),
        ),
{
}

/// With nothing buffered and nothing to report, ending the input hands back no row
/// and changes nothing.
pub proof fn law_finish_when_exhausted(s: StreamModel)
    requires
        s.is_exhausted(),
    ensures
        finish_spec(s) == (s, Ok::<Seq<Entries>, ParseError>(Seq::empty())),
{
}

/// The row `raw` is data for the parser: it is not empty, no comment, not among
/// the rows to skip, not over the size limit, and each of its cells has a text.
pub open spec fn is_data_row(p: ParserModel, raw: Seq<u8>) -> bool {
    let o = p.options;
    let row = trim_row(raw, o.newline);
    &&& row.len() > 0
    &&& !is_comment_row(row, o.comment)
    &&& p.lines_skipped >= skip_threshold(o.skip_lines)
    &&& !exceeds_limit(raw.len() as int, o.max_row_bytes)
    &&& row_texts(row, o.separator, o.quote, o.escape, o.raw) is Some
}

/// The texts of the cells of a data row.
pub open spec fn data_cells(p: ParserModel, raw: Seq<u8>) -> Seq<Seq<char>> {
    let o = p.options;
    row_texts(trim_row(raw, o.newline), o.separator, o.quote, o.escape, o.raw).unwrap()
}

/// A cell list under numbered columns: the cell at position `i` under the decimal
/// numeral of `i`.
pub open spec fn numbered(cells: Seq<Seq<char>>) -> Entries {
    Seq::new(cells.len(), |i: int| (decimal_text(i as nat), cells[i]))
}

/// The input is one complete row and nothing else: its last byte is a
/// terminator, and no terminator stands outside quotes before it.
pub open spec fn is_single_row(input: Seq<u8>, newline: u8, quote: u8) -> bool {
    input.len() > 0 && next_delimiter(input, newline, quote) == input.len() - 1
}

/// The parser has received nothing: the start of the input is not examined, and
/// nothing is buffered or kept.
pub open spec fn awaits_input(s: StreamModel) -> bool {
    &&& !s.bom_detected
    &&& s.raw.len() == 0
    &&& s.carry.len() == 0
    &&& s.pending is None
}

/// The parser has received nothing, and the chunk is UTF-8 without a byte-order
/// mark, long enough for the start of the input to be examined.
pub open spec fn begins_plain(s: StreamModel, chunk: Seq<u8>) -> bool {
    &&& awaits_input(s)
    &&& chunk.len() >= 2
    &&& sniff(chunk) == (TextEncoding::Utf8, chunk)
}

/// A chunk of plain UTF-8 at the start of the input is taken as it is.
pub proof fn lemma_push_plain(s: StreamModel, chunk: Seq<u8>)
    requires
        begins_plain(s, chunk),
    ensures
        push_spec(s, chunk) == drain(
            StreamModel {
                carry: s.carry + chunk,
                encoding: TextEncoding::Utf8,
                bom_detected: true,
                ..s
            },
        ),
{
}

/// One complete row, pushed on its own into a parser that carries nothing, does to
/// the line parser what the row does, and the call hands back the row's outcome.
pub proof fn law_single_row(s: StreamModel, input: Seq<u8>)
    requires
        reads_utf8(s) || begins_plain(s, input),
        s.carry.len() == 0,
        is_single_row(input, s.parser.options.newline, s.parser.options.quote),
    ensures
        push_spec(s, input).1 == final_rows(parse_line_spec(s.parser, input).1),
        push_spec(s, input).0.parser == parse_line_spec(s.parser, input).0,
        push_spec(s, input).0.carry.len() == 0,
{
    let newline = s.parser.options.newline;
    let quote = s.parser.options.quote;
    if reads_utf8(s) {
        lemma_push_utf8(s, input);
    } else {
        lemma_push_plain(s, input);
    }
    lemma_one_complete_row(input, newline, quote);
    lemma_run_one_row(s.parser, input);
}

/// Where the columns are numbered, the first data row comes out as a row that
/// lists its cells one by one, in order, each under the numeral of its position.
pub proof fn law_numbered_row(p: ParserModel, raw: Seq<u8>)
    requires
        p.first,
        p.options.headers == Some(Seq::<Seq<char>>::empty()),
        is_data_row(p, raw),
    ensures
        parse_line_spec(p, raw).1 == Ok::<Option<Entries>, ParseError>(
            Some(numbered(data_cells(p, raw))),
        ),
{
    let cells = data_cells(p, raw);
    let labels = numeric_labels(cells.len());
    lemma_numeric_labels_faithful(cells.len());
    lemma_assemble_faithful(labels, cells, cells.len() as int);
    assert(listed(labels, cells, cells.len() as int) =~= numbered(cells));
}

/// Under labels that keep every cell and give no two cells the same label, a
/// data row comes out as a row that lists its cells one by one, in order.
pub proof fn law_faithful_row(p: ParserModel, raw: Seq<u8>)
    requires
        !p.first,
        p.headers is Some,
        labels_are_faithful(p.headers->Some_0, data_cells(p, raw).len() as int),
        p.options.strict ==> data_cells(p, raw).len() == p.headers->Some_0.len(),
        is_data_row(p, raw),
    ensures
        parse_line_spec(p, raw).1 == Ok::<Option<Entries>, ParseError>(
            Some(listed(p.headers->Some_0, data_cells(p, raw), data_cells(p, raw).len() as int)),
        ),
{
    let cells = data_cells(p, raw);
    lemma_assemble_faithful(p.headers->Some_0, cells, cells.len() as int);
}

/// A single complete row of data, pushed into a parser that numbers its columns
/// and has not seen a row, yields exactly one row, and that row holds the cell
/// values of the input, split at the separators outside quotes, in order.
pub proof fn law_single_row_lists_cells(s: StreamModel, input: Seq<u8>)
    requires
        reads_utf8(s) || begins_plain(s, input),
        s.carry.len() == 0,
        is_single_row(input, s.parser.options.newline, s.parser.options.quote),
        s.parser.first,
        s.parser.options.headers == Some(Seq::<Seq<char>>::empty()),
        is_data_row(s.parser, input),
    ensures
        push_spec(s, input).1 == Ok::<Seq<Entries>, ParseError>(
            seq![numbered(data_cells(s.parser, input))],
        ),
{
    law_single_row(s, input);
    law_numbered_row(s.parser, input);
}

/// A chunk does what its text does: once the start of the input can be examined,
/// a chunk whose whole units decode hands back what their text hands back when it
/// is pushed as text, and leaves the same line parser, carried text and kept
/// failure. This holds for every encoding.
pub proof fn law_chunk_as_text(s: StreamModel, chunk: Seq<u8>, text: Seq<u8>)
    requires
        s.pending is None,
        s.bom_detected || s.raw.len() + chunk.len() >= 2,
        normalized_text(s.examined(s.raw + chunk).encoding, s.examined(s.raw + chunk).raw)
            == Some(text),
    ensures
        push_spec(s, chunk).1 == push_text_spec(s, text).1,
        push_spec(s, chunk).0.parser == push_text_spec(s, text).0.parser,
        push_spec(s, chunk).0.carry == push_text_spec(s, text).0.carry,
        push_spec(s, chunk).0.pending == push_text_spec(s, text).0.pending,
{
}

/// UTF-16 input that starts with its byte-order mark gives the rows of its UTF-8
/// equivalent: where the whole units of a first chunk decode without a malformed
/// sequence, the call hands back what it would hand back for the decoded text,
/// and leaves the line parser in the same state. The decoded text must not itself
/// start with a byte-order mark, which a UTF-8 parser would take for one.
pub proof fn law_utf16_as_utf8(s: StreamModel, chunk: Seq<u8>, text: Seq<u8>)
    requires
        awaits_input(s),
        chunk.len() >= 2,
        chunk.len() <= MAX_DECODE_BYTES,
        sniff(chunk).0 != TextEncoding::Utf8,
        decoded_text(sniff(chunk).0, chunk.subrange(0, chunk.len() - chunk.len() % 2)) == (
            text,
            false,
        ),
        sniff(text) == (TextEncoding::Utf8, text),
    ensures
        push_spec(s, chunk).1 == push_spec(s, text).1,
        push_spec(s, chunk).0.parser == push_spec(s, text).0.parser,
        push_spec(s, chunk).0.pending == push_spec(s, text).0.pending,
{
    let newline = s.parser.options.newline;
    let quote = s.parser.options.quote;
    if text.len() < 2 {
        // The decoded text is too short for a parser of UTF-8 to examine it: that
        // parser waits. The text holds no row of data either.
        lemma_next_delimiter_result(text, newline, quote);
        if next_delimiter(text, newline, quote) < text.len() {
            lemma_one_complete_row(text, newline, quote);
            lemma_run_one_row(s.parser, text);
        } else {
            lemma_unfinished_text(text, newline, quote);
            lemma_run_no_rows(s.parser);
        }
    }
}

/// Bytes that wait for the examination of the start of the input are not lost:
/// while fewer than two bytes have arrived, a chunk hands back nothing, and the
/// next chunk is parsed as if both had arrived as one.
pub proof fn law_waiting_bytes(s: StreamModel, first: Seq<u8>, second: Seq<u8>)
    requires
        !s.bom_detected,
        s.pending is None,
        s.raw.len() + first.len() < 2,
    ensures
        push_spec(s, first) == (
            StreamModel { raw: s.raw + first, ..s },
            Ok::<Seq<Entries>, ParseError>(Seq::empty()),
        ),
        push_spec(push_spec(s, first).0, second) == push_spec(s, first + second),
{
}

/// The UTF-8 byte-order mark is cut after its second byte: `start` is its first
/// two bytes, and `next` begins with its third.
pub open spec fn mark_is_cut(start: Seq<u8>, next: Seq<u8>) -> bool {
    &&& start.len() == 2
    &&& start[0] == 0xEF
    &&& start[1] == 0xBB
    &&& next.len() > 0
    &&& next[0] == 0xBF
}

/// Cutting the input elsewhere changes nothing at the start of UTF-8 input
/// either: where the first of two chunks brings the received bytes to two or
/// more, so that the start of the input is examined, and passes without a
/// failure, the two chunks hand back, one after the other, the rows that they
/// hand back as one. A byte-order mark that is cut after its second byte is not
/// recognized, so that cut is left out.
pub proof fn law_chunking_from_start(s: StreamModel, first: Seq<u8>, second: Seq<u8>)
    requires
        !s.bom_detected,
        s.pending is None,
        s.raw.len() + first.len() >= 2,
        sniff(s.raw + first).0 == TextEncoding::Utf8,
        !mark_is_cut(s.raw + first, second),
        failure_of(push_spec(s, first)) is None,
    ensures
        rows_of(push_spec(s, first + second)) == rows_of(push_spec(s, first)) + rows_of(
            push_spec(push_spec(s, first).0, second),
        ),
        failure_of(push_spec(s, first + second)) == failure_of(
            push_spec(push_spec(s, first).0, second),
        ),
        push_spec(s, first + second).0.parser == push_spec(push_spec(s, first).0, second).0.parser,
        push_spec(s, first + second).0.carry == push_spec(push_spec(s, first).0, second).0.carry,
        failure_of(push_spec(s, first + second)) is None ==> push_spec(s, first + second).0
            == push_spec(push_spec(s, first).0, second).0,
{
    let received = s.raw + first;
    let begun = StreamModel {
        raw: Seq::empty(),
        encoding: TextEncoding::Utf8,
        bom_detected: true,
        ..s
    };
    let head = sniff(received).1;
    assert(s.raw + (first + second) =~= received + second);
    assert(sniff(received + second).1 =~= head + second);
    lemma_push_utf8(begun, head);
    lemma_push_utf8(begun, head + second);
    law_chunking_is_invisible(begun, head, second);
}

/// Labels that are settled stay as they are, whatever row follows.
pub proof fn law_labels_stay(p: ParserModel, raw: Seq<u8>)
    requires
        !p.first,
    ensures
        !parse_line_spec(p, raw).0.first,
        parse_line_spec(p, raw).0.headers == p.headers,
{
}

/// Labels that are settled stay as they are over any run of rows.
pub proof fn law_labels_stay_over_rows(p: ParserModel, rows: Seq<Seq<u8>>)
    requires
        !p.first,
    ensures
        !run_rows(p, rows).parser.first,
        run_rows(p, rows).parser.headers == p.headers,
    decreases rows.len(),
{
    if rows.len() > 0 {
        law_labels_stay_over_rows(p, rows.drop_last());
        law_labels_stay(run_rows(p, rows.drop_last()).parser, rows.last());
    }
}

/// Labels that are settled stay as they are for the parser's lifetime: no chunk,
/// on either path, and no end of input changes them.
pub proof fn law_labels_stay_in_stream(s: StreamModel, chunk: Seq<u8>)
    requires
        !s.parser.first,
    ensures
        push_spec(s, chunk).0.parser.headers == s.parser.headers,
        !push_spec(s, chunk).0.parser.first,
        transform_spec(s, chunk).0.parser.headers == s.parser.headers,
        !transform_spec(s, chunk).0.parser.first,
        finish_spec(s).0.parser.headers == s.parser.headers,
        !finish_spec(s).0.parser.first,
{
    let newline = s.parser.options.newline;
    let quote = s.parser.options.quote;
    law_labels_stay_over_rows(s.parser, plain_rows(s.raw + chunk, newline));
    if s.pending is None {
        let raw = s.raw + chunk;
        if !(!s.bom_detected && raw.len() < 2) {
            let t = s.examined(raw);
            match normalized_text(t.encoding, t.raw) {
                None => {},
                Some(text) => {
                    law_labels_stay_over_rows(
                        s.parser,
                        complete_rows(s.carry + text, newline, quote),
                    );
                },
            }
        }
    }
}

/// Under a well-formed parser no row fails for want of labels.
pub proof fn law_labels_never_missing(p: ParserModel, raw: Seq<u8>)
    requires
        p.wf(),
    ensures
        parse_line_spec(p, raw).1 != Err::<Option<Entries>, ParseError>(
            ParseError::NoHeadersDefinedError,
        ),
{
}

/// In raw mode no row fails for invalid UTF-8.
pub proof fn law_raw_mode_decodes_every_row(p: ParserModel, raw: Seq<u8>)
    requires
        p.options.raw,
    ensures
        parse_line_spec(p, raw).1 != Err::<Option<Entries>, ParseError>(
            ParseError::Utf8DecodeError,
        ),
{
}

/// A failure leaves the counters of the line parser as they were.
pub proof fn law_failure_counts_nothing(p: ParserModel, raw: Seq<u8>)
    requires
        parse_line_spec(p, raw).1 is Err,
    ensures
        parse_line_spec(p, raw).0.line_number == p.line_number,
        parse_line_spec(p, raw).0.lines_skipped == p.lines_skipped,
{
}

/// No label occurs twice in a labeled row.
pub proof fn law_row_labels_distinct(headers: Seq<Seq<char>>, cells: Seq<Seq<char>>, n: int)
    ensures
        distinct_labels(assemble_prefix(headers, cells, n)),
    decreases n,
{
    if n > 0 {
        law_row_labels_distinct(headers, cells, n - 1);
        match label_for(headers, n - 1) {
            None => {},
            Some(label) => {
                lemma_row_insert_distinct(
                    assemble_prefix(headers, cells, n - 1),
                    label,
                    cells[n - 1],
                );
            },
        }
    }
}

/// The position of the last of the first `n` cells that goes under `label`.
pub open spec fn last_cell_under(headers: Seq<Seq<char>>, label: Seq<char>, n: int) -> Option<int>
    decreases n,
{
    if n <= 0 {
        None
    } else if label_for(headers, n - 1) == Some(label) {
        Some(n - 1)
    } else {
        last_cell_under(headers, label, n - 1)
    }
}

/// The last cell wins: a labeled row holds a label exactly if some cell goes
/// under it, and then with the value of the last such cell.
pub proof fn law_last_cell_wins(
    headers: Seq<Seq<char>>,
    cells: Seq<Seq<char>>,
    label: Seq<char>,
    n: int,
)
    ensures
        lookup(assemble_prefix(headers, cells, n), label) == match last_cell_under(
            headers,
            label,
            n,
        ) {
            Some(i) => Some(cells[i]),
            None => None,
        },
    decreases n,
{
    if n > 0 {
        law_last_cell_wins(headers, cells, label, n - 1);
        match label_for(headers, n - 1) {
            None => {},
            Some(filed) => {
                lemma_lookup_after_insert(
                    assemble_prefix(headers, cells, n - 1),
                    filed,
                    cells[n - 1],
                    label,
                );
            },
        }
    } else {
    }
}

/// A kept failure comes first and comes once: the call after the one that kept it
/// reports it, takes no input, parses nothing, and leaves nothing kept.
pub proof fn law_kept_failure_comes_first(s: StreamModel, chunk: Seq<u8>)
    requires
        s.pending is Some,
    ensures
        push_spec(s, chunk) == (
            StreamModel { pending: None, ..s },
            Err::<Seq<Entries>, ParseError>(s.pending->Some_0),
        ),
        finish_spec(s) == (
            StreamModel { pending: None, ..s },
            Err::<Seq<Entries>, ParseError>(s.pending->Some_0),
        ),
{
}

/// A failure is kept only behind rows: a call that keeps a failure hands back at
/// least one row, and a call that fails hands back its failure and keeps none.
pub proof fn law_failure_is_kept_behind_rows(s: StreamModel, chunk: Seq<u8>)
    requires
        s.pending is None,
    ensures
        push_spec(s, chunk).0.pending is Some ==> (push_spec(s, chunk).1 matches Ok(rows)
            && rows.len() > 0),
        push_spec(s, chunk).1 is Err ==> push_spec(s, chunk).0.pending is None,
{
}

/// The start of the input is examined once: an encoding that is settled stays as
/// it is, whatever arrives.
pub proof fn law_encoding_is_settled_once(s: StreamModel, chunk: Seq<u8>)
    requires
        s.bom_detected,
    ensures
        push_spec(s, chunk).0.bom_detected,
        push_spec(s, chunk).0.encoding == s.encoding,
        push_text_spec(s, chunk).0.bom_detected,
        push_text_spec(s, chunk).0.encoding == s.encoding,
        transform_spec(s, chunk).0.bom_detected,
        transform_spec(s, chunk).0.encoding == s.encoding,
        finish_spec(s).0.bom_detected,
        finish_spec(s).0.encoding == s.encoding,
{
}

} // verus!
