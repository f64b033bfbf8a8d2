//! Cutting the canonical text into rows, and running the rows through the line
//! parser.

use vstd::prelude::*;

use crate::error::ParseError;
use crate::line_model::{parse_line_spec, ParserModel};
use crate::row::Entries;
use crate::scan::{lemma_next_delimiter_result, lemma_scan_from_stable, next_delimiter};

verus! {

/// The complete rows at the start of `text`, each with its terminator: the text is
/// cut after every terminator that stands outside quotes.
pub open spec fn complete_rows(text: Seq<u8>, newline: u8, quote: u8) -> Seq<Seq<u8>>
    decreases text.len(),
{
    let at = next_delimiter(text, newline, quote);
    if 0 <= at < text.len() {
        seq![text.subrange(0, at + 1)] + complete_rows(
            text.subrange(at + 1, text.len() as int),
            newline,
            quote,
        )
    } else {
        Seq::empty()
    }
}

/// What is left of `text` after its complete rows: the beginning of a row whose
/// terminator has not arrived.
pub open spec fn unfinished_tail(text: Seq<u8>, newline: u8, quote: u8) -> Seq<u8>
    decreases text.len(),
{
    let at = next_delimiter(text, newline, quote);
    if 0 <= at < text.len() {
        unfinished_tail(text.subrange(at + 1, text.len() as int), newline, quote)
    } else {
        text
    }
}

/// No terminator stands outside quotes in `text`.
pub open spec fn is_unfinished(text: Seq<u8>, newline: u8, quote: u8) -> bool {
    next_delimiter(text, newline, quote) == text.len()
}

/// The tail holds no complete row.
pub proof fn lemma_tail_is_unfinished(text: Seq<u8>, newline: u8, quote: u8)
    ensures
        is_unfinished(unfinished_tail(text, newline, quote), newline, quote),
    decreases text.len(),
{
    let at = next_delimiter(text, newline, quote);
    lemma_next_delimiter_result(text, newline, quote);
    if 0 <= at < text.len() {
        lemma_tail_is_unfinished(text.subrange(at + 1, text.len() as int), newline, quote);
    }
}

/// Text without a complete row is its own tail.
pub proof fn lemma_unfinished_text(text: Seq<u8>, newline: u8, quote: u8)
    requires
        is_unfinished(text, newline, quote),
    ensures
        complete_rows(text, newline, quote) == Seq::<Seq<u8>>::empty(),
        unfinished_tail(text, newline, quote) == text,
{
}

/// The index of the first `byte` in `text` at or after `i`, or the text's length.
pub open spec fn byte_from(text: Seq<u8>, byte: u8, i: int) -> int
    decreases text.len() - i,
{
    if 0 <= i < text.len() {
        if text[i] == byte {
            i
        } else {
            byte_from(text, byte, i + 1)
        }
    } else {
        text.len() as int
    }
}

/// The rows of `text` where every terminator byte ends a row, quoted or not.
pub open spec fn plain_rows(text: Seq<u8>, newline: u8) -> Seq<Seq<u8>>
    decreases text.len(),
{
    let at = byte_from(text, newline, 0);
    if 0 <= at < text.len() {
        seq![text.subrange(0, at + 1)] + plain_rows(
            text.subrange(at + 1, text.len() as int),
            newline,
        )
    } else {
        Seq::empty()
    }
}

/// What is left of `text` after its last terminator byte.
pub open spec fn plain_tail(text: Seq<u8>, newline: u8) -> Seq<u8>
    decreases text.len(),
{
    let at = byte_from(text, newline, 0);
    if 0 <= at < text.len() {
        plain_tail(text.subrange(at + 1, text.len() as int), newline)
    } else {
        text
    }
}

/// Finds the first `byte` in `buf[start..end]`. Returns its index in `buf`, or
/// `end` if there is none.
pub(crate) fn find_byte(buf: &[u8], start: usize, end: usize, byte: u8) -> (pos: usize)
    requires
        start <= end <= buf@.len(),
    ensures
        start <= pos <= end,
        pos - start == byte_from(buf@.subrange(start as int, end as int), byte, 0),
{
    let ghost part = buf@.subrange(start as int, end as int);
    let mut i: usize = start;
    while i < end
        invariant
            start <= i <= end <= buf@.len(),
            part == buf@.subrange(start as int, end as int),
            byte_from(part, byte, i - start) == byte_from(part, byte, 0),
        decreases end - i,
    {
        if buf[i] == byte {
            return i;
        }
        i += 1;
    }
    i
}

/// The outcome of a run of rows.
#[verifier::ext_equal]
pub struct BatchModel {
    /// The parser's state after the run.
    pub parser: ParserModel,
    /// The rows that came out before any failure.
    pub rows: Seq<Entries>,
    /// The first failure, if there was one.
    pub failure: Option<ParseError>,
}

/// Runs rows through the line parser, in order, up to the first failure. Rows
/// after a failure are not parsed at all.
pub open spec fn run_rows(p: ParserModel, rows: Seq<Seq<u8>>) -> BatchModel
    decreases rows.len(),
{
    if rows.len() == 0 {
        BatchModel { parser: p, rows: Seq::empty(), failure: None }
    } else {
        let before = run_rows(p, rows.drop_last());
        if before.failure is Some {
            before
        } else {
            let (parser, outcome) = parse_line_spec(before.parser, rows.last());
            match outcome {
                Ok(None) => BatchModel { parser, ..before },
                Ok(Some(row)) => BatchModel { parser, rows: before.rows.push(row), failure: None },
                Err(e) => BatchModel { parser, rows: before.rows, failure: Some(e) },
            }
        }
    }
}

/// A run keeps the parser's configuration in place, and a well-formed parser
/// well-formed.
pub proof fn lemma_run_rows_wf(p: ParserModel, rows: Seq<Seq<u8>>)
    ensures
        run_rows(p, rows).parser.options == p.options,
        p.wf() ==> run_rows(p, rows).parser.wf(),
    decreases rows.len(),
{
    if rows.len() > 0 {
        lemma_run_rows_wf(p, rows.drop_last());
    }
}

/// Rows behind a failure change nothing: the run has ended.
pub proof fn lemma_run_rows_stops(p: ParserModel, rows: Seq<Seq<u8>>, more: Seq<Seq<u8>>)
    requires
        run_rows(p, rows).failure is Some,
    ensures
        run_rows(p, rows + more) == run_rows(p, rows),
    decreases more.len(),
{
    if more.len() > 0 {
        lemma_run_rows_stops(p, rows, more.drop_last());
        assert((rows + more).drop_last() =~= rows + more.drop_last());
    }
}

/// Rows that are complete stay as they are when more text arrives: the rows of a
/// longer text are the rows of its beginning, followed by the rows that the
/// beginning's unfinished rest and the new text form together.
pub proof fn lemma_complete_rows_append(text: Seq<u8>, more: Seq<u8>, newline: u8, quote: u8)
    ensures
        complete_rows(text + more, newline, quote) == complete_rows(text, newline, quote)
            + complete_rows(unfinished_tail(text, newline, quote) + more, newline, quote),
        unfinished_tail(text + more, newline, quote) == unfinished_tail(
            unfinished_tail(text, newline, quote) + more,
            newline,
            quote,
        ),
    decreases text.len(),
{
    let at = next_delimiter(text, newline, quote);
    let all = text + more;
    lemma_next_delimiter_result(text, newline, quote);
    if at < text.len() {
        lemma_scan_from_stable(text, more, 0, false, newline, quote);
        let rest = text.subrange(at + 1, text.len() as int);
        lemma_complete_rows_append(rest, more, newline, quote);
        assert(all.subrange(0, at + 1) =~= text.subrange(0, at + 1));
        assert(all.subrange(at + 1, all.len() as int) =~= rest + more);
    }
}

/// A run over two lists of rows is the run over the first, continued over the
/// second from the state it reached, unless the first already failed.
pub proof fn lemma_run_rows_append(p: ParserModel, rows: Seq<Seq<u8>>, more: Seq<Seq<u8>>)
    ensures
        run_rows(p, rows + more) == if run_rows(p, rows).failure is Some {
            run_rows(p, rows)
        } else {
            BatchModel {
                parser: run_rows(run_rows(p, rows).parser, more).parser,
                rows: run_rows(p, rows).rows + run_rows(run_rows(p, rows).parser, more).rows,
                failure: run_rows(run_rows(p, rows).parser, more).failure,
            }
        },
    decreases more.len(),
{
    let first = run_rows(p, rows);
    if first.failure is Some {
        lemma_run_rows_stops(p, rows, more);
    } else if more.len() > 0 {
        lemma_run_rows_append(p, rows, more.drop_last());
        assert((rows + more).drop_last() =~= rows + more.drop_last());
    }
}

/// A run over no rows does nothing.
pub proof fn lemma_run_no_rows(p: ParserModel)
    ensures
        run_rows(p, Seq::empty()) == (BatchModel {
            parser: p,
            rows: Seq::empty(),
            failure: None,
        }),
{
}

/// A run over one row is that row's doing.
pub proof fn lemma_run_one_row(p: ParserModel, row: Seq<u8>)
    ensures
        run_rows(p, seq![row]) == (BatchModel {
            parser: parse_line_spec(p, row).0,
            rows: match parse_line_spec(p, row).1 {
                Ok(Some(labeled)) => seq![labeled],
                _ => Seq::empty(),
            },
            failure: match parse_line_spec(p, row).1 {
                Err(e) => Some(e),
                _ => None,
            },
        }),
{
    assert(seq![row].drop_last() =~= Seq::<Seq<u8>>::empty());
    lemma_run_no_rows(p);
}

/// Text that is one complete row and nothing else is cut into that row, and
/// nothing is left.
pub proof fn lemma_one_complete_row(text: Seq<u8>, newline: u8, quote: u8)
    requires
        text.len() > 0,
        next_delimiter(text, newline, quote) == text.len() - 1,
    ensures
        complete_rows(text, newline, quote) == seq![text],
        unfinished_tail(text, newline, quote) == Seq::<u8>::empty(),
{
    let rest = text.subrange(text.len() as int, text.len() as int);
    lemma_next_delimiter_result(rest, newline, quote);
    lemma_unfinished_text(rest, newline, quote);
    assert(text.subrange(0, text.len() as int) =~= text);
}

} // verus!
