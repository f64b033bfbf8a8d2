//! Laws of cutting: what the cutting of text into rows and of rows into cells
//! keeps, and that it reads back what a writer of CSV writes.

use vstd::prelude::*;

use crate::cell::{cell_content, cell_text, content_text, row_texts, split_cells, unescape};
use crate::scan::{
    is_free_delimiter, lemma_next_delimiter_result, lemma_scan_from_finds_first, next_delimiter,
    scan_from,
};
use crate::segment::{complete_rows, unfinished_tail};

verus! {

/// Outside quotes means behind an even number of quote bytes: the delimiter that
/// a scan finds is the first one in the buffer that is not the quote byte and has
/// an even number of quote bytes before it. Rows and cells are cut at such
/// delimiters and nowhere else.
pub proof fn law_delimiter_outside_quotes(buf: Seq<u8>, delim: u8, quote: u8)
    ensures
        0 <= next_delimiter(buf, delim, quote) <= buf.len(),
        next_delimiter(buf, delim, quote) < buf.len() ==> is_free_delimiter(
            buf,
            delim,
            quote,
            next_delimiter(buf, delim, quote),
        ),
        forall|j: int|
            0 <= j < next_delimiter(buf, delim, quote) ==> !is_free_delimiter(buf, delim, quote, j),
{
    lemma_next_delimiter_result(buf, delim, quote);
    lemma_scan_from_finds_first(buf, 0, false, delim, quote);
}

/// The parts put together again, one after the other.
pub open spec fn concat_all(parts: Seq<Seq<u8>>) -> Seq<u8>
    decreases parts.len(),
{
    if parts.len() == 0 {
        Seq::empty()
    } else {
        parts[0] + concat_all(parts.drop_first())
    }
}

/// The cells put together again, with a separator between each two.
pub open spec fn join_cells(cells: Seq<Seq<u8>>, separator: u8) -> Seq<u8>
    decreases cells.len(),
{
    if cells.len() == 0 {
        Seq::empty()
    } else if cells.len() == 1 {
        cells[0]
    } else {
        cells[0] + seq![separator] + join_cells(cells.drop_first(), separator)
    }
}

/// Cutting text into rows loses no byte and adds none: the complete rows, put
/// together again and followed by the unfinished rest, are the text.
pub proof fn law_rows_keep_every_byte(text: Seq<u8>, newline: u8, quote: u8)
    ensures
        concat_all(complete_rows(text, newline, quote)) + unfinished_tail(text, newline, quote)
            == text,
    decreases text.len(),
{
    let at = next_delimiter(text, newline, quote);
    lemma_next_delimiter_result(text, newline, quote);
    if at < text.len() {
        let row = text.subrange(0, at + 1);
        let rest = text.subrange(at + 1, text.len() as int);
        law_rows_keep_every_byte(rest, newline, quote);
        let rows = complete_rows(text, newline, quote);
        assert(rows.drop_first() =~= complete_rows(rest, newline, quote));
        assert(row + (concat_all(complete_rows(rest, newline, quote)) + unfinished_tail(
            rest,
            newline,
            quote,
        )) =~= text);
    }
}

/// Every complete row ends in a terminator.
pub proof fn law_rows_end_in_terminator(text: Seq<u8>, newline: u8, quote: u8, k: int)
    requires
        0 <= k < complete_rows(text, newline, quote).len(),
    ensures
        complete_rows(text, newline, quote)[k].len() > 0,
        complete_rows(text, newline, quote)[k].last() == newline,
    decreases text.len(),
{
    let at = next_delimiter(text, newline, quote);
    lemma_next_delimiter_result(text, newline, quote);
    if k > 0 {
        let rest = text.subrange(at + 1, text.len() as int);
        law_rows_end_in_terminator(rest, newline, quote, k - 1);
    }
}

/// Cutting a row into cells loses no byte and adds none: the cells, put together
/// again with a separator between each two, are the row.
pub proof fn law_cells_keep_every_byte(row: Seq<u8>, separator: u8, quote: u8)
    ensures
        split_cells(row, separator, quote).len() >= 1,
        join_cells(split_cells(row, separator, quote), separator) == row,
    decreases row.len(),
{
    let at = next_delimiter(row, separator, quote);
    lemma_next_delimiter_result(row, separator, quote);
    if at < row.len() {
        let rest = row.subrange(at + 1, row.len() as int);
        law_cells_keep_every_byte(rest, separator, quote);
        let cells = split_cells(row, separator, quote);
        assert(cells.drop_first() =~= split_cells(rest, separator, quote));
    }
}

/// The content of a cell with every quote byte doubled.
pub open spec fn doubled(content: Seq<u8>, quote: u8) -> Seq<u8>
    decreases content.len(),
{
    if content.len() == 0 {
        Seq::empty()
    } else if content[0] == quote {
        seq![quote, quote] + doubled(content.drop_first(), quote)
    } else {
        seq![content[0]] + doubled(content.drop_first(), quote)
    }
}

/// A cell as it is written in quotes: its content with every quote byte doubled,
/// between two quote bytes.
pub open spec fn quoted_cell(content: Seq<u8>, quote: u8) -> Seq<u8> {
    seq![quote] + doubled(content, quote) + seq![quote]
}

/// A row as it is written: every cell in quotes, a separator between each two.
pub open spec fn written_row(cells: Seq<Seq<u8>>, separator: u8, quote: u8) -> Seq<u8> {
    join_cells(Seq::new(cells.len(), |i: int| quoted_cell(cells[i], quote)), separator)
}

/// Doubled quotes read back as single ones.
pub proof fn lemma_doubled_reads_back(content: Seq<u8>, quote: u8)
    ensures
        unescape(doubled(content, quote), quote, quote) == content,
    decreases content.len(),
{
    if content.len() > 0 {
        let rest = content.drop_first();
        lemma_doubled_reads_back(rest, quote);
        let written = doubled(content, quote);
        if content[0] == quote {
            assert(written.subrange(2, written.len() as int) =~= doubled(rest, quote));
        } else {
            assert(written.subrange(1, written.len() as int) =~= doubled(rest, quote));
        }
    }
}

/// A cell that is written in quotes reads back as its content, whatever bytes
/// the content holds: separators, terminators and quotes too. This is for the
/// escape byte that is the quote byte.
pub proof fn law_quoted_cell_reads_back(content: Seq<u8>, quote: u8)
    ensures
        cell_content(quoted_cell(content, quote), quote, quote) == content,
{
    let written = quoted_cell(content, quote);
    lemma_doubled_reads_back(content, quote);
    assert(written.subrange(1, written.len() - 1) =~= doubled(content, quote));
}

/// A scan that stands inside quotes at the start of doubled content passes over
/// the content and the closing quote behind it, and goes on outside quotes.
proof fn lemma_scan_passes_quoted(
    before: Seq<u8>,
    content: Seq<u8>,
    after: Seq<u8>,
    delim: u8,
    quote: u8,
)
    requires
        after.len() > 0 ==> after[0] != quote,
    ensures
        scan_from(
            before + doubled(content, quote) + seq![quote] + after,
            before.len() as int,
            true,
            delim,
            quote,
        ) == scan_from(
            before + doubled(content, quote) + seq![quote] + after,
            (before.len() + doubled(content, quote).len() + 1) as int,
            false,
            delim,
            quote,
        ),
    decreases content.len(),
{
    let buf = before + doubled(content, quote) + seq![quote] + after;
    if content.len() > 0 {
        let rest = content.drop_first();
        if content[0] == quote {
            let longer = before + seq![quote, quote];
            lemma_scan_passes_quoted(longer, rest, after, delim, quote);
            assert(buf =~= longer + doubled(rest, quote) + seq![quote] + after);
        } else {
            let longer = before + seq![content[0]];
            lemma_scan_passes_quoted(longer, rest, after, delim, quote);
            assert(buf =~= longer + doubled(rest, quote) + seq![quote] + after);
        }
    }
}

/// A row that is written reads back as it was written: it is cut into the cells
/// in their quotes, whatever bytes their contents hold.
pub proof fn law_written_row_reads_back(cells: Seq<Seq<u8>>, separator: u8, quote: u8)
    requires
        cells.len() >= 1,
        separator != quote,
    ensures
        split_cells(written_row(cells, separator, quote), separator, quote) == Seq::new(
            cells.len(),
            |i: int| quoted_cell(cells[i], quote),
        ),
    decreases cells.len(),
{
    let written = Seq::new(cells.len(), |i: int| quoted_cell(cells[i], quote));
    let row = written_row(cells, separator, quote);
    let first = quoted_cell(cells[0], quote);
    let after = if cells.len() == 1 {
        Seq::<u8>::empty()
    } else {
        seq![separator] + written_row(cells.drop_first(), separator, quote)
    };
    assert(written.drop_first() =~= Seq::new(
        cells.drop_first().len(),
        |i: int| quoted_cell(cells.drop_first()[i], quote),
    ));
    assert(row =~= seq![quote] + doubled(cells[0], quote) + seq![quote] + after);
    lemma_scan_passes_quoted(seq![quote], cells[0], after, separator, quote);
    let behind = first.len() as int;
    if cells.len() > 1 {
        assert(row.subrange(0, behind) =~= first);
        assert(row.subrange(behind + 1, row.len() as int) =~= written_row(
            cells.drop_first(),
            separator,
            quote,
        ));
        law_written_row_reads_back(cells.drop_first(), separator, quote);
    }
}

/// Reading is the inverse of writing: a row that is written from cell contents
/// reads back as the texts of those contents, in order, provided each content
/// has a text.
pub proof fn law_reading_inverts_writing(
    cells: Seq<Seq<u8>>,
    separator: u8,
    quote: u8,
    lossy: bool,
)
    requires
        cells.len() >= 1,
        separator != quote,
        forall|i: int| 0 <= i < cells.len() ==> (#[trigger] content_text(cells[i], lossy)) is Some,
    ensures
        row_texts(written_row(cells, separator, quote), separator, quote, quote, lossy) == Some(
            Seq::new(cells.len(), |i: int| content_text(cells[i], lossy).unwrap()),
        ),
{
    let row = written_row(cells, separator, quote);
    let read = split_cells(row, separator, quote);
    law_written_row_reads_back(cells, separator, quote);
    assert forall|i: int| 0 <= i < read.len() implies (#[trigger] cell_text(
        read[i],
        quote,
        quote,
        lossy,
    )) == content_text(cells[i], lossy) by {
        law_quoted_cell_reads_back(cells[i], quote);
    }
}

} // verus!
