//! What a row's bytes mean: where its cells lie, and which text each cell holds.

use vstd::prelude::*;
use vstd::utf8::*;

use crate::scan::next_delimiter;
use crate::text::lossy_text;

verus! {

/// The raw cells of a row: the stretches between separators outside quotes. A row
/// without such a separator is one cell; a separator at the very end is followed by
/// one empty cell.
pub open spec fn split_cells(row: Seq<u8>, separator: u8, quote: u8) -> Seq<Seq<u8>>
    decreases row.len(),
{
    let at = next_delimiter(row, separator, quote);
    if 0 <= at < row.len() {
        seq![row.subrange(0, at)] + split_cells(
            row.subrange(at + 1, row.len() as int),
            separator,
            quote,
        )
    } else {
        seq![row]
    }
}

/// The inside of a quoted cell with its escapes resolved: a quote byte or an escape
/// byte directly before a quote byte is dropped and the quote byte kept.
pub open spec fn unescape(inner: Seq<u8>, quote: u8, escape: u8) -> Seq<u8>
    decreases inner.len(),
{
    if inner.len() == 0 {
        Seq::empty()
    } else if inner.len() >= 2 && (inner[0] == quote || inner[0] == escape) && inner[1] == quote {
        seq![quote] + unescape(inner.subrange(2, inner.len() as int), quote, escape)
    } else {
        seq![inner[0]] + unescape(inner.subrange(1, inner.len() as int), quote, escape)
    }
}

/// A cell is quoted when its first and its last byte are the quote byte.
pub open spec fn is_wrapped(raw: Seq<u8>, quote: u8) -> bool {
    raw.len() > 0 && raw[0] == quote && raw[raw.len() - 1] == quote
}

/// The bytes that a raw cell stands for: a quoted cell loses its wrapping quotes
/// and has its escapes resolved, any other cell is taken as it is.
pub open spec fn cell_content(raw: Seq<u8>, quote: u8, escape: u8) -> Seq<u8> {
    if is_wrapped(raw, quote) {
        if raw.len() >= 2 {
            unescape(raw.subrange(1, raw.len() - 1), quote, escape)
        } else {
            Seq::empty()
        }
    } else {
        raw
    }
}

/// The text of a cell's bytes. Well-formed UTF-8 is decoded; anything else is
/// decoded with replacement characters where `lossy` is set, and has no text
/// otherwise.
pub open spec fn content_text(content: Seq<u8>, lossy: bool) -> Option<Seq<char>> {
    if valid_utf8(content) {
        Some(decode_utf8(content))
    } else if lossy {
        Some(lossy_text(content))
    } else {
        None
    }
}

/// The text of a raw cell.
pub open spec fn cell_text(raw: Seq<u8>, quote: u8, escape: u8, lossy: bool) -> Option<Seq<char>> {
    content_text(cell_content(raw, quote, escape), lossy)
}

/// The texts of all cells of a row, or `None` if one of them has no text.
pub open spec fn row_texts(
    row: Seq<u8>,
    separator: u8,
    quote: u8,
    escape: u8,
    lossy: bool,
) -> Option<Seq<Seq<char>>> {
    let cells = split_cells(row, separator, quote);
    if forall|i: int| 0 <= i < cells.len() ==> (#[trigger] cell_text(
        cells[i],
        quote,
        escape,
        lossy,
    )) is Some {
        Some(Seq::new(cells.len(), |i: int| cell_text(cells[i], quote, escape, lossy).unwrap()))
    } else {
        None
    }
}

} // verus!
