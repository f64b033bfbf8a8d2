//! The one scanning rule that row segmentation and cell splitting share.
//!
//! A quote byte opens a quoted stretch. Inside it, a quote byte directly followed
//! by another quote byte is a literal quote and is passed over as a pair; any other
//! quote byte closes the stretch. A delimiter counts only outside quoted stretches,
//! and a byte equal to the quote byte is never taken for a delimiter.

use vstd::prelude::*;

verus! {

/// The index of the first delimiter outside quotes at or after `i`, when the scan
/// stands at `i` with the quote state `quoted`; `buf.len()` if there is none.
pub open spec fn scan_from(buf: Seq<u8>, i: int, quoted: bool, delim: u8, quote: u8) -> int
    decreases buf.len() - i,
{
    if i < 0 || i >= buf.len() {
        buf.len() as int
    } else if buf[i] == quote {
        if !quoted {
            scan_from(buf, i + 1, true, delim, quote)
        } else if i + 1 < buf.len() && buf[i + 1] == quote {
            scan_from(buf, i + 2, true, delim, quote)
        } else {
            scan_from(buf, i + 1, false, delim, quote)
        }
    } else if buf[i] == delim && !quoted {
        i
    } else {
        scan_from(buf, i + 1, quoted, delim, quote)
    }
}

/// The index of the first delimiter outside quotes in `buf`, or `buf.len()`.
pub open spec fn next_delimiter(buf: Seq<u8>, delim: u8, quote: u8) -> int {
    scan_from(buf, 0, false, delim, quote)
}

/// A scan never moves backwards and never leaves the buffer; where it stops inside
/// the buffer, a delimiter stands that is not the quote byte.
pub proof fn lemma_scan_from_result(buf: Seq<u8>, i: int, quoted: bool, delim: u8, quote: u8)
    requires
        0 <= i <= buf.len(),
    ensures
        i <= scan_from(buf, i, quoted, delim, quote) <= buf.len(),
        scan_from(buf, i, quoted, delim, quote) < buf.len() ==> {
            &&& buf[scan_from(buf, i, quoted, delim, quote)] == delim
            &&& delim != quote
        },
    decreases buf.len() - i,
{
    if i < buf.len() {
        if buf[i] == quote {
            if !quoted {
                lemma_scan_from_result(buf, i + 1, true, delim, quote);
            } else if i + 1 < buf.len() && buf[i + 1] == quote {
                lemma_scan_from_result(buf, i + 2, true, delim, quote);
            } else {
                lemma_scan_from_result(buf, i + 1, false, delim, quote);
            }
        } else if buf[i] == delim && !quoted {
        } else {
            lemma_scan_from_result(buf, i + 1, quoted, delim, quote);
        }
    }
}

/// The result of `next_delimiter` lies in the buffer or at its end, and a result
/// inside the buffer is a delimiter.
pub proof fn lemma_next_delimiter_result(buf: Seq<u8>, delim: u8, quote: u8)
    ensures
        0 <= next_delimiter(buf, delim, quote) <= buf.len(),
        next_delimiter(buf, delim, quote) < buf.len() ==> buf[next_delimiter(buf, delim, quote)]
            == delim,
{
    lemma_scan_from_result(buf, 0, false, delim, quote);
}

/// A delimiter that was found stays where it is when more bytes arrive: the scan
/// looks at most one byte ahead, and never past a delimiter it reports.
pub proof fn lemma_scan_from_stable(
    buf: Seq<u8>,
    more: Seq<u8>,
    i: int,
    quoted: bool,
    delim: u8,
    quote: u8,
)
    requires
        0 <= i <= buf.len(),
        scan_from(buf, i, quoted, delim, quote) < buf.len(),
    ensures
        scan_from(buf + more, i, quoted, delim, quote) == scan_from(buf, i, quoted, delim, quote),
    decreases buf.len() - i,
{
    if i < buf.len() {
        if buf[i] == quote {
            if !quoted {
                lemma_scan_from_stable(buf, more, i + 1, true, delim, quote);
            } else if i + 1 < buf.len() {
                if buf[i + 1] == quote {
                    lemma_scan_from_stable(buf, more, i + 2, true, delim, quote);
                } else {
                    lemma_scan_from_stable(buf, more, i + 1, false, delim, quote);
                }
            } else {
                // A closing quote at the very end: the scan of `buf` ends without a find.
                assert(scan_from(buf, i + 1, false, delim, quote) == buf.len());
            }
        } else if buf[i] == delim && !quoted {
        } else {
            lemma_scan_from_stable(buf, more, i + 1, quoted, delim, quote);
        }
    }
}

/// The number of quote bytes before index `i`.
pub open spec fn quotes_before(buf: Seq<u8>, quote: u8, i: int) -> nat
    decreases i,
{
    if i <= 0 {
        0
    } else if buf[i - 1] == quote {
        quotes_before(buf, quote, i - 1) + 1
    } else {
        quotes_before(buf, quote, i - 1)
    }
}

/// At index `i` stands a delimiter that counts: one that is not the quote byte,
/// with an even number of quote bytes before it.
pub open spec fn is_free_delimiter(buf: Seq<u8>, delim: u8, quote: u8, i: int) -> bool {
    &&& 0 <= i < buf.len()
    &&& buf[i] == delim
    &&& delim != quote
    &&& quotes_before(buf, quote, i) % 2 == 0
}

/// A scan that stands at `i`, in the quote state that the quote bytes before `i`
/// make, stops at the first delimiter that counts, and passes none.
pub proof fn lemma_scan_from_finds_first(buf: Seq<u8>, i: int, quoted: bool, delim: u8, quote: u8)
    requires
        0 <= i <= buf.len(),
        quoted == (quotes_before(buf, quote, i) % 2 == 1),
    ensures
        scan_from(buf, i, quoted, delim, quote) < buf.len() ==> is_free_delimiter(
            buf,
            delim,
            quote,
            scan_from(buf, i, quoted, delim, quote),
        ),
        forall|j: int|
            i <= j < scan_from(buf, i, quoted, delim, quote) ==> !is_free_delimiter(
                buf,
                delim,
                quote,
                j,
            ),
    decreases buf.len() - i,
{
    lemma_scan_from_result(buf, i, quoted, delim, quote);
    if i < buf.len() {
        if buf[i] == quote {
            if !quoted {
                lemma_scan_from_finds_first(buf, i + 1, true, delim, quote);
            } else if i + 1 < buf.len() && buf[i + 1] == quote {
                lemma_scan_from_finds_first(buf, i + 2, true, delim, quote);
            } else {
                lemma_scan_from_finds_first(buf, i + 1, false, delim, quote);
            }
        } else if buf[i] == delim && !quoted {
        } else {
            lemma_scan_from_finds_first(buf, i + 1, quoted, delim, quote);
        }
    }
}

/// Finds the first `delim` outside quotes in `buf[start..end]`, the scan starting
/// outside quotes at `start`. Returns its index in `buf`, or `end` if there is none.
pub fn find_delimiter(buf: &[u8], start: usize, end: usize, delim: u8, quote: u8) -> (pos: usize)
    requires
        start <= end <= buf@.len(),
    ensures
        start <= pos <= end,
        pos - start == next_delimiter(buf@.subrange(start as int, end as int), delim, quote),
        pos < end ==> buf@[pos as int] == delim,
{
    let ghost part = buf@.subrange(start as int, end as int);
    let mut i: usize = start;
    let mut quoted = false;
    while i < end
        invariant
            start <= i <= end <= buf@.len(),
            part == buf@.subrange(start as int, end as int),
            scan_from(part, i - start, quoted, delim, quote) == next_delimiter(part, delim, quote),
        decreases end - i,
    {
        let byte = buf[i];
        if byte == quote {
            if !quoted {
                quoted = true;
                i += 1;
            } else if i + 1 < end && buf[i + 1] == quote {
                i += 2;
            } else {
                quoted = false;
                i += 1;
            }
        } else if byte == delim && !quoted {
            return i;
        } else {
            i += 1;
        }
    }
    i
}

} // verus!
