//! Bringing input to UTF-8: which encoding a stream starts in, and what its bytes
//! are once decoded.

use vstd::prelude::*;

verus! {

/// The encodings that a byte-order mark can announce.
#[derive(Debug, Clone, Copy, PartialEq, Eq, Structural)]
pub enum TextEncoding {
    Utf8,
    Utf16Le,
    Utf16Be,
}

/// The most bytes that are handed to the decoder in one piece. Up to this length
/// the sizes that the decoder computes for its buffers stay within range; beyond
/// it the computation may overflow, on which the decoder panics.
pub const MAX_DECODE_BYTES: usize = usize::MAX / 8;

/// What `encoding_rs::Encoding::decode` gives for `bytes` as complete input in
/// `encoding`: the text as UTF-8, and whether malformed sequences were met (and
/// replaced). A byte-order mark at the start of `bytes` decides the encoding and
/// is left out of the text.
pub uninterp spec fn decoded_text(encoding: TextEncoding, bytes: Seq<u8>) -> (Seq<u8>, bool);

/// Calls `encoding_rs::Encoding::decode` on `UTF_8`, `UTF_16LE` or `UTF_16BE`. Taken
/// on trust: the text and the flag for malformed input depend on the encoding and
/// the bytes alone. What they are is named, not stated.
#[verifier::external_body]
pub(crate) fn decode(encoding: TextEncoding, bytes: &[u8]) -> (out: (Vec<u8>, bool))
    requires
        bytes@.len() <= MAX_DECODE_BYTES,
    ensures
        (out.0@, out.1) == decoded_text(encoding, bytes@),
{
    let codec = match encoding {
        TextEncoding::Utf8 => encoding_rs::UTF_8,
        TextEncoding::Utf16Le => encoding_rs::UTF_16LE,
        TextEncoding::Utf16Be => encoding_rs::UTF_16BE,
    };
    let (text, _, had_errors) = codec.decode(bytes);
    (text.into_owned().into_bytes(), had_errors)
}

/// Byte-order mark detection on the first bytes of a stream: the encoding, and the
/// bytes that go on to decoding. `FF FE` announces UTF-16 little-endian and `FE FF`
/// UTF-16 big-endian; either mark stays in place for the decoder to remove.
/// `EF BB BF` is the UTF-8 mark and is removed here. Anything else is UTF-8.
pub open spec fn sniff(raw: Seq<u8>) -> (TextEncoding, Seq<u8>) {
    if raw.len() >= 2 && raw[0] == 0xFF && raw[1] == 0xFE {
        (TextEncoding::Utf16Le, raw)
    } else if raw.len() >= 2 && raw[0] == 0xFE && raw[1] == 0xFF {
        (TextEncoding::Utf16Be, raw)
    } else if raw.len() >= 3 && raw[0] == 0xEF && raw[1] == 0xBB && raw[2] == 0xBF {
        (TextEncoding::Utf8, raw.subrange(3, raw.len() as int))
    } else {
        (TextEncoding::Utf8, raw)
    }
}

/// The length of the whole units at the start of `raw`: all of it for UTF-8, an
/// even number of bytes for UTF-16.
pub open spec fn whole_units(encoding: TextEncoding, raw: Seq<u8>) -> int {
    if encoding == TextEncoding::Utf8 {
        raw.len() as int
    } else {
        raw.len() - raw.len() % 2
    }
}

/// The UTF-8 text of the whole units at the start of `raw`, or `None` where they
/// cannot be decoded: because they are malformed, or because they are more than
/// the decoder takes in one piece.
pub open spec fn normalized_text(encoding: TextEncoding, raw: Seq<u8>) -> Option<Seq<u8>> {
    let n = whole_units(encoding, raw);
    if encoding == TextEncoding::Utf8 {
        Some(raw)
    } else if n == 0 {
        Some(Seq::empty())
    } else if n > MAX_DECODE_BYTES {
        None
    } else {
        let decoded = decoded_text(encoding, raw.subrange(0, n));
        if decoded.1 {
            None
        } else {
            Some(decoded.0)
        }
    }
}

/// The bytes of `raw` that wait for their unit to be completed.
pub open spec fn held_back(encoding: TextEncoding, raw: Seq<u8>) -> Seq<u8> {
    raw.subrange(whole_units(encoding, raw), raw.len() as int)
}

} // verus!
