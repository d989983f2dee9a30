//! Trusted wrappers around the Unicode services: canonical decomposition and
//! whitespace trimming of paragraph text, and UAX #14 line-break candidate
//! discovery. Each wrapper makes one outside call; what the call returns is
//! named by an uninterpreted spec function of the input alone, together with
//! the few structural facts the layout logic needs.

use vstd::prelude::*;
use vstd::utf8::{is_char_boundary, valid_utf8};

verus! {

/// The UTF-8 bytes of the canonical decomposition (NFD) of a character
/// sequence, as computed by icu's decomposing normalizer.
pub uninterp spec fn nfd_bytes(s: Seq<char>) -> Seq<u8>;

/// What `str::trim_start` leaves of a character sequence.
pub uninterp spec fn ws_trimmed_start(s: Seq<char>) -> Seq<char>;

/// The line-break boundary offsets that icu's dictionary line segmenter
/// reports for a UTF-8 byte sequence.
pub uninterp spec fn lb_boundaries(bytes: Seq<u8>) -> Seq<u32>;

/// The byte length `str::trim_end` leaves of a UTF-8 byte sequence.
pub uninterp spec fn ws_trimmed_end_len(bytes: Seq<u8>) -> int;

/// Relies on `DecomposingNormalizer::normalize` (icu, NFD) and returns its
/// result's UTF-8 bytes: canonical decomposition depends on the characters
/// alone, and an empty input stays empty.
#[verifier::external_body]
pub fn nfd_str(input: &str) -> (r: Vec<u8>)
    ensures
        r@ == nfd_bytes(input@),
        valid_utf8(r@),
        input@.len() == 0 ==> r@.len() == 0,
{
    let normalizer = icu::normalizer::DecomposingNormalizer::new_nfd();
    normalizer.normalize(input).into_bytes()
}

/// Relies on `str::trim_start`: removes leading whitespace, leaving a suffix
/// of the input.
#[verifier::external_body]
pub fn trim_start_ws(input: &str) -> (r: &str)
    ensures
        r@ == ws_trimmed_start(input@),
        r@.len() <= input@.len(),
{
    input.trim_start()
}

/// Relies on `LineSegmenter::segment_str` (icu, dictionary based, UAX #14
/// semantics) over `text[..end]`: the segmenter always yields boundary 0
/// first, then strictly increasing offsets at character boundaries, ending
/// with the text length.
#[verifier::external_body]
pub fn line_break_boundaries(text: &[u8], end: usize) -> (r: Vec<u32>)
    requires
        end <= text@.len(),
        text@.len() <= u32::MAX,
        valid_utf8(text@),
        is_char_boundary(text@, end as int),
    ensures
        r@ == lb_boundaries(text@.subrange(0, end as int)),
        r@.len() >= 1,
        r@[0] == 0,
        r@[r@.len() - 1] == end,
        forall|i: int, j: int| 0 <= i < j < r@.len() ==> r@[i] < r@[j],
        forall|i: int|
            0 <= i < r@.len() ==> r@[i] <= end && is_char_boundary(text@, r@[i] as int),
{
    let s = core::str::from_utf8(&text[..end]).unwrap();
    let segmenter = icu::segmenter::LineSegmenter::new_dictionary();
    segmenter.segment_str(s).map(|b| b as u32).collect()
}

/// Relies on `str::trim_end` over `text[start..end]`: the trimmed text is a
/// prefix of the slice ending on a character boundary.
#[verifier::external_body]
pub fn trimmed_end_len(text: &[u8], start: usize, end: usize) -> (r: usize)
    requires
        start <= end <= text@.len(),
        valid_utf8(text@),
        is_char_boundary(text@, start as int),
        is_char_boundary(text@, end as int),
    ensures
        r == ws_trimmed_end_len(text@.subrange(start as int, end as int)),
        r <= end - start,
        is_char_boundary(text@, start + r),
{
    let s = core::str::from_utf8(&text[start..end]).unwrap();
    s.trim_end().len()
}

} // verus!
