//! Hashing, compression and text decoding that the engine takes from outside code.
use std::hash::BuildHasher;
use vstd::prelude::*;
use vstd::utf8::*;

verus! {

/// The 64-bit digest that the fixed-seed hasher gives a text.
pub uninterp spec fn text_digest(s: Seq<char>) -> u64;

/// The 64-bit digest that the fixed-seed hasher gives a run of cell values.
pub uninterp spec fn cells_digest(cells: Seq<u16>) -> u64;

/// What decompressing `frame` gives: the data, or nothing for a frame that does not decode.
pub uninterp spec fn zstd_content(frame: Seq<u8>) -> Option<Seq<u8>>;

/// The zstd frame that compressing `data` at `level` produces.
pub uninterp spec fn zstd_frame(data: Seq<u8>, level: i32) -> Seq<u8>;

/// Relies on ahash's `RandomState::with_seeds(..).hash_one` on a `str`: with fixed
/// seeds the hash is a function of the text alone.
#[verifier::external_body]
pub(crate) fn hash_text(s: &str) -> (r: u64)
    ensures
        r == text_digest(s@),
{
    ahash::RandomState::with_seeds(0, 0, 0, 0).hash_one(s)
}

/// Relies on ahash's `RandomState::with_seeds(..).hash_one` on a `[u16]`: with fixed
/// seeds the hash is a function of the values alone.
#[verifier::external_body]
pub(crate) fn hash_cells(cells: &[u16]) -> (r: u64)
    ensures
        r == cells_digest(cells@),
{
    ahash::RandomState::with_seeds(0, 0, 0, 0).hash_one(cells)
}

/// Relies on `zstd::encode_all`: one zstd frame holding `data`. Into a `Vec` it
/// fails only when no compression context can be made; the level is clamped.
#[verifier::external_body]
pub(crate) fn compress(data: &[u8], level: i32) -> (r: Option<Vec<u8>>)
    ensures
        r is Some,
        r matches Some(v) ==> v@ == zstd_frame(data@, level),
{
    zstd::encode_all(data, level).ok()
}

/// Decoding `frame` gave `r`: a frame written from some data gives that data back.
pub open spec fn decodes_frame(frame: Seq<u8>, r: Option<Vec<u8>>) -> bool {
    forall|d: Seq<u8>, l: i32|
        frame == #[trigger] zstd_frame(d, l) ==> (r matches Some(v) && v@ == d)
}

/// Relies on `zstd::decode_all`: zstd is lossless, so a frame that `encode_all`
/// wrote decodes to the data it was written from.
#[verifier::external_body]
pub(crate) fn decompress(frame: &[u8]) -> (r: Option<Vec<u8>>)
    ensures
        decodes_frame(frame@, r),
        r matches Some(v) ==> zstd_content(frame@) == Some(v@),
        r is None ==> zstd_content(frame@) is None,
{
    zstd::decode_all(frame).ok()
}

/// Relies on `String::from_utf8`: it accepts exactly the valid UTF-8 byte strings
/// and decodes them.
#[verifier::external_body]
pub(crate) fn text_from_utf8(bytes: &[u8]) -> (r: Option<String>)
    ensures
        r is Some <==> valid_utf8(bytes@),
        r matches Some(s) ==> s@ == decode_utf8(bytes@),
{
    String::from_utf8(bytes.to_vec()).ok()
}

} // verus!
