//! Zstandard compression, as the `zstd` crate performs it. Which bytes a
//! compressor makes is left open; what is said of them is that decompression
//! recovers what was compressed.

use vstd::prelude::*;

verus! {

/// Whether `zstd::bulk::Compressor::with_dictionary` accepts the level and the
/// dictionary.
pub uninterp spec fn zstd_loads(level: int, dict: Seq<u8>) -> bool;

/// Whether `zstd::bulk::Decompressor::with_dictionary` accepts the dictionary.
pub uninterp spec fn zstd_reads(dict: Seq<u8>) -> bool;

/// The bytes that `zstd::bulk::Decompressor::decompress_to_buffer` recovers
/// from `data` with the given dictionary when it is given `room` bytes to
/// write to, or `None` where it fails.
pub uninterp spec fn zstd_unframe(dict: Seq<u8>, data: Seq<u8>, room: nat) -> Option<Seq<u8>>;

/// Whether `frame` is a Zstandard frame of `data` for the dictionary `dict`:
/// decompression with the dictionary recovers `data` from it, given room for
/// `data` or more. Which frame a compressor makes of its input is left open:
/// it may differ from one call to another.
pub open spec fn zstd_packs(frame: Seq<u8>, dict: Seq<u8>, data: Seq<u8>) -> bool {
    forall|room: nat| room >= data.len() ==> #[trigger] zstd_unframe(dict, frame, room) == Some(data)
}

/// Trusted: whether `zstd::bulk::Compressor::with_dictionary` succeeds depends
/// on the level and the dictionary alone.
#[verifier::external_body]
pub(crate) fn zstd_compressor_loads(level: i32, dict: &[u8]) -> (r: bool)
    ensures
        r == zstd_loads(level as int, dict@),
{
    zstd::bulk::Compressor::with_dictionary(level, dict).is_ok()
}

/// Compresses `data` into a new buffer.
/// Trusted: where `zstd::bulk::Compressor::compress`, on a compressor made
/// with `with_dictionary`, returns a frame,
/// `zstd::bulk::Decompressor::decompress_to_buffer` recovers the data from it
/// with the same dictionary, given room for the data or more. Nothing is said
/// of when it fails, nor of which frame it makes.
#[verifier::external_body]
pub(crate) fn zstd_compress(level: i32, dict: &[u8], data: &[u8]) -> (r: Option<Vec<u8>>)
    requires
        zstd_loads(level as int, dict@),
    ensures
        r matches Some(v) ==> zstd_packs(v@, dict@, data@),
{
    let mut compressor = zstd::bulk::Compressor::with_dictionary(level, dict).ok()?;
    compressor.compress(data).ok()
}

/// Trusted: whether `zstd::bulk::Decompressor::with_dictionary` succeeds
/// depends on the dictionary alone.
#[verifier::external_body]
pub(crate) fn zstd_decompressor_loads(dict: &[u8]) -> (r: bool)
    ensures
        r == zstd_reads(dict@),
{
    zstd::bulk::Decompressor::with_dictionary(dict).is_ok()
}

/// Decompresses `data` into the front of `output`.
/// Trusted: `zstd::bulk::Decompressor::decompress_to_buffer`, on a decompressor
/// made with `with_dictionary`, writes what it recovers to the front of a
/// byte slice and returns its length, or fails; the length of the slice
/// stays. What it recovers, and whether it fails, depends on the dictionary,
/// the frame and the length of the slice alone.
#[verifier::external_body]
pub(crate) fn zstd_decompress_into(dict: &[u8], data: &[u8], output: &mut Vec<u8>) -> (r: Option<
    usize,
>)
    requires
        zstd_reads(dict@),
    ensures
        final(output)@.len() == old(output)@.len(),
        r is Some <==> zstd_unframe(dict@, data@, old(output)@.len()) is Some,
        r matches Some(n) ==> n <= final(output)@.len() && final(output)@.take(n as int)
            == zstd_unframe(dict@, data@, old(output)@.len())->0,
{
    let mut decompressor = zstd::bulk::Decompressor::with_dictionary(dict).ok()?;
    decompressor.decompress_to_buffer(data, output.as_mut_slice()).ok()
}

} // verus!
