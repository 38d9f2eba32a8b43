//! LZ4 block compression, as the `lz4_flex` crate performs it. Which bytes a
//! compressor makes is left open; what is said of them is that decompression
//! recovers what was compressed.

use lz4_flex::block::DecompressError;
use vstd::bytes::*;
use vstd::prelude::*;

use crate::error::ErrorKind;

verus! {

/// The bytes that `lz4_flex::decompress_into` recovers from the block `input`
/// when it is given `room` bytes to write to, or how it fails: with
/// `UnexpectedEof` where the block ends too early, else with `InvalidData`.
pub uninterp spec fn lz4_unblock(input: Seq<u8>, room: nat) -> Result<Seq<u8>, ErrorKind>;

/// The bytes that `lz4_flex::block::decompress_into_with_dict` recovers from the
/// block `input` with the dictionary `dict` when it is given `room` bytes to
/// write to, or how it fails: with `UnexpectedEof` where the block ends too
/// early, else with `InvalidData`.
pub uninterp spec fn lz4_unblock_with_dict(input: Seq<u8>, room: nat, dict: Seq<u8>) -> Result<
    Seq<u8>,
    ErrorKind,
>;

/// Whether `block` is an LZ4 block of `data`: decompression recovers `data`
/// from it, given room for `data` or more. Which block a compressor makes of
/// its input is left open: it may differ from one machine to another.
pub open spec fn lz4_packs(block: Seq<u8>, data: Seq<u8>) -> bool {
    forall|room: nat|
        room >= data.len() ==> #[trigger] lz4_unblock(block, room) == Ok::<Seq<u8>, ErrorKind>(
            data,
        )
}

/// Whether `block` is an LZ4 block of `data` for the dictionary `dict`:
/// decompression with the dictionary recovers `data` from it, given room for
/// `data` or more.
pub open spec fn lz4_packs_with_dict(block: Seq<u8>, data: Seq<u8>, dict: Seq<u8>) -> bool {
    forall|room: nat|
        room >= data.len() ==> #[trigger] lz4_unblock_with_dict(block, room, dict) == Ok::<
            Seq<u8>,
            ErrorKind,
        >(data)
}

/// Whether `bytes` are the length of `data`, in four bytes and cut to 32
/// bits, followed by an LZ4 block of `data`.
pub open spec fn lz4_sized_packs(bytes: Seq<u8>, data: Seq<u8>) -> bool {
    &&& bytes.len() >= 4
    &&& bytes.take(4) == spec_u32_to_le_bytes(data.len() as u32)
    &&& lz4_packs(bytes.skip(4), data)
}

/// What is recovered from bytes that start with the length of what they
/// hold: the block behind the four bytes of the length is decompressed into
/// as many bytes as the length says. Fewer than four bytes are
/// `UnexpectedEof`. This is what `lz4_flex::decompress_size_prepended` does:
/// it runs the decoder of `lz4_flex::decompress_into` over a buffer of that
/// length.
pub open spec fn lz4_unsized(input: Seq<u8>) -> Result<Seq<u8>, ErrorKind> {
    if input.len() < 4 {
        Err(ErrorKind::UnexpectedEof)
    } else {
        lz4_unblock(input.skip(4), spec_u32_from_le_bytes(input.take(4)) as nat)
    }
}

/// What was made with its length in front is recovered in full, where the
/// length fits 32 bits.
pub proof fn lemma_lz4_sized_roundtrip(bytes: Seq<u8>, data: Seq<u8>)
    requires
        lz4_sized_packs(bytes, data),
        data.len() <= u32::MAX,
    ensures
        lz4_unsized(bytes) == Ok::<Seq<u8>, ErrorKind>(data),
{
    lemma_auto_spec_u32_to_from_le_bytes();
    let len = data.len() as u32;
    assert(spec_u32_to_le_bytes(len).len() == 4);
    assert(spec_u32_from_le_bytes(spec_u32_to_le_bytes(len)) == len);
    assert(spec_u32_from_le_bytes(bytes.take(4)) == data.len());
}

/// The space that compressing `len` bytes may need: 20 bytes and 110 percent
/// of the input.
pub open spec fn lz4_bound(len: nat) -> nat {
    20 + len * 110 / 100
}

/// Whether the space for `len` bytes can be computed: 110 times the length
/// fits 64 bits, and the space fits a `usize`.
pub open spec fn lz4_bounded(len: nat) -> bool {
    len * 110 <= u64::MAX && lz4_bound(len) <= usize::MAX
}

/// Whether `len` bytes can be compressed with their length in front: the
/// length fits the four bytes that hold it, and the space for the block and
/// for the four bytes can be computed.
pub open spec fn lz4_sizable(len: nat) -> bool {
    len <= u32::MAX && len * 110 <= u64::MAX && lz4_bound(len) + 4 <= usize::MAX
}

/// Trusted: `lz4_flex::block::get_maximum_output_size` returns
/// `16 + 4 + len * 110 / 100`, with the product and the quotient computed in
/// 64 bits.
#[verifier::external_body]
pub(crate) fn lz4_maximum_output_size(len: usize) -> (r: usize)
    requires
        lz4_bounded(len as nat),
    ensures
        r == lz4_bound(len as nat),
{
    lz4_flex::block::get_maximum_output_size(len)
}

/// Compresses `input` into the front of `output`.
/// Trusted: `lz4_flex::compress_into` fails exactly when `output` is shorter
/// than [`lz4_bound`] of the input's length; otherwise it writes a block to
/// the front of `output` and returns the block's length. The length of
/// `output` stays. From the block `lz4_flex::decompress_into` recovers the
/// input, given room for it or more.
#[verifier::external_body]
pub(crate) fn lz4_compress_into(input: &[u8], output: &mut Vec<u8>) -> (r: Option<usize>)
    requires
        lz4_bounded(input@.len()),
    ensures
        final(output)@.len() == old(output)@.len(),
        r is Some <==> old(output)@.len() >= lz4_bound(input@.len()),
        r matches Some(n) ==> n <= final(output)@.len() && lz4_packs(
            final(output)@.take(n as int),
            input@,
        ),
{
    lz4_flex::compress_into(input, output.as_mut_slice()).ok()
}

/// Compresses `input` with a dictionary into the front of `output`.
/// Trusted: `lz4_flex::block::compress_into_with_dict` fails exactly when
/// `output` is shorter than [`lz4_bound`] of the input's length; otherwise it
/// writes a block to the front of `output` and returns the block's length.
/// The length of `output` stays. It refuses to run when input and dictionary
/// together exceed the address space. From the block
/// `lz4_flex::block::decompress_into_with_dict` recovers the input with the
/// same dictionary, given room for it or more.
#[verifier::external_body]
pub(crate) fn lz4_compress_into_with_dict(
    input: &[u8],
    output: &mut Vec<u8>,
    dict: &[u8],
) -> (r: Option<usize>)
    requires
        lz4_bounded(input@.len()),
        input@.len() + 2 * dict@.len() <= isize::MAX,
    ensures
        final(output)@.len() == old(output)@.len(),
        r is Some <==> old(output)@.len() >= lz4_bound(input@.len()),
        r matches Some(n) ==> n <= final(output)@.len() && lz4_packs_with_dict(
            final(output)@.take(n as int),
            input@,
            dict@,
        ),
{
    lz4_flex::block::compress_into_with_dict(input, output.as_mut_slice(), dict).ok()
}

/// Decompresses the block `input` into the front of `output`.
/// Trusted: `lz4_flex::decompress_into` writes what it recovers to the front of
/// `output` and returns its length, or fails; the length of `output` stays.
/// A missing byte and a literal that reaches beyond the input are reported as
/// `UnexpectedEof`, every other failure as `InvalidData`.
#[verifier::external_body]
pub(crate) fn lz4_decompress_into(input: &[u8], output: &mut Vec<u8>) -> (r: Result<
    usize,
    ErrorKind,
>)
    ensures
        final(output)@.len() == old(output)@.len(),
        match lz4_unblock(input@, old(output)@.len()) {
            Ok(bytes) => r == Ok::<usize, ErrorKind>(bytes.len() as usize) && bytes.len()
                <= final(output)@.len() && final(output)@.take(bytes.len() as int) == bytes,
            Err(e) => r == Err::<usize, ErrorKind>(e),
        },
{
    match lz4_flex::decompress_into(input, output.as_mut_slice()) {
        Ok(n) => Ok(n),
        Err(DecompressError::ExpectedAnotherByte) => Err(ErrorKind::UnexpectedEof),
        Err(DecompressError::LiteralOutOfBounds) => Err(ErrorKind::UnexpectedEof),
        Err(_) => Err(ErrorKind::InvalidData),
    }
}

/// Decompresses the block `input` with a dictionary into the front of `output`.
/// Trusted: `lz4_flex::block::decompress_into_with_dict` writes what it recovers
/// to the front of `output` and returns its length, or fails; the length of
/// `output` stays. A missing byte and a literal that reaches beyond the input
/// are reported as `UnexpectedEof`, every other failure as `InvalidData`.
#[verifier::external_body]
pub(crate) fn lz4_decompress_into_with_dict(
    input: &[u8],
    output: &mut Vec<u8>,
    dict: &[u8],
) -> (r: Result<usize, ErrorKind>)
    ensures
        final(output)@.len() == old(output)@.len(),
        match lz4_unblock_with_dict(input@, old(output)@.len(), dict@) {
            Ok(bytes) => r == Ok::<usize, ErrorKind>(bytes.len() as usize) && bytes.len()
                <= final(output)@.len() && final(output)@.take(bytes.len() as int) == bytes,
            Err(e) => r == Err::<usize, ErrorKind>(e),
        },
{
    match lz4_flex::block::decompress_into_with_dict(input, output.as_mut_slice(), dict) {
        Ok(n) => Ok(n),
        Err(DecompressError::ExpectedAnotherByte) => Err(ErrorKind::UnexpectedEof),
        Err(DecompressError::LiteralOutOfBounds) => Err(ErrorKind::UnexpectedEof),
        Err(_) => Err(ErrorKind::InvalidData),
    }
}

/// Compresses `input` into a new buffer that starts with the input's length.
/// Trusted: `lz4_flex::compress_prepend_size` returns the length of `input`,
/// cut to 32 bits, as four bytes, least significant first, followed by a
/// block as `lz4_flex::compress_into` makes it.
#[verifier::external_body]
pub(crate) fn lz4_compress_prepend_size(input: &[u8]) -> (r: Vec<u8>)
    requires
        lz4_sizable(input@.len()),
    ensures
        lz4_sized_packs(r@, input@),
{
    lz4_flex::compress_prepend_size(input)
}

/// Decompresses a buffer that starts with the length of what it holds.
/// Trusted: `lz4_flex::decompress_size_prepended` reads four bytes, least
/// significant first, as a length and decompresses what follows them into as
/// many bytes, as `lz4_flex::decompress_into` does; without four bytes it
/// reports a missing byte. The decoder that the crate's default features
/// select tests the room that is left before every copy, so that a block
/// which holds more than its length announces is refused. A missing byte and
/// a literal that reaches beyond the input are reported as `UnexpectedEof`,
/// every other failure as `InvalidData`.
#[verifier::external_body]
pub(crate) fn lz4_decompress_size_prepended(input: &[u8]) -> (r: Result<Vec<u8>, ErrorKind>)
    ensures
        match lz4_unsized(input@) {
            Ok(bytes) => r is Ok && r.unwrap()@ == bytes,
            Err(e) => r is Err && r.unwrap_err() == e,
        },
{
    match lz4_flex::decompress_size_prepended(input) {
        Ok(bytes) => Ok(bytes),
        Err(DecompressError::ExpectedAnotherByte) => Err(ErrorKind::UnexpectedEof),
        Err(DecompressError::LiteralOutOfBounds) => Err(ErrorKind::UnexpectedEof),
        Err(_) => Err(ErrorKind::InvalidData),
    }
}

} // verus!
