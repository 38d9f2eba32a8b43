//! Variable-length integers: zig-zag for the sign, then groups of seven bits,
//! least significant group first, each byte but the last with its top bit set.

use integer_encoding::{VarIntReader, VarIntWriter};
use vstd::prelude::*;

use crate::bytes::ByteReader;
use crate::error::ErrorKind;

verus! {

/// Zig-zag: 0, -1, 1, -2, 2, ... become 0, 1, 2, 3, 4, ...
pub open spec fn zigzag(x: i64) -> nat {
    if x >= 0 {
        (2 * x) as nat
    } else {
        (-2 * x - 1) as nat
    }
}

/// The inverse of [`zigzag`].
pub open spec fn unzigzag(n: nat) -> int {
    if n % 2 == 0 {
        (n / 2) as int
    } else {
        -((n / 2) as int) - 1
    }
}

/// The groups of seven bits of `n`, least significant first; every byte but
/// the last has its top bit set.
pub open spec fn leb128(n: nat) -> Seq<u8>
    decreases n,
{
    if n < 128 {
        seq![n as u8]
    } else {
        seq![(128 + n % 128) as u8] + leb128(n / 128)
    }
}

/// The bytes that stand for `x`.
pub open spec fn varint_bytes(x: i64) -> Seq<u8> {
    leb128(zigzag(x))
}

/// The number that the low seven bits of each byte of `s` spell, least
/// significant group first.
pub open spec fn groups_value(s: Seq<u8>) -> nat
    decreases s.len(),
{
    if s.len() == 0 {
        0
    } else {
        (s[0] % 128) as nat + 128 * groups_value(s.skip(1))
    }
}

/// The index of the first byte of `s` with a clear top bit, among its first
/// `limit` bytes.
pub open spec fn terminator_within(s: Seq<u8>, limit: nat) -> Option<nat>
    decreases limit,
{
    if limit == 0 || s.len() == 0 {
        None
    } else if s[0] < 128 {
        Some(0)
    } else {
        match terminator_within(s.skip(1), (limit - 1) as nat) {
            Some(k) => Some(k + 1),
            None => None,
        }
    }
}

/// What reading one signed 64-bit integer from the front of `s` gives: the
/// value and the number of bytes it took, or why there is none.
///
/// At most ten bytes make up a value. The tenth may only hold the top bit of
/// the number; a value cut short by the end of the input, or with a tenth byte
/// that holds more, reads as `UnexpectedEof`, and more than ten bytes without
/// an end as `InvalidData`.
pub open spec fn varint_read(s: Seq<u8>) -> Result<(i64, nat), ErrorKind> {
    match terminator_within(s, 10) {
        None => if s.len() > 10 {
            Err(ErrorKind::InvalidData)
        } else {
            Err(ErrorKind::UnexpectedEof)
        },
        Some(k) => if k == 9 && s[9] >= 2 {
            Err(ErrorKind::UnexpectedEof)
        } else {
            Ok((unzigzag(groups_value(s.take(k + 1 as int))) as i64, k + 1))
        },
    }
}

/// Appends the bytes that stand for `x`.
/// Trusted: `integer_encoding::VarIntWriter::write_varint` on a `Vec<u8>` with an
/// `i64` appends the zig-zag value of `x` in groups of seven bits, least
/// significant first, every byte but the last with its top bit set; writing
/// to a vector cannot fail.
#[verifier::external_body]
pub(crate) fn put_varint(out: &mut Vec<u8>, x: i64)
    ensures
        final(out)@ == old(out)@ + varint_bytes(x),
{
    let _ = out.write_varint(x);
}

/// Reads one signed 64-bit integer from the front of `input` and moves
/// `input` past it.
/// Trusted: `integer_encoding::VarIntReader::read_varint::<i64>` on a byte slice
/// reads bytes up to the first with a clear top bit, ten at most, and decodes
/// them as [`varint_read`] says; its `InvalidData` and `UnexpectedEof` are
/// handed on as they are.
#[verifier::external_body]
pub(crate) fn take_varint(input: &mut &[u8]) -> (r: Result<i64, ErrorKind>)
    ensures
        match varint_read(old(input)@) {
            Ok((v, n)) => r == Ok::<i64, ErrorKind>(v) && final(input)@ == old(input)@.skip(
                n as int,
            ),
            Err(e) => r == Err::<i64, ErrorKind>(e),
        },
{
    match input.read_varint::<i64>() {
        Ok(v) => Ok(v),
        Err(e) => match e.kind() {
            std::io::ErrorKind::InvalidData => Err(ErrorKind::InvalidData),
            _ => Err(ErrorKind::UnexpectedEof),
        },
    }
}

/// Appends the variable-length form of `x` to `out`.
pub fn write_varint(out: &mut Vec<u8>, x: i64)
    ensures
        final(out)@ == old(out)@ + varint_bytes(x),
{
    put_varint(out, x);
}

/// Reads one variable-length integer. On failure nothing is read.
pub fn read_varint(input: &mut ByteReader) -> (r: Result<i64, ErrorKind>)
    ensures
        match varint_read(old(input).remaining()) {
            Ok((v, n)) => r == Ok::<i64, ErrorKind>(v) && old(input).advanced(
                final(input),
                n as int,
            ),
            Err(e) => r == Err::<i64, ErrorKind>(e) && *final(input) == *old(input),
        },
{
    let mut front: &[u8] = input.rest();
    let before: usize = front.len();
    match take_varint(&mut front) {
        Ok(v) => {
            proof {
                lemma_varint_read_len(input.remaining());
            }
            let after: usize = front.len();
            let taken = input.take(before - after);
            Ok(v)
        },
        Err(e) => Err(e),
    }
}

/// A terminator lies within the limit and within the sequence.
pub proof fn lemma_terminator_bound(s: Seq<u8>, limit: nat)
    ensures
        terminator_within(s, limit) matches Some(k) ==> k < limit && k < s.len() && s[k as int]
            < 128,
    decreases limit,
{
    if limit == 0 || s.len() == 0 {
    } else if s[0] < 128 {
    } else {
        lemma_terminator_bound(s.skip(1), (limit - 1) as nat);
    }
}

/// A value that is read takes between one and ten bytes, all of them there.
pub proof fn lemma_varint_read_len(s: Seq<u8>)
    ensures
        varint_read(s) matches Ok((v, n)) ==> 1 <= n <= 10 && n <= s.len(),
{
    lemma_terminator_bound(s, 10);
}

/// 128 to the power `k`.
pub open spec fn span128(k: nat) -> nat
    decreases k,
{
    if k == 0 {
        1
    } else {
        128 * span128((k - 1) as nat)
    }
}

/// An encoding is never empty.
pub proof fn lemma_leb128_nonempty(n: nat)
    ensures
        leb128(n).len() >= 1,
    decreases n,
{
    if n >= 128 {
        lemma_leb128_nonempty(n / 128);
    }
}

/// The encoding of a number below `128^k` has at most `k` bytes.
pub proof fn lemma_leb128_len(n: nat, k: nat)
    requires
        k >= 1,
        n < span128(k),
    ensures
        1 <= leb128(n).len() <= k,
    decreases n,
{
    if n >= 128 {
        assert(span128(1) == 128) by {
            reveal_with_fuel(span128, 2);
        }
        assert(k >= 2);
        assert(span128(k) == 128 * span128((k - 1) as nat));
        lemma_leb128_len(n / 128, (k - 1) as nat);
    }
}

/// The last byte of an encoding of `k` bytes holds what is left of the number
/// above `128^(k-1)`.
pub proof fn lemma_leb128_last(n: nat, k: nat, m: nat)
    requires
        leb128(n).len() == k,
        n < m * span128((k - 1) as nat),
    ensures
        k >= 1,
        leb128(n)[k - 1] < m,
    decreases n,
{
    if n < 128 {
        assert(leb128(n) =~= seq![n as u8]);
        assert(k == 1);
        let unit = span128(0);
        assert(unit == 1);
        assert(m * unit == m) by (nonlinear_arith)
            requires
                unit == 1,
        ;
    } else {
        let tail = leb128(n / 128);
        lemma_leb128_nonempty(n / 128);
        assert(leb128(n) == seq![(128 + n % 128) as u8] + tail);
        assert(tail.len() == k - 1);
        let s = span128((k - 2) as nat);
        assert(span128((k - 1) as nat) == 128 * s);
        assert(n / 128 < m * s) by (nonlinear_arith)
            requires
                n < m * (128 * s),
        ;
        lemma_leb128_last(n / 128, (k - 1) as nat, m);
        assert(leb128(n)[k - 1] == tail[k - 2]);
    }
}

/// Reading the groups of an encoding gives the number back.
pub proof fn lemma_groups_value_of_leb128(n: nat)
    ensures
        groups_value(leb128(n)) == n,
    decreases n,
{
    let e = leb128(n);
    if n < 128 {
        assert(e.skip(1) =~= Seq::<u8>::empty());
        assert(groups_value(e.skip(1)) == 0);
    } else {
        let tail = leb128(n / 128);
        assert(e.skip(1) =~= tail);
        lemma_groups_value_of_leb128(n / 128);
        assert(e[0] == (128 + n % 128) as u8);
        assert((e[0] % 128) as nat == n % 128);
    }
}

/// In front of any other bytes, an encoding ends at its own last byte,
/// provided the limit admits its length.
pub proof fn lemma_terminator_of_leb128(n: nat, rest: Seq<u8>, limit: nat)
    requires
        leb128(n).len() <= limit,
    ensures
        terminator_within(leb128(n) + rest, limit) == Some((leb128(n).len() - 1) as nat),
    decreases n,
{
    let e = leb128(n);
    let s = e + rest;
    lemma_leb128_nonempty(n);
    if n < 128 {
        assert(s[0] == e[0]);
    } else {
        let tail = leb128(n / 128);
        lemma_leb128_nonempty(n / 128);
        assert(s[0] == e[0]);
        assert(s.skip(1) =~= tail + rest);
        lemma_terminator_of_leb128(n / 128, rest, (limit - 1) as nat);
    }
}

/// `unzigzag` undoes `zigzag`.
pub proof fn lemma_zigzag_roundtrip(x: i64)
    ensures
        unzigzag(zigzag(x)) == x,
        zigzag(x) < 0x1_0000_0000_0000_0000,
{
}

/// Reading what was written gives the value back and takes exactly the bytes
/// that were written, whatever follows them.
pub proof fn lemma_varint_roundtrip(x: i64, rest: Seq<u8>)
    ensures
        varint_read(varint_bytes(x) + rest) == Ok::<(i64, nat), ErrorKind>(
            (x, varint_bytes(x).len()),
        ),
        1 <= varint_bytes(x).len() <= 10,
{
    let n = zigzag(x);
    let e = leb128(n);
    let s = e + rest;
    lemma_zigzag_roundtrip(x);
    assert(span128(10) == 0x40_0000_0000_0000_0000) by {
        reveal_with_fuel(span128, 11);
    }
    assert(span128(9) == 0x8000_0000_0000_0000) by {
        reveal_with_fuel(span128, 10);
    }
    lemma_leb128_len(n, 10);
    lemma_terminator_of_leb128(n, rest, 10);
    lemma_groups_value_of_leb128(n);
    let k = (e.len() - 1) as nat;
    assert(s.take(k + 1 as int) =~= e);
    if k == 9 {
        lemma_leb128_last(n, 10, 2);
        assert(s[9] == e[9]);
    }
}

} // verus!
