//! Little-endian integers on byte buffers, and a cursor over input bytes.

use byteorder::{LittleEndian, ReadBytesExt, WriteBytesExt};
use vstd::bytes::*;
use vstd::prelude::*;
use vstd::slice::*;

use crate::error::ErrorKind;

verus! {

/// The bit pattern of a signed 16-bit integer in two's complement.
pub open spec fn i16_bits(x: i16) -> u16 {
    if x >= 0 {
        x as u16
    } else {
        (x + 0x1_0000) as u16
    }
}

/// The signed 16-bit integer that a bit pattern stands for in two's complement.
pub open spec fn i16_of_bits(b: u16) -> i16 {
    if b < 0x8000 {
        b as i16
    } else {
        (b - 0x1_0000) as i16
    }
}

/// `i16_of_bits` undoes `i16_bits`, and the other way round.
pub proof fn lemma_i16_bits_roundtrip(x: i16, b: u16)
    ensures
        i16_of_bits(i16_bits(x)) == x,
        i16_bits(i16_of_bits(b)) == b,
{
}

/// Appends `n` as two bytes, least significant first.
/// Trusted: `byteorder::WriteBytesExt::write_u16::<LittleEndian>` on a `Vec<u8>`
/// appends the little-endian bytes of `n` and cannot fail.
#[verifier::external_body]
pub(crate) fn put_u16_le(out: &mut Vec<u8>, n: u16)
    ensures
        final(out)@ == old(out)@ + spec_u16_to_le_bytes(n),
{
    let _ = out.write_u16::<LittleEndian>(n);
}

/// Appends `n` as two bytes in two's complement, least significant first.
/// Trusted: `byteorder::WriteBytesExt::write_i16::<LittleEndian>` on a `Vec<u8>`
/// appends the little-endian bytes of the bit pattern of `n` and cannot fail.
#[verifier::external_body]
pub(crate) fn put_i16_le(out: &mut Vec<u8>, n: i16)
    ensures
        final(out)@ == old(out)@ + spec_u16_to_le_bytes(i16_bits(n)),
{
    let _ = out.write_i16::<LittleEndian>(n);
}

/// Appends `n` as four bytes, least significant first.
/// Trusted: `byteorder::WriteBytesExt::write_u32::<LittleEndian>` on a `Vec<u8>`
/// appends the little-endian bytes of `n` and cannot fail.
#[verifier::external_body]
pub(crate) fn put_u32_le(out: &mut Vec<u8>, n: u32)
    ensures
        final(out)@ == old(out)@ + spec_u32_to_le_bytes(n),
{
    let _ = out.write_u32::<LittleEndian>(n);
}

/// Appends `n` as eight bytes, least significant first.
/// Trusted: `byteorder::WriteBytesExt::write_u64::<LittleEndian>` on a `Vec<u8>`
/// appends the little-endian bytes of `n` and cannot fail.
#[verifier::external_body]
pub(crate) fn put_u64_le(out: &mut Vec<u8>, n: u64)
    ensures
        final(out)@ == old(out)@ + spec_u64_to_le_bytes(n),
{
    let _ = out.write_u64::<LittleEndian>(n);
}

/// Reads two bytes from the front of `input`, least significant first.
/// Trusted: `byteorder::ReadBytesExt::read_u16::<LittleEndian>` on a byte slice
/// fails exactly when fewer than two bytes are there, and otherwise decodes the
/// first two.
#[verifier::external_body]
pub(crate) fn get_u16_le(input: &[u8]) -> (r: Option<u16>)
    ensures
        r is Some <==> input@.len() >= 2,
        r matches Some(v) ==> v == spec_u16_from_le_bytes(input@.subrange(0, 2)),
{
    let mut front: &[u8] = input;
    front.read_u16::<LittleEndian>().ok()
}

/// Reads two bytes from the front of `input` as a signed integer in two's
/// complement, least significant first.
/// Trusted: `byteorder::ReadBytesExt::read_i16::<LittleEndian>` on a byte slice
/// fails exactly when fewer than two bytes are there, and otherwise decodes the
/// first two.
#[verifier::external_body]
pub(crate) fn get_i16_le(input: &[u8]) -> (r: Option<i16>)
    ensures
        r is Some <==> input@.len() >= 2,
        r matches Some(v) ==> v == i16_of_bits(spec_u16_from_le_bytes(input@.subrange(0, 2))),
{
    let mut front: &[u8] = input;
    front.read_i16::<LittleEndian>().ok()
}

/// Reads four bytes from the front of `input`, least significant first.
/// Trusted: `byteorder::ReadBytesExt::read_u32::<LittleEndian>` on a byte slice
/// fails exactly when fewer than four bytes are there, and otherwise decodes
/// the first four.
#[verifier::external_body]
pub(crate) fn get_u32_le(input: &[u8]) -> (r: Option<u32>)
    ensures
        r is Some <==> input@.len() >= 4,
        r matches Some(v) ==> v == spec_u32_from_le_bytes(input@.subrange(0, 4)),
{
    let mut front: &[u8] = input;
    front.read_u32::<LittleEndian>().ok()
}

/// Reads eight bytes from the front of `input`, least significant first.
/// Trusted: `byteorder::ReadBytesExt::read_u64::<LittleEndian>` on a byte slice
/// fails exactly when fewer than eight bytes are there, and otherwise decodes
/// the first eight.
#[verifier::external_body]
pub(crate) fn get_u64_le(input: &[u8]) -> (r: Option<u64>)
    ensures
        r is Some <==> input@.len() >= 8,
        r matches Some(v) ==> v == spec_u64_from_le_bytes(input@.subrange(0, 8)),
{
    let mut front: &[u8] = input;
    front.read_u64::<LittleEndian>().ok()
}

/// A read position in a byte buffer.
pub struct ByteReader<'a> {
    data: &'a [u8],
    pos: usize,
}

impl<'a> ByteReader<'a> {
    #[verifier::type_invariant]
    spec fn well_formed(self) -> bool {
        self.pos <= self.data@.len()
    }

    /// The whole buffer.
    pub closed spec fn source(&self) -> Seq<u8> {
        self.data@
    }

    /// How many bytes have been read.
    pub closed spec fn offset(&self) -> nat {
        self.pos as nat
    }

    /// The bytes not yet read.
    pub open spec fn remaining(&self) -> Seq<u8> {
        self.source().skip(self.offset() as int)
    }

    /// The reader's state once `n` more bytes have been read.
    pub open spec fn advanced(&self, next: &Self, n: int) -> bool {
        &&& 0 <= n <= self.remaining().len()
        &&& next.source() == self.source()
        &&& next.offset() == self.offset() + n
        &&& next.offset() <= next.source().len()
        &&& next.remaining() == self.remaining().skip(n)
    }

    /// Reading `n` bytes and then `m` more is reading `n + m` bytes.
    pub proof fn lemma_advanced_twice(&self, mid: &Self, next: &Self, n: int, m: int)
        requires
            self.advanced(mid, n),
            mid.advanced(next, m),
        ensures
            self.advanced(next, n + m),
    {
        assert(next.remaining() =~= self.remaining().skip(n + m));
    }

    /// A reader at the start of `data`.
    pub fn new(data: &'a [u8]) -> (r: Self)
        ensures
            r.source() == data@,
            r.offset() == 0,
    {
        ByteReader { data, pos: 0 }
    }

    /// A reader at `pos` in `data`, or at its end if `pos` lies beyond.
    pub fn at(data: &'a [u8], pos: usize) -> (r: Self)
        ensures
            r.source() == data@,
            r.offset() == if pos <= data@.len() { pos as nat } else { data@.len() },
    {
        let start: usize = if pos <= data.len() { pos } else { data.len() };
        ByteReader { data, pos: start }
    }

    /// The number of bytes read so far.
    pub fn position(&self) -> (p: usize)
        ensures
            p == self.offset(),
            p <= self.source().len(),
    {
        proof {
            use_type_invariant(self);
        }
        self.pos
    }

    /// The number of bytes left.
    pub fn available(&self) -> (n: usize)
        ensures
            n == self.remaining().len(),
            self.offset() <= self.source().len(),
    {
        proof {
            use_type_invariant(self);
        }
        self.data.len() - self.pos
    }

    /// The bytes not yet read, as a slice.
    pub fn rest(&self) -> (s: &'a [u8])
        ensures
            s@ == self.remaining(),
    {
        proof {
            use_type_invariant(self);
        }
        slice_subrange(self.data, self.pos, self.data.len())
    }

    /// Reads the next `n` bytes; fails with `UnexpectedEof`, reading nothing,
    /// when fewer are left.
    pub fn take(&mut self, n: usize) -> (r: Result<&'a [u8], ErrorKind>)
        ensures
            match r {
                Ok(s) => {
                    &&& n <= old(self).remaining().len()
                    &&& s@ == old(self).remaining().subrange(0, n as int)
                    &&& old(self).advanced(final(self), n as int)
                },
                Err(e) => {
                    &&& e == ErrorKind::UnexpectedEof
                    &&& n > old(self).remaining().len()
                    &&& *final(self) == *old(self)
                },
            },
    {
        proof {
            use_type_invariant(&*self);
        }
        if n > self.data.len() - self.pos {
            return Err(ErrorKind::UnexpectedEof);
        }
        let s: &'a [u8] = slice_subrange(self.data, self.pos, self.pos + n);
        self.pos = self.pos + n;
        proof {
            assert(self.remaining() =~= old(self).remaining().skip(n as int));
            assert(s@ =~= old(self).remaining().subrange(0, n as int));
        }
        Ok(s)
    }

    /// Reads one byte.
    pub fn read_u8(&mut self) -> (r: Result<u8, ErrorKind>)
        ensures
            match r {
                Ok(v) => {
                    &&& 1 <= old(self).remaining().len()
                    &&& v == old(self).remaining()[0]
                    &&& old(self).advanced(final(self), 1)
                },
                Err(e) => {
                    &&& e == ErrorKind::UnexpectedEof
                    &&& old(self).remaining().len() < 1
                    &&& *final(self) == *old(self)
                },
            },
    {
        proof {
            use_type_invariant(&*self);
        }
        if self.pos >= self.data.len() {
            return Err(ErrorKind::UnexpectedEof);
        }
        let v: u8 = self.data[self.pos];
        self.pos = self.pos + 1;
        proof {
            assert(self.remaining() =~= old(self).remaining().skip(1));
        }
        Ok(v)
    }

    /// Reads an unsigned 16-bit integer, least significant byte first.
    pub fn read_u16(&mut self) -> (r: Result<u16, ErrorKind>)
        ensures
            match r {
                Ok(v) => {
                    &&& 2 <= old(self).remaining().len()
                    &&& v == spec_u16_from_le_bytes(old(self).remaining().subrange(0, 2))
                    &&& old(self).advanced(final(self), 2)
                },
                Err(e) => {
                    &&& e == ErrorKind::UnexpectedEof
                    &&& old(self).remaining().len() < 2
                    &&& *final(self) == *old(self)
                },
            },
    {
        proof {
            use_type_invariant(&*self);
            assert(self.remaining().len() == self.data@.len() - self.pos);
        }
        let _total: usize = self.data.len();
        match get_u16_le(self.rest()) {
            Some(v) => {
                self.pos = self.pos + 2;
                proof {
                    assert(self.remaining() =~= old(self).remaining().skip(2));
                }
                Ok(v)
            },
            None => Err(ErrorKind::UnexpectedEof),
        }
    }

    /// Reads a signed 16-bit integer in two's complement, least significant
    /// byte first.
    pub fn read_i16(&mut self) -> (r: Result<i16, ErrorKind>)
        ensures
            match r {
                Ok(v) => {
                    &&& 2 <= old(self).remaining().len()
                    &&& v == i16_of_bits(
                        spec_u16_from_le_bytes(old(self).remaining().subrange(0, 2)),
                    )
                    &&& old(self).advanced(final(self), 2)
                },
                Err(e) => {
                    &&& e == ErrorKind::UnexpectedEof
                    &&& old(self).remaining().len() < 2
                    &&& *final(self) == *old(self)
                },
            },
    {
        proof {
            use_type_invariant(&*self);
            assert(self.remaining().len() == self.data@.len() - self.pos);
        }
        let _total: usize = self.data.len();
        match get_i16_le(self.rest()) {
            Some(v) => {
                self.pos = self.pos + 2;
                proof {
                    assert(self.remaining() =~= old(self).remaining().skip(2));
                }
                Ok(v)
            },
            None => Err(ErrorKind::UnexpectedEof),
        }
    }

    /// Reads an unsigned 32-bit integer, least significant byte first.
    pub fn read_u32(&mut self) -> (r: Result<u32, ErrorKind>)
        ensures
            match r {
                Ok(v) => {
                    &&& 4 <= old(self).remaining().len()
                    &&& v == spec_u32_from_le_bytes(old(self).remaining().subrange(0, 4))
                    &&& old(self).advanced(final(self), 4)
                },
                Err(e) => {
                    &&& e == ErrorKind::UnexpectedEof
                    &&& old(self).remaining().len() < 4
                    &&& *final(self) == *old(self)
                },
            },
    {
        proof {
            use_type_invariant(&*self);
            assert(self.remaining().len() == self.data@.len() - self.pos);
        }
        let _total: usize = self.data.len();
        match get_u32_le(self.rest()) {
            Some(v) => {
                self.pos = self.pos + 4;
                proof {
                    assert(self.remaining() =~= old(self).remaining().skip(4));
                }
                Ok(v)
            },
            None => Err(ErrorKind::UnexpectedEof),
        }
    }

    /// Reads an unsigned 64-bit integer, least significant byte first.
    pub fn read_u64(&mut self) -> (r: Result<u64, ErrorKind>)
        ensures
            match r {
                Ok(v) => {
                    &&& 8 <= old(self).remaining().len()
                    &&& v == spec_u64_from_le_bytes(old(self).remaining().subrange(0, 8))
                    &&& old(self).advanced(final(self), 8)
                },
                Err(e) => {
                    &&& e == ErrorKind::UnexpectedEof
                    &&& old(self).remaining().len() < 8
                    &&& *final(self) == *old(self)
                },
            },
    {
        proof {
            use_type_invariant(&*self);
            assert(self.remaining().len() == self.data@.len() - self.pos);
        }
        let _total: usize = self.data.len();
        match get_u64_le(self.rest()) {
            Some(v) => {
                self.pos = self.pos + 8;
                proof {
                    assert(self.remaining() =~= old(self).remaining().skip(8));
                }
                Ok(v)
            },
            None => Err(ErrorKind::UnexpectedEof),
        }
    }
}

} // verus!
