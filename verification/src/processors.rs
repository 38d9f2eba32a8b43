//! Decompression of payloads as they are read.

use vstd::prelude::*;
use vstd::slice::slice_to_vec;

use crate::compress::decompressed_len_of;
use crate::error::{failure_of, ErrorKind};
use crate::lz4::{
    lz4_decompress_into, lz4_decompress_into_with_dict, lz4_packs, lz4_packs_with_dict,
    lz4_unblock, lz4_unblock_with_dict,
};
use crate::packet::{Packet, PacketView};
use crate::zstandard::{
    zstd_decompress_into, zstd_decompressor_loads, zstd_packs, zstd_reads, zstd_unframe,
};

verus! {

/// A step that changes a packet and its payload after they are read.
pub trait DecoderProcessor: Send {
    /// Whether the step, as it stands, may answer so to the header `before`
    /// and the payload `data_before`: with success, or with the error
    /// `failure`, leaving the header `after` and the payload `data_after`.
    /// A step that says nothing of itself may answer in any way.
    open spec fn answers(
        &self,
        before: PacketView,
        data_before: Seq<u8>,
        failure: Option<ErrorKind>,
        after: PacketView,
        data_after: Seq<u8>,
    ) -> bool {
        true
    }

    /// Processes one packet that was read.
    fn process(&mut self, packet: &mut Packet, data: &mut Vec<u8>) -> (r: Result<(), ErrorKind>)
        ensures
            old(self).answers(
                old(packet)@,
                old(data)@,
                failure_of(r),
                final(packet)@,
                final(data)@,
            ),
    ;
}

/// What decompression of `data` into `room` bytes recovers with LZ4 and the
/// dictionary `dict`, or without one.
pub open spec fn lz4_recovered(dict: Option<Seq<u8>>, data: Seq<u8>, room: nat) -> Result<
    Seq<u8>,
    ErrorKind,
> {
    match dict {
        Some(d) => lz4_unblock_with_dict(data, room, d),
        None => lz4_unblock(data, room),
    }
}

/// What decompression of `data` into `room` bytes recovers with Zstandard and
/// the dictionary `dict`; `InvalidData` where it fails.
pub open spec fn zstd_recovered(dict: Seq<u8>, data: Seq<u8>, room: nat) -> Result<
    Seq<u8>,
    ErrorKind,
> {
    match zstd_unframe(dict, data, room) {
        Some(v) => Ok(v),
        None => Err(ErrorKind::InvalidData),
    }
}

/// What a decompressing step answers, when `recovered` is what decompression
/// into the room that the side data records gives: the header stays; the
/// payload becomes what was recovered. It fails with `MissingSideData` where
/// the side data records no length, with `ParameterOutOfRange` where the
/// length cannot be addressed, else as decompression does; on failure the
/// payload stays.
pub open spec fn decompresses(
    recovered: spec_fn(nat) -> Result<Seq<u8>, ErrorKind>,
    before: PacketView,
    data_before: Seq<u8>,
    failure: Option<ErrorKind>,
    after: PacketView,
    data_after: Seq<u8>,
) -> bool {
    &&& after == before
    &&& match decompressed_len_of(before.side_data) {
        None => failure == Some(ErrorKind::MissingSideData) && data_after == data_before,
        Some(n) => if n > usize::MAX {
            failure == Some(ErrorKind::ParameterOutOfRange) && data_after == data_before
        } else {
            match recovered(n as nat) {
                Err(e) => failure == Some(e) && data_after == data_before,
                Ok(v) => failure is None && data_after == v,
            }
        },
    }
}

/// What a step answers that decompresses with LZ4 and the dictionary `dict`,
/// or without one.
pub open spec fn lz4_decodes(
    dict: Option<Seq<u8>>,
    before: PacketView,
    data_before: Seq<u8>,
    failure: Option<ErrorKind>,
    after: PacketView,
    data_after: Seq<u8>,
) -> bool {
    decompresses(
        |room: nat| lz4_recovered(dict, data_before, room),
        before,
        data_before,
        failure,
        after,
        data_after,
    )
}

/// What a step answers that decompresses with Zstandard and the dictionary
/// `dict`.
pub open spec fn zstd_decodes(
    dict: Seq<u8>,
    before: PacketView,
    data_before: Seq<u8>,
    failure: Option<ErrorKind>,
    after: PacketView,
    data_after: Seq<u8>,
) -> bool {
    decompresses(
        |room: nat| zstd_recovered(dict, data_before, room),
        before,
        data_before,
        failure,
        after,
        data_after,
    )
}

/// Decompresses payloads that are LZ4 blocks.
pub struct Lz4Decoder {
    dict: Option<Vec<u8>>,
    scratch: Vec<u8>,
}

impl Lz4Decoder {
    /// The dictionary.
    pub closed spec fn dictionary(&self) -> Option<Seq<u8>> {
        match self.dict {
            Some(d) => Some(d@),
            None => None,
        }
    }

    /// What the decoder recovers from `data` when given `room` bytes.
    pub open spec fn recovered(&self, data: Seq<u8>, room: nat) -> Result<Seq<u8>, ErrorKind> {
        match self.dictionary() {
            Some(dict) => lz4_unblock_with_dict(data, room, dict),
            None => lz4_unblock(data, room),
        }
    }

    /// Whether `block` is a block of `x` for the decoder's dictionary.
    pub open spec fn packs(&self, block: Seq<u8>, x: Seq<u8>) -> bool {
        match self.dictionary() {
            Some(dict) => lz4_packs_with_dict(block, x, dict),
            None => lz4_packs(block, x),
        }
    }

    /// A decoder with the dictionary `dict`, or without one.
    pub fn new(dict: Option<&[u8]>) -> (d: Lz4Decoder)
        ensures
            d.dictionary() == match dict {
                Some(v) => Some(v@),
                None => None,
            },
    {
        Lz4Decoder {
            dict: match dict {
                Some(v) => Some(slice_to_vec(v)),
                None => None,
            },
            scratch: Vec::new(),
        }
    }

    /// Decompresses `data` into at most `room` bytes.
    pub fn decompress(&mut self, data: &[u8], room: usize) -> (r: Result<Vec<u8>, ErrorKind>)
        ensures
            final(self).dictionary() == old(self).dictionary(),
            match old(self).recovered(data@, room as nat) {
                Ok(bytes) => r matches Ok(v) && v@ == bytes,
                Err(e) => r matches Err(f) && f == e,
            },
            forall|x: Seq<u8>|
                #[trigger] old(self).packs(data@, x) && x.len() <= room ==> (r matches Ok(v) && v@
                    == x),
    {
        proof {
            assert forall|x: Seq<u8>| #[trigger]
                self.packs(data@, x) && x.len() <= room implies self.recovered(data@, room as nat)
                == Ok::<Seq<u8>, ErrorKind>(x) by {
                match self.dictionary() {
                    Some(dict) => {
                        assert(lz4_unblock_with_dict(data@, room as nat, dict) == Ok::<
                            Seq<u8>,
                            ErrorKind,
                        >(x));
                    },
                    None => {
                        assert(lz4_unblock(data@, room as nat) == Ok::<Seq<u8>, ErrorKind>(x));
                    },
                }
            }
        }
        self.scratch.clear();
        self.scratch.resize(room, 0);
        let written: usize = match &self.dict {
            Some(dict) => lz4_decompress_into_with_dict(data, &mut self.scratch, dict.as_slice()),
            None => lz4_decompress_into(data, &mut self.scratch),
        }?;
        self.scratch.truncate(written);
        let mut out: Vec<u8> = Vec::new();
        out.append(&mut self.scratch);
        Ok(out)
    }
}

impl Default for Lz4Decoder {
    fn default() -> (d: Lz4Decoder)
        ensures
            d.dictionary() is None,
    {
        Lz4Decoder::new(None)
    }
}

/// The payload that a decoder hands on, given what decompression gave.
pub fn decoded_payload(recovered: Option<Vec<u8>>) -> (r: Result<Vec<u8>, ErrorKind>)
    ensures
        match recovered {
            Some(v) => r == Ok::<Vec<u8>, ErrorKind>(v),
            None => r == Err::<Vec<u8>, ErrorKind>(ErrorKind::InvalidData),
        },
{
    match recovered {
        Some(v) => Ok(v),
        None => Err(ErrorKind::InvalidData),
    }
}

/// The room to give to decompression for a packet: the length that its side
/// data records. `MissingSideData` where it records none, `ParameterOutOfRange`
/// where the length cannot be addressed.
pub fn decompression_room(packet: &Packet) -> (r: Result<usize, ErrorKind>)
    ensures
        match decompressed_len_of(packet@.side_data) {
            None => r == Err::<usize, ErrorKind>(ErrorKind::MissingSideData),
            Some(n) => if n <= usize::MAX {
                r == Ok::<usize, ErrorKind>(n as usize)
            } else {
                r == Err::<usize, ErrorKind>(ErrorKind::ParameterOutOfRange)
            },
        },
{
    match packet.decompressed_len() {
        None => Err(ErrorKind::MissingSideData),
        Some(n) => {
            if n <= usize::MAX as u64 {
                Ok(n as usize)
            } else {
                Err(ErrorKind::ParameterOutOfRange)
            }
        },
    }
}

impl DecoderProcessor for Lz4Decoder {
    open spec fn answers(
        &self,
        before: PacketView,
        data_before: Seq<u8>,
        failure: Option<ErrorKind>,
        after: PacketView,
        data_after: Seq<u8>,
    ) -> bool {
        lz4_decodes(self.dictionary(), before, data_before, failure, after, data_after)
    }

    /// Replaces the payload by what it decompresses to, in at most as many
    /// bytes as the packet's side data records. The packet stays as it is.
    /// Where the payload cannot be decompressed it fails as decompression
    /// does; on failure the payload stays.
    fn process(&mut self, packet: &mut Packet, data: &mut Vec<u8>) -> (r: Result<(), ErrorKind>)
        ensures
            final(self).dictionary() == old(self).dictionary(),
            final(packet)@ == old(packet)@,
            match decompressed_len_of(old(packet)@.side_data) {
                None => r == Err::<(), ErrorKind>(ErrorKind::MissingSideData),
                Some(n) => if n > usize::MAX {
                    r == Err::<(), ErrorKind>(ErrorKind::ParameterOutOfRange)
                } else {
                    match old(self).recovered(old(data)@, n as nat) {
                        Err(e) => r == Err::<(), ErrorKind>(e),
                        Ok(v) => r is Ok && final(data)@ == v,
                    }
                },
            },
            r is Err ==> final(data)@ == old(data)@,
            forall|x: Seq<u8>|
                #[trigger] old(self).packs(old(data)@, x) && decompressed_len_of(
                    old(packet)@.side_data,
                ) == Some(x.len() as u64) && x.len() <= usize::MAX ==> r is Ok && final(data)@
                    == x,
    {
        let room: usize = decompression_room(packet)?;
        let mut out: Vec<u8> = self.decompress(data.as_slice(), room)?;
        data.clear();
        data.append(&mut out);
        Ok(())
    }
}

/// Decompresses payloads that are Zstandard frames.
pub struct ZstdDecoder {
    dict: Vec<u8>,
    scratch: Vec<u8>,
}

impl ZstdDecoder {
    /// The dictionary; empty where there is none.
    pub closed spec fn dictionary(&self) -> Seq<u8> {
        self.dict@
    }

    #[verifier::type_invariant]
    spec fn well_formed(self) -> bool {
        zstd_reads(self.dict@)
    }

    /// A decoder with the dictionary `dict`, or without one.
    /// `UnsupportedCompression` where the dictionary cannot be loaded.
    pub fn new(dict: Option<&[u8]>) -> (r: Result<ZstdDecoder, ErrorKind>)
        ensures
            match r {
                Ok(d) => d.dictionary() == match dict {
                    Some(v) => v@,
                    None => Seq::<u8>::empty(),
                } && zstd_reads(d.dictionary()),
                Err(e) => e == ErrorKind::UnsupportedCompression && !zstd_reads(
                    match dict {
                        Some(v) => v@,
                        None => Seq::<u8>::empty(),
                    },
                ),
            },
    {
        let dict: Vec<u8> = match dict {
            Some(v) => slice_to_vec(v),
            None => Vec::new(),
        };
        if zstd_decompressor_loads(dict.as_slice()) {
            Ok(ZstdDecoder { dict, scratch: Vec::new() })
        } else {
            Err(ErrorKind::UnsupportedCompression)
        }
    }

    /// Decompresses `data` into at most `room` bytes.
    pub fn decompress(&mut self, data: &[u8], room: usize) -> (r: Option<Vec<u8>>)
        ensures
            final(self).dictionary() == old(self).dictionary(),
            r is Some <==> zstd_unframe(old(self).dictionary(), data@, room as nat) is Some,
            r matches Some(v) ==> v@ == zstd_unframe(old(self).dictionary(), data@, room as nat)->0,
            forall|x: Seq<u8>|
                #[trigger] zstd_packs(data@, old(self).dictionary(), x) && x.len() <= room ==> r
                    is Some && r->0@ == x,
    {
        proof {
            use_type_invariant(&*self);
            assert forall|x: Seq<u8>| #[trigger]
                zstd_packs(data@, self.dictionary(), x) && x.len() <= room implies zstd_unframe(
                self.dictionary(),
                data@,
                room as nat,
            ) == Some(x) by {}
        }
        let mut scratch: Vec<u8> = Vec::new();
        std::mem::swap(&mut scratch, &mut self.scratch);
        scratch.clear();
        scratch.resize(room, 0);
        let written: Option<usize> = zstd_decompress_into(self.dict.as_slice(), data, &mut scratch);
        match written {
            Some(n) => {
                scratch.truncate(n);
                Some(scratch)
            },
            None => None,
        }
    }
}

impl DecoderProcessor for ZstdDecoder {
    open spec fn answers(
        &self,
        before: PacketView,
        data_before: Seq<u8>,
        failure: Option<ErrorKind>,
        after: PacketView,
        data_after: Seq<u8>,
    ) -> bool {
        zstd_decodes(self.dictionary(), before, data_before, failure, after, data_after)
    }

    /// Replaces the payload by what it decompresses to, in at most as many
    /// bytes as the packet's side data records. The packet stays as it is.
    /// `InvalidData` where the payload cannot be decompressed; on failure the
    /// payload stays.
    fn process(&mut self, packet: &mut Packet, data: &mut Vec<u8>) -> (r: Result<(), ErrorKind>)
        ensures
            final(self).dictionary() == old(self).dictionary(),
            final(packet)@ == old(packet)@,
            match decompressed_len_of(old(packet)@.side_data) {
                None => r == Err::<(), ErrorKind>(ErrorKind::MissingSideData),
                Some(n) => if n > usize::MAX {
                    r == Err::<(), ErrorKind>(ErrorKind::ParameterOutOfRange)
                } else {
                    match zstd_unframe(old(self).dictionary(), old(data)@, n as nat) {
                        None => r == Err::<(), ErrorKind>(ErrorKind::InvalidData),
                        Some(v) => r is Ok && final(data)@ == v,
                    }
                },
            },
            r is Err ==> final(data)@ == old(data)@,
            forall|x: Seq<u8>|
                #[trigger] zstd_packs(old(data)@, old(self).dictionary(), x) && decompressed_len_of(
                    old(packet)@.side_data,
                ) == Some(x.len() as u64) && x.len() <= usize::MAX ==> r is Ok && final(data)@
                    == x,
    {
        let room: usize = decompression_room(packet)?;
        let mut out: Vec<u8> = decoded_payload(self.decompress(data.as_slice(), room))?;
        data.clear();
        data.append(&mut out);
        Ok(())
    }
}

} // verus!
