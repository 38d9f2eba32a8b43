//! Compression of payloads after they are encoded, and the side data that
//! records it.

use vstd::bytes::*;
use vstd::prelude::*;
use vstd::slice::slice_to_vec;

use crate::bytes::{get_u64_le, put_u64_le};
use crate::error::{failure_of, ErrorKind};
use crate::lz4::{
    lz4_bounded, lz4_compress_into, lz4_compress_into_with_dict, lz4_packs, lz4_packs_with_dict,
    lz4_maximum_output_size,
};
use crate::metadata::CompressionMode;
use crate::packet::{Packet, PacketView};
use crate::zstandard::{zstd_compress, zstd_compressor_loads, zstd_loads, zstd_packs};
use crate::side_data::{
    compression_method_tag, decompressed_len_tag, lemma_position_of, position_of, value_of,
    with_entry, Entry, compression_method_bytes, decompressed_len_bytes, SIDE_DATA_LIMIT,
};

verus! {

/// A step that changes a packet and its payload after they are encoded.
pub trait PostProcessor: Send {
    /// Whether the step, as it stands, may answer so to the header `before`
    /// and the payload `data_before`: with success, or with the error
    /// `failure`, leaving the header `after` and the payload `data_after`.
    /// A step that says nothing of itself may answer in any way.
    open spec fn answers(
        &self,
        before: PacketView,
        data_before: Seq<u8>,
        failure: Option<ErrorKind>,
        after: PacketView,
        data_after: Seq<u8>,
    ) -> bool {
        true
    }

    /// Processes one packet. On success the header's `data_len` is the length
    /// of the payload.
    fn post_process(&mut self, packet: &mut Packet, data: &mut Vec<u8>) -> (r: Result<
        (),
        ErrorKind,
    >)
        ensures
            old(self).answers(
                old(packet)@,
                old(data)@,
                failure_of(r),
                final(packet)@,
                final(data)@,
            ),
            r is Ok ==> final(packet).data_len == final(data)@.len(),
    ;
}

/// The side data of a compressed packet: `side_data` with the length before
/// compression under `DCLE` and the method under `CMPM`.
pub open spec fn compressed_side_data(
    side_data: Seq<Entry>,
    method: CompressionMode,
    uncompressed_len: u64,
) -> Seq<Entry> {
    with_entry(
        with_entry(side_data, decompressed_len_bytes(), spec_u64_to_le_bytes(uncompressed_len)),
        compression_method_bytes(),
        seq![method.byte()],
    )
}

/// The header of a packet after its payload was compressed.
pub open spec fn compressed_packet(
    p: PacketView,
    method: CompressionMode,
    uncompressed_len: u64,
    compressed_len: u64,
) -> PacketView {
    PacketView {
        side_data: compressed_side_data(p.side_data, method, uncompressed_len),
        data_len: compressed_len,
        ..p
    }
}

/// The length before compression that side data records, if it records one
/// in eight bytes.
pub open spec fn decompressed_len_of(side_data: Seq<Entry>) -> Option<u64> {
    match value_of(side_data, decompressed_len_bytes()) {
        Some(v) => if v.len() == 8 {
            Some(spec_u64_from_le_bytes(v))
        } else {
            None
        },
        None => None,
    }
}

impl Packet {
    /// Records that the payload was compressed: sets `data_len` to the
    /// compressed length, and in the side data the length before compression
    /// and the method. Fails with `ParameterOutOfRange`, changing nothing,
    /// where the side data has no room.
    pub fn mark_compressed(
        &mut self,
        method: CompressionMode,
        uncompressed_len: u64,
        compressed_len: u64,
    ) -> (r: Result<(), ErrorKind>)
        ensures
            match r {
                Ok(_) => final(self)@ == compressed_packet(
                    old(self)@,
                    method,
                    uncompressed_len,
                    compressed_len,
                ),
                Err(e) => e == ErrorKind::ParameterOutOfRange && final(self)@ == old(self)@,
            },
            r is Err <==> compressed_side_data(old(self)@.side_data, method, uncompressed_len).len()
                >= SIDE_DATA_LIMIT,
    {
        let length_tag = decompressed_len_tag();
        let method_tag = compression_method_tag();
        let ghost before = self.side_data@;
        let ghost lengths = spec_u64_to_le_bytes(uncompressed_len);
        let ghost with_length = with_entry(before, decompressed_len_bytes(), lengths);
        proof {
            lemma_auto_spec_u64_to_from_le_bytes();
            lemma_position_of(before, decompressed_len_bytes());
            lemma_position_of(before, compression_method_bytes());
            lemma_position_of(with_length, compression_method_bytes());
            assert(decompressed_len_bytes()[0] != compression_method_bytes()[0]);
            match position_of(before, compression_method_bytes()) {
                Some(i) => {
                    assert(with_length[i].0 == compression_method_bytes());
                },
                None => {
                    match position_of(with_length, compression_method_bytes()) {
                        Some(j) => {
                            if j < before.len() {
                                assert(before[j].0 == compression_method_bytes());
                            }
                        },
                        None => {},
                    }
                },
            }
        }
        let mut missing: usize = 0;
        if self.side_data.find(&length_tag).is_none() {
            missing = missing + 1;
        }
        if self.side_data.find(&method_tag).is_none() {
            missing = missing + 1;
        }
        if self.side_data.len() + missing >= SIDE_DATA_LIMIT {
            return Err(ErrorKind::ParameterOutOfRange);
        }
        let mut length_bytes: Vec<u8> = Vec::new();
        put_u64_le(&mut length_bytes, uncompressed_len);
        let method_bytes: [u8; 1] = [method.to_byte()];
        match self.side_data.insert(length_tag, length_bytes.as_slice()) {
            Ok(_) => {},
            Err(e) => {
                return Err(e);
            },
        }
        match self.side_data.insert(method_tag, vstd::array::array_as_slice(&method_bytes)) {
            Ok(_) => {},
            Err(e) => {
                return Err(e);
            },
        }
        self.data_len = compressed_len;
        proof {
            assert(method_bytes@ =~= seq![method.byte()]);
        }
        Ok(())
    }

    /// The length before compression that the side data records.
    pub fn decompressed_len(&self) -> (r: Option<u64>)
        ensures
            r == decompressed_len_of(self@.side_data),
    {
        match self.side_data.get(&decompressed_len_tag()) {
            Some(v) => {
                if v.len() == 8 {
                    proof {
                        assert(v@.subrange(0, 8) =~= v@);
                    }
                    get_u64_le(v)
                } else {
                    None
                }
            },
            None => None,
        }
    }
}

/// Whether a payload of `len` bytes can be handed to the compressor with a
/// dictionary of `dict_len` bytes: the space it may need, and the input with
/// the dictionary, can be addressed.
pub open spec fn lz4_compressible(len: nat, dict_len: nat) -> bool {
    lz4_bounded(len) && len + 2 * dict_len <= isize::MAX
}

/// Whether `block` is an LZ4 block of `data` for the dictionary `dict`, or
/// without one: decompression recovers `data` from it.
pub open spec fn lz4_packed(dict: Option<Seq<u8>>, block: Seq<u8>, data: Seq<u8>) -> bool {
    match dict {
        Some(d) => lz4_packs_with_dict(block, data, d),
        None => lz4_packs(block, data),
    }
}

/// What a step answers that compresses with LZ4 and the dictionary `dict`,
/// or without one: the payload becomes a block of it and the header records the
/// compression. It fails with `ParameterOutOfRange`, changing neither header
/// nor payload, where the payload is too long to compress or the side data
/// has no room.
pub open spec fn lz4_compresses(
    dict: Option<Seq<u8>>,
    before: PacketView,
    data_before: Seq<u8>,
    failure: Option<ErrorKind>,
    after: PacketView,
    data_after: Seq<u8>,
) -> bool {
    let dict_len = match dict {
        Some(d) => d.len(),
        None => 0,
    };
    if !lz4_compressible(data_before.len(), dict_len) || compressed_side_data(
        before.side_data,
        CompressionMode::Lz4,
        data_before.len() as u64,
    ).len() >= SIDE_DATA_LIMIT {
        failure == Some(ErrorKind::ParameterOutOfRange) && after == before && data_after
            == data_before
    } else {
        &&& failure is None
        &&& lz4_packed(dict, data_after, data_before)
        &&& after == compressed_packet(
            before,
            CompressionMode::Lz4,
            data_before.len() as u64,
            data_after.len() as u64,
        )
    }
}

/// What a step may answer that compresses with Zstandard and the dictionary
/// `dict`: the payload becomes a frame of it and the header records the
/// compression. It fails with `Io` where compression fails, which is left
/// open, and with `ParameterOutOfRange` where compression succeeds and the
/// side data has no room; on failure header and payload stay.
pub open spec fn zstd_compresses(
    dict: Seq<u8>,
    before: PacketView,
    data_before: Seq<u8>,
    failure: Option<ErrorKind>,
    after: PacketView,
    data_after: Seq<u8>,
) -> bool {
    let full = compressed_side_data(
        before.side_data,
        CompressionMode::Zstd,
        data_before.len() as u64,
    ).len() >= SIDE_DATA_LIMIT;
    match failure {
        Some(e) => {
            &&& e == ErrorKind::Io || (full && e == ErrorKind::ParameterOutOfRange)
            &&& after == before
            &&& data_after == data_before
        },
        None => {
            &&& !full
            &&& zstd_packs(data_after, dict, data_before)
            &&& after == compressed_packet(
                before,
                CompressionMode::Zstd,
                data_before.len() as u64,
                data_after.len() as u64,
            )
        },
    }
}

/// What a step answers that compresses in the mode `mode`, at the level
/// `level` of Zstandard, with the dictionary `dict` or without one. The level
/// does not show in what is said of the answer.
pub open spec fn compression_answers(
    mode: CompressionMode,
    level: int,
    dict: Option<Seq<u8>>,
    before: PacketView,
    data_before: Seq<u8>,
    failure: Option<ErrorKind>,
    after: PacketView,
    data_after: Seq<u8>,
) -> bool {
    match mode {
        CompressionMode::Uncompressed => failure is None && after == before && data_after
            == data_before,
        CompressionMode::Lz4 => lz4_compresses(
            dict,
            before,
            data_before,
            failure,
            after,
            data_after,
        ),
        CompressionMode::Zstd => zstd_compresses(
            match dict {
                Some(d) => d,
                None => Seq::empty(),
            },
            before,
            data_before,
            failure,
            after,
            data_after,
        ),
    }
}

/// Compresses payloads as LZ4 blocks, with a dictionary or without.
pub struct Lz4Compressor {
    dict: Option<Vec<u8>>,
    scratch: Vec<u8>,
}

impl Lz4Compressor {
    /// The dictionary.
    pub closed spec fn dictionary(&self) -> Option<Seq<u8>> {
        match self.dict {
            Some(d) => Some(d@),
            None => None,
        }
    }

    /// Whether `block` is a block of `data` as the compressor makes it:
    /// decompression with the compressor's dictionary recovers `data`.
    pub open spec fn packs(&self, block: Seq<u8>, data: Seq<u8>) -> bool {
        lz4_packed(self.dictionary(), block, data)
    }

    /// Whether the compressor can take a payload of `len` bytes.
    pub open spec fn accepts(&self, len: nat) -> bool {
        match self.dictionary() {
            Some(dict) => lz4_compressible(len, dict.len()),
            None => lz4_compressible(len, 0),
        }
    }

    /// A compressor without a dictionary.
    pub fn new() -> (c: Lz4Compressor)
        ensures
            c.dictionary() is None,
    {
        Lz4Compressor { dict: None, scratch: Vec::new() }
    }

    /// A compressor with the dictionary `dict`.
    pub fn with_dict(dict: &[u8]) -> (c: Lz4Compressor)
        ensures
            c.dictionary() == Some(dict@),
    {
        Lz4Compressor { dict: Some(slice_to_vec(dict)), scratch: Vec::new() }
    }

    /// A block of `data`, or `None` where `data` is too long to compress.
    pub fn compress(&mut self, data: &[u8]) -> (r: Option<Vec<u8>>)
        ensures
            final(self).dictionary() == old(self).dictionary(),
            match r {
                Some(block) => old(self).accepts(data@.len()) && old(self).packs(block@, data@),
                None => !old(self).accepts(data@.len()),
            },
    {
        let dict_len: usize = match &self.dict {
            Some(d) => d.len(),
            None => 0,
        };
        let len: usize = data.len();
        if (len as u128) * 110 > u64::MAX as u128 || (len as u128) * 110 / 100 + 20
            > usize::MAX as u128 || (len as u128) + 2 * (dict_len as u128) > isize::MAX as u128 {
            return None;
        }
        let room: usize = lz4_maximum_output_size(len);
        self.scratch.clear();
        self.scratch.resize(room, 0);
        let written: Option<usize> = match &self.dict {
            Some(dict) => lz4_compress_into_with_dict(data, &mut self.scratch, dict.as_slice()),
            None => lz4_compress_into(data, &mut self.scratch),
        };
        match written {
            Some(n) => {
                self.scratch.truncate(n);
                let mut block: Vec<u8> = Vec::new();
                block.append(&mut self.scratch);
                Some(block)
            },
            None => None,
        }
    }
}

impl Default for Lz4Compressor {
    fn default() -> (c: Lz4Compressor)
        ensures
            c.dictionary() is None,
    {
        Lz4Compressor::new()
    }
}

impl PostProcessor for Lz4Compressor {
    open spec fn answers(
        &self,
        before: PacketView,
        data_before: Seq<u8>,
        failure: Option<ErrorKind>,
        after: PacketView,
        data_after: Seq<u8>,
    ) -> bool {
        lz4_compresses(self.dictionary(), before, data_before, failure, after, data_after)
    }

    /// Replaces the payload by an LZ4 block of it and records the compression in
    /// the header. Fails with `ParameterOutOfRange`, changing neither packet
    /// nor payload, where the payload is too long to compress or the side
    /// data has no room.
    fn post_process(&mut self, packet: &mut Packet, data: &mut Vec<u8>) -> (r: Result<
        (),
        ErrorKind,
    >)
        ensures
            final(self).dictionary() == old(self).dictionary(),
            match r {
                Ok(_) => {
                    &&& old(self).accepts(old(data)@.len())
                    &&& old(self).packs(final(data)@, old(data)@)
                    &&& final(packet)@ == compressed_packet(
                        old(packet)@,
                        CompressionMode::Lz4,
                        old(data)@.len() as u64,
                        final(data)@.len() as u64,
                    )
                },
                Err(e) => {
                    &&& e == ErrorKind::ParameterOutOfRange
                    &&& final(packet)@ == old(packet)@
                    &&& final(data)@ == old(data)@
                    &&& (!old(self).accepts(old(data)@.len()) || compressed_side_data(
                        old(packet)@.side_data,
                        CompressionMode::Lz4,
                        old(data)@.len() as u64,
                    ).len() >= SIDE_DATA_LIMIT)
                },
            },
    {
        let block: Vec<u8> = match self.compress(data.as_slice()) {
            Some(b) => b,
            None => {
                return Err(ErrorKind::ParameterOutOfRange);
            },
        };
        store_compressed(packet, data, CompressionMode::Lz4, Some(block))
    }
}

/// Compresses payloads as Zstandard frames, with a dictionary or without.
pub struct ZstdCompressor {
    level: i32,
    dict: Vec<u8>,
}

impl ZstdCompressor {
    #[verifier::type_invariant]
    spec fn well_formed(self) -> bool {
        zstd_loads(self.level as int, self.dict@)
    }

    /// The compression level.
    pub closed spec fn level(&self) -> int {
        self.level as int
    }

    /// The dictionary; empty where there is none.
    pub closed spec fn dictionary(&self) -> Seq<u8> {
        self.dict@
    }

    /// Whether `frame` is a frame of `data` as the compressor makes it:
    /// decompression with the compressor's dictionary recovers `data`.
    pub open spec fn packs(&self, frame: Seq<u8>, data: Seq<u8>) -> bool {
        zstd_packs(frame, self.dictionary(), data)
    }

    /// A compressor at the given level without a dictionary.
    /// `UnsupportedCompression` where the level is refused.
    pub fn new(level: i32) -> (r: Result<ZstdCompressor, ErrorKind>)
        ensures
            match r {
                Ok(c) => c.level() == level && c.dictionary() == Seq::<u8>::empty(),
                Err(e) => e == ErrorKind::UnsupportedCompression,
            },
            r is Ok <==> zstd_loads(level as int, Seq::<u8>::empty()),
    {
        let dict: Vec<u8> = Vec::new();
        if zstd_compressor_loads(level, dict.as_slice()) {
            Ok(ZstdCompressor { level, dict })
        } else {
            Err(ErrorKind::UnsupportedCompression)
        }
    }

    /// A compressor at the given level with the dictionary `dict`.
    /// `UnsupportedCompression` where the level or the dictionary is refused.
    pub fn with_dict(level: i32, dict: &[u8]) -> (r: Result<ZstdCompressor, ErrorKind>)
        ensures
            match r {
                Ok(c) => c.level() == level && c.dictionary() == dict@,
                Err(e) => e == ErrorKind::UnsupportedCompression,
            },
            r is Ok <==> zstd_loads(level as int, dict@),
    {
        let dict: Vec<u8> = slice_to_vec(dict);
        if zstd_compressor_loads(level, dict.as_slice()) {
            Ok(ZstdCompressor { level, dict })
        } else {
            Err(ErrorKind::UnsupportedCompression)
        }
    }

    /// A frame of `data`, or `None` where compression fails.
    pub fn compress(&self, data: &[u8]) -> (r: Option<Vec<u8>>)
        ensures
            r matches Some(v) ==> self.packs(v@, data@),
    {
        proof {
            use_type_invariant(self);
        }
        zstd_compress(self.level, self.dict.as_slice(), data)
    }
}

/// What a compressing step does with the frame it was given for a payload:
/// the frame becomes the payload and the header records the compression.
/// Without a frame it fails with `Io`, where the side data has no room with
/// `ParameterOutOfRange`; on failure packet and payload stay.
pub fn store_compressed(
    packet: &mut Packet,
    data: &mut Vec<u8>,
    method: CompressionMode,
    frame: Option<Vec<u8>>,
) -> (r: Result<(), ErrorKind>)
    ensures
        match frame {
            None => r == Err::<(), ErrorKind>(ErrorKind::Io),
            Some(f) => if compressed_side_data(
                old(packet)@.side_data,
                method,
                old(data)@.len() as u64,
            ).len() >= SIDE_DATA_LIMIT {
                r == Err::<(), ErrorKind>(ErrorKind::ParameterOutOfRange)
            } else {
                &&& r is Ok
                &&& final(data)@ == f@
                &&& final(packet)@ == compressed_packet(
                    old(packet)@,
                    method,
                    old(data)@.len() as u64,
                    f@.len() as u64,
                )
            },
        },
        r is Err ==> final(packet)@ == old(packet)@ && final(data)@ == old(data)@,
        r is Ok ==> final(packet).data_len == final(data)@.len(),
{
    let mut frame: Vec<u8> = match frame {
        Some(f) => f,
        None => {
            return Err(ErrorKind::Io);
        },
    };
    packet.mark_compressed(method, data.len() as u64, frame.len() as u64)?;
    data.clear();
    data.append(&mut frame);
    Ok(())
}

impl PostProcessor for ZstdCompressor {
    open spec fn answers(
        &self,
        before: PacketView,
        data_before: Seq<u8>,
        failure: Option<ErrorKind>,
        after: PacketView,
        data_after: Seq<u8>,
    ) -> bool {
        zstd_compresses(
            self.dictionary(),
            before,
            data_before,
            failure,
            after,
            data_after,
        )
    }

    /// Replaces the payload by a Zstandard frame of it and records the
    /// compression in the header. Fails with `Io` where compression fails and
    /// with `ParameterOutOfRange` where the side data has no room; on failure
    /// packet and payload stay.
    fn post_process(&mut self, packet: &mut Packet, data: &mut Vec<u8>) -> (r: Result<
        (),
        ErrorKind,
    >)
        ensures
            final(self).level() == old(self).level(),
            final(self).dictionary() == old(self).dictionary(),
            r is Ok ==> {
                &&& old(self).packs(final(data)@, old(data)@)
                &&& final(packet)@ == compressed_packet(
                    old(packet)@,
                    CompressionMode::Zstd,
                    old(data)@.len() as u64,
                    final(data)@.len() as u64,
                )
            },
            r is Err ==> final(packet)@ == old(packet)@ && final(data)@ == old(data)@,
    {
        let frame: Option<Vec<u8>> = self.compress(data.as_slice());
        store_compressed(packet, data, CompressionMode::Zstd, frame)
    }
}

/// The step that compresses the payloads of a stream whose header says
/// `mode`: none for an uncompressed stream, else one that answers as
/// [`compression_answers`] says. `level` is the level of Zstandard.
/// `UnsupportedCompression` where Zstandard refuses the level or the
/// dictionary.
pub fn compressor_for(mode: CompressionMode, level: i32, dict: Option<&[u8]>) -> (r: Result<
    Option<Box<dyn PostProcessor>>,
    ErrorKind,
>)
    ensures
        mode == CompressionMode::Uncompressed ==> r matches Ok(None),
        mode == CompressionMode::Lz4 ==> r matches Ok(Some(_)),
        mode == CompressionMode::Zstd ==> match r {
            Ok(step) => step is Some && zstd_loads(
                level as int,
                match dict {
                    Some(d) => d@,
                    None => Seq::<u8>::empty(),
                },
            ),
            Err(e) => e == ErrorKind::UnsupportedCompression && !zstd_loads(
                level as int,
                match dict {
                    Some(d) => d@,
                    None => Seq::<u8>::empty(),
                },
            ),
        },
        r matches Ok(Some(step)) ==> forall|
            before: PacketView,
            data_before: Seq<u8>,
            failure: Option<ErrorKind>,
            after: PacketView,
            data_after: Seq<u8>,
        | #[trigger]
            step.answers(before, data_before, failure, after, data_after) == compression_answers(
                mode,
                level as int,
                match dict {
                    Some(d) => Some(d@),
                    None => None,
                },
                before,
                data_before,
                failure,
                after,
                data_after,
            ),
{
    match mode {
        CompressionMode::Uncompressed => Ok(None),
        CompressionMode::Lz4 => {
            let compressor: Lz4Compressor = match dict {
                Some(d) => Lz4Compressor::with_dict(d),
                None => Lz4Compressor::new(),
            };
            let step: Box<dyn PostProcessor> = Box::new(compressor);
            let found = Some(step);
            Ok(found)
        },
        CompressionMode::Zstd => {
            let compressor: ZstdCompressor = match dict {
                Some(d) => ZstdCompressor::with_dict(level, d)?,
                None => ZstdCompressor::new(level)?,
            };
            let step: Box<dyn PostProcessor> = Box::new(compressor);
            let found = Some(step);
            Ok(found)
        },
    }
}

} // verus!
