//! Reading a file: the header, the seek tables, then packet after packet.

use litemap::LiteMap;
use vstd::bytes::*;
use vstd::prelude::*;
use vstd::slice::slice_to_vec;

use crate::bytes::ByteReader;
use crate::encoder::{
    entries_point_at_packets, file_prefix, holds_file_prefix, law_entry_leads_to_packet,
    points_at_packet, shrink_bytes, Stage,
};
use crate::error::{failure_of, ErrorKind};
use crate::metadata::{CompressionMode, FormatData, Stream};
use crate::packet::{packet_parse, EncodableData, Packet, PacketView};
use crate::processors::{lz4_decodes, zstd_decodes, DecoderProcessor, Lz4Decoder, ZstdDecoder};
use crate::seek::{
    decode_seek_table, holds_seek_table, law_seek_table_roundtrip, seek_choice, seek_table_parse,
    valid_seek_table, SeekEntry, SeekTable,
};
use crate::states::{HeaderRead, SeektablesRead, Start};
use crate::zstandard::zstd_reads;

verus! {

/// A packet's header with its payload.
pub struct PacketWithData {
    pub header: Packet,
    pub data: Vec<u8>,
}

impl PacketWithData {
    /// An empty slot for a packet.
    pub fn new() -> (p: PacketWithData)
        ensures
            p.header@ == Packet::default_view(),
            p.data@.len() == 0,
    {
        PacketWithData { header: Packet::default(), data: Vec::new() }
    }

    /// Empties the payload for the next use of the slot; its room is kept up
    /// to `max_capacity` bytes.
    pub fn recycle(&mut self, max_capacity: usize)
        ensures
            final(self).header@ == old(self).header@,
            final(self).data@.len() == 0,
    {
        self.data.clear();
        shrink_bytes(&mut self.data, max_capacity);
    }
}

/// A step that is run on the packets of a stream as they are read.
pub type Decoder = Stage<Box<dyn DecoderProcessor>>;

/// The decoders of the streams, kept in a `LiteMap` by the stream.
pub type DecoderMap = LiteMap<u8, Decoder>;

/// The streams of a `LiteMap` of decoders, each with its decoder.
pub uninterp spec fn decoder_entries(decoders: DecoderMap) -> Map<u8, Decoder>;

/// No decoders.
/// Trusted: `litemap::LiteMap::new` returns a map without entries.
#[verifier::external_body]
pub(crate) fn decoders_new() -> (decoders: DecoderMap)
    ensures
        decoder_entries(decoders).dom() == Set::<u8>::empty(),
{
    LiteMap::new()
}

/// Whether there is a decoder for `stream`.
/// Trusted: `litemap::LiteMap::contains_key` says whether the map has the
/// key.
#[verifier::external_body]
pub(crate) fn decoders_has(decoders: &DecoderMap, stream: u8) -> (b: bool)
    ensures
        b == decoder_entries(*decoders).dom().contains(stream),
{
    decoders.contains_key(&stream)
}

/// Puts `decoder` under `stream`.
/// Trusted: `litemap::LiteMap::insert` sets the value under the key, leaves
/// the other entries as they are, and returns the value that was there
/// before.
#[verifier::external_body]
pub(crate) fn decoders_insert(decoders: &mut DecoderMap, stream: u8, decoder: Decoder) -> (r:
    Option<Decoder>)
    ensures
        decoder_entries(*final(decoders)) == decoder_entries(*old(decoders)).insert(
            stream,
            decoder,
        ),
        r == if decoder_entries(*old(decoders)).dom().contains(stream) {
            Some(decoder_entries(*old(decoders))[stream])
        } else {
            None
        },
{
    decoders.insert(stream, decoder)
}

/// The decoder of `stream`, to be worked with where it stands.
/// Trusted: `litemap::LiteMap::index_mut` gives the value under the key, to be
/// changed in its place, and leaves the other entries as they are; it panics
/// where the map has no such key.
#[verifier::external_body]
pub(crate) fn decoders_at(decoders: &mut DecoderMap, stream: u8) -> (decoder: &mut Decoder)
    requires
        decoder_entries(*old(decoders)).dom().contains(stream),
    ensures
        *decoder == decoder_entries(*old(decoders))[stream],
        decoder_entries(*final(decoders)) == decoder_entries(*old(decoders)).insert(
            stream,
            *final(decoder),
        ),
{
    &mut decoders[&stream]
}

/// The streams and entries of the seek tables in `tables`.
pub open spec fn seek_tables_view(tables: Seq<(u8, Vec<SeekEntry>)>) -> Seq<
    (u8, Seq<SeekEntry>),
> {
    Seq::new(tables.len(), |i: int| (tables[i].0, tables[i].1@))
}

/// What the front of `s` reads as the header of a file: its bytes, and the
/// length of what was read.
pub open spec fn header_parse(s: Seq<u8>) -> Result<(Seq<u8>, nat), ErrorKind> {
    if s.len() < 8 {
        Err(ErrorKind::UnexpectedEof)
    } else {
        let n = spec_u64_from_le_bytes(s.subrange(0, 8)) as int;
        if s.len() < 8 + n {
            Err(ErrorKind::UnexpectedEof)
        } else {
            Ok((s.subrange(8, 8 + n), (8 + n) as nat))
        }
    }
}

/// What the front of `s` reads as `count` seek tables: the stream and the
/// entries of each, and their length together.
pub open spec fn seek_tables_parse(s: Seq<u8>, count: nat) -> Result<
    (Seq<(u8, Seq<SeekEntry>)>, nat),
    ErrorKind,
>
    decreases count,
{
    if count == 0 {
        Ok((Seq::empty(), 0))
    } else {
        match seek_tables_parse(s, (count - 1) as nat) {
            Err(e) => Err(e),
            Ok((tables, n)) => match seek_table_parse(s.skip(n as int)) {
                Err(e) => Err(e),
                Ok((table, m)) => Ok((tables.push(table), n + m)),
            },
        }
    }
}

/// What the front of `s` reads as the seek tables of a file: the tables and
/// the length of what was read. The first table is the one to seek by; a file
/// without a table, or whose first table is out of order, is `InvalidData`.
pub open spec fn seek_section_parse(s: Seq<u8>) -> Result<
    (Seq<(u8, Seq<SeekEntry>)>, nat),
    ErrorKind,
> {
    if s.len() < 1 {
        Err(ErrorKind::UnexpectedEof)
    } else {
        match seek_tables_parse(s.skip(1), s[0] as nat) {
            Err(e) => Err(e),
            Ok((tables, n)) => if tables.len() == 0 || !valid_seek_table(tables[0].1) {
                Err(ErrorKind::InvalidData)
            } else {
                Ok((tables, n + 1))
            },
        }
    }
}

/// Once reading seek tables fails, reading more of them fails in the same way.
pub proof fn lemma_seek_tables_parse_fails(s: Seq<u8>, count: nat, more: nat)
    requires
        count <= more,
        seek_tables_parse(s, count) is Err,
    ensures
        seek_tables_parse(s, more) == seek_tables_parse(s, count),
    decreases more - count,
{
    if count < more {
        lemma_seek_tables_parse_fails(s, count, (more - 1) as nat);
    }
}

/// Reads a file that is held in memory. `S` says how far the reader has come.
pub struct Reader<S> {
    data: Vec<u8>,
    pos: usize,
    decoders: DecoderMap,
    seektable: Option<SeekTable>,
    start_of_packets: usize,
    state: S,
}

impl<S> Reader<S> {
    /// The bytes of the file.
    pub closed spec fn file(&self) -> Seq<u8> {
        self.data@
    }

    /// The number of bytes read so far.
    pub closed spec fn position(&self) -> nat {
        self.pos as nat
    }

    /// Where the packets start.
    pub closed spec fn packets_start(&self) -> nat {
        self.start_of_packets as nat
    }

    /// The decoder that is installed for `stream`, if there is one.
    pub closed spec fn decoder(&self, stream: u8) -> Option<Decoder> {
        if decoder_entries(self.decoders).dom().contains(stream) {
            Some(decoder_entries(self.decoders)[stream])
        } else {
            None
        }
    }

    /// Whether a decoder is installed for `stream`.
    pub open spec fn has_decoder(&self, stream: u8) -> bool {
        self.decoder(stream) is Some
    }

    /// The entries of the table to seek by.
    pub closed spec fn seek_table(&self) -> Option<Seq<SeekEntry>> {
        match self.seektable {
            Some(t) => Some(t@),
            None => None,
        }
    }

    /// The bytes not yet read.
    pub open spec fn remaining(&self) -> Seq<u8> {
        if self.position() <= self.file().len() {
            self.file().skip(self.position() as int)
        } else {
            Seq::empty()
        }
    }

    /// The number of bytes read so far.
    pub fn stream_position(&self) -> (p: usize)
        ensures
            p == self.position(),
    {
        self.pos
    }
}

impl Reader<Start> {
    /// A reader at the start of the file `data`.
    pub fn new(data: Vec<u8>) -> (r: Reader<Start>)
        ensures
            r.file() == data@,
            r.position() == 0,
            r.seek_table() is None,
            forall|stream: u8| !r.has_decoder(stream),
    {
        Reader {
            data,
            pos: 0,
            decoders: decoders_new(),
            seektable: None,
            start_of_packets: 0,
            state: Start,
        }
    }

    /// Reads the header and returns its bytes, which are yet to be decoded.
    pub fn read_header(self) -> (r: Result<(Reader<HeaderRead>, Vec<u8>), ErrorKind>)
        ensures
            match header_parse(self.remaining()) {
                Ok((header, n)) => {
                    &&& r matches Ok((next, bytes))
                    &&& bytes@ == header
                    &&& next.file() == self.file()
                    &&& next.position() == self.position() + n
                    &&& next.packets_start() == next.position()
                    &&& next.seek_table() is None
                    &&& forall|stream: u8| next.has_decoder(stream) == self.has_decoder(stream)
                },
                Err(e) => r matches Err(f) && f == e,
            },
    {
        let mut input: ByteReader = ByteReader::at(self.data.as_slice(), self.pos);
        let ghost at0 = input;
        let header_len: u64 = input.read_u64()?;
        let ghost at8 = input;
        if header_len > input.available() as u64 {
            return Err(ErrorKind::UnexpectedEof);
        }
        let header: Vec<u8> = slice_to_vec(input.take(header_len as usize)?);
        proof {
            at0.lemma_advanced_twice(&at8, &input, 8, header_len as int);
            assert(header@ =~= self.remaining().subrange(8, 8 + header_len));
        }
        let pos: usize = input.position();
        Ok(
            (
                Reader {
                    data: self.data,
                    pos,
                    decoders: self.decoders,
                    seektable: None,
                    start_of_packets: pos,
                    state: HeaderRead,
                },
                header,
            ),
        )
    }
}

/// The dictionary that the decoder of `stream` is made with: empty where the
/// header gives none.
pub open spec fn dictionary_of(stream: Stream) -> Seq<u8> {
    match stream.compression_dict {
        Some(d) => d@,
        None => Seq::empty(),
    }
}

/// Whether a decoder can be made for `stream`: a Zstandard dictionary must
/// load.
pub open spec fn decodable(stream: Stream) -> bool {
    stream.compression_mode == CompressionMode::Zstd ==> zstd_reads(dictionary_of(stream))
}

/// Whether the `j`-th of `tracks` is the stream `s` and is compressed.
pub open spec fn asks_at(tracks: Seq<Stream>, j: int, s: u8) -> bool {
    tracks[j].index == s && tracks[j].compression_mode != CompressionMode::Uncompressed
}

/// The last of the first `upto` of `tracks` that is the stream `s` and is
/// compressed, if there is one.
pub open spec fn last_asking(tracks: Seq<Stream>, upto: int, s: u8) -> Option<int>
    decreases upto,
{
    if upto <= 0 {
        None
    } else if asks_at(tracks, upto - 1, s) {
        Some(upto - 1)
    } else {
        last_asking(tracks, upto - 1, s)
    }
}

/// What the decoder answers that the header asks for with the stream `track`:
/// one that decompresses as the stream is compressed, with the dictionary of
/// the stream where it has one.
pub open spec fn track_decodes(
    track: Stream,
    before: PacketView,
    data_before: Seq<u8>,
    failure: Option<ErrorKind>,
    after: PacketView,
    data_after: Seq<u8>,
) -> bool {
    match track.compression_mode {
        CompressionMode::Uncompressed => failure is None && after == before && data_after
            == data_before,
        CompressionMode::Lz4 => lz4_decodes(
            match track.compression_dict {
                Some(d) => Some(d@),
                None => None,
            },
            before,
            data_before,
            failure,
            after,
            data_after,
        ),
        CompressionMode::Zstd => zstd_decodes(
            dictionary_of(track),
            before,
            data_before,
            failure,
            after,
            data_after,
        ),
    }
}

/// Whether `decoder` answers as the decoder does that the header asks for
/// with the stream `track`.
pub open spec fn decodes_as(decoder: Decoder, track: Stream) -> bool {
    forall|
        before: PacketView,
        data_before: Seq<u8>,
        failure: Option<ErrorKind>,
        after: PacketView,
        data_after: Seq<u8>,
    | #[trigger]
        decoder.held.answers(before, data_before, failure, after, data_after) == track_decodes(
            track,
            before,
            data_before,
            failure,
            after,
            data_after,
        )
}

/// The first of the first `upto` of `tracks` for which no decoder can be made;
/// `upto` where there is none.
pub open spec fn first_undecodable(tracks: Seq<Stream>, upto: int) -> int
    decreases upto,
{
    if upto <= 0 {
        0
    } else {
        let before = first_undecodable(tracks, upto - 1);
        if before < upto - 1 {
            before
        } else if decodable(tracks[upto - 1]) {
            upto
        } else {
            upto - 1
        }
    }
}

/// Where a decoder can be made for each of the tracks before `k` and none for
/// the track `k`, `k` is the first for which none can be made.
pub proof fn lemma_first_undecodable(tracks: Seq<Stream>, upto: int, k: int)
    requires
        0 <= k < upto,
        !decodable(tracks[k]),
        forall|j: int| 0 <= j < k ==> decodable(#[trigger] tracks[j]),
    ensures
        first_undecodable(tracks, upto) == k,
    decreases upto,
{
    if upto - 1 > k {
        lemma_first_undecodable(tracks, upto - 1, k);
    } else {
        lemma_all_decodable(tracks, k);
    }
}

/// Where a decoder can be made for each of the first `upto` of `tracks`,
/// there is no first for which none can be made.
pub proof fn lemma_all_decodable(tracks: Seq<Stream>, upto: int)
    requires
        0 <= upto,
        forall|j: int| 0 <= j < upto ==> decodable(#[trigger] tracks[j]),
    ensures
        first_undecodable(tracks, upto) == upto,
    decreases upto,
{
    if upto > 0 {
        lemma_all_decodable(tracks, upto - 1);
    }
}

/// Whether `after` is the decoder of the stream `s` once the decoders that
/// the first `upto` of `tracks` ask for are installed, when `before` was
/// installed for it: the decoder of the last of them that is the stream `s`
/// and is compressed, else the one that was there.
pub open spec fn installed(
    before: Option<Decoder>,
    after: Option<Decoder>,
    tracks: Seq<Stream>,
    upto: int,
    s: u8,
) -> bool {
    match last_asking(tracks, upto, s) {
        Some(j) => after is Some && decodes_as(after->0, tracks[j]),
        None => after == before,
    }
}

impl Reader<HeaderRead> {
    /// Installs `decoder` for the payloads of `stream`, in the place of the
    /// one that was installed for it before, if any.
    pub fn add_decoder(&mut self, stream: u8, decoder: Box<dyn DecoderProcessor>)
        ensures
            final(self).decoder(stream) is Some,
            final(self).decoder(stream)->0.held == decoder,
            forall|s: u8| s != stream ==> final(self).decoder(s) == old(self).decoder(s),
            final(self).file() == old(self).file(),
            final(self).position() == old(self).position(),
            final(self).packets_start() == old(self).packets_start(),
            final(self).seek_table() == old(self).seek_table(),
    {
        let held = Stage { held: decoder };
        let _ = decoders_insert(&mut self.decoders, stream, held);
    }

    /// Installs the decoder that each stream of `header` asks for: none for an
    /// uncompressed stream, else one that decompresses as the stream is
    /// compressed, with the stream's dictionary. `UnsupportedCompression`
    /// where the dictionary of a stream cannot be loaded; the streams before
    /// the first such stream then have their decoders, and no other.
    pub fn install_decoders(&mut self, header: &FormatData) -> (r: Result<(), ErrorKind>)
        ensures
            final(self).file() == old(self).file(),
            final(self).position() == old(self).position(),
            final(self).packets_start() == old(self).packets_start(),
            final(self).seek_table() == old(self).seek_table(),
            r is Ok <==> forall|i: int|
                0 <= i < header.tracks@.len() ==> decodable(#[trigger] header.tracks@[i]),
            r matches Err(e) ==> e == ErrorKind::UnsupportedCompression,
            r is Ok ==> forall|s: u8|
                installed(
                    old(self).decoder(s),
                    #[trigger] final(self).decoder(s),
                    header.tracks@,
                    header.tracks@.len() as int,
                    s,
                ),
            r is Err ==> forall|s: u8|
                installed(
                    old(self).decoder(s),
                    #[trigger] final(self).decoder(s),
                    header.tracks@,
                    first_undecodable(header.tracks@, header.tracks@.len() as int),
                    s,
                ),
            forall|s: u8| old(self).has_decoder(s) ==> final(self).has_decoder(s),
    {
        let mut i: usize = 0;
        while i < header.tracks.len()
            invariant
                i <= header.tracks@.len(),
                self.file() == old(self).file(),
                self.position() == old(self).position(),
                self.packets_start() == old(self).packets_start(),
                self.seek_table() == old(self).seek_table(),
                forall|j: int| 0 <= j < i ==> decodable(#[trigger] header.tracks@[j]),
                forall|s: u8|
                    installed(
                        old(self).decoder(s),
                        #[trigger] self.decoder(s),
                        header.tracks@,
                        i as int,
                        s,
                    ),
            decreases header.tracks@.len() - i,
        {
            let stream = &header.tracks[i];
            let ghost track = header.tracks@[i as int];
            let ghost was = *self;
            let dict: Option<&[u8]> = match &stream.compression_dict {
                Some(d) => Some(d.as_slice()),
                None => None,
            };
            match stream.compression_mode {
                CompressionMode::Uncompressed => {},
                CompressionMode::Zstd => {
                    let decoder: ZstdDecoder = match ZstdDecoder::new(dict) {
                        Ok(d) => d,
                        Err(e) => {
                            proof {
                                assert(!decodable(header.tracks@[i as int]));
                                lemma_first_undecodable(
                                    header.tracks@,
                                    header.tracks@.len() as int,
                                    i as int,
                                );
                                assert forall|s: u8| old(self).has_decoder(s) implies self.has_decoder(
                                    s,
                                ) by {
                                    assert(installed(
                                        old(self).decoder(s),
                                        self.decoder(s),
                                        header.tracks@,
                                        i as int,
                                        s,
                                    ));
                                }
                            }
                            return Err(e);
                        },
                    };
                    self.add_decoder(stream.index, Box::new(decoder));
                    proof {
                        assert(decodes_as(self.decoder(track.index)->0, track));
                    }
                },
                CompressionMode::Lz4 => {
                    let decoder: Lz4Decoder = Lz4Decoder::new(dict);
                    self.add_decoder(stream.index, Box::new(decoder));
                    proof {
                        assert(decodes_as(self.decoder(track.index)->0, track));
                    }
                },
            }
            proof {
                assert forall|s: u8|
                    installed(
                        old(self).decoder(s),
                        #[trigger] self.decoder(s),
                        header.tracks@,
                        i + 1,
                        s,
                    ) by {
                    assert(installed(
                        old(self).decoder(s),
                        was.decoder(s),
                        header.tracks@,
                        i as int,
                        s,
                    ));
                    assert(i + 1 - 1 == i);
                }
            }
            i = i + 1;
        }
        proof {
            assert forall|s: u8| old(self).has_decoder(s) implies self.has_decoder(s) by {
                assert(installed(
                    old(self).decoder(s),
                    self.decoder(s),
                    header.tracks@,
                    i as int,
                    s,
                ));
            }
        }
        Ok(())
    }

    /// Reads the seek tables. The first of them becomes the table to seek by,
    /// and the packets start after the last.
    pub fn read_seektables(self) -> (r: Result<
        (Reader<SeektablesRead>, Vec<(u8, Vec<SeekEntry>)>),
        ErrorKind,
    >)
        ensures
            match seek_section_parse(self.remaining()) {
                Ok((tables, n)) => {
                    &&& r matches Ok((next, read))
                    &&& seek_tables_view(read@) == tables
                    &&& next.file() == self.file()
                    &&& next.position() == self.position() + n
                    &&& next.packets_start() == next.position()
                    &&& next.seek_table() == Some(tables[0].1)
                    &&& forall|stream: u8| next.has_decoder(stream) == self.has_decoder(stream)
                },
                Err(e) => r matches Err(f) && f == e,
            },
    {
        let mut input: ByteReader = ByteReader::at(self.data.as_slice(), self.pos);
        let ghost start = input.remaining();
        let ghost at0 = input;
        proof {
            assert(start =~= self.remaining());
        }
        let n_seektables: u8 = input.read_u8()?;
        let ghost body = start.skip(1);
        let mut seektables: Vec<(u8, Vec<SeekEntry>)> = Vec::new();
        let mut i: u8 = 0;
        let ghost mut taken: int = 0;
        proof {
            assert(seek_tables_view(seektables@) =~= Seq::<(u8, Seq<SeekEntry>)>::empty());
        }
        while i < n_seektables
            invariant
                i <= n_seektables,
                at0.advanced(&input, 1 + taken),
                at0.remaining() == start,
                start == self.remaining(),
                at0.offset() == self.position() || self.position() > self.file().len(),
                start.len() >= 1,
                n_seektables == start[0],
                body == start.skip(1),
                taken >= 0,
                seek_tables_parse(body, i as nat) == Ok::<
                    (Seq<(u8, Seq<SeekEntry>)>, nat),
                    ErrorKind,
                >((seek_tables_view(seektables@), taken as nat)),
                seektables@.len() == i,
            decreases n_seektables - i,
        {
            proof {
                assert(input.remaining() =~= body.skip(taken));
            }
            let ghost at_table = input;
            let (stream_index, entries) = match decode_seek_table(&mut input) {
                Ok(t) => t,
                Err(e) => {
                    proof {
                        assert(seek_table_parse(body.skip(taken)) is Err);
                        assert(seek_tables_parse(body, (i + 1) as nat) is Err);
                        lemma_seek_tables_parse_fails(body, (i + 1) as nat, n_seektables as nat);
                    }
                    return Err(e);
                },
            };
            let ghost before = seektables@;
            let ghost entries_view = entries@;
            seektables.push((stream_index, entries));
            proof {
                let m = seek_table_parse(body.skip(taken)).unwrap().1 as int;
                at0.lemma_advanced_twice(&at_table, &input, 1 + taken, m);
                assert(seek_tables_view(seektables@) =~= seek_tables_view(before).push(
                    (stream_index, entries_view),
                ));
                taken = taken + m;
            }
            i = i + 1;
        }
        proof {
            assert(seek_tables_view(seektables@).len() == seektables@.len());
            if seektables@.len() > 0 {
                assert(seek_tables_view(seektables@)[0].1 == seektables@[0].1@);
            }
        }
        if seektables.len() == 0 {
            return Err(ErrorKind::InvalidData);
        }
        let first: Vec<SeekEntry> = copy_entries(&seektables[0].1);
        let table: SeekTable = SeekTable::new(first)?;
        let pos: usize = input.position();
        Ok(
            (
                Reader {
                    data: self.data,
                    pos,
                    decoders: self.decoders,
                    seektable: Some(table),
                    start_of_packets: pos,
                    state: SeektablesRead,
                },
                seektables,
            ),
        )
    }
}

/// What the front of `s` reads as one packet: its header, its payload as it
/// stands in the file, and the length of both.
pub open spec fn stored_packet_parse(s: Seq<u8>) -> Result<(PacketView, Seq<u8>, nat), ErrorKind> {
    match packet_parse(s) {
        Err(e) => Err(e),
        Ok((p, n)) => if s.len() < n + p.data_len {
            Err(ErrorKind::UnexpectedEof)
        } else {
            Ok((p, s.subrange(n as int, n + p.data_len), (n + p.data_len) as nat))
        },
    }
}

/// Whether seeking to `time` by `table` lands at the entry with the time `ts`
/// and the location `location`: the entry that [`seek_choice`] picks.
pub open spec fn seek_lands(table: Seq<SeekEntry>, time: i64, ts: i64, location: int) -> bool {
    exists|i: int| #[trigger]
        seek_choice(table, time, i) && table[i].ts == ts && table[i].location == location
}

/// Whether the entry of `table` to resume from for the time `time` lies
/// further from `start` than can be addressed.
pub open spec fn seek_out_of_reach(table: Seq<SeekEntry>, time: i64, start: int) -> bool {
    exists|i: int| #[trigger] seek_choice(table, time, i) && start + table[i].location > usize::MAX
}

/// Only one entry is the one to resume from.
pub proof fn lemma_seek_choice_unique(table: Seq<SeekEntry>, time: i64, i: int, j: int)
    requires
        seek_choice(table, time, i),
        seek_choice(table, time, j),
    ensures
        i == j,
{
    if i < j {
        assert(table[j].ts <= time);
    }
    if j < i {
        assert(table[i].ts <= time);
    }
}

/// After a seek in a file whose seek entries each point at a packet of their
/// time, as the encoder makes it, a packet of the time that the seek
/// returned is read next: `front` is what stands before the packets, `region`
/// the packets, and the seek has moved to `location` within them.
pub proof fn law_seek_leads_to_packet(
    front: Seq<u8>,
    region: Seq<u8>,
    table: Seq<SeekEntry>,
    time: i64,
    ts: i64,
    location: int,
)
    requires
        entries_point_at_packets(region, table),
        seek_lands(table, time, ts, location),
    ensures
        stored_packet_parse((front + region).skip(front.len() + location)) matches Ok(
            (p, payload, n),
        ) && p.timestamp == ts && location + n <= region.len(),
{
    let i = choose|i: int| #[trigger]
        seek_choice(table, time, i) && table[i].ts == ts && table[i].location == location;
    let entry = table[i];
    assert(points_at_packet(region, entry));
    law_entry_leads_to_packet(region, entry, Seq::empty());
    assert(0 <= location);
    assert((front + region).skip(front.len() + location) =~= (region + Seq::<u8>::empty()).skip(
        location,
    ));
}

/// What the encoder puts in front of the packets of a file reads back: the
/// header, and then one seek table with the entries that were collected, over
/// exactly those bytes, whatever follows them.
pub proof fn law_file_prefix_reads_back(
    bytes: Seq<u8>,
    header: Seq<u8>,
    stream: u8,
    entries: Seq<SeekEntry>,
    rest: Seq<u8>,
)
    requires
        holds_file_prefix(bytes, header, stream, entries),
        valid_seek_table(entries),
        header.len() <= u64::MAX,
    ensures
        header_parse(bytes + rest) == Ok::<(Seq<u8>, nat), ErrorKind>(
            (header, (8 + header.len()) as nat),
        ),
        seek_section_parse((bytes + rest).skip(8 + header.len() as int)) == Ok::<
            (Seq<(u8, Seq<SeekEntry>)>, nat),
            ErrorKind,
        >((seq![(stream, entries)], (bytes.len() - 8 - header.len()) as nat)),
{
    let table = choose|table: Seq<u8>| #[trigger]
        holds_seek_table(table, stream, entries) && bytes == file_prefix(header, table);
    let s = bytes + rest;
    lemma_auto_spec_u64_to_from_le_bytes();
    assert(s.subrange(0, 8) =~= spec_u64_to_le_bytes(header.len() as u64));
    assert(s.subrange(8, 8 + header.len() as int) =~= header);
    let section = s.skip(8 + header.len() as int);
    assert(section[0] == 1);
    assert(section.skip(1) =~= table + rest);
    law_seek_table_roundtrip(table, stream, entries, rest);
    reveal_with_fuel(seek_tables_parse, 2);
    assert(section.skip(1).skip(0) =~= table + rest);
    assert(Seq::<(u8, Seq<SeekEntry>)>::empty().push((stream, entries)) =~= seq![
        (stream, entries),
    ]);
}

impl Reader<SeektablesRead> {
    /// Moves to the packet to resume from for the time `time`, in
    /// microseconds, and returns the time of that packet: the last seek entry
    /// that is not later than `time`, or the first where all are later.
    ///
    /// `InvalidData` where there is no table to seek by, `ParameterOutOfRange`
    /// where the entry's location cannot be addressed; the reader then stays
    /// where it is.
    pub fn seek(&mut self, time: i64) -> (r: Result<i64, ErrorKind>)
        ensures
            final(self).file() == old(self).file(),
            final(self).packets_start() == old(self).packets_start(),
            final(self).seek_table() == old(self).seek_table(),
            forall|stream: u8| final(self).has_decoder(stream) == old(self).has_decoder(stream),
            match old(self).seek_table() {
                None => r == Err::<i64, ErrorKind>(ErrorKind::InvalidData),
                Some(table) => match r {
                    Ok(ts) => seek_lands(
                        table,
                        time,
                        ts,
                        final(self).position() - old(self).packets_start(),
                    ),
                    Err(e) => e == ErrorKind::ParameterOutOfRange,
                },
            },
            r is Err <==> (match old(self).seek_table() {
                None => true,
                Some(table) => seek_out_of_reach(table, time, old(self).packets_start() as int),
            }),
            r is Err ==> final(self).position() == old(self).position(),
            r matches Ok(ts) ==> (ts <= time || old(self).seek_table()->0[0].ts > time),
    {
        let (index, entry): (usize, SeekEntry) = match &self.seektable {
            None => {
                return Err(ErrorKind::InvalidData);
            },
            Some(table) => {
                let _ = table.len();
                let index: usize = table.lookup(time);
                (index, table.entry(index))
            },
        };
        let ghost table = self.seektable->0@;
        proof {
            assert(table[0].location <= table[index as int].location);
        }
        proof {
            assert(seek_choice(table, time, index as int));
            assert forall|j: int| #[trigger] seek_choice(table, time, j) implies j == index by {
                lemma_seek_choice_unique(table, time, j, index as int);
            }
        }
        if entry.location as u64 > (usize::MAX - self.start_of_packets) as u64 {
            return Err(ErrorKind::ParameterOutOfRange);
        }
        self.pos = self.start_of_packets + entry.location as usize;
        proof {
            let i = index as int;
            assert(old(self).seek_table() == Some(table));
            assert(seek_choice(table, time, i));
            assert(entry.ts == table[i].ts);
            assert(self.position() == old(self).packets_start() + table[i].location);
            assert(seek_lands(table, time, entry.ts, entry.location as int));
        }
        Ok(entry.ts)
    }

    /// Reads the header and the payload of the next packet as they stand in
    /// the file, and returns the header and where the packet ends.
    fn read_stored(&self, data: &mut Vec<u8>) -> (r: Result<(Packet, usize), ErrorKind>)
        ensures
            match stored_packet_parse(self.remaining()) {
                Ok((p, payload, n)) => {
                    &&& r matches Ok((packet, end))
                    &&& packet@ == p
                    &&& final(data)@ == payload
                    &&& end == self.position() + n
                },
                Err(e) => r matches Err(f) && f == e,
            },
    {
        let mut input: ByteReader = ByteReader::at(self.data.as_slice(), self.pos);
        proof {
            assert(input.remaining() =~= self.remaining());
        }
        let ghost at0 = input;
        let packet: Packet = Packet::decode_from(&mut input)?;
        let ghost at_payload = input;
        if packet.data_len > input.available() as u64 {
            return Err(ErrorKind::UnexpectedEof);
        }
        let payload: &[u8] = input.take(packet.data_len as usize)?;
        proof {
            let n = packet_parse(self.remaining()).unwrap().1 as int;
            at0.lemma_advanced_twice(&at_payload, &input, n, packet.data_len as int);
            assert(payload@ =~= self.remaining().subrange(n, n + packet.data_len));
        }
        data.clear();
        data.extend_from_slice(payload);
        Ok((packet, input.position()))
    }

    /// What reading the next packet comes to, when the bytes that are left
    /// read as `parsed`: the packet as it stands in the file where no decoder
    /// is installed for its stream; else what the decoder of its stream
    /// answers to it, with the decoder's error where it fails. `position` is
    /// where the reader stands then.
    pub open spec fn reads(
        &self,
        parsed: Result<(PacketView, Seq<u8>, nat), ErrorKind>,
        r: Result<PacketView, ErrorKind>,
        data: Seq<u8>,
        position: nat,
    ) -> bool {
        match parsed {
            Err(e) => r == Err::<PacketView, ErrorKind>(e) && position == self.position(),
            Ok((p, payload, n)) => match self.decoder(p.stream) {
                None => r == Ok::<PacketView, ErrorKind>(p) && data == payload && position
                    == self.position() + n,
                Some(decoder) => exists|
                    failure: Option<ErrorKind>,
                    after: PacketView,
                    data_after: Seq<u8>,
                |
                    {
                        &&& #[trigger] decoder.held.answers(p, payload, failure, after, data_after)
                        &&& match failure {
                            Some(e) => r == Err::<PacketView, ErrorKind>(e) && position
                                == self.position(),
                            None => r == Ok::<PacketView, ErrorKind>(after) && data == data_after
                                && position == self.position() + n,
                        }
                    },
            },
        }
    }

    /// Reads the next packet and puts its payload into `data`. Where a
    /// decoder is installed for the packet's stream, it processes the packet
    /// and the payload. On failure the reader stays where it is.
    pub fn read_packet_data_into(&mut self, data: &mut Vec<u8>) -> (r: Result<Packet, ErrorKind>)
        ensures
            final(self).file() == old(self).file(),
            final(self).packets_start() == old(self).packets_start(),
            final(self).seek_table() == old(self).seek_table(),
            forall|stream: u8| final(self).has_decoder(stream) == old(self).has_decoder(stream),
            forall|stream: u8|
                final(self).decoder(stream) == old(self).decoder(stream) || (stored_packet_parse(
                    old(self).remaining(),
                ) matches Ok((p, _, _)) && p.stream == stream),
            old(self).reads(
                stored_packet_parse(old(self).remaining()),
                match r {
                    Ok(packet) => Ok(packet@),
                    Err(e) => Err(e),
                },
                final(data)@,
                final(self).position(),
            ),
    {
        let (mut packet, end) = self.read_stored(data)?;
        let ghost decoders = decoder_entries(self.decoders);
        let ghost p = packet@;
        let ghost payload = data@;
        let ghost parsed = stored_packet_parse(old(self).remaining());
        if decoders_has(&self.decoders, packet.stream) {
            let decoder = decoders_at(&mut self.decoders, packet.stream);
            let processed = decoder.held.process(&mut packet, data);
            proof {
                assert(parsed->Ok_0.0 == p && parsed->Ok_0.1 == payload);
                assert(old(self).decoder(p.stream)->0 == decoders[p.stream]);
                assert(old(self).decoder(p.stream)->0.held.answers(
                    p,
                    payload,
                    failure_of(processed),
                    packet@,
                    data@,
                ));
            }
            match processed {
                Ok(_) => {},
                Err(e) => {
                    proof {
                        assert(old(self).reads(
                            parsed,
                            Err::<PacketView, ErrorKind>(e),
                            data@,
                            self.position(),
                        ));
                    }
                    return Err(e);
                },
            }
            proof {
                assert(old(self).reads(
                    parsed,
                    Ok::<PacketView, ErrorKind>(packet@),
                    data@,
                    end as nat,
                ));
            }
        }
        self.pos = end;
        Ok(packet)
    }

    /// Reads the next packet: its header and its payload. Where a decoder is
    /// installed for the packet's stream, it processes both. On failure the
    /// reader stays where it is.
    pub fn read_packet(&mut self) -> (r: Result<(Packet, Vec<u8>), ErrorKind>)
        ensures
            final(self).file() == old(self).file(),
            final(self).packets_start() == old(self).packets_start(),
            final(self).seek_table() == old(self).seek_table(),
            forall|stream: u8| final(self).has_decoder(stream) == old(self).has_decoder(stream),
            forall|stream: u8|
                final(self).decoder(stream) == old(self).decoder(stream) || (stored_packet_parse(
                    old(self).remaining(),
                ) matches Ok((p, _, _)) && p.stream == stream),
            old(self).reads(
                stored_packet_parse(old(self).remaining()),
                match r {
                    Ok((packet, _)) => Ok(packet@),
                    Err(e) => Err(e),
                },
                match r {
                    Ok((_, payload)) => payload@,
                    Err(_) => Seq::empty(),
                },
                final(self).position(),
            ),
    {
        let mut data: Vec<u8> = Vec::new();
        let read = self.read_packet_data_into(&mut data);
        proof {
            assert(old(self).reads(
                stored_packet_parse(old(self).remaining()),
                match read {
                    Ok(packet) => Ok(packet@),
                    Err(e) => Err(e),
                },
                data@,
                self.position(),
            ));
        }
        match read {
            Ok(packet) => Ok((packet, data)),
            Err(e) => Err(e),
        }
    }
}

/// A copy of `entries`.
fn copy_entries(entries: &Vec<SeekEntry>) -> (out: Vec<SeekEntry>)
    ensures
        out@ == entries@,
{
    let mut out: Vec<SeekEntry> = Vec::new();
    let mut i: usize = 0;
    while i < entries.len()
        invariant
            i <= entries@.len(),
            out@ == entries@.take(i as int),
        decreases entries@.len() - i,
    {
        out.push(entries[i]);
        proof {
            assert(out@ =~= entries@.take(i + 1));
        }
        i = i + 1;
    }
    proof {
        assert(entries@.take(i as int) =~= entries@);
    }
    out
}

} // verus!
