//! Packets: the header that precedes every payload, and how values are
//! written to and read from bytes.

use vstd::bytes::*;
use vstd::prelude::*;
use vstd::string::StringExecFns;

use crate::bytes::{put_u64_le, ByteReader};
use crate::error::ErrorKind;
use crate::side_data::{
    lemma_side_data_roundtrip, side_data_bytes, side_data_parse, side_data_text, tags_are_text,
    valid_side_data, Entry, SideData,
};
use crate::text::{decimal_nat, push_decimal_nat, FormatDuration};

verus! {

/// A value with a form in bytes.
pub trait EncodableData: Sized {
    /// Whether the value can be written: every length fits the field that
    /// is to hold it.
    spec fn encodable(&self) -> bool;

    /// The bytes that stand for the value.
    spec fn encoding(&self) -> Seq<u8>;

    /// The number of bytes that writing the value will take, where known.
    fn estimated_size(&self) -> (r: Option<usize>);

    /// Appends the value's bytes to `out` and returns their number.
    fn encode_into(&self, out: &mut Vec<u8>) -> (n: u64)
        requires
            self.encodable(),
        ensures
            final(out)@ == old(out)@ + self.encoding(),
            n == self.encoding().len(),
    ;

    /// Reads a value from the front of `input`.
    fn decode_from(input: &mut ByteReader) -> (r: Result<Self, ErrorKind>);

    /// The value's bytes in a new buffer.
    fn encode_to_vec(&self) -> (v: Vec<u8>)
        requires
            self.encodable(),
        ensures
            v@ == self.encoding(),
    {
        let mut v: Vec<u8> = Vec::new();
        let _ = self.encode_into(&mut v);
        v
    }
}

/// A value that is the payload of packets of one type.
pub trait TypedData: EncodableData {
    /// The payload type.
    const KIND: PacketDataType;
}

/// What a packet's payload holds.
#[derive(Clone, Copy, Debug, PartialEq, Eq, Structural)]
pub enum PacketDataType {
    Video,
    Audio,
    Subtitle,
    Unknown,
    Invalid,
}

/// The payload type that the byte `b` stands for.
pub open spec fn data_type_of(b: u8) -> Option<PacketDataType> {
    if b == 0 {
        Some(PacketDataType::Video)
    } else if b == 1 {
        Some(PacketDataType::Audio)
    } else if b == 2 {
        Some(PacketDataType::Subtitle)
    } else if b == 3 {
        Some(PacketDataType::Unknown)
    } else if b == 255 {
        Some(PacketDataType::Invalid)
    } else {
        None
    }
}

impl PacketDataType {
    /// The byte that stands for the payload type.
    pub open spec fn byte(&self) -> u8 {
        match self {
            PacketDataType::Video => 0,
            PacketDataType::Audio => 1,
            PacketDataType::Subtitle => 2,
            PacketDataType::Unknown => 3,
            PacketDataType::Invalid => 255,
        }
    }

    /// The byte that stands for the payload type.
    pub fn to_byte(&self) -> (b: u8)
        ensures
            b == self.byte(),
            data_type_of(b) == Some(*self),
    {
        match self {
            PacketDataType::Video => 0,
            PacketDataType::Audio => 1,
            PacketDataType::Subtitle => 2,
            PacketDataType::Unknown => 3,
            PacketDataType::Invalid => 255,
        }
    }

    /// The name of the payload type.
    pub open spec fn name(&self) -> Seq<char> {
        match self {
            PacketDataType::Video => "Video"@,
            PacketDataType::Audio => "Audio"@,
            PacketDataType::Subtitle => "Subtitle"@,
            PacketDataType::Unknown => "Unknown"@,
            PacketDataType::Invalid => "Invalid"@,
        }
    }

    /// The name of the payload type.
    pub fn to_string(&self) -> (s: String)
        ensures
            s@ == self.name(),
    {
        match self {
            PacketDataType::Video => String::from_str("Video"),
            PacketDataType::Audio => String::from_str("Audio"),
            PacketDataType::Subtitle => String::from_str("Subtitle"),
            PacketDataType::Unknown => String::from_str("Unknown"),
            PacketDataType::Invalid => String::from_str("Invalid"),
        }
    }

    /// The payload type that `value` stands for; `InvalidData` for a byte
    /// that stands for none.
    pub fn try_from(value: u8) -> (r: Result<PacketDataType, ErrorKind>)
        ensures
            match data_type_of(value) {
                Some(t) => r == Ok::<PacketDataType, ErrorKind>(t),
                None => r == Err::<PacketDataType, ErrorKind>(ErrorKind::InvalidData),
            },
    {
        match value {
            0 => Ok(PacketDataType::Video),
            1 => Ok(PacketDataType::Audio),
            2 => Ok(PacketDataType::Subtitle),
            3 => Ok(PacketDataType::Unknown),
            255 => Ok(PacketDataType::Invalid),
            _ => Err(ErrorKind::InvalidData),
        }
    }
}

impl Default for PacketDataType {
    fn default() -> (t: PacketDataType)
        ensures
            t == PacketDataType::Invalid,
    {
        PacketDataType::Invalid
    }
}

/// The header of one packet. Times are in microseconds.
pub struct Packet {
    pub stream: u8,
    pub packet_idx: u64,
    pub timestamp: u64,
    pub duration: u64,
    pub side_data: SideData,
    pub data_type: PacketDataType,
    pub data_len: u64,
}

impl Default for Packet {
    fn default() -> (p: Packet)
        ensures
            p@ == (PacketView {
                stream: 0,
                packet_idx: 0,
                timestamp: 0,
                duration: 0,
                side_data: Seq::empty(),
                data_type: PacketDataType::Invalid,
                data_len: 0,
            }),
    {
        Packet {
            stream: 0,
            packet_idx: 0,
            timestamp: 0,
            duration: 0,
            side_data: SideData::new(),
            data_type: PacketDataType::Invalid,
            data_len: 0,
        }
    }
}

/// Collects what a packet header is made from: the stream, the timestamp and
/// the duration, and side data where there is any.
pub struct PacketBuilder {
    stream: u8,
    timestamp: u64,
    duration: u64,
    side_data: SideData,
}

impl PacketBuilder {
    /// The header that will be built.
    pub closed spec fn target(&self) -> PacketView {
        PacketView {
            stream: self.stream,
            packet_idx: 0,
            timestamp: self.timestamp,
            duration: self.duration,
            side_data: self.side_data@,
            data_type: PacketDataType::Invalid,
            data_len: 0,
        }
    }

    /// Sets the stream.
    pub fn stream(self, stream: u8) -> (b: PacketBuilder)
        ensures
            b.target() == (PacketView { stream, ..self.target() }),
    {
        PacketBuilder { stream, ..self }
    }

    /// Sets the timestamp, in microseconds.
    pub fn timestamp(self, timestamp: u64) -> (b: PacketBuilder)
        ensures
            b.target() == (PacketView { timestamp, ..self.target() }),
    {
        PacketBuilder { timestamp, ..self }
    }

    /// Sets the duration, in microseconds.
    pub fn duration(self, duration: u64) -> (b: PacketBuilder)
        ensures
            b.target() == (PacketView { duration, ..self.target() }),
    {
        PacketBuilder { duration, ..self }
    }

    /// Sets the side data.
    pub fn side_data(self, side_data: SideData) -> (b: PacketBuilder)
        ensures
            b.target() == (PacketView { side_data: side_data@, ..self.target() }),
    {
        PacketBuilder { side_data, ..self }
    }

    /// The header: its index and its payload length are 0, its payload type
    /// is `Invalid`.
    pub fn build(self) -> (p: Packet)
        ensures
            p@ == self.target(),
    {
        Packet {
            stream: self.stream,
            packet_idx: 0,
            timestamp: self.timestamp,
            duration: self.duration,
            side_data: self.side_data,
            data_type: PacketDataType::Invalid,
            data_len: 0,
        }
    }
}

impl Packet {
    /// A builder for a header of stream 0 at time 0, without duration and
    /// without side data.
    pub fn builder() -> (b: PacketBuilder)
        ensures
            b.target() == Packet::default_view(),
    {
        PacketBuilder { stream: 0, timestamp: 0, duration: 0, side_data: SideData::new() }
    }

    /// The header that `default` makes.
    pub open spec fn default_view() -> PacketView {
        PacketView {
            stream: 0,
            packet_idx: 0,
            timestamp: 0,
            duration: 0,
            side_data: Seq::empty(),
            data_type: PacketDataType::Invalid,
            data_len: 0,
        }
    }
}

/// The text that shows a packet header: a heading, a line for each field
/// with its name, an arrow and its value, and a closing brace. Times are shown
/// as hours, minutes, seconds and milliseconds.
pub open spec fn packet_text(p: PacketView) -> Seq<char> {
    "Packet {\n"@ + "\tstream => "@ + decimal_nat(p.stream as nat) + "\n"@ + "\tidx => "@
        + decimal_nat(p.packet_idx as nat) + "\n"@ + "\ttimestamp => "@ + FormatDuration::text(
        p.timestamp,
    ) + "\n"@ + "\tduration => "@ + FormatDuration::text(p.duration) + "\n"@
        + "\tdata_type => "@ + p.data_type.name() + "\n"@ + "\tdata_len => "@ + decimal_nat(
        p.data_len as nat,
    ) + "\n"@ + "\tside_data => "@ + side_data_text(p.side_data) + "\n"@ + "}\n"@
}

impl Packet {
    /// The header as text, where every tag of its side data is text.
    pub fn to_string(&self) -> (s: String)
        requires
            tags_are_text(self.side_data@),
        ensures
            s@ == packet_text(self@),
    {
        let mut s: String = String::from_str("Packet {\n");
        s.append("\tstream => ");
        push_decimal_nat(&mut s, self.stream as u64);
        s.append("\n");
        s.append("\tidx => ");
        push_decimal_nat(&mut s, self.packet_idx);
        s.append("\n");
        s.append("\ttimestamp => ");
        let timestamp: String = FormatDuration(self.timestamp).to_string();
        s.append(timestamp.as_str());
        s.append("\n");
        s.append("\tduration => ");
        let duration: String = FormatDuration(self.duration).to_string();
        s.append(duration.as_str());
        s.append("\n");
        s.append("\tdata_type => ");
        let data_type: String = self.data_type.to_string();
        s.append(data_type.as_str());
        s.append("\n");
        s.append("\tdata_len => ");
        push_decimal_nat(&mut s, self.data_len);
        s.append("\n");
        s.append("\tside_data => ");
        let side_data: String = self.side_data.to_string();
        s.append(side_data.as_str());
        s.append("\n");
        s.append("}\n");
        s
    }
}

/// What a packet header holds.
pub ghost struct PacketView {
    pub stream: u8,
    pub packet_idx: u64,
    pub timestamp: u64,
    pub duration: u64,
    pub side_data: Seq<Entry>,
    pub data_type: PacketDataType,
    pub data_len: u64,
}

impl View for Packet {
    type V = PacketView;

    open spec fn view(&self) -> PacketView {
        PacketView {
            stream: self.stream,
            packet_idx: self.packet_idx,
            timestamp: self.timestamp,
            duration: self.duration,
            side_data: self.side_data@,
            data_type: self.data_type,
            data_len: self.data_len,
        }
    }
}

/// The bytes of a packet header: stream, index, timestamp, duration, side
/// data, payload type, payload length; integers least significant byte first.
pub open spec fn packet_bytes(p: PacketView) -> Seq<u8> {
    seq![p.stream] + spec_u64_to_le_bytes(p.packet_idx) + spec_u64_to_le_bytes(p.timestamp)
        + spec_u64_to_le_bytes(p.duration) + side_data_bytes(p.side_data) + seq![
        p.data_type.byte(),
    ] + spec_u64_to_le_bytes(p.data_len)
}

/// The eight bytes of `s` from index `i` on, read least significant byte first.
pub open spec fn le_u64_at(s: Seq<u8>, i: int) -> u64 {
    spec_u64_from_le_bytes(s.subrange(i, i + 8))
}

/// What the front of `s` reads as: a packet header and its length, or why
/// there is none. The end of the input is met before a bad payload type.
pub open spec fn packet_parse(s: Seq<u8>) -> Result<(PacketView, nat), ErrorKind> {
    if s.len() < 25 {
        Err(ErrorKind::UnexpectedEof)
    } else {
        match side_data_parse(s.skip(25)) {
            Err(e) => Err(e),
            Ok((side_data, n)) => if s.len() < 25 + n + 9 {
                Err(ErrorKind::UnexpectedEof)
            } else {
                match data_type_of(s[(25 + n) as int]) {
                    None => Err(ErrorKind::InvalidData),
                    Some(data_type) => Ok(
                        (
                            PacketView {
                                stream: s[0],
                                packet_idx: le_u64_at(s, 1),
                                timestamp: le_u64_at(s, 9),
                                duration: le_u64_at(s, 17),
                                side_data,
                                data_type,
                                data_len: le_u64_at(s, (26 + n) as int),
                            },
                            (25 + n + 9) as nat,
                        ),
                    ),
                }
            },
        }
    }
}

impl EncodableData for Packet {
    open spec fn encodable(&self) -> bool {
        true
    }

    open spec fn encoding(&self) -> Seq<u8> {
        packet_bytes(self@)
    }

    /// The exact number of bytes of the encoding.
    fn estimated_size(&self) -> (r: Option<usize>)
        ensures
            r == Some(self.encoding().len() as usize),
    {
        proof {
            lemma_auto_spec_u64_to_from_le_bytes();
        }
        match self.side_data.estimated_size() {
            Some(n) => Some(1 + 8 + 8 + 8 + n + 1 + 8),
            None => None,
        }
    }

    fn encode_into(&self, out: &mut Vec<u8>) -> (n: u64) {
        proof {
            lemma_auto_spec_u64_to_from_le_bytes();
        }
        out.push(self.stream);
        put_u64_le(out, self.packet_idx);
        put_u64_le(out, self.timestamp);
        put_u64_le(out, self.duration);
        let _size = self.side_data.estimated_size();
        let side: u64 = self.side_data.encode_into(out);
        out.push(self.data_type.to_byte());
        put_u64_le(out, self.data_len);
        proof {
            assert(out@ =~= old(out)@ + packet_bytes(self@));
        }
        25 + side + 9
    }

    fn decode_from(input: &mut ByteReader) -> (r: Result<Self, ErrorKind>)
        ensures
            match packet_parse(old(input).remaining()) {
                Ok((p, n)) => {
                    &&& r matches Ok(packet)
                    &&& packet@ == p
                    &&& old(input).advanced(final(input), n as int)
                },
                Err(e) => r matches Err(f) && f == e,
            },
    {
        let ghost s = input.remaining();
        let ghost at0 = *input;
        let stream: u8 = input.read_u8()?;
        let ghost at1 = *input;
        let packet_idx: u64 = input.read_u64()?;
        let ghost at9 = *input;
        proof {
            at0.lemma_advanced_twice(&at1, &at9, 1, 8);
            assert(s.skip(1).subrange(0, 8) =~= s.subrange(1, 9));
        }
        let timestamp: u64 = input.read_u64()?;
        let ghost at17 = *input;
        proof {
            at0.lemma_advanced_twice(&at9, &at17, 9, 8);
            assert(s.skip(9).subrange(0, 8) =~= s.subrange(9, 17));
        }
        let duration: u64 = input.read_u64()?;
        let ghost at25 = *input;
        proof {
            at0.lemma_advanced_twice(&at17, &at25, 17, 8);
            assert(s.skip(17).subrange(0, 8) =~= s.subrange(17, 25));
        }
        let side_data: SideData = SideData::decode_from(input)?;
        let ghost n: int = side_data_parse(s.skip(25)).unwrap().1 as int;
        let ghost at_type = *input;
        proof {
            at0.lemma_advanced_twice(&at25, &at_type, 25, n);
        }
        let data_type: u8 = input.read_u8()?;
        let ghost at_len = *input;
        proof {
            at0.lemma_advanced_twice(&at_type, &at_len, 25 + n, 1);
        }
        let data_len: u64 = input.read_u64()?;
        proof {
            at0.lemma_advanced_twice(&at_len, &*input, 26 + n, 8);
            assert(s.skip(26 + n).subrange(0, 8) =~= s.subrange(26 + n, 34 + n));
        }
        let data_type: PacketDataType = PacketDataType::try_from(data_type)?;
        Ok(Packet { stream, packet_idx, timestamp, duration, side_data, data_type, data_len })
    }
}

/// Reading back a written packet header gives the header, and takes exactly
/// the bytes that were written, whatever follows them.
pub proof fn law_packet_roundtrip(p: PacketView, rest: Seq<u8>)
    requires
        valid_side_data(p.side_data),
    ensures
        packet_parse(packet_bytes(p) + rest) == Ok::<(PacketView, nat), ErrorKind>(
            (p, packet_bytes(p).len()),
        ),
{
    lemma_auto_spec_u64_to_from_le_bytes();
    let s = packet_bytes(p) + rest;
    let side = side_data_bytes(p.side_data);
    let n: int = side.len() as int;
    let tail = seq![p.data_type.byte()] + spec_u64_to_le_bytes(p.data_len) + rest;
    assert(s.skip(25) =~= side + tail);
    lemma_side_data_roundtrip(p.side_data, tail);
    assert(s.subrange(1, 9) =~= spec_u64_to_le_bytes(p.packet_idx));
    assert(s.subrange(9, 17) =~= spec_u64_to_le_bytes(p.timestamp));
    assert(s.subrange(17, 25) =~= spec_u64_to_le_bytes(p.duration));
    assert(s.subrange(26 + n, 26 + n + 8) =~= spec_u64_to_le_bytes(p.data_len));
    assert(s[25 + n] == p.data_type.byte());
    assert(s[0] == p.stream);
    assert(packet_bytes(p).len() == 25 + n + 9);
}

} // verus!
