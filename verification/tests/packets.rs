use ansimoe::bytes::ByteReader;
use ansimoe::error::ErrorKind;
use ansimoe::packet::{EncodableData, Packet, PacketDataType, TypedData};
use ansimoe::side_data::{compression_method_tag, decompressed_len_tag, SideData, Tag};
use ansimoe::sub_rect::{SubRect, SubRectVec};

fn sample_packet() -> Packet {
    let mut side_data = SideData::new();
    side_data.insert(Tag::new_checked(*b"ZZZZ"), &[1, 2, 3]).unwrap();
    side_data.insert(Tag::new_checked(*b"AAAA"), &[]).unwrap();
    let mut packet = Packet::builder()
        .stream(3)
        .timestamp(1_000_000)
        .duration(40_000)
        .side_data(side_data)
        .build();
    packet.packet_idx = 0x0102_0304_0506_0708;
    packet.data_type = PacketDataType::Video;
    packet.data_len = 77;
    packet
}

fn same_packet(a: &Packet, b: &Packet) -> bool {
    if a.side_data.len() != b.side_data.len() {
        return false;
    }
    for i in 0..a.side_data.len() {
        if a.side_data.tag_at(i).to_bytes() != b.side_data.tag_at(i).to_bytes()
            || a.side_data.value_at(i) != b.side_data.value_at(i)
        {
            return false;
        }
    }
    a.stream == b.stream
        && a.packet_idx == b.packet_idx
        && a.timestamp == b.timestamp
        && a.duration == b.duration
        && a.data_type == b.data_type
        && a.data_len == b.data_len
}

#[test]
fn packet_layout() {
    let packet = sample_packet();
    let bytes = packet.encode_to_vec();
    let expected: Vec<u8> = vec![
        3, // stream
        8, 7, 6, 5, 4, 3, 2, 1, // index
        0x40, 0x42, 0x0f, 0, 0, 0, 0, 0, // timestamp
        0x40, 0x9c, 0, 0, 0, 0, 0, 0, // duration
        2, // entries of side data, in the order in which they were set
        b'Z', b'Z', b'Z', b'Z', 3, 1, 2, 3, //
        b'A', b'A', b'A', b'A', 0, //
        0, // video
        77, 0, 0, 0, 0, 0, 0, 0, // payload length
    ];
    assert_eq!(bytes, expected);
    assert_eq!(packet.estimated_size(), Some(expected.len()));
    let mut out = vec![0xee];
    assert_eq!(packet.encode_into(&mut out), expected.len() as u64);
    assert_eq!(&out[1..], expected.as_slice());
}

#[test]
fn packet_round_trip() {
    let packet = sample_packet();
    let mut bytes = packet.encode_to_vec();
    let len = bytes.len();
    bytes.extend_from_slice(&[9, 9, 9]);
    let mut reader = ByteReader::new(&bytes);
    let decoded = Packet::decode_from(&mut reader).unwrap();
    assert!(same_packet(&decoded, &packet));
    assert_eq!(reader.position(), len);
}

#[test]
fn default_packet_round_trip() {
    let packet = Packet::default();
    assert_eq!(packet.data_type, PacketDataType::Invalid);
    let bytes = packet.encode_to_vec();
    assert_eq!(bytes.len(), 35);
    assert_eq!(bytes[26], 255);
    let mut reader = ByteReader::new(&bytes);
    assert!(same_packet(&Packet::decode_from(&mut reader).unwrap(), &packet));
}

#[test]
fn packet_cut_short() {
    let bytes = sample_packet().encode_to_vec();
    for len in 0..bytes.len() {
        let mut reader = ByteReader::new(&bytes[..len]);
        assert!(matches!(Packet::decode_from(&mut reader), Err(ErrorKind::UnexpectedEof)));
    }
}

#[test]
fn packet_with_unknown_payload_type() {
    let mut bytes = sample_packet().encode_to_vec();
    let at = bytes.len() - 9;
    for bad in [4u8, 5, 100, 254] {
        bytes[at] = bad;
        let mut reader = ByteReader::new(&bytes);
        assert!(matches!(Packet::decode_from(&mut reader), Err(ErrorKind::InvalidData)));
    }
    // The end of the input is met before the bad type.
    bytes[at] = 4;
    let mut reader = ByteReader::new(&bytes[..bytes.len() - 1]);
    assert!(matches!(Packet::decode_from(&mut reader), Err(ErrorKind::UnexpectedEof)));
}

#[test]
fn payload_types() {
    let all = [
        (0u8, PacketDataType::Video),
        (1, PacketDataType::Audio),
        (2, PacketDataType::Subtitle),
        (3, PacketDataType::Unknown),
        (255, PacketDataType::Invalid),
    ];
    for (byte, kind) in all {
        assert_eq!(PacketDataType::try_from(byte), Ok(kind));
        assert_eq!(kind.to_byte(), byte);
    }
    assert_eq!(PacketDataType::try_from(4), Err(ErrorKind::InvalidData));
    assert_eq!(PacketDataType::try_from(254), Err(ErrorKind::InvalidData));
    assert_eq!(PacketDataType::default(), PacketDataType::Invalid);
    assert_eq!(<SubRectVec as TypedData>::KIND, PacketDataType::Subtitle);
}

#[test]
fn side_data_keeps_the_order_of_insertion() {
    let mut side_data = SideData::new();
    let first = Tag::new_checked(*b"DCLE");
    let second = Tag::new_checked(*b"CMPM");
    side_data.insert(first, &[1]).unwrap();
    side_data.insert(second, &[2]).unwrap();
    assert_eq!(side_data.len(), 2);
    assert_eq!(side_data.tag_at(0).to_bytes(), *b"DCLE");
    assert_eq!(side_data.tag_at(1).to_bytes(), *b"CMPM");
    // A tag that is set again keeps its place.
    side_data.insert(first, &[7, 7]).unwrap();
    assert_eq!(side_data.len(), 2);
    assert_eq!(side_data.tag_at(0).to_bytes(), *b"DCLE");
    assert_eq!(side_data.value_at(0), &[7, 7]);
    assert_eq!(side_data.get(&first), Some(&[7u8, 7][..]));
    assert_eq!(side_data.get(&second), Some(&[2u8][..]));
    assert_eq!(side_data.get(&Tag::new_checked(*b"NONE")), None);
    assert_eq!(side_data.find(&second), Some(1));
    assert!(first.same(&decompressed_len_tag()));
    assert!(second.same(&compression_method_tag()));
    assert!(!first.same(&second));
}

#[test]
fn side_data_limits() {
    let mut side_data = SideData::new();
    let tag = Tag::new_checked(*b"BIG!");
    assert_eq!(side_data.insert(tag, &[0u8; 256]), Err(ErrorKind::ParameterOutOfRange));
    assert_eq!(side_data.len(), 0);
    assert_eq!(side_data.insert(tag, &[0u8; 255]), Ok(()));
    for i in 1..255u8 {
        assert_eq!(side_data.insert(Tag::from_bytes([b'T', b'A', b'G', i]), &[i]), Ok(()));
    }
    assert_eq!(side_data.len(), 255);
    // There is no room for a 256th tag, but a tag that is there can be set.
    assert_eq!(
        side_data.insert(Tag::from_bytes([b'T', b'A', b'G', 255]), &[]),
        Err(ErrorKind::ParameterOutOfRange)
    );
    assert_eq!(side_data.insert(tag, &[5]), Ok(()));
    assert_eq!(side_data.len(), 255);

    let bytes = side_data.encode_to_vec();
    assert_eq!(bytes[0], 255);
    assert_eq!(side_data.estimated_size(), Some(bytes.len()));
    let mut reader = ByteReader::new(&bytes);
    let decoded = SideData::decode_from(&mut reader).unwrap();
    assert_eq!(decoded.len(), 255);
    assert_eq!(decoded.get(&tag), Some(&[5u8][..]));
    assert_eq!(decoded.tag_at(254).to_bytes(), [b'T', b'A', b'G', 254]);
}

#[test]
fn side_data_with_a_tag_twice_on_the_wire() {
    // Two entries with one tag: the later value stands in the earlier place.
    let bytes = [3, b'A', b'A', b'A', b'A', 1, 10, b'B', b'B', b'B', b'B', 0, b'A', b'A', b'A', b'A', 2, 20, 21];
    let mut reader = ByteReader::new(&bytes);
    let decoded = SideData::decode_from(&mut reader).unwrap();
    assert_eq!(decoded.len(), 2);
    assert_eq!(decoded.tag_at(0).to_bytes(), *b"AAAA");
    assert_eq!(decoded.value_at(0), &[20, 21]);
    assert_eq!(decoded.tag_at(1).to_bytes(), *b"BBBB");
}

#[test]
fn side_data_cut_short() {
    let bytes = [1, b'A', b'A', b'A', b'A', 3, 1, 2];
    let mut reader = ByteReader::new(&bytes);
    assert!(matches!(SideData::decode_from(&mut reader), Err(ErrorKind::UnexpectedEof)));
    let mut reader = ByteReader::new(&[]);
    assert!(matches!(SideData::decode_from(&mut reader), Err(ErrorKind::UnexpectedEof)));
}

fn sample_rect() -> SubRect {
    SubRect { x: 12, y: -3, fg: 15, bg: 0, text: "héllo".to_string() }
}

#[test]
fn sub_rect_layout() {
    let rect = sample_rect();
    let bytes = rect.encode_to_vec();
    assert_eq!(
        bytes,
        vec![12, 0, 0xfd, 0xff, 15, 0, 6, 0, 0, 0, b'h', 0xc3, 0xa9, b'l', b'l', b'o']
    );
    assert_eq!(rect.estimated_size(), Some(16));
    let mut reader = ByteReader::new(&bytes);
    let decoded = SubRect::decode_from(&mut reader).unwrap();
    assert_eq!((decoded.x, decoded.y, decoded.fg, decoded.bg), (12, -3, 15, 0));
    assert_eq!(decoded.text, "héllo");
}

#[test]
fn sub_rect_to_string() {
    assert_eq!(sample_rect().to_string(), "\x1b[-3;12H\x1b[38;5;15m\x1b[48;5;0mhéllo");
    let rect = SubRect { x: 1, y: 54, fg: 231, bg: 16, text: String::new() };
    assert_eq!(rect.to_string(), "\x1b[54;1H\x1b[38;5;231m\x1b[48;5;16m");
}

#[test]
fn sub_rect_with_bad_text() {
    let bytes = [1, 0, 1, 0, 7, 8, 2, 0, 0, 0, 0xff, 0xfe];
    let mut reader = ByteReader::new(&bytes);
    assert!(matches!(SubRect::decode_from(&mut reader), Err(ErrorKind::InvalidData)));
    // The text is shorter than its length says.
    let mut reader = ByteReader::new(&bytes[..11]);
    assert!(matches!(SubRect::decode_from(&mut reader), Err(ErrorKind::UnexpectedEof)));
}

#[test]
fn sub_rect_vec_round_trip() {
    let rects = SubRectVec::from(vec![
        sample_rect(),
        SubRect { x: -1, y: 2, fg: 3, bg: 4, text: "second line".to_string() },
    ]);
    let bytes = rects.encode_to_vec();
    assert_eq!(&bytes[..2], &[2, 0]);
    assert_eq!(rects.estimated_size(), Some(bytes.len()));
    let mut reader = ByteReader::new(&bytes);
    let decoded = SubRectVec::decode_from(&mut reader).unwrap().into_inner();
    assert_eq!(decoded.len(), 2);
    assert_eq!(decoded[0].text, "héllo");
    assert_eq!((decoded[1].x, decoded[1].y, decoded[1].fg, decoded[1].bg), (-1, 2, 3, 4));
    assert_eq!(decoded[1].text, "second line");
    assert_eq!(reader.position(), bytes.len());

    let empty = SubRectVec::from(vec![]);
    assert_eq!(empty.encode_to_vec(), vec![0, 0]);
    let mut reader = ByteReader::new(&bytes[..bytes.len() - 1]);
    assert!(matches!(SubRectVec::decode_from(&mut reader), Err(ErrorKind::UnexpectedEof)));
}

#[test]
fn a_packet_as_text() {
    let mut side_data = SideData::new();
    side_data.insert(decompressed_len_tag(), &[0, 16, 0, 0, 0, 0, 0, 0]).unwrap();
    side_data.insert(compression_method_tag(), &[2]).unwrap();
    side_data.insert(Tag::new_checked(*b"none"), &[]).unwrap();
    assert_eq!(Tag::new_checked(*b"a-Z~").to_string(), "<a-Z~>");
    assert_eq!(
        side_data.to_string(),
        "Side Data {\n\t\t<DCLE> => [0, 16, 0, 0, 0, 0, 0, 0]\n\t\t<CMPM> => [2]\n\t\t<none> => []\n\t}\n"
    );
    let mut packet =
        Packet::builder().stream(3).timestamp(3_723_004_999).duration(41_708).side_data(side_data).build();
    packet.packet_idx = u64::MAX;
    packet.data_type = PacketDataType::Video;
    packet.data_len = 10;
    let expected = "Packet {\n\tstream => 3\n\tidx => 18446744073709551615\n\
                    \ttimestamp => 01:02:03.004\n\tduration => 00:00:00.041\n\
                    \tdata_type => Video\n\tdata_len => 10\n\
                    \tside_data => Side Data {\n\t\t<DCLE> => [0, 16, 0, 0, 0, 0, 0, 0]\n\
                    \t\t<CMPM> => [2]\n\t\t<none> => []\n\t}\n\n}\n";
    assert_eq!(packet.to_string(), expected);
    assert_eq!(
        Packet::default().to_string(),
        "Packet {\n\tstream => 0\n\tidx => 0\n\ttimestamp => 00:00:00.000\n\
         \tduration => 00:00:00.000\n\tdata_type => Invalid\n\tdata_len => 0\n\
         \tside_data => Side Data {\n\t}\n\n}\n"
    );
}

#[test]
fn payload_types_by_name() {
    let names: Vec<String> = [
        PacketDataType::Video,
        PacketDataType::Audio,
        PacketDataType::Subtitle,
        PacketDataType::Unknown,
        PacketDataType::Invalid,
    ]
    .iter()
    .map(|t| t.to_string())
    .collect();
    assert_eq!(names, ["Video", "Audio", "Subtitle", "Unknown", "Invalid"]);
}
