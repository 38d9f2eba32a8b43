use ansimoe::bytes::ByteReader;
use ansimoe::compress::{Lz4Compressor, PostProcessor};
use ansimoe::encoder::{
    ANSIEncoder, AnsiSubtitleEncoder, FFPacket, FFToAnsi, PacketType, Pipeline,
};
use ansimoe::error::ErrorKind;
use ansimoe::metadata::{
    CodecParameters, ColorMode, CompressionMode, FormatData, Stream, SubtitleParameters,
    VideoParameters,
};
use ansimoe::packet::{EncodableData, Packet, PacketDataType};
use ansimoe::processors::{DecoderProcessor, Lz4Decoder};
use ansimoe::reader::Reader;
use ansimoe::seek::SeekEntry;
use ansimoe::states::SeektablesRead;
use ansimoe::sub_rect::{SubRect, SubRectVec};

/// A first stage that hands the data of the source packet on as they are.
struct Plain;

impl FFToAnsi for Plain {
    fn process(
        &mut self,
        input: &FFPacket,
        packet: &mut Packet,
        data: &mut Vec<u8>,
    ) -> Result<(), ErrorKind> {
        data.extend_from_slice(&input.binary_data);
        packet.data_len = data.len() as u64;
        packet.data_type = PacketDataType::Video;
        Ok(())
    }
}

/// A step that fails.
struct Broken;

impl PostProcessor for Broken {
    fn post_process(&mut self, _: &mut Packet, _: &mut Vec<u8>) -> Result<(), ErrorKind> {
        Err(ErrorKind::Io)
    }
}

/// A step that turns the payload round.
struct Backwards;

impl PostProcessor for Backwards {
    fn post_process(&mut self, packet: &mut Packet, data: &mut Vec<u8>) -> Result<(), ErrorKind> {
        data.reverse();
        packet.data_len = data.len() as u64;
        Ok(())
    }
}

fn frame(stream: usize, timestamp: u64, data: &[u8]) -> FFPacket {
    let mut packet = FFPacket::default();
    packet.ingest_video(stream, 0, timestamp, 40_000, data);
    packet
}

fn subtitle(stream: usize, timestamp: u64, text: &str) -> FFPacket {
    let mut packet = FFPacket::default();
    packet.ingest_packet(stream, 0, PacketType::Subtitle, timestamp, 2_000_000, false, Some(b"x"));
    packet.sub_rects.push(SubRect { x: 1, y: 2, fg: 3, bg: 4, text: text.to_string() });
    packet
}

fn read_all(bytes: &[u8]) -> Vec<(Packet, Vec<u8>)> {
    let mut reader = ByteReader::new(bytes);
    let mut packets = Vec::new();
    while reader.available() > 0 {
        let header = Packet::decode_from(&mut reader).unwrap();
        let data = reader.take(header.data_len as usize).unwrap().to_vec();
        packets.push((header, data));
    }
    packets
}

#[test]
fn source_packets() {
    let empty = FFPacket::default();
    assert_eq!(empty.stream_idx, usize::MAX);
    assert_eq!(empty.frame_idx, usize::MAX);
    assert_eq!(empty.kind, PacketType::Invalid);
    assert_eq!((empty.timestamp, empty.duration), (0, 0));

    let mut packet = frame(2, 7, b"abc");
    assert_eq!(packet.kind, PacketType::Video);
    assert_eq!(packet.binary_data, b"abc");
    packet.ingest_video(3, 9, 8, 1, b"de");
    assert_eq!((packet.stream_idx, packet.frame_idx, packet.timestamp, packet.duration), (3, 9, 8, 1));
    assert_eq!(packet.binary_data, b"abcde");
    packet.ingest_packet(4, 1, PacketType::Unknown, 5, 6, true, Some(b"f"));
    assert_eq!(packet.binary_data, b"abcdef");
    packet.ingest_packet(4, 1, PacketType::Unknown, 5, 6, false, Some(b"g"));
    packet.ingest_packet(4, 1, PacketType::Unknown, 5, 6, true, None);
    assert_eq!(packet.binary_data, b"abcdef");
    packet.recycle(2);
    assert_eq!(packet.stream_idx, usize::MAX);
    assert_eq!(packet.kind, PacketType::Invalid);
    assert!(packet.binary_data.is_empty() && packet.sub_rects.is_empty());
}

#[test]
fn pipeline_runs_its_steps_in_order() {
    let mut pipeline = Pipeline::new(Box::new(Plain))
        .with_step(Box::new(Backwards))
        .with_step(Box::new(Lz4Compressor::new()));
    assert_eq!(pipeline.len(), 2);
    let mut packet = Packet::default();
    let mut data = Vec::new();
    assert_eq!(pipeline.run(&frame(0, 0, b"abcabcabcabc"), &mut packet, &mut data), Ok(()));
    assert_eq!(packet.data_len, data.len() as u64);
    let mut decoder = Lz4Decoder::new(None);
    decoder.process(&mut packet, &mut data).unwrap();
    assert_eq!(data, b"cbacbacbacba");

    let mut failing = Pipeline::new(Box::new(Plain)).with_step(Box::new(Broken));
    assert_eq!(failing.run(&frame(0, 0, b"abc"), &mut packet, &mut data), Err(ErrorKind::Io));
    let mut eight = Pipeline::new(Box::new(Plain));
    for _ in 0..8 {
        eight = eight.with_step(Box::new(Backwards));
    }
    assert_eq!(eight.len(), 8);
}

#[test]
fn subtitle_stage() {
    let mut stage = AnsiSubtitleEncoder;
    let mut packet = Packet::builder().stream(2).timestamp(9).build();
    let mut data = Vec::new();
    let input = subtitle(2, 9, "line");
    assert_eq!(stage.process(&input, &mut packet, &mut data), Ok(()));
    assert_eq!(packet.data_type, PacketDataType::Subtitle);
    assert_eq!(packet.data_len, data.len() as u64);
    assert_eq!(packet.stream, 2);
    let expected = SubRectVec::from(vec![SubRect { x: 1, y: 2, fg: 3, bg: 4, text: "line".to_string() }])
        .encode_to_vec();
    assert_eq!(data, expected);
}

#[test]
fn packets_are_numbered_within_their_stream() {
    let mut encoder = ANSIEncoder::new(4, 4);
    encoder.add_encoder(0, Pipeline::new(Box::new(Plain)));
    encoder.add_encoder(5, Pipeline::new(Box::new(Plain)));
    let mut out = Vec::new();
    let streams = [0usize, 0, 5, 0, 9, 5, 5, 300, 0];
    for (i, stream) in streams.iter().enumerate() {
        assert_eq!(encoder.process_packet(&frame(*stream, i as u64 * 40_000, b"payload"), &mut out), Ok(()));
    }
    let packets = read_all(&out);
    // The packets of the streams without a pipeline were passed over.
    let seen: Vec<(u8, u64)> = packets.iter().map(|(h, _)| (h.stream, h.packet_idx)).collect();
    assert_eq!(seen, vec![(0, 1), (0, 2), (5, 1), (0, 3), (5, 2), (5, 3), (0, 4)]);
    for (header, data) in &packets {
        assert_eq!(header.data_len, 7);
        assert_eq!(data, b"payload");
        assert_eq!(header.duration, 40_000);
    }
    assert_eq!(packets[3].0.timestamp, 3 * 40_000);
}

#[test]
fn a_failing_pipeline_writes_nothing() {
    let mut encoder = ANSIEncoder::new(4, 4);
    encoder.add_encoder(0, Pipeline::new(Box::new(Plain)));
    encoder.add_encoder(1, Pipeline::new(Box::new(Plain)).with_step(Box::new(Broken)));
    let mut out = Vec::new();
    assert_eq!(encoder.process_packet(&frame(0, 0, b"a"), &mut out), Ok(()));
    let len = out.len();
    assert_eq!(encoder.process_packet(&frame(1, 0, b"b"), &mut out), Err(ErrorKind::Io));
    assert_eq!(out.len(), len);
    // The pipeline that was added later stands in the place of the first.
    encoder.add_encoder(1, Pipeline::new(Box::new(Plain)));
    assert_eq!(encoder.process_packet(&frame(1, 0, b"b"), &mut out), Ok(()));
    assert_eq!(encoder.process_packet(&frame(0, u64::MAX, b"c"), &mut out), Err(ErrorKind::ParameterOutOfRange));
    let packets = read_all(&out);
    assert_eq!(packets.len(), 2);
    assert_eq!((packets[1].0.stream, packets[1].0.packet_idx), (1, 1));
}

fn header() -> FormatData {
    FormatData::new(
        "ansi.moe".to_string(),
        "test".to_string(),
        vec![
            Stream::new(
                "video".to_string(),
                0,
                400_000,
                Vec::new(),
                None,
                CompressionMode::Lz4,
                CodecParameters::Video(VideoParameters::new(4, 4, ColorMode::Full)),
            ),
            Stream::new(
                "subs".to_string(),
                2,
                400_000,
                Vec::new(),
                None,
                CompressionMode::Uncompressed,
                CodecParameters::Subtitle(SubtitleParameters::new("en".to_string(), 4, 4)),
            ),
        ],
    )
}

/// A file of ten frames, 40 ms apart, and a subtitle, with its packets.
fn sample_file() -> (Vec<u8>, Vec<u8>) {
    let mut encoder = ANSIEncoder::new(4, 4);
    encoder.set_seek_stream(0);
    encoder.add_encoder(0, Pipeline::new(Box::new(Plain)).with_step(Box::new(Lz4Compressor::new())));
    encoder.add_encoder(2, Pipeline::new(Box::new(AnsiSubtitleEncoder)));
    let mut packets = Vec::new();
    for i in 0..10u64 {
        let data = vec![b'a' + i as u8; 64];
        encoder.process_packet(&frame(0, i * 40_000, &data), &mut packets).unwrap();
        if i == 2 {
            encoder.process_packet(&subtitle(2, 80_000, "hi"), &mut packets).unwrap();
        }
    }
    let mut file = encoder.finalize(b"HEADER").unwrap();
    file.extend_from_slice(&packets);
    (file, packets)
}

fn open(file: Vec<u8>) -> (Reader<SeektablesRead>, Vec<(u8, Vec<SeekEntry>)>) {
    let reader = Reader::new(file);
    let (mut reader, header_bytes) = reader.read_header().unwrap();
    assert_eq!(header_bytes, b"HEADER");
    reader.install_decoders(&header()).unwrap();
    reader.read_seektables().unwrap()
}

#[test]
fn file_layout() {
    let (file, packets) = sample_file();
    assert_eq!(&file[..8], &6u64.to_le_bytes());
    assert_eq!(&file[8..14], b"HEADER");
    assert_eq!(file[14], 1);
    assert_eq!(file[15], 0);
    let table_len = u64::from_le_bytes(file[16..24].try_into().unwrap()) as usize;
    // Frames at 0, 100, 200 and 300 ms got an entry.
    assert_eq!(u64::from_le_bytes(file[24..32].try_into().unwrap()), 4);
    assert_eq!(&file[32 + table_len..], packets.as_slice());
}

#[test]
fn reading_a_file() {
    let (file, packets) = sample_file();
    let start = file.len() - packets.len();
    let (mut reader, tables) = open(file);
    assert_eq!(reader.stream_position(), start);
    assert_eq!(tables.len(), 1);
    assert_eq!(tables[0].0, 0);
    let stored = read_all(&packets);
    let entries = &tables[0].1;
    assert_eq!(entries.len(), 4);
    // Every entry points at the start of a packet of its time.
    assert_eq!(entries[0], SeekEntry { ts: 0, location: 0 });
    let mut offset = 0i64;
    let mut found = 0;
    for (header, data) in &stored {
        if let Some(entry) = entries.iter().find(|e| e.location == offset) {
            assert_eq!(entry.ts, header.timestamp as i64);
            assert_eq!(header.stream, 0);
            found += 1;
        }
        offset += (header.encode_to_vec().len() + data.len()) as i64;
    }
    assert_eq!(found, 4);
    assert_eq!(entries.iter().map(|e| e.ts).collect::<Vec<_>>(), vec![0, 120_000, 240_000, 360_000]);

    // The packets come in the order of the file, and the frames decompressed.
    let mut frames = 0u64;
    for _ in 0..11 {
        let (header, data) = reader.read_packet().unwrap();
        if header.stream == 0 {
            assert_eq!(header.packet_idx, frames + 1);
            assert_eq!(header.timestamp, frames * 40_000);
            assert_eq!(data, vec![b'a' + frames as u8; 64]);
            assert_eq!(header.data_type, PacketDataType::Video);
            frames += 1;
        } else {
            assert_eq!((header.stream, header.packet_idx), (2, 1));
            let mut payload = ByteReader::new(&data);
            let rects = SubRectVec::decode_from(&mut payload).unwrap().into_inner();
            assert_eq!(rects[0].text, "hi");
        }
    }
    assert_eq!(frames, 10);
    let end = reader.stream_position();
    assert!(matches!(reader.read_packet(), Err(ErrorKind::UnexpectedEof)));
    assert_eq!(reader.stream_position(), end);
}

#[test]
fn seeking_in_a_file() {
    let (file, packets) = sample_file();
    let start = file.len() - packets.len();
    let (mut reader, tables) = open(file);
    let entries = tables[0].1.clone();

    // Between two entries: the one before.
    assert_eq!(reader.seek(150_000), Ok(120_000));
    assert_eq!(reader.stream_position(), start + entries[1].location as usize);
    let mut data = Vec::new();
    let header = reader.read_packet_data_into(&mut data).unwrap();
    assert_eq!(header.timestamp, 120_000);
    assert!(header.timestamp <= 150_000);
    assert_eq!(data, vec![b'd'; 64]);

    // On an entry: that entry.
    assert_eq!(reader.seek(240_000), Ok(240_000));
    assert_eq!(reader.read_packet().unwrap().0.timestamp, 240_000);
    // Past the last and before the first.
    assert_eq!(reader.seek(i64::MAX), Ok(360_000));
    assert_eq!(reader.read_packet().unwrap().0.timestamp, 360_000);
    assert_eq!(reader.seek(-1), Ok(0));
    assert_eq!(reader.stream_position(), start);
    assert_eq!(reader.read_packet().unwrap().0.packet_idx, 1);
}

#[test]
fn seek_table_of_the_wire() {
    // A table with the entries 0/0, 100000/2048, 200000/4096 in front of
    // nothing: a seek to 150000 lands at 100000, 2048 after the tables.
    let mut table = ansimoe::encoder::SeekTableEncoder::new(0);
    for (ts, location) in [(0u64, 0u64), (100_000, 2048), (200_000, 4096)] {
        table.ingest(&Packet::builder().timestamp(ts).build(), location);
    }
    let mut file = Vec::new();
    file.extend_from_slice(&0u64.to_le_bytes());
    file.push(1);
    file.extend_from_slice(&table.finish().unwrap());
    let start = file.len();
    file.extend_from_slice(&[0u8; 5000]);
    let (reader, _) = Reader::new(file).read_header().unwrap();
    let (mut reader, tables) = reader.read_seektables().unwrap();
    assert_eq!(tables[0].1.len(), 3);
    assert_eq!(reader.seek(150_000), Ok(100_000));
    assert_eq!(reader.stream_position(), start + 2048);
}

#[test]
fn broken_files() {
    assert!(matches!(Reader::new(vec![1, 2, 3]).read_header(), Err(ErrorKind::UnexpectedEof)));
    let mut short = 10u64.to_le_bytes().to_vec();
    short.extend_from_slice(b"HEAD");
    assert!(matches!(Reader::new(short).read_header(), Err(ErrorKind::UnexpectedEof)));

    let (file, _) = sample_file();
    // Without seek tables.
    let mut none = file[..14].to_vec();
    none.push(0);
    let (reader, _) = Reader::new(none).read_header().unwrap();
    assert!(matches!(reader.read_seektables(), Err(ErrorKind::InvalidData)));
    // Cut within the table.
    let (reader, _) = Reader::new(file[..40].to_vec()).read_header().unwrap();
    assert!(matches!(reader.read_seektables(), Err(ErrorKind::UnexpectedEof)));
    let (reader, _) = Reader::new(file[..14].to_vec()).read_header().unwrap();
    assert!(matches!(reader.read_seektables(), Err(ErrorKind::UnexpectedEof)));
}

#[test]
fn header_streams() {
    let header = header();
    assert_eq!(header.video_track(), Some(0));
    assert_eq!(header.first_subtitle_stream(), Some(2));
    assert!(header.tracks[0].parameters.is_video());
    assert!(!header.tracks[0].parameters.is_subtitle());
    assert!(header.tracks[1].parameters.is_subtitle());
    assert_eq!(header.tracks[0].parameters.as_video().map(|v| (v.width, v.height)), Some((4, 4)));
    assert!(header.tracks[1].parameters.as_video().is_none());
    let empty = FormatData::new(String::new(), String::new(), Vec::new());
    assert_eq!(empty.video_track(), None);
    assert_eq!(empty.first_subtitle_stream(), None);
}

#[test]
fn decoders_need_their_dictionaries() {
    let mut broken = vec![0x37, 0xa4, 0x30, 0xec];
    broken.extend_from_slice(&[0xff; 64]);
    let stream = |index: u8, mode: CompressionMode, dict: Option<Vec<u8>>| {
        Stream::new(
            "video".to_string(),
            index,
            0,
            Vec::new(),
            dict,
            mode,
            CodecParameters::Video(VideoParameters::new(4, 4, ColorMode::Full)),
        )
    };
    let (file, _) = sample_file();
    let (mut reader, _) = Reader::new(file.clone()).read_header().unwrap();
    let header = FormatData::new(
        "f".to_string(),
        "e".to_string(),
        vec![
            stream(0, CompressionMode::Lz4, None),
            stream(1, CompressionMode::Zstd, Some(broken.clone())),
            stream(2, CompressionMode::Lz4, None),
        ],
    );
    assert_eq!(reader.install_decoders(&header), Err(ErrorKind::UnsupportedCompression));
    // The stream before the one that failed has its decoder: its packets are
    // decompressed.
    let (mut reader, _) = reader.read_seektables().unwrap();
    let (packet, data) = reader.read_packet().unwrap();
    assert_eq!(packet.stream, 0);
    assert_eq!(data, vec![b'a'; 64]);
    // A dictionary is not looked at where the stream is not compressed with
    // Zstandard.
    let (mut reader, _) = Reader::new(file).read_header().unwrap();
    let header = FormatData::new(
        "f".to_string(),
        "e".to_string(),
        vec![
            stream(0, CompressionMode::Lz4, Some(broken.clone())),
            stream(1, CompressionMode::Uncompressed, Some(broken)),
            stream(2, CompressionMode::Zstd, None),
        ],
    );
    assert_eq!(reader.install_decoders(&header), Ok(()));
}

#[test]
fn encoder_keeps_the_frame_size() {
    let mut encoder = ANSIEncoder::new(80, 48);
    assert_eq!(encoder.frame_size(), (80, 48));
    encoder.set_seek_stream(1);
    encoder.add_encoder(1, Pipeline::new(Box::new(Plain)));
    let mut out = Vec::new();
    encoder.process_packet(&frame(1, 0, b"a"), &mut out).unwrap();
    assert_eq!(encoder.frame_size(), (80, 48));
    assert_eq!(ANSIEncoder::new(-3, 0).frame_size(), (-3, 0));
}

#[test]
fn a_pipeline_stops_at_the_first_failure() {
    // The first stage fails: no step runs, and what the stage left stays.
    let mut pipeline =
        Pipeline::new(Box::new(AnsiSubtitleEncoder)).with_step(Box::new(Lz4Compressor::new()));
    assert_eq!(pipeline.len(), 1);
    let mut source = subtitle(2, 0, "hi");
    for _ in 0..65_535 {
        source.sub_rects.push(SubRect { x: 0, y: 0, fg: 0, bg: 0, text: String::new() });
    }
    let mut packet = Packet::default();
    let mut data = vec![1, 2, 3];
    assert_eq!(pipeline.run(&source, &mut packet, &mut data), Err(ErrorKind::ParameterOutOfRange));
    assert_eq!(data, vec![1, 2, 3]);
    assert_eq!(packet.data_type, PacketDataType::Invalid);
    assert!(packet.side_data.get(&ansimoe::side_data::decompressed_len_tag()).is_none());

    // A step fails: the stage has run, the step before it too.
    let mut full = ansimoe::side_data::SideData::new();
    for i in 0..254u8 {
        full.insert(ansimoe::side_data::Tag::from_bytes([b'a', b'b', i / 16 + b'A', i % 16 + b'A']), &[])
            .unwrap();
    }
    let mut packet = Packet::builder().side_data(full).build();
    let mut data = Vec::new();
    let mut pipeline = Pipeline::new(Box::new(Plain)).with_step(Box::new(Lz4Compressor::new()));
    assert_eq!(
        pipeline.run(&frame(0, 0, b"abcabcabc"), &mut packet, &mut data),
        Err(ErrorKind::ParameterOutOfRange)
    );
    assert_eq!(data, b"abcabcabc");
    assert_eq!(packet.data_type, PacketDataType::Video);
    assert_eq!(packet.data_len, 9);
    assert_eq!(packet.side_data.len(), 254);
}

#[test]
fn finished_packets_are_numbered_and_written() {
    let mut encoder = ANSIEncoder::new(4, 4);
    encoder.set_seek_stream(5);
    let mut out = Vec::new();
    let mut packet = Packet::builder().stream(5).timestamp(70).duration(3).build();
    packet.data_type = PacketDataType::Video;
    packet.data_len = 3;
    packet.packet_idx = 99;
    assert_eq!(encoder.write_packet(packet, b"abc", &mut out), Ok(()));
    let mut packet = Packet::builder().stream(5).timestamp(1_000_000).build();
    packet.data_len = 0;
    assert_eq!(encoder.write_packet(packet, b"", &mut out), Ok(()));
    let packets = read_all(&out);
    assert_eq!(packets.len(), 2);
    assert_eq!((packets[0].0.packet_idx, packets[0].0.timestamp, packets[0].0.duration), (1, 70, 3));
    assert_eq!(packets[0].1, b"abc");
    assert_eq!(packets[1].0.packet_idx, 2);
    // A time that no seek entry can hold: nothing is written.
    let before = out.clone();
    let late = Packet::builder().stream(5).timestamp(i64::MAX as u64 + 1).build();
    assert_eq!(encoder.write_packet(late, b"", &mut out), Err(ErrorKind::ParameterOutOfRange));
    assert_eq!(out, before);
    let next = Packet::builder().stream(5).timestamp(2_000_000).build();
    assert_eq!(encoder.write_packet(next, b"", &mut out), Ok(()));
    assert_eq!(read_all(&out)[2].0.packet_idx, 3);
}
