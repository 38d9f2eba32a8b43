use ansimoe::compress::{
    compressor_for, store_compressed, Lz4Compressor, PostProcessor, ZstdCompressor,
};
use ansimoe::error::ErrorKind;
use ansimoe::metadata::CompressionMode;
use ansimoe::packet::{Packet, PacketDataType};
use ansimoe::processors::{
    decoded_payload, decompression_room, DecoderProcessor, Lz4Decoder, ZstdDecoder,
};
use ansimoe::side_data::{compression_method_tag, decompressed_len_tag, SideData, Tag};

fn sample_payload() -> Vec<u8> {
    let mut data = Vec::new();
    for i in 0..4000u32 {
        data.extend_from_slice(b"\x1b[38;5;");
        data.push(b'0' + (i % 7) as u8);
        data.extend_from_slice(b"m\xe2\x96\x80");
    }
    data
}

fn packet_for(data: &[u8]) -> Packet {
    let mut packet = Packet::builder().stream(1).timestamp(5).duration(6).build();
    packet.data_type = PacketDataType::Video;
    packet.data_len = data.len() as u64;
    packet
}

#[test]
fn lz4_compresses_and_records_it() {
    let payload = sample_payload();
    let mut data = payload.clone();
    let mut packet = packet_for(&data);
    let mut compressor = Lz4Compressor::default();
    assert_eq!(compressor.post_process(&mut packet, &mut data), Ok(()));

    assert!(data.len() < payload.len());
    assert_ne!(data, payload);
    assert_eq!(packet.data_len, data.len() as u64);
    assert_eq!(packet.stream, 1);
    assert_eq!(packet.timestamp, 5);
    assert_eq!(packet.duration, 6);
    assert_eq!(packet.data_type, PacketDataType::Video);
    // The length before compression first, then the method.
    assert_eq!(packet.side_data.len(), 2);
    assert_eq!(packet.side_data.tag_at(0).to_bytes(), *b"DCLE");
    assert_eq!(packet.side_data.value_at(0), &(payload.len() as u64).to_le_bytes());
    assert_eq!(packet.side_data.tag_at(1).to_bytes(), *b"CMPM");
    assert_eq!(packet.side_data.value_at(1), &[2]);
    assert_eq!(packet.decompressed_len(), Some(payload.len() as u64));

    let mut decoder = Lz4Decoder::new(None);
    assert_eq!(decoder.process(&mut packet, &mut data), Ok(()));
    assert_eq!(data, payload);
    // The header stays as it was read.
    assert_ne!(packet.data_len, data.len() as u64);
}

#[test]
fn lz4_with_a_dictionary() {
    let dict = sample_payload();
    let payload: Vec<u8> = sample_payload().into_iter().rev().collect();
    let mut data = payload.clone();
    let mut packet = packet_for(&data);
    let mut compressor = Lz4Compressor::with_dict(&dict);
    assert_eq!(compressor.post_process(&mut packet, &mut data), Ok(()));
    let mut decoder = Lz4Decoder::new(Some(&dict));
    assert_eq!(decoder.process(&mut packet, &mut data), Ok(()));
    assert_eq!(data, payload);
}

#[test]
fn lz4_of_nothing() {
    let mut data = Vec::new();
    let mut packet = packet_for(&data);
    let mut compressor = Lz4Compressor::new();
    assert_eq!(compressor.post_process(&mut packet, &mut data), Ok(()));
    assert_eq!(packet.decompressed_len(), Some(0));
    assert_eq!(packet.data_len, data.len() as u64);
    let mut decoder = Lz4Decoder::default();
    assert_eq!(decoder.process(&mut packet, &mut data), Ok(()));
    assert!(data.is_empty());
}

#[test]
fn lz4_compress_matches_the_crate() {
    let payload = sample_payload();
    let mut compressor = Lz4Compressor::new();
    let block = compressor.compress(&payload).unwrap();
    assert_eq!(block, lz4_flex::block::compress(&payload));
    let mut decoder = Lz4Decoder::new(None);
    assert_eq!(decoder.decompress(&block, payload.len()), Ok(payload.clone()));
    // Too little room.
    assert_eq!(decoder.decompress(&block, payload.len() - 1), Err(ErrorKind::InvalidData));
    // A block that ends too early.
    assert_eq!(
        decoder.decompress(&block[..block.len() - 1], payload.len()),
        Err(ErrorKind::UnexpectedEof)
    );
    assert_eq!(decoder.decompress(&[], 10), Err(ErrorKind::UnexpectedEof));
}

#[test]
fn decoder_needs_the_length() {
    let mut data = vec![1, 2, 3];
    let mut packet = packet_for(&data);
    let mut decoder = Lz4Decoder::new(None);
    assert_eq!(decoder.process(&mut packet, &mut data), Err(ErrorKind::MissingSideData));
    assert_eq!(data, vec![1, 2, 3]);
    assert_eq!(decompression_room(&packet), Err(ErrorKind::MissingSideData));

    // A length of another size than eight bytes is no length.
    packet.side_data.insert(decompressed_len_tag(), &[4, 0, 0, 0]).unwrap();
    assert_eq!(packet.decompressed_len(), None);
    assert_eq!(decoder.process(&mut packet, &mut data), Err(ErrorKind::MissingSideData));
    let mut zstd = ZstdDecoder::new(None).unwrap();
    assert_eq!(zstd.process(&mut packet, &mut data), Err(ErrorKind::MissingSideData));

    packet.side_data.insert(decompressed_len_tag(), &40u64.to_le_bytes()).unwrap();
    assert_eq!(decompression_room(&packet), Ok(40));
}

#[test]
fn decoder_rejects_what_is_not_compressed() {
    // One literal, then a match that points before the start.
    let mut data = vec![0x10, b'a', 0x05, 0x00];
    let mut packet = packet_for(&data);
    packet.side_data.insert(decompressed_len_tag(), &16u64.to_le_bytes()).unwrap();
    let mut decoder = Lz4Decoder::new(None);
    assert_eq!(decoder.process(&mut packet, &mut data), Err(ErrorKind::InvalidData));
    assert_eq!(data, vec![0x10, b'a', 0x05, 0x00]);
    let mut zstd = ZstdDecoder::new(None).unwrap();
    assert_eq!(zstd.process(&mut packet, &mut data), Err(ErrorKind::InvalidData));
    assert_eq!(data, vec![0x10, b'a', 0x05, 0x00]);
    // A literal of fifteen bytes and more, and nothing after the mark.
    let mut cut = vec![0xf0];
    assert_eq!(decoder.process(&mut packet, &mut cut), Err(ErrorKind::UnexpectedEof));
}

#[test]
fn decoded_payload_of_each_outcome() {
    assert_eq!(decoded_payload(Some(vec![1, 2])), Ok(vec![1, 2]));
    assert_eq!(decoded_payload(None), Err(ErrorKind::InvalidData));
}

#[test]
fn zstd_compresses_and_records_it() {
    let payload = sample_payload();
    let mut data = payload.clone();
    let mut packet = packet_for(&data);
    let mut compressor = ZstdCompressor::new(8).unwrap();
    assert_eq!(compressor.post_process(&mut packet, &mut data), Ok(()));
    assert!(data.len() < payload.len());
    assert_eq!(packet.data_len, data.len() as u64);
    assert_eq!(packet.side_data.get(&compression_method_tag()), Some(&[1u8][..]));
    assert_eq!(packet.decompressed_len(), Some(payload.len() as u64));
    // A Zstandard frame starts with its magic number.
    assert_eq!(&data[..4], &[0x28, 0xb5, 0x2f, 0xfd]);

    let mut decoder = ZstdDecoder::new(None).unwrap();
    assert_eq!(decoder.process(&mut packet, &mut data), Ok(()));
    assert_eq!(data, payload);
}

#[test]
fn zstd_with_a_dictionary() {
    let dict = sample_payload();
    let payload: Vec<u8> = sample_payload().into_iter().skip(5).collect();
    let compressor = ZstdCompressor::with_dict(3, &dict).unwrap();
    let frame = compressor.compress(&payload).unwrap();
    let mut decoder = ZstdDecoder::new(Some(&dict)).unwrap();
    assert_eq!(decoder.decompress(&frame, payload.len()), Some(payload.clone()));
    assert_eq!(decoder.decompress(&frame, payload.len() - 1), None);
}

#[test]
fn store_compressed_of_each_outcome() {
    let mut data = vec![1, 2, 3, 4];
    let mut packet = packet_for(&data);
    assert_eq!(
        store_compressed(&mut packet, &mut data, CompressionMode::Zstd, None),
        Err(ErrorKind::Io)
    );
    assert_eq!(data, vec![1, 2, 3, 4]);
    assert_eq!(packet.side_data.len(), 0);

    assert_eq!(
        store_compressed(&mut packet, &mut data, CompressionMode::Zstd, Some(vec![9, 9])),
        Ok(())
    );
    assert_eq!(data, vec![9, 9]);
    assert_eq!(packet.data_len, 2);
    assert_eq!(packet.decompressed_len(), Some(4));
    assert_eq!(packet.side_data.get(&compression_method_tag()), Some(&[1u8][..]));
}

#[test]
fn compression_needs_room_in_the_side_data() {
    let mut side_data = SideData::new();
    for i in 0..254u8 {
        side_data.insert(Tag::from_bytes([b'T', b'A', b'G', i]), &[i]).unwrap();
    }
    let mut packet = Packet::builder().side_data(side_data).build();
    // Two tags are needed and there is room for one.
    assert_eq!(
        packet.mark_compressed(CompressionMode::Lz4, 10, 5),
        Err(ErrorKind::ParameterOutOfRange)
    );
    assert_eq!(packet.side_data.len(), 254);
    assert_eq!(packet.data_len, 0);
    let mut data = sample_payload();
    let before = data.clone();
    let mut compressor = Lz4Compressor::new();
    assert_eq!(
        compressor.post_process(&mut packet, &mut data),
        Err(ErrorKind::ParameterOutOfRange)
    );
    assert_eq!(data, before);

    // With one of the two tags there already, the other still does not fit.
    packet.side_data.insert(decompressed_len_tag(), &[0]).unwrap();
    assert_eq!(packet.side_data.len(), 255);
    assert_eq!(
        packet.mark_compressed(CompressionMode::Lz4, 10, 5),
        Err(ErrorKind::ParameterOutOfRange)
    );
    assert_eq!(packet.side_data.get(&decompressed_len_tag()), Some(&[0u8][..]));

    // With both there, their values are set.
    let mut side_data = SideData::new();
    for i in 0..253u8 {
        side_data.insert(Tag::from_bytes([b'T', b'A', b'G', i]), &[i]).unwrap();
    }
    side_data.insert(compression_method_tag(), &[9]).unwrap();
    side_data.insert(decompressed_len_tag(), &[0]).unwrap();
    let mut packet = Packet::builder().side_data(side_data).build();
    assert_eq!(packet.mark_compressed(CompressionMode::Lz4, 10, 5), Ok(()));
    assert_eq!(packet.side_data.len(), 255);
    assert_eq!(packet.side_data.tag_at(253).to_bytes(), *b"CMPM");
    assert_eq!(packet.side_data.value_at(253), &[2]);
    assert_eq!(packet.decompressed_len(), Some(10));
    assert_eq!(packet.data_len, 5);
}

#[test]
fn compressor_for_each_mode() {
    assert!(matches!(compressor_for(CompressionMode::Uncompressed, 3, None), Ok(None)));
    let payload = sample_payload();
    for (mode, method) in [(CompressionMode::Lz4, 2u8), (CompressionMode::Zstd, 1)] {
        let mut step = compressor_for(mode, 3, None).unwrap().unwrap();
        let mut data = payload.clone();
        let mut packet = packet_for(&data);
        assert_eq!(step.post_process(&mut packet, &mut data), Ok(()));
        assert_eq!(packet.side_data.get(&compression_method_tag()), Some(&[method][..]));
        assert_eq!(mode.to_byte(), method);
    }
    let dict = sample_payload();
    assert!(matches!(compressor_for(CompressionMode::Lz4, 0, Some(&dict)), Ok(Some(_))));
    assert!(matches!(compressor_for(CompressionMode::Zstd, 5, Some(&dict)), Ok(Some(_))));
}

#[test]
fn compression_modes() {
    assert_eq!(CompressionMode::from_str("none"), Ok(CompressionMode::Uncompressed));
    assert_eq!(CompressionMode::from_str("null"), Ok(CompressionMode::Uncompressed));
    assert_eq!(CompressionMode::from_str("zst"), Ok(CompressionMode::Zstd));
    assert_eq!(CompressionMode::from_str("zstd"), Ok(CompressionMode::Zstd));
    assert_eq!(CompressionMode::from_str("lz4"), Ok(CompressionMode::Lz4));
    assert!(CompressionMode::from_str("gzip").is_err());
    assert_eq!(CompressionMode::Uncompressed.to_string(), "none");
    assert_eq!(CompressionMode::Zstd.to_string(), "zstd");
    assert_eq!(CompressionMode::Lz4.to_string(), "lz4");
    assert_eq!(CompressionMode::Uncompressed.to_byte(), 0);
    assert_eq!(CompressionMode::Zstd.to_byte(), 1);
    assert_eq!(CompressionMode::Lz4.to_byte(), 2);
}

/// A dictionary that announces itself as one of Zstandard and holds nothing
/// that one must hold.
fn broken_dictionary() -> Vec<u8> {
    let mut dict = vec![0x37, 0xa4, 0x30, 0xec];
    dict.extend_from_slice(&[0xff; 64]);
    dict
}

#[test]
fn zstd_decoder_refuses_a_broken_dictionary() {
    let dict = broken_dictionary();
    assert!(matches!(ZstdDecoder::new(Some(&dict)), Err(ErrorKind::UnsupportedCompression)));
    assert!(ZstdDecoder::new(None).is_ok());
    assert!(ZstdDecoder::new(Some(&sample_payload())).is_ok());
}
