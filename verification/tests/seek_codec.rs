use ansimoe::bytes::ByteReader;
use ansimoe::encoder::SeekTableEncoder;
use ansimoe::error::ErrorKind;
use ansimoe::packet::Packet;
use ansimoe::seek::{
    decode_seek_payload, decode_seek_table, delta_decode, delta_encode, encode_seek_payload,
    frame_seek_table, SeekEntry, SeekTable,
};
use ansimoe::varint::{read_varint, write_varint};
use tinyrand::{RandRange, StdRand};

fn decode_all(bytes: &[u8], len: usize) -> Result<Vec<i64>, ErrorKind> {
    let mut reader = ByteReader::new(bytes);
    delta_decode(&mut reader, len)
}

#[test]
fn test_delta() {
    let input: Vec<i64> = Vec::from_iter((0i64..3001i64).map(|v| v * 1312));
    let len = input.len();
    let encoded = delta_encode(&input);
    let decoded = decode_all(encoded.as_slice(), len).unwrap();

    assert_eq!(decoded, input);
}

#[test]
fn test_delta_rand() {
    let mut rng = StdRand::default();

    let len: usize = rng.next_range(5000..10000);

    let mut val = 0;
    let mut input = Vec::with_capacity(len);
    for _ in 0..len {
        val += rng.next_range(5000u64..20000u64) as i64;
        input.push(val);
    }

    let encoded = delta_encode(&input);
    let decoded = decode_all(encoded.as_slice(), len).unwrap();

    assert_eq!(decoded, input);
}

#[test]
fn delta_of_a_line_is_flat() {
    // 0, 1312, 2624, 3936 has the delta-of-delta numbers 0, 1312, 0, 0.
    let encoded = delta_encode(&[0, 1312, 2624, 3936]);
    assert_eq!(encoded, vec![0x00, 0xc0, 0x14, 0x00, 0x00]);
    assert_eq!(decode_all(&encoded, 4).unwrap(), vec![0, 1312, 2624, 3936]);
}

#[test]
fn delta_of_one_value() {
    let encoded = delta_encode(&[-1]);
    assert_eq!(encoded, vec![0x01]);
    assert_eq!(decode_all(&encoded, 1).unwrap(), vec![-1]);
}

#[test]
fn delta_wraps_round() {
    let input = vec![i64::MIN, i64::MAX, 0, -1, i64::MAX, i64::MIN];
    let encoded = delta_encode(&input);
    assert_eq!(decode_all(&encoded, input.len()).unwrap(), input);
}

#[test]
fn delta_decode_leaves_the_rest() {
    let mut bytes = delta_encode(&[5, 7, 9]);
    let used = bytes.len();
    bytes.extend_from_slice(&[0xaa, 0xbb]);
    let mut reader = ByteReader::new(&bytes);
    assert_eq!(delta_decode(&mut reader, 3).unwrap(), vec![5, 7, 9]);
    assert_eq!(reader.position(), used);
    assert_eq!(reader.rest(), &[0xaa, 0xbb]);
}

#[test]
fn delta_decode_short_input() {
    let encoded = delta_encode(&[5, 7, 9]);
    assert_eq!(decode_all(&encoded, 4), Err(ErrorKind::UnexpectedEof));
    assert_eq!(decode_all(&[], 1), Err(ErrorKind::UnexpectedEof));
}

#[test]
fn varint_forms() {
    let cases: Vec<(i64, Vec<u8>)> = vec![
        (0, vec![0x00]),
        (-1, vec![0x01]),
        (1, vec![0x02]),
        (-2, vec![0x03]),
        (63, vec![0x7e]),
        (-64, vec![0x7f]),
        (64, vec![0x80, 0x01]),
        (1312, vec![0xc0, 0x14]),
        (i64::MAX, vec![0xfe, 0xff, 0xff, 0xff, 0xff, 0xff, 0xff, 0xff, 0xff, 0x01]),
        (i64::MIN, vec![0xff, 0xff, 0xff, 0xff, 0xff, 0xff, 0xff, 0xff, 0xff, 0x01]),
    ];
    for (value, bytes) in cases {
        let mut out = vec![0x55];
        write_varint(&mut out, value);
        assert_eq!(&out[1..], bytes.as_slice());
        let mut reader = ByteReader::new(&bytes);
        assert_eq!(read_varint(&mut reader), Ok(value));
        assert_eq!(reader.position(), bytes.len());
    }
}

#[test]
fn varint_reads_a_long_form() {
    // A zero with a needless second group.
    let bytes = [0x80, 0x00, 0x07];
    let mut reader = ByteReader::new(&bytes);
    assert_eq!(read_varint(&mut reader), Ok(0));
    assert_eq!(reader.position(), 2);
}

#[test]
fn varint_failures() {
    let mut reader = ByteReader::new(&[]);
    assert_eq!(read_varint(&mut reader), Err(ErrorKind::UnexpectedEof));

    // Cut short.
    let cut = [0x80, 0x80];
    let mut reader = ByteReader::new(&cut);
    assert_eq!(read_varint(&mut reader), Err(ErrorKind::UnexpectedEof));
    assert_eq!(reader.position(), 0);

    // Ten bytes, the tenth holding more than the top bit.
    let wide = [0xff, 0xff, 0xff, 0xff, 0xff, 0xff, 0xff, 0xff, 0xff, 0x02];
    let mut reader = ByteReader::new(&wide);
    assert_eq!(read_varint(&mut reader), Err(ErrorKind::UnexpectedEof));

    // Ten bytes without an end, and nothing after them.
    let open = [0x80; 10];
    let mut reader = ByteReader::new(&open);
    assert_eq!(read_varint(&mut reader), Err(ErrorKind::UnexpectedEof));

    // More than ten bytes without an end.
    let endless = [0x80; 11];
    let mut reader = ByteReader::new(&endless);
    assert_eq!(read_varint(&mut reader), Err(ErrorKind::InvalidData));
}

fn sample_entries() -> Vec<SeekEntry> {
    vec![
        SeekEntry { ts: 0, location: 0 },
        SeekEntry { ts: 100_000, location: 2048 },
        SeekEntry { ts: 200_000, location: 4096 },
    ]
}

#[test]
fn seek_lookup_takes_the_entry_before() {
    let table = SeekTable::new(sample_entries()).unwrap();
    assert_eq!(table.len(), 3);
    assert_eq!(table.lookup(150_000), 1);
    assert_eq!(table.entry(table.lookup(150_000)), SeekEntry { ts: 100_000, location: 2048 });
    assert_eq!(table.lookup(100_000), 1);
    assert_eq!(table.lookup(99_999), 0);
    assert_eq!(table.lookup(0), 0);
    assert_eq!(table.lookup(200_000), 2);
    assert_eq!(table.lookup(i64::MAX), 2);
}

#[test]
fn seek_lookup_before_the_first_entry() {
    let table = SeekTable::new(vec![
        SeekEntry { ts: 40_000, location: 0 },
        SeekEntry { ts: 140_000, location: 700 },
    ])
    .unwrap();
    assert_eq!(table.lookup(10), 0);
    assert_eq!(table.lookup(-5), 0);
}

#[test]
fn seek_table_must_be_in_order() {
    assert!(matches!(SeekTable::new(vec![]), Err(ErrorKind::InvalidData)));
    assert!(matches!(
        SeekTable::new(vec![SeekEntry { ts: -1, location: 0 }]),
        Err(ErrorKind::InvalidData)
    ));
    assert!(matches!(
        SeekTable::new(vec![SeekEntry { ts: 0, location: -1 }]),
        Err(ErrorKind::InvalidData)
    ));
    assert!(matches!(
        SeekTable::new(vec![SeekEntry { ts: 5, location: 0 }, SeekEntry { ts: 5, location: 9 }]),
        Err(ErrorKind::InvalidData)
    ));
    assert!(matches!(
        SeekTable::new(vec![SeekEntry { ts: 5, location: 9 }, SeekEntry { ts: 6, location: 9 }]),
        Err(ErrorKind::InvalidData)
    ));
    assert!(SeekTable::new(vec![SeekEntry { ts: 0, location: 0 }]).is_ok());
}

#[test]
fn seek_payload_round_trip() {
    let entries = sample_entries();
    let payload = encode_seek_payload(&entries);
    // Both columns are lines: first value, first difference, then zeros.
    assert_eq!(payload, vec![0x00, 0xc0, 0x9a, 0x0c, 0x00, 0x00, 0x80, 0x20, 0x00]);
    assert_eq!(decode_seek_payload(&payload, 3).unwrap(), entries);
    assert_eq!(decode_seek_payload(&payload, 0), Err(ErrorKind::InvalidData));
    assert_eq!(decode_seek_payload(&payload, 4), Err(ErrorKind::UnexpectedEof));
}

fn packet_at(timestamp: u64) -> Packet {
    Packet::builder().stream(0).timestamp(timestamp).duration(40_000).build()
}

#[test]
fn seek_table_encoder_samples_every_hundred_milliseconds() {
    let mut encoder = SeekTableEncoder::new(7);
    assert_eq!(encoder.stream(), 7);
    encoder.set_stream_index(2);
    assert_eq!(encoder.stream(), 2);
    assert_eq!(encoder.len(), 0);

    // The first packet gets an entry although it is not at time zero.
    assert!(encoder.would_record(40_000));
    encoder.ingest(&packet_at(40_000), 0);
    assert_eq!(encoder.len(), 1);
    // 99 milliseconds later: too early.
    encoder.ingest(&packet_at(139_999), 100);
    assert_eq!(encoder.len(), 1);
    // 100 milliseconds later.
    encoder.ingest(&packet_at(140_000), 200);
    assert_eq!(encoder.len(), 2);
    // A packet that goes back in time gets none.
    encoder.ingest(&packet_at(0), 300);
    assert_eq!(encoder.len(), 2);
    encoder.ingest(&packet_at(240_500), 400);
    assert_eq!(encoder.len(), 3);

    let bytes = encoder.finish().unwrap();
    assert_eq!(bytes[0], 2);
    let mut reader = ByteReader::new(&bytes);
    let (stream, entries) = decode_seek_table(&mut reader).unwrap();
    assert_eq!(stream, 2);
    assert_eq!(
        entries,
        vec![
            SeekEntry { ts: 40_000, location: 0 },
            SeekEntry { ts: 140_000, location: 200 },
            SeekEntry { ts: 240_500, location: 400 },
        ]
    );
    assert_eq!(reader.position(), bytes.len());
}

#[test]
fn seek_table_of_a_line_is_small() {
    let mut encoder = SeekTableEncoder::new(0);
    let mut raw = 0usize;
    for i in 0..4u64 {
        encoder.ingest(&packet_at(i * 1_312_000), i * 1312);
        raw += 16;
    }
    assert_eq!(encoder.len(), 4);
    let bytes = encoder.finish().unwrap();
    // Seventeen bytes of frame round the compressed columns.
    assert!(bytes.len() - 17 < raw * 4);
    assert_eq!(u64::from_le_bytes(bytes[1..9].try_into().unwrap()) as usize, bytes.len() - 17);
    assert_eq!(u64::from_le_bytes(bytes[9..17].try_into().unwrap()), 4);
}

#[test]
fn seek_table_encoder_without_entries_fails() {
    assert_eq!(SeekTableEncoder::new(0).finish(), Err(ErrorKind::ParameterOutOfRange));
}

#[test]
fn seek_table_frame_layout() {
    let framed = frame_seek_table(9, 3, &[1, 2, 3, 4, 5]);
    assert_eq!(
        framed,
        vec![9, 5, 0, 0, 0, 0, 0, 0, 0, 3, 0, 0, 0, 0, 0, 0, 0, 1, 2, 3, 4, 5]
    );
}

#[test]
fn seek_table_failures() {
    // Too short for the frame.
    let mut reader = ByteReader::new(&[0u8; 16]);
    assert!(matches!(decode_seek_table(&mut reader), Err(ErrorKind::UnexpectedEof)));
    // The payload is shorter than the frame says.
    let framed = frame_seek_table(0, 1, &[1, 2, 3]);
    let mut reader = ByteReader::new(&framed[..framed.len() - 1]);
    assert!(matches!(decode_seek_table(&mut reader), Err(ErrorKind::UnexpectedEof)));
    // The compressed payload is too short for its own length.
    let framed = frame_seek_table(0, 1, &[1, 2]);
    let mut reader = ByteReader::new(&framed);
    assert!(matches!(decode_seek_table(&mut reader), Err(ErrorKind::UnexpectedEof)));
    // The compressed payload points before its start.
    let framed = frame_seek_table(0, 1, &[9, 0, 0, 0, 0x10, b'a', 0x05, 0x00]);
    let mut reader = ByteReader::new(&framed);
    assert!(matches!(decode_seek_table(&mut reader), Err(ErrorKind::InvalidData)));
    // No entries.
    let framed = frame_seek_table(0, 0, &lz4_flex::compress_prepend_size(&[0, 0]));
    let mut reader = ByteReader::new(&framed);
    assert!(matches!(decode_seek_table(&mut reader), Err(ErrorKind::InvalidData)));
}
