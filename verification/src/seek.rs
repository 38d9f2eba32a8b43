//! The seek index: entries, and the delta-of-delta coding of their two columns.

use vstd::bytes::*;
use vstd::prelude::*;

use crate::bytes::{put_u64_le, ByteReader};
use crate::error::ErrorKind;
use crate::lz4::{
    lemma_lz4_sized_roundtrip, lz4_decompress_size_prepended, lz4_sized_packs, lz4_unsized,
};
use crate::varint::{
    lemma_varint_read_len, lemma_varint_roundtrip, read_varint, varint_bytes, varint_read, write_varint,
};

verus! {

/// A point at which playback can resume: a timestamp in microseconds and the
/// offset of a packet from the start of the packet region.
#[derive(Clone, Copy, Debug, PartialEq, Eq, Structural)]
pub struct SeekEntry {
    pub ts: i64,
    pub location: i64,
}

/// The `i`-th number that stands for `xs`: the first value itself, then the
/// change of the difference between neighbours. Differences wrap round.
pub open spec fn delta_of_delta(xs: Seq<i64>, i: int) -> i64 {
    if i <= 0 {
        xs[0]
    } else if i == 1 {
        xs[1].wrapping_sub(xs[0])
    } else {
        xs[i].wrapping_sub(xs[i - 1]).wrapping_sub(xs[i - 1].wrapping_sub(xs[i - 2]))
    }
}

/// The numbers that stand for `xs`, one for each value.
pub open spec fn delta_of_deltas(xs: Seq<i64>) -> Seq<i64> {
    Seq::new(xs.len(), |i: int| delta_of_delta(xs, i))
}

/// The variable-length forms of `values`, one after the other.
pub open spec fn varints(values: Seq<i64>) -> Seq<u8>
    decreases values.len(),
{
    if values.len() == 0 {
        Seq::empty()
    } else {
        varints(values.drop_last()) + varint_bytes(values.last())
    }
}

/// The bytes that stand for `xs`.
pub open spec fn delta_encoding(xs: Seq<i64>) -> Seq<u8> {
    varints(delta_of_deltas(xs))
}

/// What reading `count` variable-length integers from the front of `s` gives:
/// the integers and the number of bytes they took, or the first failure.
pub open spec fn varints_read(s: Seq<u8>, count: nat) -> Result<(Seq<i64>, nat), ErrorKind>
    decreases count,
{
    if count == 0 {
        Ok((Seq::empty(), 0))
    } else {
        match varints_read(s, (count - 1) as nat) {
            Err(e) => Err(e),
            Ok((vs, m)) => match varint_read(s.skip(m as int)) {
                Err(e) => Err(e),
                Ok((v, n)) => Ok((vs.push(v), m + n)),
            },
        }
    }
}

/// Encodes `xs` as its first value followed by the changes of its differences,
/// each as a variable-length integer.
pub fn delta_encode(xs: &[i64]) -> (out: Vec<u8>)
    requires
        xs@.len() >= 1,
    ensures
        out@ == delta_encoding(xs@),
{
    let mut out: Vec<u8> = Vec::new();
    let initial: i64 = xs[0];
    write_varint(&mut out, initial);
    let mut prev_val: i64 = initial;
    let mut prev_delta: i64 = 0;
    let mut i: usize = 1;
    proof {
        let one = delta_of_deltas(xs@).take(1);
        assert(one.drop_last() =~= Seq::<i64>::empty());
        assert(varints(one.drop_last()) =~= Seq::<u8>::empty());
        assert(out@ =~= varints(one));
    }
    while i < xs.len()
        invariant
            1 <= i <= xs@.len(),
            prev_val == xs@[i - 1],
            prev_delta == if i == 1 {
                0i64
            } else {
                xs@[i - 1].wrapping_sub(xs@[i - 2])
            },
            out@ == varints(delta_of_deltas(xs@).take(i as int)),
        decreases xs@.len() - i,
    {
        let val: i64 = xs[i];
        let delta: i64 = val.wrapping_sub(prev_val);
        let delta_of_delta: i64 = delta.wrapping_sub(prev_delta);
        write_varint(&mut out, delta_of_delta);
        proof {
            let next = delta_of_deltas(xs@).take(i + 1);
            assert(next.drop_last() =~= delta_of_deltas(xs@).take(i as int));
            assert(next.last() == delta_of_delta);
        }
        prev_delta = delta;
        prev_val = val;
        i = i + 1;
    }
    proof {
        assert(delta_of_deltas(xs@).take(i as int) =~= delta_of_deltas(xs@));
    }
    out
}

/// Decodes `len` values from the front of `input`: the values whose
/// delta-of-delta numbers are the `len` integers read.
pub fn delta_decode(input: &mut ByteReader, len: usize) -> (r: Result<Vec<i64>, ErrorKind>)
    requires
        len >= 1,
    ensures
        match varints_read(old(input).remaining(), len as nat) {
            Ok((raw, n)) => {
                &&& r matches Ok(xs)
                &&& xs@.len() == len
                &&& delta_of_deltas(xs@) == raw
                &&& old(input).advanced(final(input), n as int)
            },
            Err(e) => r == Err::<Vec<i64>, ErrorKind>(e),
        },
{
    let ghost start = input.remaining();
    proof {
        assert(start.skip(0) =~= start);
        assert(varints_read(start, 0) == Ok::<(Seq<i64>, nat), ErrorKind>((Seq::empty(), 0)));
    }
    let mut prev_val: i64 = match read_varint(input) {
        Ok(v) => v,
        Err(e) => {
            proof {
                lemma_varints_read_fails(start, 1, len as nat);
            }
            return Err(e);
        },
    };
    let mut prev_delta: i64 = 0;
    let mut out: Vec<i64> = Vec::new();
    out.push(prev_val);
    let mut i: usize = 1;
    let ghost mut taken: nat = varint_read(start).unwrap().1;
    proof {
        assert(start.skip(0) =~= start);
        assert(varints_read(start, 0) == Ok::<(Seq<i64>, nat), ErrorKind>((Seq::empty(), 0)));
        assert(delta_of_deltas(out@) =~= Seq::<i64>::empty().push(prev_val));
    }
    while i < len
        invariant
            1 <= i <= len,
            out@.len() == i,
            prev_val == out@[i - 1],
            prev_delta == if i == 1 {
                0i64
            } else {
                out@[i - 1].wrapping_sub(out@[i - 2])
            },
            old(input).advanced(&*input, taken as int),
            start == old(input).remaining(),
            varints_read(start, i as nat) == Ok::<(Seq<i64>, nat), ErrorKind>(
                (delta_of_deltas(out@), taken),
            ),
        decreases len - i,
    {
        let ghost at_value = *input;
        let delta_of_delta: i64 = match read_varint(input) {
            Ok(v) => v,
            Err(e) => {
                proof {
                    lemma_varints_read_fails(start, (i + 1) as nat, len as nat);
                }
                return Err(e);
            },
        };
        let ghost before = out@;
        prev_delta = prev_delta.wrapping_add(delta_of_delta);
        prev_val = prev_val.wrapping_add(prev_delta);
        out.push(prev_val);
        proof {
            let n = varint_read(start.skip(taken as int)).unwrap().1;
            assert(delta_of_deltas(out@) =~= delta_of_deltas(before).push(delta_of_delta));
            old(input).lemma_advanced_twice(&at_value, &*input, taken as int, n as int);
            taken = taken + n;
        }
        i = i + 1;
    }
    Ok(out)
}

/// As many integers are read as were asked for, from within the input.
pub proof fn lemma_varints_read_len(s: Seq<u8>, count: nat)
    ensures
        varints_read(s, count) matches Ok((vs, m)) ==> vs.len() == count && m <= s.len(),
    decreases count,
{
    if count > 0 {
        lemma_varints_read_len(s, (count - 1) as nat);
        match varints_read(s, (count - 1) as nat) {
            Err(e) => {},
            Ok((vs, m)) => {
                lemma_varint_read_len(s.skip(m as int));
            },
        }
    }
}

/// Once reading fails, reading more fails in the same way.
pub proof fn lemma_varints_read_fails(s: Seq<u8>, count: nat, more: nat)
    requires
        count <= more,
        varints_read(s, count) is Err,
    ensures
        varints_read(s, more) == varints_read(s, count),
    decreases more - count,
{
    if count < more {
        lemma_varints_read_fails(s, count, (more - 1) as nat);
    }
}

/// Reading back what was written gives the integers that were written and
/// takes exactly their bytes, whatever follows them.
pub proof fn lemma_varints_roundtrip(values: Seq<i64>, rest: Seq<u8>)
    ensures
        varints_read(varints(values) + rest, values.len()) == Ok::<(Seq<i64>, nat), ErrorKind>(
            (values, varints(values).len()),
        ),
    decreases values.len(),
{
    if values.len() == 0 {
        assert(values =~= Seq::<i64>::empty());
    } else {
        let init = values.drop_last();
        let last = values.last();
        let tail = varint_bytes(last) + rest;
        let s = varints(values) + rest;
        assert(varints(values) == varints(init) + varint_bytes(last));
        assert(s =~= varints(init) + tail);
        lemma_varints_roundtrip(init, tail);
        assert(varints_read(s, init.len()) == Ok::<(Seq<i64>, nat), ErrorKind>(
            (init, varints(init).len()),
        ));
        assert(s.skip(varints(init).len() as int) =~= tail);
        lemma_varint_roundtrip(last, rest);
        assert(init.push(last) =~= values);
        assert(init.len() + 1 == values.len());
    }
}

/// Two sequences with the same delta-of-delta numbers agree up to index `i`.
proof fn lemma_delta_prefix(xs: Seq<i64>, ys: Seq<i64>, i: int)
    requires
        delta_of_deltas(xs) == delta_of_deltas(ys),
        0 <= i < xs.len(),
    ensures
        xs.len() == ys.len(),
        forall|j: int| 0 <= j <= i ==> xs[j] == ys[j],
    decreases i,
{
    assert(delta_of_deltas(xs).len() == xs.len());
    assert(delta_of_deltas(ys).len() == ys.len());
    assert(delta_of_deltas(xs)[i] == delta_of_delta(xs, i));
    assert(delta_of_deltas(ys)[i] == delta_of_delta(ys, i));
    if i > 0 {
        lemma_delta_prefix(xs, ys, i - 1);
    }
}

/// Decoding undoes encoding: from the encoding of `xs`, followed by anything,
/// exactly the delta-of-delta numbers of `xs` are read back, over exactly the
/// bytes of the encoding, and `xs` is the only sequence with those numbers.
pub proof fn law_delta_roundtrip(xs: Seq<i64>, rest: Seq<u8>)
    requires
        xs.len() >= 1,
    ensures
        varints_read(delta_encoding(xs) + rest, xs.len()) == Ok::<(Seq<i64>, nat), ErrorKind>(
            (delta_of_deltas(xs), delta_encoding(xs).len()),
        ),
        forall|ys: Seq<i64>| #[trigger] delta_of_deltas(ys) == delta_of_deltas(xs) ==> ys == xs,
{
    lemma_varints_roundtrip(delta_of_deltas(xs), rest);
    assert forall|ys: Seq<i64>| #[trigger] delta_of_deltas(ys) == delta_of_deltas(xs) implies ys
        == xs by {
        lemma_delta_prefix(xs, ys, xs.len() - 1);
        assert(ys =~= xs);
    }
}

/// The values whose delta-of-delta numbers are `raw`: sums of sums, which wrap
/// round.
pub open spec fn undelta(raw: Seq<i64>) -> Seq<i64>
    decreases raw.len(),
{
    if raw.len() == 0 {
        Seq::empty()
    } else if raw.len() == 1 {
        seq![raw[0]]
    } else {
        let front = undelta(raw.drop_last());
        let n = front.len() as int;
        let delta = if n >= 2 {
            front[n - 1].wrapping_sub(front[n - 2])
        } else {
            0i64
        };
        front.push(front[n - 1].wrapping_add(delta.wrapping_add(raw.last())))
    }
}

/// `undelta` gives as many values as there are numbers, and their
/// delta-of-delta numbers are those it was given.
pub proof fn lemma_undelta(raw: Seq<i64>)
    ensures
        undelta(raw).len() == raw.len(),
        delta_of_deltas(undelta(raw)) == raw,
    decreases raw.len(),
{
    if raw.len() == 0 {
        assert(delta_of_deltas(undelta(raw)) =~= raw);
    } else if raw.len() == 1 {
        assert(delta_of_deltas(undelta(raw)) =~= raw);
    } else {
        let front_raw = raw.drop_last();
        lemma_undelta(front_raw);
        let front = undelta(front_raw);
        let all = undelta(raw);
        let n = front.len() as int;
        assert forall|i: int| 0 <= i < raw.len() implies delta_of_deltas(all)[i] == raw[i] by {
            if i < n {
                assert(delta_of_deltas(front)[i] == front_raw[i]);
                assert(delta_of_delta(all, i) == delta_of_delta(front, i));
            }
        }
        assert(delta_of_deltas(all) =~= raw);
    }
}

/// The timestamps of the entries.
pub open spec fn timestamps(entries: Seq<SeekEntry>) -> Seq<i64> {
    Seq::new(entries.len(), |i: int| entries[i].ts)
}

/// The locations of the entries.
pub open spec fn locations(entries: Seq<SeekEntry>) -> Seq<i64> {
    Seq::new(entries.len(), |i: int| entries[i].location)
}

/// The entries with the given timestamps and locations.
pub open spec fn zipped(ts: Seq<i64>, locations: Seq<i64>) -> Seq<SeekEntry> {
    Seq::new(ts.len(), |i: int| SeekEntry { ts: ts[i], location: locations[i] })
}

/// What a seek table holds before compression: the timestamps, then the
/// locations, each column delta-encoded.
pub open spec fn seek_payload(entries: Seq<SeekEntry>) -> Seq<u8> {
    delta_encoding(timestamps(entries)) + delta_encoding(locations(entries))
}

/// The bytes of a seek table around its compressed payload: the stream, the
/// length of the compressed payload, the number of entries, the payload.
pub open spec fn seek_table_frame(stream: u8, elements: u64, compressed: Seq<u8>) -> Seq<u8> {
    seq![stream] + spec_u64_to_le_bytes(compressed.len() as u64) + spec_u64_to_le_bytes(elements)
        + compressed
}

/// Whether `bytes` are a seek table of `stream` with the given entries, of
/// which there is at least one: the frame round the columns of the entries,
/// compressed with their length in front.
pub open spec fn holds_seek_table(bytes: Seq<u8>, stream: u8, entries: Seq<SeekEntry>) -> bool {
    &&& 1 <= entries.len() <= u64::MAX
    &&& seek_payload(entries).len() <= u32::MAX
    &&& exists|compressed: Seq<u8>|
        {
            &&& #[trigger] lz4_sized_packs(compressed, seek_payload(entries))
            &&& compressed.len() <= u64::MAX
            &&& bytes == seek_table_frame(stream, entries.len() as u64, compressed)
        }
}

/// The entries that a decompressed payload of `elements` entries holds.
pub open spec fn seek_payload_parse(payload: Seq<u8>, elements: nat) -> Result<
    Seq<SeekEntry>,
    ErrorKind,
> {
    if elements == 0 {
        Err(ErrorKind::InvalidData)
    } else {
        match varints_read(payload, elements) {
            Err(e) => Err(e),
            Ok((raw_ts, n)) => match varints_read(payload.skip(n as int), elements) {
                Err(e) => Err(e),
                Ok((raw_locations, m)) => Ok(zipped(undelta(raw_ts), undelta(raw_locations))),
            },
        }
    }
}

/// What the front of `s` reads as one seek table: the stream, the entries and
/// the length of the table, or why there is none. A table without entries is
/// `InvalidData`; a payload that cannot be decompressed fails as
/// decompression does.
#[verifier::opaque]
pub open spec fn seek_table_parse(s: Seq<u8>) -> Result<((u8, Seq<SeekEntry>), nat), ErrorKind> {
    if s.len() < 17 {
        Err(ErrorKind::UnexpectedEof)
    } else {
        let len_bytes = spec_u64_from_le_bytes(s.subrange(1, 9)) as int;
        let elements = spec_u64_from_le_bytes(s.subrange(9, 17)) as nat;
        if s.len() < 17 + len_bytes {
            Err(ErrorKind::UnexpectedEof)
        } else {
            match lz4_unsized(s.subrange(17, 17 + len_bytes)) {
                Err(e) => Err(e),
                Ok(payload) => match seek_payload_parse(payload, elements) {
                    Err(e) => Err(e),
                    Ok(entries) => Ok(((s[0], entries), (17 + len_bytes) as nat)),
                },
            }
        }
    }
}

/// The columns of entries read back as the entries.
pub proof fn lemma_seek_payload_roundtrip(entries: Seq<SeekEntry>)
    requires
        entries.len() >= 1,
    ensures
        seek_payload_parse(seek_payload(entries), entries.len()) == Ok::<
            Seq<SeekEntry>,
            ErrorKind,
        >(entries),
{
    let ts = timestamps(entries);
    let locations = locations(entries);
    let payload = seek_payload(entries);
    law_delta_roundtrip(ts, delta_encoding(locations));
    law_delta_roundtrip(locations, Seq::empty());
    assert(delta_encoding(locations) + Seq::<u8>::empty() =~= delta_encoding(locations));
    assert(payload.skip(delta_encoding(ts).len() as int) =~= delta_encoding(locations));
    lemma_undelta(delta_of_deltas(ts));
    lemma_undelta(delta_of_deltas(locations));
    assert(undelta(delta_of_deltas(ts)) == ts);
    assert(undelta(delta_of_deltas(locations)) == locations);
    assert(zipped(ts, locations) =~= entries);
}

/// A seek table reads back as its stream and its entries, over exactly its
/// bytes, whatever follows it.
pub proof fn law_seek_table_roundtrip(
    bytes: Seq<u8>,
    stream: u8,
    entries: Seq<SeekEntry>,
    rest: Seq<u8>,
)
    requires
        holds_seek_table(bytes, stream, entries),
    ensures
        seek_table_parse(bytes + rest) == Ok::<((u8, Seq<SeekEntry>), nat), ErrorKind>(
            ((stream, entries), bytes.len()),
        ),
{
    reveal(seek_table_parse);
    let compressed = choose|compressed: Seq<u8>|
        {
            &&& #[trigger] lz4_sized_packs(compressed, seek_payload(entries))
            &&& compressed.len() <= u64::MAX
            &&& bytes == seek_table_frame(stream, entries.len() as u64, compressed)
        };
    let s = bytes + rest;
    lemma_auto_spec_u64_to_from_le_bytes();
    assert(s.subrange(1, 9) =~= spec_u64_to_le_bytes(compressed.len() as u64));
    assert(s.subrange(9, 17) =~= spec_u64_to_le_bytes(entries.len() as u64));
    assert(s.subrange(17, 17 + compressed.len() as int) =~= compressed);
    lemma_lz4_sized_roundtrip(compressed, seek_payload(entries));
    lemma_seek_payload_roundtrip(entries);
}

/// Puts the frame of a seek table round its compressed payload.
pub fn frame_seek_table(stream_index: u8, elements: u64, compressed: &[u8]) -> (out: Vec<u8>)
    ensures
        out@ == seek_table_frame(stream_index, elements, compressed@),
{
    let mut out: Vec<u8> = Vec::new();
    out.push(stream_index);
    put_u64_le(&mut out, compressed.len() as u64);
    put_u64_le(&mut out, elements);
    out.extend_from_slice(compressed);
    proof {
        assert(out@ =~= seek_table_frame(stream_index, elements, compressed@));
    }
    out
}

/// The uncompressed payload of a seek table with the given entries.
pub fn encode_seek_payload(entries: &[SeekEntry]) -> (out: Vec<u8>)
    requires
        entries@.len() >= 1,
    ensures
        out@ == seek_payload(entries@),
{
    let mut ts: Vec<i64> = Vec::new();
    let mut locations_column: Vec<i64> = Vec::new();
    let mut i: usize = 0;
    while i < entries.len()
        invariant
            i <= entries@.len(),
            ts@ == timestamps(entries@).take(i as int),
            locations_column@ == locations(entries@).take(i as int),
        decreases entries@.len() - i,
    {
        ts.push(entries[i].ts);
        locations_column.push(entries[i].location);
        proof {
            assert(ts@ =~= timestamps(entries@).take(i + 1));
            assert(locations_column@ =~= locations(entries@).take(i + 1));
        }
        i = i + 1;
    }
    proof {
        assert(ts@ =~= timestamps(entries@));
        assert(locations_column@ =~= locations(entries@));
    }
    let mut encoded: Vec<u8> = delta_encode(ts.as_slice());
    let mut encoded_locations: Vec<u8> = delta_encode(locations_column.as_slice());
    encoded.append(&mut encoded_locations);
    encoded
}

/// The entries that the decompressed payload of a seek table holds.
pub fn decode_seek_payload(payload: &[u8], elements: u64) -> (r: Result<Vec<SeekEntry>, ErrorKind>)
    ensures
        match seek_payload_parse(payload@, elements as nat) {
            Ok(entries) => r matches Ok(v) && v@ == entries,
            Err(e) => r matches Err(f) && f == e,
        },
{
    if elements == 0 {
        return Err(ErrorKind::InvalidData);
    }
    let mut input: ByteReader = ByteReader::new(payload);
    proof {
        assert(input.remaining() =~= payload@);
    }
    if elements > usize::MAX as u64 {
        // More entries than the payload has bytes: reading them fails.
        proof {
            lemma_varints_read_len(payload@, usize::MAX as nat);
            lemma_varints_read_min(payload@, usize::MAX as nat);
        }
        let _len: usize = payload.len();
        return match delta_decode(&mut input, usize::MAX) {
            Err(e) => {
                proof {
                    lemma_varints_read_fails(payload@, usize::MAX as nat, elements as nat);
                }
                Err(e)
            },
            Ok(_) => {
                proof {
                    let n = varints_read(payload@, usize::MAX as nat).unwrap().1;
                    assert(n == payload@.len());
                    assert(payload@.skip(n as int).len() == 0);
                    assert(varints_read(payload@, (usize::MAX + 1) as nat) is Err);
                    lemma_varints_read_fails(
                        payload@,
                        (usize::MAX + 1) as nat,
                        elements as nat,
                    );
                }
                Err(ErrorKind::UnexpectedEof)
            },
        };
    }
    let count: usize = elements as usize;
    let ghost at_start = input;
    let ts: Vec<i64> = delta_decode(&mut input, count)?;
    let ghost at_locations = input;
    let locations_column: Vec<i64> = delta_decode(&mut input, count)?;
    let mut entries: Vec<SeekEntry> = Vec::new();
    let mut i: usize = 0;
    proof {
        let raw_ts = varints_read(payload@, elements as nat).unwrap().0;
        let n = varints_read(payload@, elements as nat).unwrap().1;
        let raw_locations = varints_read(payload@.skip(n as int), elements as nat).unwrap().0;
        lemma_undelta(raw_ts);
        lemma_undelta(raw_locations);
        law_delta_unique(ts@, undelta(raw_ts));
        law_delta_unique(locations_column@, undelta(raw_locations));
    }
    while i < count
        invariant
            i <= count,
            ts@.len() == count,
            locations_column@.len() == count,
            entries@ == zipped(ts@, locations_column@).take(i as int),
        decreases count - i,
    {
        entries.push(SeekEntry { ts: ts[i], location: locations_column[i] });
        proof {
            assert(entries@ =~= zipped(ts@, locations_column@).take(i + 1));
        }
        i = i + 1;
    }
    proof {
        assert(entries@ =~= zipped(ts@, locations_column@));
    }
    Ok(entries)
}

/// Every integer that is read takes at least one byte.
pub proof fn lemma_varints_read_min(s: Seq<u8>, count: nat)
    ensures
        varints_read(s, count) matches Ok((vs, m)) ==> m >= count,
    decreases count,
{
    if count > 0 {
        lemma_varints_read_min(s, (count - 1) as nat);
        match varints_read(s, (count - 1) as nat) {
            Err(e) => {},
            Ok((vs, m)) => {
                lemma_varint_read_len(s.skip(m as int));
            },
        }
    }
}

/// Two sequences with the same delta-of-delta numbers are the same.
pub proof fn law_delta_unique(xs: Seq<i64>, ys: Seq<i64>)
    requires
        delta_of_deltas(xs) == delta_of_deltas(ys),
    ensures
        xs == ys,
{
    assert(delta_of_deltas(xs).len() == xs.len());
    assert(delta_of_deltas(ys).len() == ys.len());
    if xs.len() > 0 {
        lemma_delta_prefix(xs, ys, xs.len() - 1);
    }
    assert(xs =~= ys);
}

/// Reads one seek table from the front of `input`: its stream and entries.
pub fn decode_seek_table(input: &mut ByteReader) -> (r: Result<(u8, Vec<SeekEntry>), ErrorKind>)
    ensures
        match seek_table_parse(old(input).remaining()) {
            Ok(((stream, entries), n)) => {
                &&& r matches Ok((s, v))
                &&& s == stream
                &&& v@ == entries
                &&& old(input).advanced(final(input), n as int)
            },
            Err(e) => r matches Err(f) && f == e,
        },
{
    reveal(seek_table_parse);
    let ghost s = input.remaining();
    let ghost at0 = *input;
    if input.available() < 17 {
        return Err(ErrorKind::UnexpectedEof);
    }
    let stream_index: u8 = input.read_u8()?;
    let ghost at1 = *input;
    let len_bytes: u64 = input.read_u64()?;
    let ghost at9 = *input;
    proof {
        at0.lemma_advanced_twice(&at1, &at9, 1, 8);
        assert(s.skip(1).subrange(0, 8) =~= s.subrange(1, 9));
    }
    let len_elements: u64 = input.read_u64()?;
    let ghost at17 = *input;
    proof {
        at0.lemma_advanced_twice(&at9, &at17, 9, 8);
        assert(s.skip(9).subrange(0, 8) =~= s.subrange(9, 17));
    }
    if len_bytes > input.available() as u64 {
        return Err(ErrorKind::UnexpectedEof);
    }
    let compressed: &[u8] = input.take(len_bytes as usize)?;
    proof {
        at0.lemma_advanced_twice(&at17, &*input, 17, len_bytes as int);
        assert(compressed@ =~= s.subrange(17, 17 + len_bytes));
    }
    let payload: Vec<u8> = lz4_decompress_size_prepended(compressed)?;
    let entries: Vec<SeekEntry> = decode_seek_payload(payload.as_slice(), len_elements)?;
    Ok((stream_index, entries))
}

/// What a seek table holds: at least one entry, none before time zero or the
/// start of the packets, each later and further on than the one before it.
pub open spec fn valid_seek_table(entries: Seq<SeekEntry>) -> bool {
    &&& entries.len() >= 1
    &&& entries[0].ts >= 0
    &&& entries[0].location >= 0
    &&& forall|i: int, j: int|
        0 <= i < j < entries.len() ==> (#[trigger] entries[i]).ts < (#[trigger] entries[j]).ts
            && entries[i].location < entries[j].location
}

/// Whether `i` is the entry to resume from for the time `t`: the last entry
/// that is not later than `t`, or the first entry where all are later.
pub open spec fn seek_choice(entries: Seq<SeekEntry>, t: i64, i: int) -> bool {
    &&& 0 <= i < entries.len()
    &&& i == 0 || entries[i].ts <= t
    &&& forall|j: int| 0 <= j < entries.len() && (#[trigger] entries[j]).ts <= t ==> j <= i
}

/// Where the first entry is not later than the time, the entry to resume from
/// is the last that is not later than the time: it is not later itself, no
/// entry that is not later than the time is later than it, and where an entry
/// has exactly the time, it has.
pub proof fn law_seek_choice_is_greatest(table: Seq<SeekEntry>, time: i64, i: int)
    requires
        valid_seek_table(table),
        seek_choice(table, time, i),
        table[0].ts <= time,
    ensures
        table[i].ts <= time,
        forall|j: int|
            0 <= j < table.len() && (#[trigger] table[j]).ts <= time ==> table[j].ts
                <= table[i].ts,
        forall|j: int|
            0 <= j < table.len() && (#[trigger] table[j]).ts == time ==> table[i].ts == time,
{
    assert forall|j: int| 0 <= j < table.len() && (#[trigger] table[j]).ts <= time implies table[j].ts
        <= table[i].ts by {
        if j < i {
            assert(table[j].ts < table[i].ts);
        }
    }
}

/// The seek entries of one stream, in order.
pub struct SeekTable {
    entries: Vec<SeekEntry>,
}

impl View for SeekTable {
    type V = Seq<SeekEntry>;

    closed spec fn view(&self) -> Seq<SeekEntry> {
        self.entries@
    }
}

impl SeekTable {
    #[verifier::type_invariant]
    spec fn well_formed(self) -> bool {
        valid_seek_table(self.entries@)
    }

    /// The table with the given entries; `InvalidData` where they are not in
    /// order, or there is none.
    pub fn new(entries: Vec<SeekEntry>) -> (r: Result<SeekTable, ErrorKind>)
        ensures
            match r {
                Ok(table) => table@ == entries@ && valid_seek_table(entries@),
                Err(e) => e == ErrorKind::InvalidData && !valid_seek_table(entries@),
            },
    {
        if entries.len() == 0 || entries[0].ts < 0 || entries[0].location < 0 {
            return Err(ErrorKind::InvalidData);
        }
        let mut i: usize = 1;
        while i < entries.len()
            invariant
                1 <= i <= entries@.len(),
                forall|a: int, b: int|
                    0 <= a < b < i ==> (#[trigger] entries@[a]).ts < (#[trigger] entries@[b]).ts
                        && entries@[a].location < entries@[b].location,
            decreases entries@.len() - i,
        {
            if entries[i - 1].ts >= entries[i].ts || entries[i - 1].location
                >= entries[i].location {
                return Err(ErrorKind::InvalidData);
            }
            proof {
                assert forall|a: int, b: int| 0 <= a < b < i + 1 implies (
                #[trigger] entries@[a]).ts < (#[trigger] entries@[b]).ts && entries@[a].location
                    < entries@[b].location by {
                    if b == i && a < i - 1 {
                        assert(entries@[a].ts < entries@[i - 1].ts);
                    }
                }
            }
            i = i + 1;
        }
        Ok(SeekTable { entries })
    }

    /// The number of entries.
    pub fn len(&self) -> (n: usize)
        ensures
            n == self@.len(),
            valid_seek_table(self@),
    {
        proof {
            use_type_invariant(self);
        }
        self.entries.len()
    }

    /// The `i`-th entry.
    pub fn entry(&self, i: usize) -> (e: SeekEntry)
        requires
            i < self@.len(),
        ensures
            e == self@[i as int],
    {
        self.entries[i]
    }

    /// The index of the entry to resume from for the time `time`, found by
    /// halving the table.
    pub fn lookup(&self, time: i64) -> (i: usize)
        ensures
            seek_choice(self@, time, i as int),
    {
        proof {
            use_type_invariant(self);
        }
        let mut low: usize = 0;
        let mut high: usize = self.entries.len();
        // Entries before `low` are not later than `time`; those from `high` on are.
        while low < high
            invariant
                low <= high <= self.entries@.len(),
                valid_seek_table(self.entries@),
                forall|j: int| 0 <= j < low ==> (#[trigger] self.entries@[j]).ts <= time,
                forall|j: int|
                    high <= j < self.entries@.len() ==> (#[trigger] self.entries@[j]).ts > time,
            decreases high - low,
        {
            let mid: usize = low + (high - low) / 2;
            if self.entries[mid].ts <= time {
                proof {
                    assert forall|j: int| 0 <= j < mid + 1 implies (
                    #[trigger] self.entries@[j]).ts <= time by {
                        if j < mid {
                            assert(self.entries@[j].ts < self.entries@[mid as int].ts);
                        }
                    }
                }
                low = mid + 1;
            } else {
                proof {
                    assert forall|j: int| mid <= j < self.entries@.len() implies (
                    #[trigger] self.entries@[j]).ts > time by {
                        if j > mid {
                            assert(self.entries@[mid as int].ts < self.entries@[j].ts);
                        }
                    }
                }
                high = mid;
            }
        }
        if low == 0 {
            0
        } else {
            low - 1
        }
    }
}

} // verus!
