//! The encoding pipeline: from a source frame to a packet and its payload.

use arrayvec::ArrayVec;
use litemap::LiteMap;
use vstd::bytes::*;
use vstd::prelude::*;

use crate::bytes::put_u64_le;
use crate::compress::PostProcessor;
use crate::counters::StreamCounters;
use crate::error::{failure_of, ErrorKind};
use crate::lz4::{lz4_compress_prepend_size, lz4_sizable, lz4_sized_packs};
use crate::packet::{
    law_packet_roundtrip, packet_bytes, packet_parse, EncodableData, Packet, PacketDataType,
    PacketView,
};
use crate::seek::{
    encode_seek_payload, frame_seek_table, holds_seek_table, seek_payload, seek_table_frame,
    valid_seek_table, SeekEntry,
};
use crate::side_data::{valid_side_data, SideData};
use crate::sub_rect::{
    encode_sub_rects, sub_rect_vec_bytes, sub_rect_vec_encodable, sub_rect_views,
    sub_rects_encodable, SubRect,
};

verus! {

/// What a source packet holds.
#[derive(Clone, Copy, Debug, PartialEq, Eq, Structural)]
pub enum PacketType {
    Video,
    Subtitle,
    Unknown,
    Invalid,
}

/// One frame or subtitle event as the source delivers it. Times are in
/// microseconds.
pub struct FFPacket {
    pub stream_idx: usize,
    /// The number of the frame within its stream.
    pub frame_idx: usize,
    pub kind: PacketType,
    pub timestamp: u64,
    pub duration: u64,
    pub binary_data: Vec<u8>,
    pub sub_rects: Vec<SubRect>,
}

impl Default for FFPacket {
    fn default() -> (p: FFPacket)
        ensures
            p.stream_idx == usize::MAX,
            p.frame_idx == usize::MAX,
            p.kind == PacketType::Invalid,
            p.timestamp == 0,
            p.duration == 0,
            p.binary_data@.len() == 0,
            p.sub_rects@.len() == 0,
    {
        FFPacket {
            stream_idx: usize::MAX,
            frame_idx: usize::MAX,
            kind: PacketType::Invalid,
            timestamp: 0,
            duration: 0,
            binary_data: Vec::new(),
            sub_rects: Vec::new(),
        }
    }
}

impl FFPacket {
    /// Takes in a decoded video frame: its stream, its number, its time and
    /// duration in microseconds, and its pixels, which are added to the data
    /// that is there.
    pub fn ingest_video(&mut self, stream_idx: usize, idx: usize, pts: u64, duration: u64, data: &[u8])
        ensures
            final(self).stream_idx == stream_idx,
            final(self).frame_idx == idx,
            final(self).kind == PacketType::Video,
            final(self).timestamp == pts,
            final(self).duration == duration,
            final(self).binary_data@ == old(self).binary_data@ + data@,
            final(self).sub_rects == old(self).sub_rects,
    {
        self.stream_idx = stream_idx;
        self.frame_idx = idx;
        self.kind = PacketType::Video;
        self.timestamp = pts;
        self.duration = duration;
        self.binary_data.extend_from_slice(data);
    }

    /// Takes in a source packet of the kind `kind`: its stream, its number,
    /// its time and duration, and, where `with_data` is set and the packet has
    /// data, its data, which are added to the data that is there.
    pub fn ingest_packet(
        &mut self,
        stream_idx: usize,
        idx: usize,
        kind: PacketType,
        pts: u64,
        duration: u64,
        with_data: bool,
        data: Option<&[u8]>,
    )
        ensures
            final(self).stream_idx == stream_idx,
            final(self).frame_idx == idx,
            final(self).kind == kind,
            final(self).timestamp == pts,
            final(self).duration == duration,
            final(self).binary_data@ == match data {
                Some(d) => if with_data {
                    old(self).binary_data@ + d@
                } else {
                    old(self).binary_data@
                },
                None => old(self).binary_data@,
            },
            final(self).sub_rects == old(self).sub_rects,
    {
        self.stream_idx = stream_idx;
        self.frame_idx = idx;
        self.kind = kind;
        self.duration = duration;
        self.timestamp = pts;
        if with_data {
            match data {
                Some(d) => {
                    self.binary_data.extend_from_slice(d);
                },
                None => {},
            }
        }
    }

    /// Empties the packet for its next use; the room of its data is kept up
    /// to `max_capacity` bytes.
    pub fn recycle(&mut self, max_capacity: usize)
        ensures
            final(self).stream_idx == usize::MAX,
            final(self).frame_idx == usize::MAX,
            final(self).kind == PacketType::Invalid,
            final(self).timestamp == 0,
            final(self).duration == 0,
            final(self).binary_data@.len() == 0,
            final(self).sub_rects@.len() == 0,
    {
        self.stream_idx = usize::MAX;
        self.frame_idx = usize::MAX;
        self.kind = PacketType::Invalid;
        self.timestamp = 0;
        self.duration = 0;
        self.binary_data.clear();
        shrink_bytes(&mut self.binary_data, max_capacity);
        self.sub_rects = Vec::new();
    }
}

/// Gives back the room of `data` beyond `max_capacity` bytes.
/// Trusted: `Vec::shrink_to` leaves what the vector holds as it is.
#[verifier::external_body]
pub(crate) fn shrink_bytes(data: &mut Vec<u8>, max_capacity: usize)
    ensures
        final(data)@ == old(data)@,
{
    data.shrink_to(max_capacity);
}

/// The first stage of a pipeline: it makes the payload of a packet from a
/// source packet.
pub trait FFToAnsi: Send {
    /// Whether the stage, as it stands, may answer so to the source packet
    /// `input`, the header `before` and the payload `data_before`: with
    /// success, or with the error `failure`, leaving the header `after` and
    /// the payload `data_after`. A stage that says nothing of itself may
    /// answer in any way.
    open spec fn answers(
        &self,
        input: FFPacket,
        before: PacketView,
        data_before: Seq<u8>,
        failure: Option<ErrorKind>,
        after: PacketView,
        data_after: Seq<u8>,
    ) -> bool {
        true
    }

    /// Appends the payload to `data` and completes the header. On success the
    /// header's `data_len` is the length of the payload.
    fn process(&mut self, input: &FFPacket, packet: &mut Packet, data: &mut Vec<u8>) -> (r: Result<
        (),
        ErrorKind,
    >)
        ensures
            old(self).answers(
                *input,
                old(packet)@,
                old(data)@,
                failure_of(r),
                final(packet)@,
                final(data)@,
            ),
            r is Ok ==> final(packet).data_len == final(data)@.len(),
    ;
}

/// One more than the greatest number of steps after the first stage.
pub const PIPELINE_STEPS_LIMIT: usize = 9;

/// A stage of a pipeline, held as it was given.
pub struct Stage<T> {
    pub held: T,
}

/// The first stage of a pipeline.
pub type FirstStage = Stage<Box<dyn FFToAnsi>>;

/// A step after the first stage of a pipeline.
pub type Step = Stage<Box<dyn PostProcessor>>;

/// Whether the step `j` of `steps`, as it stands, may make the header and the
/// payload at `j + 1` of those at `j`, with success.
pub open spec fn step_passes(
    steps: Seq<Step>,
    headers: Seq<PacketView>,
    payloads: Seq<Seq<u8>>,
    j: int,
) -> bool {
    steps[j].held.answers(headers[j], payloads[j], None, headers[j + 1], payloads[j + 1])
}

/// Whether `headers` and `payloads` may be what the first `k` of `steps` are
/// given and leave, one step working on what the step before it left, each
/// with success.
pub open spec fn passed(
    steps: Seq<Step>,
    k: int,
    headers: Seq<PacketView>,
    payloads: Seq<Seq<u8>>,
) -> bool {
    &&& headers.len() == k + 1
    &&& payloads.len() == k + 1
    &&& forall|j: int| 0 <= j < k ==> #[trigger] step_passes(steps, headers, payloads, j)
}

/// Whether a pipeline of the first stage `first` and the steps `steps` may
/// get as far as its step `k` with the headers `headers` and the payloads
/// `payloads`: the first stage makes the first of them of the source packet,
/// and each of the `k` steps the next.
pub open spec fn pipeline_reaches(
    first: FirstStage,
    steps: Seq<Step>,
    input: FFPacket,
    before: PacketView,
    data_before: Seq<u8>,
    k: int,
    headers: Seq<PacketView>,
    payloads: Seq<Seq<u8>>,
) -> bool {
    &&& 0 <= k <= steps.len()
    &&& passed(steps, k, headers, payloads)
    &&& first.held.answers(input, before, data_before, None, headers[0], payloads[0])
}

/// Whether a pipeline of the first stage `first` and the steps `steps` may
/// answer so to a source packet: with success where the first stage and then
/// every step in its order succeeds, each working on what the one before it
/// left; else with the error of the first that fails, and what that one left.
pub open spec fn pipeline_answers(
    first: FirstStage,
    steps: Seq<Step>,
    input: FFPacket,
    before: PacketView,
    data_before: Seq<u8>,
    failure: Option<ErrorKind>,
    after: PacketView,
    data_after: Seq<u8>,
) -> bool {
    match failure {
        None => exists|headers: Seq<PacketView>, payloads: Seq<Seq<u8>>|
            {
                &&& #[trigger] pipeline_reaches(
                    first,
                    steps,
                    input,
                    before,
                    data_before,
                    steps.len() as int,
                    headers,
                    payloads,
                )
                &&& after == headers.last()
                &&& data_after == payloads.last()
            },
        Some(e) => first.held.answers(input, before, data_before, Some(e), after, data_after)
            || exists|headers: Seq<PacketView>, payloads: Seq<Seq<u8>>, k: int|
            {
                &&& #[trigger] pipeline_reaches(
                    first,
                    steps,
                    input,
                    before,
                    data_before,
                    k,
                    headers,
                    payloads,
                )
                &&& k < steps.len()
                &&& steps[k].held.answers(headers[k], payloads[k], Some(e), after, data_after)
            },
    }
}

/// The steps of a pipeline, kept in an `ArrayVec` of at most eight.
pub type Steps = ArrayVec<Step, 8>;

/// The steps that an `ArrayVec` holds, in their order.
pub uninterp spec fn step_items(steps: Steps) -> Seq<Step>;

/// No steps.
/// Trusted: `arrayvec::ArrayVec::new` returns a vector without elements.
#[verifier::external_body]
pub(crate) fn steps_new() -> (steps: Steps)
    ensures
        step_items(steps).len() == 0,
{
    ArrayVec::new()
}

/// The number of steps.
/// Trusted: `arrayvec::ArrayVec::len` returns the number of elements, which
/// is never more than the capacity, 8.
#[verifier::external_body]
pub(crate) fn steps_len(steps: &Steps) -> (n: usize)
    ensures
        n == step_items(*steps).len(),
        n <= 8,
{
    steps.len()
}

/// Puts `step` at the end.
/// Trusted: `arrayvec::ArrayVec::push` appends the element; it panics where
/// the vector is full.
#[verifier::external_body]
pub(crate) fn steps_push(steps: &mut Steps, step: Step)
    requires
        step_items(*old(steps)).len() < 8,
    ensures
        step_items(*final(steps)) == step_items(*old(steps)).push(step),
{
    steps.push(step);
}

/// The step at `index`, to be worked with where it stands.
/// Trusted: `arrayvec::ArrayVec::as_mut_slice` gives the elements in their
/// order, each to be changed in its place; the others stay as they are.
#[verifier::external_body]
pub(crate) fn steps_at(steps: &mut Steps, index: usize) -> (step: &mut Step)
    requires
        index < step_items(*old(steps)).len(),
    ensures
        *step == step_items(*old(steps))[index as int],
        step_items(*final(steps)) == step_items(*old(steps)).update(index as int, *final(step)),
{
    &mut steps.as_mut_slice()[index]
}

/// The stages that the packets of one stream pass through.
pub struct Pipeline {
    start: FirstStage,
    post_steps: Steps,
}

impl Pipeline {
    /// The first stage.
    pub closed spec fn first(&self) -> FirstStage {
        self.start
    }

    /// The steps after the first stage, in their order.
    pub closed spec fn later(&self) -> Seq<Step> {
        step_items(self.post_steps)
    }

    /// The number of steps after the first stage.
    pub open spec fn steps(&self) -> nat {
        self.later().len()
    }

    /// A pipeline of the first stage `start` alone.
    pub fn new(start: Box<dyn FFToAnsi>) -> (p: Pipeline)
        ensures
            p.first().held == start,
            p.later() == Seq::<Step>::empty(),
    {
        let first = Stage { held: start };
        let p = Pipeline { start: first, post_steps: steps_new() };
        proof {
            assert(p.later() =~= Seq::<Step>::empty());
        }
        p
    }

    /// The number of steps after the first stage.
    pub fn len(&self) -> (n: usize)
        ensures
            n == self.steps(),
    {
        steps_len(&self.post_steps)
    }

    /// The pipeline with one more step at its end. A pipeline holds at most
    /// eight steps.
    pub fn with_step(self, step: Box<dyn PostProcessor>) -> (p: Pipeline)
        requires
            self.steps() + 1 < PIPELINE_STEPS_LIMIT,
        ensures
            p.first() == self.first(),
            p.later().len() == self.later().len() + 1,
            p.later().drop_last() == self.later(),
            p.later().last().held == step,
    {
        let mut p: Pipeline = self;
        let last = Stage { held: step };
        steps_push(&mut p.post_steps, last);
        proof {
            assert(p.later().drop_last() =~= self.later());
        }
        p
    }

    /// Runs the first stage and then the steps in their order, each on what
    /// the one before it left, up to the first that fails.
    pub fn run(&mut self, input: &FFPacket, packet: &mut Packet, data: &mut Vec<u8>) -> (r: Result<
        (),
        ErrorKind,
    >)
        ensures
            final(self).steps() == old(self).steps(),
            pipeline_answers(
                old(self).first(),
                old(self).later(),
                *input,
                old(packet)@,
                old(data)@,
                failure_of(r),
                final(packet)@,
                final(data)@,
            ),
            r is Ok ==> final(packet).data_len == final(data)@.len(),
    {
        let ghost first = self.start;
        let ghost steps = step_items(self.post_steps);
        let started = self.start.held.process(input, packet, data);
        match started {
            Ok(_) => {},
            Err(e) => {
                return Err(e);
            },
        }
        let ghost mut headers = seq![packet@];
        let ghost mut payloads = seq![data@];
        let mut i: usize = 0;
        while i < steps_len(&self.post_steps)
            invariant
                i <= steps.len(),
                first == old(self).first(),
                steps == old(self).later(),
                step_items(self.post_steps).len() == steps.len(),
                forall|j: int| i <= j < steps.len() ==> step_items(self.post_steps)[j] == steps[j],
                pipeline_reaches(
                    first,
                    steps,
                    *input,
                    old(packet)@,
                    old(data)@,
                    i as int,
                    headers,
                    payloads,
                ),
                headers[i as int] == packet@,
                payloads[i as int] == data@,
                packet.data_len == data@.len(),
            decreases steps.len() - i,
        {
            let step = steps_at(&mut self.post_steps, i);
            let stepped = step.held.post_process(packet, data);
            match stepped {
                Ok(_) => {},
                Err(e) => {
                    return Err(e);
                },
            }
            proof {
                let longer = headers.push(packet@);
                let more = payloads.push(data@);
                assert forall|j: int| 0 <= j < i + 1 implies #[trigger] step_passes(
                    steps,
                    longer,
                    more,
                    j,
                ) by {
                    if j < i {
                        assert(step_passes(steps, headers, payloads, j));
                    }
                }
                headers = longer;
                payloads = more;
            }
            i = i + 1;
        }
        Ok(())
    }
}

/// The first stage for subtitle streams: the payload holds the rectangles of
/// the source packet.
pub struct AnsiSubtitleEncoder;

impl FFToAnsi for AnsiSubtitleEncoder {
    open spec fn answers(
        &self,
        input: FFPacket,
        before: PacketView,
        data_before: Seq<u8>,
        failure: Option<ErrorKind>,
        after: PacketView,
        data_after: Seq<u8>,
    ) -> bool {
        if sub_rect_vec_encodable(sub_rect_views(input.sub_rects@)) {
            &&& failure is None
            &&& data_after == data_before + sub_rect_vec_bytes(sub_rect_views(input.sub_rects@))
            &&& after == (PacketView {
                data_len: data_after.len() as u64,
                data_type: PacketDataType::Subtitle,
                ..before
            })
        } else {
            failure == Some(ErrorKind::ParameterOutOfRange) && after == before && data_after
                == data_before
        }
    }

    /// Appends the rectangles of `input` to `data`, and sets the header's
    /// payload type and length. Fails with `ParameterOutOfRange`, changing
    /// nothing, where the rectangles cannot be written.
    fn process(&mut self, input: &FFPacket, packet: &mut Packet, data: &mut Vec<u8>) -> (r: Result<
        (),
        ErrorKind,
    >)
        ensures
            match r {
                Ok(_) => {
                    &&& sub_rect_vec_encodable(sub_rect_views(input.sub_rects@))
                    &&& final(data)@ == old(data)@ + sub_rect_vec_bytes(
                        sub_rect_views(input.sub_rects@),
                    )
                    &&& final(packet)@ == (PacketView {
                        data_len: final(data)@.len() as u64,
                        data_type: PacketDataType::Subtitle,
                        ..old(packet)@
                    })
                },
                Err(e) => {
                    &&& e == ErrorKind::ParameterOutOfRange
                    &&& !sub_rect_vec_encodable(sub_rect_views(input.sub_rects@))
                    &&& final(data)@ == old(data)@
                    &&& final(packet)@ == old(packet)@
                },
            },
    {
        if !sub_rects_encodable(input.sub_rects.as_slice()) {
            return Err(ErrorKind::ParameterOutOfRange);
        }
        let _ = encode_sub_rects(input.sub_rects.as_slice(), data);
        packet.data_len = data.len() as u64;
        packet.data_type = PacketDataType::Subtitle;
        Ok(())
    }
}

/// Each entry is later than the one before it, and none is before time zero.
pub open spec fn timestamps_increase(entries: Seq<SeekEntry>) -> bool {
    &&& forall|i: int| 0 <= i < entries.len() ==> (#[trigger] entries[i]).ts >= 0
    &&& forall|i: int, j: int|
        0 <= i < j < entries.len() ==> (#[trigger] entries[i]).ts < (#[trigger] entries[j]).ts
}

/// Collects the seek entries of one stream while it is encoded: the first
/// packet, and after it every packet that is at least `resolution`
/// milliseconds later than the last one collected.
pub struct SeekTableEncoder {
    stream_index: u8,
    resolution: u64,
    last_recorded: u64,
    entries: Vec<SeekEntry>,
}

impl SeekTableEncoder {
    #[verifier::type_invariant]
    spec fn well_formed(self) -> bool {
        &&& self.resolution >= 1
        &&& timestamps_increase(self.entries@)
        &&& self.entries@.len() > 0 ==> self.last_recorded == self.entries@.last().ts / 1000
    }

    /// The stream that the table is for.
    pub closed spec fn stream_index(&self) -> u8 {
        self.stream_index
    }

    /// The least distance between two entries, in milliseconds.
    pub closed spec fn resolution(&self) -> u64 {
        self.resolution
    }

    /// The entries collected so far.
    pub closed spec fn entries(&self) -> Seq<SeekEntry> {
        self.entries@
    }

    /// Whether a packet at `timestamp` microseconds gets an entry.
    pub open spec fn records(&self, timestamp: u64) -> bool {
        self.entries().len() == 0 || timestamp / 1000 >= self.entries().last().ts / 1000
            + self.resolution()
    }

    /// A table for the stream `stream_index`, with an entry every 100
    /// milliseconds.
    pub fn new(stream_index: u8) -> (t: SeekTableEncoder)
        ensures
            t.stream_index() == stream_index,
            t.resolution() == 100,
            t.entries() == Seq::<SeekEntry>::empty(),
    {
        SeekTableEncoder { stream_index, resolution: 100, last_recorded: 0, entries: Vec::new() }
    }

    /// Sets the stream that the table is for.
    pub fn set_stream_index(&mut self, stream_index: u8)
        ensures
            final(self).stream_index() == stream_index,
            final(self).resolution() == old(self).resolution(),
            final(self).entries() == old(self).entries(),
    {
        proof {
            use_type_invariant(&*self);
        }
        self.stream_index = stream_index;
    }

    /// The stream that the table is for.
    pub fn stream(&self) -> (s: u8)
        ensures
            s == self.stream_index(),
    {
        self.stream_index
    }

    /// The number of entries collected so far.
    pub fn len(&self) -> (n: usize)
        ensures
            n == self.entries().len(),
            timestamps_increase(self.entries()),
    {
        proof {
            use_type_invariant(self);
        }
        self.entries.len()
    }

    /// Whether a packet at `timestamp` microseconds gets an entry.
    pub fn would_record(&self, timestamp: u64) -> (b: bool)
        ensures
            b == self.records(timestamp),
    {
        proof {
            use_type_invariant(self);
        }
        self.entries.len() == 0 || (timestamp / 1000 >= self.last_recorded && timestamp / 1000
            - self.last_recorded >= self.resolution)
    }

    /// Takes note of a packet that is written at `position`, counted from the
    /// start of the packet region.
    pub fn ingest(&mut self, packet: &Packet, position: u64)
        requires
            packet.timestamp <= i64::MAX,
            position <= i64::MAX,
        ensures
            final(self).stream_index() == old(self).stream_index(),
            final(self).resolution() == old(self).resolution(),
            final(self).entries() == if old(self).records(packet.timestamp) {
                old(self).entries().push(
                    SeekEntry { ts: packet.timestamp as i64, location: position as i64 },
                )
            } else {
                old(self).entries()
            },
            timestamps_increase(final(self).entries()),
    {
        proof {
            use_type_invariant(&*self);
        }
        if self.would_record(packet.timestamp) {
            let entry = SeekEntry { ts: packet.timestamp as i64, location: position as i64 };
            let mut entries: Vec<SeekEntry> = Vec::new();
            std::mem::swap(&mut entries, &mut self.entries);
            let ghost before = entries@;
            entries.push(entry);
            proof {
                assert forall|i: int, j: int| 0 <= i < j < entries@.len() implies (
                #[trigger] entries@[i]).ts < (#[trigger] entries@[j]).ts by {
                    if j == before.len() {
                        if i < before.len() - 1 {
                            assert(before[i].ts < before[before.len() - 1].ts);
                        }
                        assert(before[i].ts <= before.last().ts);
                    } else {
                        assert(before[i].ts < before[j].ts);
                    }
                }
            }
            *self = SeekTableEncoder {
                stream_index: self.stream_index,
                resolution: self.resolution,
                last_recorded: packet.timestamp / 1000,
                entries,
            };
        }
    }

    /// The bytes of the table. Fails with `ParameterOutOfRange` where no
    /// entry was collected, or where there are too many to compress with
    /// their length, which must fit 32 bits, in front.
    pub fn finish(self) -> (r: Result<Vec<u8>, ErrorKind>)
        ensures
            match r {
                Ok(bytes) => holds_seek_table(bytes@, self.stream_index(), self.entries()),
                Err(e) => e == ErrorKind::ParameterOutOfRange,
            },
            r is Err <==> self.entries().len() == 0 || !lz4_sizable(seek_payload(self.entries()).len()),
    {
        if self.entries.len() == 0 {
            return Err(ErrorKind::ParameterOutOfRange);
        }
        let payload: Vec<u8> = encode_seek_payload(self.entries.as_slice());
        if payload.len() > u32::MAX as usize || (payload.len() as u128) * 110 > u64::MAX as u128
            || (payload.len() as u128) * 110 / 100 + 24 > usize::MAX as u128 {
            return Err(ErrorKind::ParameterOutOfRange);
        }
        let compressed: Vec<u8> = lz4_compress_prepend_size(payload.as_slice());
        let _len: usize = compressed.len();
        let table: Vec<u8> = frame_seek_table(
            self.stream_index,
            self.entries.len() as u64,
            compressed.as_slice(),
        );
        proof {
            assert(payload@ == seek_payload(self.entries()));
            assert(lz4_sized_packs(compressed@, seek_payload(self.entries())));
            assert(compressed@.len() <= u64::MAX);
            assert(table@ == seek_table_frame(
                self.stream_index(),
                self.entries().len() as u64,
                compressed@,
            ));
            assert(holds_seek_table(table@, self.stream_index(), self.entries()));
        }
        Ok(table)
    }
}

/// Whether the packet with the header `p` stands in `region` where the seek
/// entry `entry` points, with its payload, and has the time of the entry.
pub open spec fn holds_packet(region: Seq<u8>, entry: SeekEntry, p: PacketView) -> bool {
    &&& valid_side_data(p.side_data)
    &&& p.timestamp == entry.ts
    &&& 0 <= entry.location
    &&& entry.location + packet_bytes(p).len() + p.data_len <= region.len()
    &&& region.subrange(entry.location as int, entry.location + packet_bytes(p).len())
        == packet_bytes(p)
}

/// Whether the seek entry `entry` points at a packet of its time in `region`.
pub open spec fn points_at_packet(region: Seq<u8>, entry: SeekEntry) -> bool {
    exists|p: PacketView| #[trigger] holds_packet(region, entry, p)
}

/// Whether every one of the seek entries points at a packet of its time.
pub open spec fn entries_point_at_packets(region: Seq<u8>, entries: Seq<SeekEntry>) -> bool {
    forall|k: int| 0 <= k < entries.len() ==> points_at_packet(region, #[trigger] entries[k])
}

/// Where a seek entry points, the header of a packet of the entry's time is
/// read, whatever follows the packet region.
pub proof fn law_entry_leads_to_packet(region: Seq<u8>, entry: SeekEntry, rest: Seq<u8>)
    requires
        points_at_packet(region, entry),
    ensures
        packet_parse((region + rest).skip(entry.location as int)) matches Ok((p, n))
            && p.timestamp == entry.ts && entry.location + n + p.data_len <= region.len(),
{
    let p = choose|p: PacketView| #[trigger] holds_packet(region, entry, p);
    let at = entry.location as int;
    let len = packet_bytes(p).len() as int;
    let tail = (region + rest).skip(at + len);
    assert((region + rest).skip(at) =~= packet_bytes(p) + tail) by {
        assert(region.subrange(at, at + len) == packet_bytes(p));
    }
    law_packet_roundtrip(p, tail);
}

/// Each entry lies further on than the one before it.
pub open spec fn locations_increase(entries: Seq<SeekEntry>) -> bool {
    forall|i: int, j: int|
        0 <= i < j < entries.len() ==> (#[trigger] entries[i]).location < (
        #[trigger] entries[j]).location
}

/// Whether the entries can stand in a seek table that is sought by, once there
/// is one of them: none before time zero or the start of the packets, each
/// later and further on than the one before it.
pub open spec fn in_order(entries: Seq<SeekEntry>) -> bool {
    entries.len() == 0 || valid_seek_table(entries)
}

/// What was written to the packet region, and the seek table of it.
struct SeekLog {
    table: SeekTableEncoder,
    bytes_written: u64,
    region: Ghost<Seq<u8>>,
}

impl SeekLog {
    #[verifier::type_invariant]
    spec fn well_formed(self) -> bool {
        &&& self.bytes_written == self.region@.len()
        &&& entries_point_at_packets(self.region@, self.table.entries())
        &&& locations_increase(self.table.entries())
    }

    /// A log of nothing, for the stream 0.
    fn new() -> (log: SeekLog)
        ensures
            log.bytes_written == 0,
            log.region@ == Seq::<u8>::empty(),
            log.table.entries() == Seq::<SeekEntry>::empty(),
            log.table.stream_index() == 0,
            log.table.resolution() == 100,
    {
        SeekLog { table: SeekTableEncoder::new(0), bytes_written: 0, region: Ghost(Seq::empty()) }
    }

    /// Every entry points at a packet of its time, and the entries are in
    /// order.
    fn entries_hold(&self)
        ensures
            self.bytes_written == self.region@.len(),
            entries_point_at_packets(self.region@, self.table.entries()),
            in_order(self.table.entries()),
    {
        proof {
            use_type_invariant(self);
        }
        let _ = self.table.len();
        proof {
            let entries = self.table.entries();
            if entries.len() > 0 {
                assert(points_at_packet(self.region@, entries[0]));
            }
        }
    }

    /// Sets the stream whose packets get seek entries.
    fn set_stream(&mut self, stream: u8)
        ensures
            final(self).table.stream_index() == stream,
            final(self).table.entries() == old(self).table.entries(),
            final(self).table.resolution() == old(self).table.resolution(),
            final(self).bytes_written == old(self).bytes_written,
            final(self).region@ == old(self).region@,
    {
        proof {
            use_type_invariant(&*self);
        }
        let mut table: SeekTableEncoder = SeekTableEncoder::new(0);
        std::mem::swap(&mut table, &mut self.table);
        table.set_stream_index(stream);
        *self = SeekLog { table, bytes_written: self.bytes_written, region: self.region };
    }

    /// Takes note of a packet that is written at the end of the region: its
    /// header `header`, then its payload `payload`.
    fn record(&mut self, packet: &Packet, header: &[u8], payload: &[u8], end: u64)
        requires
            header@ == packet_bytes(packet@),
            packet.data_len == payload@.len(),
            packet.timestamp <= i64::MAX,
            old(self).bytes_written <= i64::MAX,
            end == old(self).bytes_written + header@.len() + payload@.len(),
        ensures
            final(self).region@ == old(self).region@ + header@ + payload@,
            final(self).bytes_written == end,
            final(self).table.stream_index() == old(self).table.stream_index(),
            final(self).table.resolution() == old(self).table.resolution(),
            final(self).table.entries() == if packet.stream == old(self).table.stream_index()
                && old(self).table.records(packet.timestamp) {
                old(self).table.entries().push(
                    SeekEntry {
                        ts: packet.timestamp as i64,
                        location: old(self).bytes_written as i64,
                    },
                )
            } else {
                old(self).table.entries()
            },
    {
        proof {
            use_type_invariant(&*self);
        }
        let _ = packet.side_data.len();
        let ghost before = self.region@;
        let ghost after = before + header@ + payload@;
        let ghost old_entries = self.table.entries();
        let at: u64 = self.bytes_written;
        let mut table: SeekTableEncoder = SeekTableEncoder::new(0);
        std::mem::swap(&mut table, &mut self.table);
        if packet.stream == table.stream() {
            table.ingest(packet, at);
        }
        proof {
            assert forall|k: int| 0 <= k < table.entries().len() implies points_at_packet(
                after,
                #[trigger] table.entries()[k],
            ) by {
                let entry = table.entries()[k];
                if k < old_entries.len() {
                    assert(entry == old_entries[k]);
                    assert(points_at_packet(before, old_entries[k]));
                    let p = choose|p: PacketView| #[trigger] holds_packet(before, entry, p);
                    assert(after.subrange(
                        entry.location as int,
                        entry.location + packet_bytes(p).len(),
                    ) =~= before.subrange(
                        entry.location as int,
                        entry.location + packet_bytes(p).len(),
                    ));
                    assert(holds_packet(after, entry, p));
                } else {
                    assert(after.subrange(at as int, at + header@.len()) =~= header@);
                    assert(holds_packet(after, entry, packet@));
                }
            }
            assert forall|i: int, j: int| 0 <= i < j < table.entries().len() implies (
            #[trigger] table.entries()[i]).location < (#[trigger] table.entries()[j]).location by {
                if j >= old_entries.len() {
                    assert(points_at_packet(before, old_entries[i]));
                    let p = choose|p: PacketView| #[trigger]
                        holds_packet(before, old_entries[i], p);
                    assert(packet_bytes(p).len() > 0);
                } else {
                    assert(old_entries[i].location < old_entries[j].location);
                }
            }
        }
        *self = SeekLog { table, bytes_written: end, region: Ghost(after) };
    }

    /// The bytes of the seek table.
    fn finish(self) -> (r: Result<Vec<u8>, ErrorKind>)
        ensures
            match r {
                Ok(bytes) => holds_seek_table(
                    bytes@,
                    self.table.stream_index(),
                    self.table.entries(),
                ),
                Err(e) => e == ErrorKind::ParameterOutOfRange,
            },
            r is Err <==> self.table.entries().len() == 0 || !lz4_sizable(seek_payload(self.table.entries()).len()),
    {
        self.table.finish()
    }
}

/// The pipelines of the streams, kept in a `LiteMap` by the stream.
pub type PipelineMap = LiteMap<u8, Pipeline>;

/// The streams of a `LiteMap` of pipelines, each with its pipeline.
pub uninterp spec fn pipeline_entries(pipelines: PipelineMap) -> Map<u8, Pipeline>;

/// No pipelines.
/// Trusted: `litemap::LiteMap::new` returns a map without entries.
#[verifier::external_body]
pub(crate) fn pipelines_new() -> (pipelines: PipelineMap)
    ensures
        pipeline_entries(pipelines).dom() == Set::<u8>::empty(),
{
    LiteMap::new()
}

/// Whether there is a pipeline for `stream`.
/// Trusted: `litemap::LiteMap::contains_key` says whether the map has the
/// key.
#[verifier::external_body]
pub(crate) fn pipelines_has(pipelines: &PipelineMap, stream: u8) -> (b: bool)
    ensures
        b == pipeline_entries(*pipelines).dom().contains(stream),
{
    pipelines.contains_key(&stream)
}

/// Puts `pipeline` under `stream`.
/// Trusted: `litemap::LiteMap::insert` sets the value under the key, leaves
/// the other entries as they are, and returns the value that was there
/// before.
#[verifier::external_body]
pub(crate) fn pipelines_insert(pipelines: &mut PipelineMap, stream: u8, pipeline: Pipeline) -> (r:
    Option<Pipeline>)
    ensures
        pipeline_entries(*final(pipelines)) == pipeline_entries(*old(pipelines)).insert(
            stream,
            pipeline,
        ),
        r == if pipeline_entries(*old(pipelines)).dom().contains(stream) {
            Some(pipeline_entries(*old(pipelines))[stream])
        } else {
            None
        },
{
    pipelines.insert(stream, pipeline)
}

/// The pipeline of `stream`, to be worked with where it stands.
/// Trusted: `litemap::LiteMap::index_mut` gives the value under the key, to be
/// changed in its place, and leaves the other entries as they are; it panics
/// where the map has no such key.
#[verifier::external_body]
pub(crate) fn pipelines_at(pipelines: &mut PipelineMap, stream: u8) -> (pipeline: &mut Pipeline)
    requires
        pipeline_entries(*old(pipelines)).dom().contains(stream),
    ensures
        *pipeline == pipeline_entries(*old(pipelines))[stream],
        pipeline_entries(*final(pipelines)) == pipeline_entries(*old(pipelines)).insert(
            stream,
            *final(pipeline),
        ),
{
    &mut pipelines[&stream]
}

/// What the bytes of a file hold in front of its packets: the length of the
/// header, the header, the number of seek tables, which is one, and the table.
pub open spec fn file_prefix(header: Seq<u8>, seek_table: Seq<u8>) -> Seq<u8> {
    spec_u64_to_le_bytes(header.len() as u64) + header + seq![1u8] + seek_table
}

/// Whether `bytes` are what stands in front of the packets of a file with the
/// encoded header `header` and the seek table of `stream` with the given
/// entries.
pub open spec fn holds_file_prefix(
    bytes: Seq<u8>,
    header: Seq<u8>,
    stream: u8,
    entries: Seq<SeekEntry>,
) -> bool {
    exists|table: Seq<u8>| #[trigger]
        holds_seek_table(table, stream, entries) && bytes == file_prefix(header, table)
}

/// Writes the packets of a file: it runs the pipeline of each source packet's
/// stream, numbers the packets of each stream from 1, and collects the seek
/// table of one stream.
pub struct ANSIEncoder {
    scratch: Vec<u8>,
    stream_packet_idx: StreamCounters,
    encoders: PipelineMap,
    width: i64,
    height: i64,
    log: SeekLog,
}

impl ANSIEncoder {
    /// The number of packets written so far for `stream`.
    pub closed spec fn packets_written(&self, stream: u8) -> nat {
        self.stream_packet_idx.count(stream)
    }

    /// The number of bytes written so far to the packet region.
    pub closed spec fn bytes_written(&self) -> u64 {
        self.log.bytes_written
    }

    /// All that was written so far to the packet region.
    pub closed spec fn region(&self) -> Seq<u8> {
        self.log.region@
    }

    /// The seek entries collected so far.
    pub closed spec fn seek_entries(&self) -> Seq<SeekEntry> {
        self.log.table.entries()
    }

    /// The stream whose packets get seek entries.
    pub closed spec fn seek_stream(&self) -> u8 {
        self.log.table.stream_index()
    }

    /// Whether a packet of the seek stream at `timestamp` gets a seek entry.
    pub closed spec fn records(&self, timestamp: u64) -> bool {
        self.log.table.records(timestamp)
    }

    /// The width of the frames, in cells.
    pub closed spec fn frame_width(&self) -> i64 {
        self.width
    }

    /// The height of the frames, in cells.
    pub closed spec fn frame_height(&self) -> i64 {
        self.height
    }

    /// The pipeline that is registered for the source stream `stream`, if
    /// there is one.
    pub closed spec fn pipeline(&self, stream: int) -> Option<Pipeline> {
        if 0 <= stream < 256 && pipeline_entries(self.encoders).dom().contains(stream as u8) {
            Some(pipeline_entries(self.encoders)[stream as u8])
        } else {
            None
        }
    }

    /// Whether a pipeline is registered for the source stream `stream`.
    pub open spec fn has_encoder(&self, stream: int) -> bool {
        self.pipeline(stream) is Some
    }

    /// A writer for frames of `width` by `height` cells that has written
    /// nothing and collects the seek table of stream 0.
    pub fn new(width: i64, height: i64) -> (e: ANSIEncoder)
        ensures
            e.frame_width() == width,
            e.frame_height() == height,
            forall|stream: u8| e.packets_written(stream) == 0,
            forall|stream: int| !e.has_encoder(stream),
            e.bytes_written() == 0,
            e.region() == Seq::<u8>::empty(),
            e.seek_entries() == Seq::<SeekEntry>::empty(),
            e.seek_stream() == 0,
    {
        ANSIEncoder {
            scratch: Vec::new(),
            stream_packet_idx: StreamCounters::new(),
            encoders: pipelines_new(),
            width,
            height,
            log: SeekLog::new(),
        }
    }

    /// The width and the height of the frames, in cells.
    pub fn frame_size(&self) -> (size: (i64, i64))
        ensures
            size == (self.frame_width(), self.frame_height()),
    {
        (self.width, self.height)
    }

    /// Sets the stream whose packets get seek entries.
    pub fn set_seek_stream(&mut self, stream: u8)
        ensures
            final(self).frame_width() == old(self).frame_width(),
            final(self).frame_height() == old(self).frame_height(),
            final(self).seek_stream() == stream,
            final(self).seek_entries() == old(self).seek_entries(),
            final(self).bytes_written() == old(self).bytes_written(),
            final(self).region() == old(self).region(),
            forall|s: u8| final(self).packets_written(s) == old(self).packets_written(s),
            forall|s: int| final(self).has_encoder(s) == old(self).has_encoder(s),
            forall|s: int| final(self).pipeline(s) == old(self).pipeline(s),
            forall|t: u64| final(self).records(t) == old(self).records(t),
    {
        self.log.set_stream(stream);
    }

    /// Registers `pipeline` for the packets of `stream`, in the place of the
    /// one that was registered for it before, if any.
    pub fn add_encoder(&mut self, stream: u8, pipeline: Pipeline)
        ensures
            final(self).frame_width() == old(self).frame_width(),
            final(self).frame_height() == old(self).frame_height(),
            final(self).has_encoder(stream as int),
            final(self).pipeline(stream as int) == Some(pipeline),
            forall|s: int| s != stream ==> final(self).has_encoder(s) == old(self).has_encoder(s),
            forall|s: int| s != stream ==> final(self).pipeline(s) == old(self).pipeline(s),
            forall|s: u8| final(self).packets_written(s) == old(self).packets_written(s),
            final(self).bytes_written() == old(self).bytes_written(),
            final(self).region() == old(self).region(),
            final(self).seek_entries() == old(self).seek_entries(),
            final(self).seek_stream() == old(self).seek_stream(),
            forall|t: u64| final(self).records(t) == old(self).records(t),
    {
        let _ = pipelines_insert(&mut self.encoders, stream, pipeline);
    }

    /// The header `p` with its number: one more than the packets written so
    /// far for its stream.
    pub open spec fn numbered(&self, p: PacketView) -> PacketView {
        PacketView { packet_idx: (self.packets_written(p.stream) + 1) as u64, ..p }
    }

    /// Whether the finished header `p` with the payload `payload` cannot be
    /// written: the number of the packet, its time, the place where it would
    /// stand or the place where it would end no longer fits.
    pub open spec fn overflows(&self, p: PacketView, payload: Seq<u8>) -> bool {
        ||| self.packets_written(p.stream) >= u64::MAX
        ||| p.timestamp > i64::MAX
        ||| self.bytes_written() > i64::MAX
        ||| self.bytes_written() + packet_bytes(self.numbered(p)).len() + payload.len() > u64::MAX
    }

    /// Whether nothing was written and nothing counted between `self` and
    /// `after`.
    pub open spec fn untouched(&self, after: &Self, out_before: Seq<u8>, out_after: Seq<u8>) -> bool {
        &&& out_after == out_before
        &&& after.bytes_written() == self.bytes_written()
        &&& after.region() == self.region()
        &&& after.seek_entries() == self.seek_entries()
        &&& forall|s: u8| after.packets_written(s) == self.packets_written(s)
    }

    /// What writing the header `p` and the payload `payload` does to the
    /// writer and to the output. The packet is numbered within the stream
    /// that its header names when the pipeline is done with it.
    pub open spec fn appended(
        &self,
        after: &Self,
        out_before: Seq<u8>,
        out_after: Seq<u8>,
        p: PacketView,
        payload: Seq<u8>,
    ) -> bool {
        &&& out_after == out_before + packet_bytes(p) + payload
        &&& after.region() == self.region() + packet_bytes(p) + payload
        &&& p.packet_idx == self.packets_written(p.stream) + 1
        &&& p.data_len == payload.len()
        &&& after.packets_written(p.stream) == p.packet_idx
        &&& forall|s: u8| s != p.stream ==> after.packets_written(s) == self.packets_written(s)
        &&& after.bytes_written() == self.bytes_written() + packet_bytes(p).len() + payload.len()
        &&& p.timestamp <= i64::MAX
        &&& self.bytes_written() <= i64::MAX
        &&& after.seek_entries() == if p.stream == self.seek_stream() && self.records(
            p.timestamp,
        ) {
            self.seek_entries().push(
                SeekEntry { ts: p.timestamp as i64, location: self.bytes_written() as i64 },
            )
        } else {
            self.seek_entries()
        }
    }

    /// What writing the finished header `p` with the payload `payload` comes
    /// to: `ParameterOutOfRange` with nothing written where it cannot be
    /// written, else the packet with its number at the end of the output.
    pub open spec fn writes(
        &self,
        after: &Self,
        out_before: Seq<u8>,
        out_after: Seq<u8>,
        r: Result<(), ErrorKind>,
        p: PacketView,
        payload: Seq<u8>,
    ) -> bool {
        if self.overflows(p, payload) {
            r == Err::<(), ErrorKind>(ErrorKind::ParameterOutOfRange) && self.untouched(
                after,
                out_before,
                out_after,
            )
        } else {
            r is Ok && self.appended(after, out_before, out_after, self.numbered(p), payload)
        }
    }

    /// Numbers the finished packet `packet` within its stream and appends it
    /// to `out`: the header, then the payload `payload`. Where it is of the
    /// seek stream, the seek table takes note of it at the number of bytes
    /// written before it.
    ///
    /// Fails with `ParameterOutOfRange` where the number, the timestamp or the
    /// position no longer fits; then nothing is written and nothing counted.
    pub fn write_packet(&mut self, packet: Packet, payload: &[u8], out: &mut Vec<u8>) -> (r: Result<
        (),
        ErrorKind,
    >)
        requires
            packet.data_len == payload@.len(),
        ensures
            old(self).writes(final(self), old(out)@, final(out)@, r, packet@, payload@),
            final(self).frame_width() == old(self).frame_width(),
            final(self).frame_height() == old(self).frame_height(),
            final(self).bytes_written() == final(self).region().len(),
            entries_point_at_packets(final(self).region(), final(self).seek_entries()),
            in_order(final(self).seek_entries()),
            final(self).seek_stream() == old(self).seek_stream(),
            forall|s: int| final(self).has_encoder(s) == old(self).has_encoder(s),
            forall|s: int| final(self).pipeline(s) == old(self).pipeline(s),
    {
        self.log.entries_hold();
        let mut packet: Packet = packet;
        let ghost given = packet@;
        let seen: u64 = self.stream_packet_idx.get(packet.stream);
        if seen == u64::MAX || packet.timestamp > i64::MAX as u64 || self.log.bytes_written
            > i64::MAX as u64 {
            return Err(ErrorKind::ParameterOutOfRange);
        }
        packet.packet_idx = seen + 1;
        proof {
            assert(packet@ == old(self).numbered(given));
        }
        let mut header: Vec<u8> = Vec::new();
        let header_len: u64 = packet.encode_into(&mut header);
        let total: u64 = match header_len.checked_add(payload.len() as u64) {
            Some(n) => n,
            None => {
                return Err(ErrorKind::ParameterOutOfRange);
            },
        };
        let end: u64 = match self.log.bytes_written.checked_add(total) {
            Some(n) => n,
            None => {
                return Err(ErrorKind::ParameterOutOfRange);
            },
        };
        let _ = self.stream_packet_idx.next(packet.stream);
        self.log.record(&packet, header.as_slice(), payload, end);
        self.log.entries_hold();
        let ghost before = out@;
        out.append(&mut header);
        out.extend_from_slice(payload);
        proof {
            assert(out@ =~= before + packet_bytes(packet@) + payload@);
            assert(old(self).appended(&*self, old(out)@, out@, packet@, payload@));
        }
        Ok(())
    }

    /// The header that the pipeline of the stream `stream` is handed for the
    /// source packet `input`: with the time and the duration of the source
    /// packet, not yet numbered, without side data and without a payload.
    pub open spec fn started(stream: u8, input: FFPacket) -> PacketView {
        PacketView {
            stream,
            packet_idx: 0,
            timestamp: input.timestamp,
            duration: input.duration,
            side_data: Seq::empty(),
            data_type: PacketDataType::Invalid,
            data_len: 0,
        }
    }

    /// What encoding the source packet `input` of a stream with a pipeline
    /// comes to, when the pipeline answers with `failure`, the header `p` and
    /// the payload `payload`: the pipeline was handed the header
    /// [`Self::started`] and an empty payload; where it fails, its error is
    /// returned and nothing is written; else the packet is written as
    /// [`Self::writes`] says.
    pub open spec fn encodes(
        &self,
        after: &Self,
        input: FFPacket,
        out_before: Seq<u8>,
        out_after: Seq<u8>,
        r: Result<(), ErrorKind>,
        failure: Option<ErrorKind>,
        p: PacketView,
        payload: Seq<u8>,
    ) -> bool {
        &&& pipeline_answers(
            self.pipeline(input.stream_idx as int)->0.first(),
            self.pipeline(input.stream_idx as int)->0.later(),
            input,
            Self::started(input.stream_idx as u8, input),
            Seq::empty(),
            failure,
            p,
            payload,
        )
        &&& match failure {
            Some(e) => r == Err::<(), ErrorKind>(e) && self.untouched(after, out_before, out_after),
            None => self.writes(after, out_before, out_after, r, p, payload),
        }
    }

    /// Encodes one source packet and appends the packet to `out`: the header,
    /// then the payload.
    ///
    /// A source packet of a stream without a pipeline is passed over. Else the
    /// pipeline of the stream makes header and payload, and the packet is
    /// written as [`Self::write_packet`] writes it: numbered one above the
    /// packets written before it for its stream, and noted by the seek table
    /// where it is of the seek stream.
    ///
    /// Fails with the error of the pipeline, or with `ParameterOutOfRange`
    /// where a number, a timestamp or the position no longer fits; on failure
    /// nothing is written and nothing is counted.
    pub fn process_packet(&mut self, input: &FFPacket, out: &mut Vec<u8>) -> (r: Result<
        (),
        ErrorKind,
    >)
        ensures
            final(self).frame_width() == old(self).frame_width(),
            final(self).frame_height() == old(self).frame_height(),
            final(self).bytes_written() == final(self).region().len(),
            entries_point_at_packets(final(self).region(), final(self).seek_entries()),
            in_order(final(self).seek_entries()),
            final(self).seek_stream() == old(self).seek_stream(),
            forall|s: int| final(self).has_encoder(s) == old(self).has_encoder(s),
            forall|s: int|
                s != input.stream_idx ==> final(self).pipeline(s) == old(self).pipeline(s),
            !old(self).has_encoder(input.stream_idx as int) ==> r is Ok && old(self).untouched(
                final(self),
                old(out)@,
                final(out)@,
            ),
            r is Err ==> old(self).untouched(final(self), old(out)@, final(out)@),
            old(self).has_encoder(input.stream_idx as int) ==> exists|
                failure: Option<ErrorKind>,
                p: PacketView,
                payload: Seq<u8>,
            | #[trigger]
                old(self).encodes(
                    final(self),
                    *input,
                    old(out)@,
                    final(out)@,
                    r,
                    failure,
                    p,
                    payload,
                ),
    {
        self.log.entries_hold();
        if input.stream_idx > 255 || !pipelines_has(&self.encoders, input.stream_idx as u8) {
            return Ok(());
        }
        let stream: u8 = input.stream_idx as u8;
        let ghost pipelines = pipeline_entries(self.encoders);
        let mut packet = Packet {
            stream,
            packet_idx: 0,
            timestamp: input.timestamp,
            duration: input.duration,
            side_data: SideData::new(),
            data_type: PacketDataType::Invalid,
            data_len: 0,
        };
        let mut payload: Vec<u8> = Vec::new();
        std::mem::swap(&mut payload, &mut self.scratch);
        payload.clear();
        let ghost handed = packet@;
        proof {
            assert(handed == Self::started(input.stream_idx as u8, *input));
            assert(payload@ =~= Seq::<u8>::empty());
        }
        let pipeline = pipelines_at(&mut self.encoders, stream);
        let run = pipeline.run(input, &mut packet, &mut payload);
        proof {
            assert forall|s: int| s != input.stream_idx implies self.pipeline(s) == old(
                self,
            ).pipeline(s) by {}
        }
        let ghost mid = *self;
        let ghost made = packet@;
        let ghost data_made = payload@;
        let r: Result<(), ErrorKind> = match run {
            Ok(_) => self.write_packet(packet, payload.as_slice(), out),
            Err(e) => Err(e),
        };
        let ghost wrote = *self;
        std::mem::swap(&mut payload, &mut self.scratch);
        proof {
            assert(old(self).pipeline(input.stream_idx as int) == Some(pipelines[stream]));
            assert(pipeline_answers(
                pipelines[stream].first(),
                pipelines[stream].later(),
                *input,
                handed,
                Seq::<u8>::empty(),
                failure_of(run),
                made,
                data_made,
            ));
            if run is Ok {
                assert(mid.writes(&wrote, old(out)@, out@, r, made, data_made));
                assert(mid.overflows(made, data_made) == old(self).overflows(made, data_made));
                assert(old(self).writes(&wrote, old(out)@, out@, r, made, data_made));
                assert(old(self).writes(&*self, old(out)@, out@, r, made, data_made));
            } else {
                assert(old(self).untouched(&*self, old(out)@, out@));
            }
            assert(old(self).encodes(
                &*self,
                *input,
                old(out)@,
                out@,
                r,
                failure_of(run),
                made,
                data_made,
            ));
        }
        r
    }

    /// The bytes that stand in front of the packets in the finished file, for
    /// the encoded header `header`. Fails with `ParameterOutOfRange` where no
    /// seek entry was collected, or too many to compress.
    pub fn finalize(self, header: &[u8]) -> (r: Result<Vec<u8>, ErrorKind>)
        ensures
            entries_point_at_packets(self.region(), self.seek_entries()),
            in_order(self.seek_entries()),
            match r {
                Ok(bytes) => holds_file_prefix(
                    bytes@,
                    header@,
                    self.seek_stream(),
                    self.seek_entries(),
                ),
                Err(e) => e == ErrorKind::ParameterOutOfRange,
            },
            r is Err <==> self.seek_entries().len() == 0 || !lz4_sizable(seek_payload(self.seek_entries()).len()),
    {
        self.log.entries_hold();
        let mut table: Vec<u8> = self.log.finish()?;
        let ghost made = table@;
        let mut out: Vec<u8> = Vec::new();
        put_u64_le(&mut out, header.len() as u64);
        out.extend_from_slice(header);
        out.push(1);
        out.append(&mut table);
        proof {
            assert(holds_seek_table(made, self.seek_stream(), self.seek_entries()));
            assert(out@ =~= file_prefix(header@, made));
        }
        Ok(out)
    }
}

} // verus!
