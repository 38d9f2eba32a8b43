//! The player's decisions: its states, the time at which a frame is due, the
//! subtitles that lie over a frame, and what is written for a frame.

use stable_vec::StableVec;
use vstd::prelude::*;
use vstd::utf8::encode_utf8;

use crate::bytes::ByteReader;
use crate::error::ErrorKind;
use crate::metadata::VideoParameters;
use crate::packet::{EncodableData, Packet, PacketDataType};
use crate::reader::{seek_lands, seek_out_of_reach, Reader};
use crate::states::SeektablesRead;
use crate::sub_rect::{
    sub_rect_text, sub_rect_vec_parse, sub_rect_views, SubRect, SubRectVec, SubRectView,
};
use crate::text::FormatDuration;

verus! {

/// What the thread that shows the frames is doing.
#[derive(Clone, Copy, Debug, PartialEq, Eq, Structural)]
pub enum PlayThreadState {
    /// Frames are shown as they fall due.
    Playing,
    /// Nothing is shown.
    Paused,
    /// A seek is under way: the packets that are waiting are to be thrown
    /// away.
    DiscardRequest,
    /// The packets that were waiting have been thrown away.
    DiscardDone,
}

impl Default for PlayThreadState {
    fn default() -> (s: PlayThreadState)
        ensures
            s == PlayThreadState::Paused,
    {
        PlayThreadState::Paused
    }
}

/// What can happen to the player's state.
#[derive(Clone, Copy, Debug, PartialEq, Eq, Structural)]
pub enum PlayerEvent {
    /// The caller asks to go on.
    Resume,
    /// The caller asks to halt.
    Pause,
    /// The caller asks for another position.
    Seek,
    /// The waiting packets have been thrown away.
    DrainComplete,
    /// The reader stands at the new position.
    SeekComplete,
}

/// The state of play, and the state to come back to when a seek is over.
#[derive(Clone, Copy, Debug, PartialEq, Eq, Structural)]
pub struct PlayStatus {
    pub state: PlayThreadState,
    pub before_seek: PlayThreadState,
}

impl PlayStatus {
    /// Whether a seek is under way.
    pub open spec fn seeking(&self) -> bool {
        self.state == PlayThreadState::DiscardRequest || self.state == PlayThreadState::DiscardDone
    }

    /// The status after `event`, or `None` where the event has to wait: while
    /// a seek is under way nothing but the steps of the seek can happen, and
    /// those steps happen in their order.
    pub open spec fn after(&self, event: PlayerEvent) -> Option<PlayStatus> {
        match event {
            PlayerEvent::Resume => if self.seeking() {
                None
            } else {
                Some(PlayStatus { state: PlayThreadState::Playing, ..*self })
            },
            PlayerEvent::Pause => if self.seeking() {
                None
            } else {
                Some(PlayStatus { state: PlayThreadState::Paused, ..*self })
            },
            PlayerEvent::Seek => if self.seeking() {
                None
            } else {
                Some(
                    PlayStatus { state: PlayThreadState::DiscardRequest, before_seek: self.state },
                )
            },
            PlayerEvent::DrainComplete => if self.state == PlayThreadState::DiscardRequest {
                Some(PlayStatus { state: PlayThreadState::DiscardDone, ..*self })
            } else {
                None
            },
            PlayerEvent::SeekComplete => if self.state == PlayThreadState::DiscardDone {
                Some(PlayStatus { state: self.before_seek, ..*self })
            } else {
                None
            },
        }
    }

    /// The status of a player that has just been made: paused.
    pub fn new() -> (s: PlayStatus)
        ensures
            s.state == PlayThreadState::Paused,
            !s.seeking(),
    {
        PlayStatus { state: PlayThreadState::Paused, before_seek: PlayThreadState::Paused }
    }

    /// Whether a seek is under way.
    pub fn is_seeking(&self) -> (b: bool)
        ensures
            b == self.seeking(),
    {
        match self.state {
            PlayThreadState::DiscardRequest => true,
            PlayThreadState::DiscardDone => true,
            _ => false,
        }
    }

    /// Whether the thread that shows the frames has to wait: while the player
    /// is paused, and while a seek waits for the reader.
    pub fn render_waits(&self) -> (b: bool)
        ensures
            b == (self.state == PlayThreadState::Paused || self.state
                == PlayThreadState::DiscardDone),
    {
        match self.state {
            PlayThreadState::Paused => true,
            PlayThreadState::DiscardDone => true,
            _ => false,
        }
    }

    /// Takes `event` into account. Returns whether it happened; where it has
    /// to wait the status stays as it is.
    pub fn apply(&mut self, event: PlayerEvent) -> (happened: bool)
        ensures
            match old(self).after(event) {
                Some(next) => happened && *final(self) == next,
                None => !happened && *final(self) == *old(self),
            },
    {
        let seeking: bool = self.is_seeking();
        match event {
            PlayerEvent::Resume => {
                if seeking {
                    return false;
                }
                self.state = PlayThreadState::Playing;
                true
            },
            PlayerEvent::Pause => {
                if seeking {
                    return false;
                }
                self.state = PlayThreadState::Paused;
                true
            },
            PlayerEvent::Seek => {
                if seeking {
                    return false;
                }
                self.before_seek = self.state;
                self.state = PlayThreadState::DiscardRequest;
                true
            },
            PlayerEvent::DrainComplete => {
                match self.state {
                    PlayThreadState::DiscardRequest => {
                        self.state = PlayThreadState::DiscardDone;
                        true
                    },
                    _ => false,
                }
            },
            PlayerEvent::SeekComplete => {
                match self.state {
                    PlayThreadState::DiscardDone => {
                        self.state = self.before_seek;
                        true
                    },
                    _ => false,
                }
            },
        }
    }
}

/// A seek from a state outside a seek, gone through to its end, leaves the
/// player in the state it was in.
pub proof fn law_seek_restores(status: PlayStatus)
    requires
        !status.seeking(),
    ensures
        status.after(PlayerEvent::Seek) is Some,
        status.after(PlayerEvent::Seek)->0.after(PlayerEvent::DrainComplete) is Some,
        status.after(PlayerEvent::Seek)->0.after(PlayerEvent::DrainComplete)->0.after(
            PlayerEvent::SeekComplete,
        ) is Some,
        status.after(PlayerEvent::Seek)->0.after(PlayerEvent::DrainComplete)->0.after(
            PlayerEvent::SeekComplete,
        )->0.state == status.state,
{
}

/// While a seek is under way the player neither resumes nor pauses, nor does
/// another seek begin.
pub proof fn law_seek_excludes(status: PlayStatus)
    requires
        status.seeking(),
    ensures
        status.after(PlayerEvent::Resume) is None,
        status.after(PlayerEvent::Pause) is None,
        status.after(PlayerEvent::Seek) is None,
{
}

/// How long before its time a frame is written, in microseconds: the time
/// that writing to the terminal takes.
pub const WRITE_SLACK: u64 = 3000;

/// The wall-clock time, in microseconds, at which the frame with the
/// timestamp `timestamp` is due, when the video started at `origin`: the
/// timestamp after the origin, less the slack.
pub open spec fn due(origin: u64, timestamp: u64) -> int {
    if origin + timestamp >= WRITE_SLACK {
        origin + timestamp - WRITE_SLACK
    } else {
        0
    }
}

/// The wall-clock time at which a frame is due, at most the greatest time
/// there is.
pub fn frame_line(origin: u64, timestamp: u64) -> (line: u64)
    ensures
        line == if due(origin, timestamp) <= u64::MAX {
            due(origin, timestamp) as u64
        } else {
            u64::MAX
        },
{
    let sum: u128 = origin as u128 + timestamp as u128;
    if sum < WRITE_SLACK as u128 {
        0
    } else if sum - WRITE_SLACK as u128 > u64::MAX as u128 {
        u64::MAX
    } else {
        (sum - WRITE_SLACK as u128) as u64
    }
}

/// How long to sleep at the time `now` before the frame that is due at `line`
/// is written: nothing for a frame that is late.
pub fn sleep_before(now: u64, line: u64) -> (wait: u64)
    ensures
        wait == if line > now {
            (line - now) as u64
        } else {
            0
        },
{
    line.saturating_sub(now)
}

/// The origin after a pause: later by the time that the pause took, so that
/// no frame fell due meanwhile.
pub fn origin_after_pause(origin: u64, paused_at: u64, now: u64) -> (next: u64)
    ensures
        next == if now <= paused_at {
            origin
        } else if origin + (now - paused_at) <= u64::MAX {
            (origin + (now - paused_at)) as u64
        } else {
            u64::MAX
        },
{
    origin.saturating_add(now.saturating_sub(paused_at))
}

/// The origin after a seek from the video time `video_time` to the packet at
/// `actual_ts`, which took `waited`: moved by the difference of the two times,
/// so that the packet at `actual_ts` is due when the one at `video_time` would
/// have been, and later by the time that the seek took.
pub open spec fn origin_sought(origin: u64, video_time: u64, actual_ts: i64, waited: u64) -> int {
    origin + video_time - actual_ts + waited
}

/// The origin after a seek, kept within the times there are.
pub fn origin_after_seek(origin: u64, video_time: u64, actual_ts: i64, waited: u64) -> (next: u64)
    ensures
        next == if origin_sought(origin, video_time, actual_ts, waited) < 0 {
            0
        } else if origin_sought(origin, video_time, actual_ts, waited) > u64::MAX {
            u64::MAX
        } else {
            origin_sought(origin, video_time, actual_ts, waited) as u64
        },
{
    let sum: i128 = origin as i128 + video_time as i128 - actual_ts as i128 + waited as i128;
    if sum < 0 {
        0
    } else if sum > u64::MAX as i128 {
        u64::MAX
    } else {
        sum as u64
    }
}

/// The time to seek to when going `step` forward from `video_time`.
pub fn seek_forward_target(video_time: u64, step: u64) -> (target: u64)
    ensures
        target == if video_time + step <= u64::MAX {
            (video_time + step) as u64
        } else {
            u64::MAX
        },
{
    video_time.saturating_add(step)
}

/// The time to seek to when going `step` back from `video_time`: the start
/// where the step is longer than the time played.
pub fn seek_backwards_target(video_time: u64, step: u64) -> (target: u64)
    ensures
        target == if video_time >= step {
            (video_time - step) as u64
        } else {
            0
        },
{
    video_time.saturating_sub(step)
}

/// The time that a click on column `column` of the progress bar asks for, in
/// a video of `duration` microseconds shown `width` columns wide: the same
/// share of the duration as the column is of the width, rounded to the nearest
/// microsecond. `None` for a column outside the bar.
pub fn click_target(column: u16, width: u16, duration: u64) -> (r: Option<u64>)
    ensures
        match r {
            Some(t) => column < width && t == (2 * column * duration + width) / (2 * width),
            None => column >= width,
        },
{
    if column >= width {
        return None;
    }
    assert(2 * column * duration + width <= 2 * 0xffff * 0xffff_ffff_ffff_ffff + 0xffff)
        by (nonlinear_arith)
        requires
            column <= 0xffff,
            width <= 0xffff,
            duration <= 0xffff_ffff_ffff_ffff,
    ;
    let scaled: u128 = 2 * (column as u128) * (duration as u128) + width as u128;
    let t: u128 = scaled / (2 * (width as u128));
    assert(t <= duration) by (nonlinear_arith)
        requires
            t == (2 * column * duration + width) / (2 * width),
            column < width,
            width >= 1,
            duration >= 0,
    ;
    Some(t as u64)
}

/// The times of a player, in microseconds of the wall clock: when the video
/// started, how far it has been shown, and since when it is paused.
pub struct PlayerClock {
    pub wallclock_origin: u64,
    pub video_time: u64,
    pub pause_time: Option<u64>,
}

impl PlayerClock {
    /// The clock of a player that is made at the time `now`: paused from the
    /// start.
    pub fn new(now: u64) -> (c: PlayerClock)
        ensures
            c.wallclock_origin == now,
            c.video_time == 0,
            c.pause_time == Some(now),
    {
        PlayerClock { wallclock_origin: now, video_time: 0, pause_time: Some(now) }
    }

    /// Halts the player at the time `now`. Returns whether it was halted:
    /// not while a seek is under way, and a player that is paused stays as
    /// it is.
    pub fn pause(&mut self, status: &mut PlayStatus, now: u64) -> (halted: bool)
        ensures
            halted == (old(status).state == PlayThreadState::Playing),
            halted ==> *final(status) == old(status).after(PlayerEvent::Pause)->0 && final(self).pause_time == Some(now),
            !halted ==> *final(status) == *old(status) && final(self).pause_time == old(self).pause_time,
            final(self).wallclock_origin == old(self).wallclock_origin,
            final(self).video_time == old(self).video_time,
    {
        match status.state {
            PlayThreadState::Playing => {
                let _ = status.apply(PlayerEvent::Pause);
                self.pause_time = Some(now);
                true
            },
            _ => false,
        }
    }

    /// Lets the player go on at the time `now`. Returns whether it goes on:
    /// not while a seek is under way. The origin moves by the time that the
    /// pause took.
    pub fn resume(&mut self, status: &mut PlayStatus, now: u64) -> (resumed: bool)
        ensures
            resumed == !old(status).seeking(),
            resumed ==> *final(status) == old(status).after(PlayerEvent::Resume)->0 && final(self).pause_time is None && final(self).wallclock_origin == match old(self).pause_time {
                Some(paused_at) => origin_paused(old(self).wallclock_origin, paused_at, now),
                None => old(self).wallclock_origin,
            },
            !resumed ==> *final(status) == *old(status) && *final(self) == *old(self),
            final(self).video_time == old(self).video_time,
    {
        if !status.apply(PlayerEvent::Resume) {
            return false;
        }
        match self.pause_time {
            Some(paused_at) => {
                self.wallclock_origin = origin_after_pause(self.wallclock_origin, paused_at, now);
            },
            None => {},
        }
        self.pause_time = None;
        true
    }

    /// Takes note that a seek landed at the packet with the time `actual_ts`
    /// and took `waited`: the origin moves so that this packet is due now.
    pub fn sought(&mut self, actual_ts: i64, waited: u64)
        ensures
            final(self).wallclock_origin == origin_moved(
                old(self).wallclock_origin,
                old(self).video_time,
                actual_ts,
                waited,
            ),
            final(self).video_time == old(self).video_time,
            final(self).pause_time == old(self).pause_time,
    {
        self.wallclock_origin = origin_after_seek(
            self.wallclock_origin,
            self.video_time,
            actual_ts,
            waited,
        );
    }
}

impl PlayerClock {
    /// Ends a seek to the time `time`, in microseconds, once the waiting
    /// packets have been thrown away: the reader moves to the seek entry for
    /// that time, the origin moves so that the packet there is due now, and
    /// later by the time `waited` that the seek took, and the player comes
    /// back to the state it was in. Returns the time of the entry.
    ///
    /// On failure of the reader the clock stays as it is and the seek is not
    /// over.
    pub fn finish_seek(
        &mut self,
        status: &mut PlayStatus,
        reader: &mut Reader<SeektablesRead>,
        time: u64,
        waited: u64,
    ) -> (r: Result<i64, ErrorKind>)
        requires
            old(status).state == PlayThreadState::DiscardDone,
        ensures
            final(reader).file() == old(reader).file(),
            final(reader).packets_start() == old(reader).packets_start(),
            final(reader).seek_table() == old(reader).seek_table(),
            final(self).video_time == old(self).video_time,
            final(self).pause_time == old(self).pause_time,
            match r {
                Ok(actual_ts) => {
                    &&& old(reader).seek_table() matches Some(table)
                    &&& seek_lands(
                        table,
                        sought_time(time),
                        actual_ts,
                        final(reader).position() - old(reader).packets_start(),
                    )
                    &&& final(self).wallclock_origin == origin_moved(
                        old(self).wallclock_origin,
                        old(self).video_time,
                        actual_ts,
                        waited,
                    )
                    &&& *final(status) == old(status).after(PlayerEvent::SeekComplete)->0
                },
                Err(e) => {
                    &&& *final(self) == *old(self)
                    &&& *final(status) == *old(status)
                    &&& final(reader).position() == old(reader).position()
                    &&& e == match old(reader).seek_table() {
                        None => ErrorKind::InvalidData,
                        Some(_) => ErrorKind::ParameterOutOfRange,
                    }
                },
            },
            r is Err <==> (match old(reader).seek_table() {
                None => true,
                Some(table) => seek_out_of_reach(
                    table,
                    sought_time(time),
                    old(reader).packets_start() as int,
                ),
            }),
    {
        let target: i64 = if time > i64::MAX as u64 {
            i64::MAX
        } else {
            time as i64
        };
        let actual_ts: i64 = reader.seek(target)?;
        self.sought(actual_ts, waited);
        let _ = status.apply(PlayerEvent::SeekComplete);
        Ok(actual_ts)
    }
}

/// The time that a seek to `time` looks up: `time`, at most the greatest time
/// that a seek entry can have.
pub open spec fn sought_time(time: u64) -> i64 {
    if time > i64::MAX {
        i64::MAX
    } else {
        time as i64
    }
}

/// The time that a click at `row`, `column` asks for, in a video with the
/// parameters `video` that lasts `duration` microseconds: the progress bar
/// stands in the row below the cells of the video.
pub fn progress_click(row: u16, column: u16, video: &VideoParameters, duration: u64) -> (r: Option<
    u64,
>)
    ensures
        match r {
            Some(t) => row == video.height / 2 && column < video.width && t == (2 * column
                * duration + video.width) / (2 * video.width),
            None => row != video.height / 2 || column >= video.width,
        },
{
    if row == video.height / 2 {
        click_target(column, video.width, duration)
    } else {
        None
    }
}

/// The origin after a pause from `paused_at` to `now`.
pub open spec fn origin_paused(origin: u64, paused_at: u64, now: u64) -> u64 {
    if now <= paused_at {
        origin
    } else if origin + (now - paused_at) <= u64::MAX {
        (origin + (now - paused_at)) as u64
    } else {
        u64::MAX
    }
}

/// The origin after a seek, kept within the times there are.
pub open spec fn origin_moved(origin: u64, video_time: u64, actual_ts: i64, waited: u64) -> u64 {
    if origin_sought(origin, video_time, actual_ts, waited) < 0 {
        0
    } else if origin_sought(origin, video_time, actual_ts, waited) > u64::MAX {
        u64::MAX
    } else {
        origin_sought(origin, video_time, actual_ts, waited) as u64
    }
}

/// After a pause of `delta` microseconds a frame is due `delta` later than it
/// was: the origin has moved by the pause, and the frame with it.
pub proof fn law_pause_shifts_line(origin: u64, paused_at: u64, delta: u64, timestamp: u64)
    requires
        paused_at + delta <= u64::MAX,
        origin + delta + timestamp <= u64::MAX,
        origin + timestamp >= WRITE_SLACK,
    ensures
        origin_paused(origin, paused_at, (paused_at + delta) as u64) == origin + delta,
        frame_line_of(
            origin_paused(origin, paused_at, (paused_at + delta) as u64),
            timestamp,
        ) == origin + delta + timestamp - WRITE_SLACK,
        frame_line_of(
            origin_paused(origin, paused_at, (paused_at + delta) as u64),
            timestamp,
        ) == frame_line_of(origin, timestamp) + delta,
{
}

/// A subtitle line that is to be shown for a while. Times are in
/// microseconds.
pub struct Subtitle {
    pub stream: u8,
    pub starts_at: u64,
    pub ends_at: u64,
    /// The escape sequences and the text that show the line.
    pub subtitle: String,
}

/// What a subtitle holds.
pub ghost struct SubtitleView {
    pub stream: u8,
    pub starts_at: u64,
    pub ends_at: u64,
    pub subtitle: Seq<char>,
}

impl View for Subtitle {
    type V = SubtitleView;

    open spec fn view(&self) -> SubtitleView {
        SubtitleView {
            stream: self.stream,
            starts_at: self.starts_at,
            ends_at: self.ends_at,
            subtitle: self.subtitle@,
        }
    }
}

/// The time at which the subtitles of a packet end: its timestamp and its
/// duration together, at most the greatest time there is.
pub open spec fn end_of(timestamp: u64, duration: u64) -> u64 {
    if timestamp + duration <= u64::MAX {
        (timestamp + duration) as u64
    } else {
        u64::MAX
    }
}

/// The subtitles of a packet of stream `stream` at `timestamp` that lasts
/// `duration`, one for each of its rectangles.
pub open spec fn subtitles_of(
    stream: u8,
    timestamp: u64,
    duration: u64,
    rects: Seq<SubRectView>,
) -> Seq<SubtitleView> {
    Seq::new(
        rects.len(),
        |i: int|
            SubtitleView {
                stream,
                starts_at: timestamp,
                ends_at: end_of(timestamp, duration),
                subtitle: sub_rect_text(rects[i]),
            },
    )
}

/// Whether a subtitle is still of use for a frame that is due at `line` when
/// the video started at `origin`: it does not end before the frame is due.
pub open spec fn lasts(s: SubtitleView, origin: u64, line: u64) -> bool {
    origin + s.ends_at >= line
}

/// The subtitles among `entries` that are still of use, in their order.
pub open spec fn kept(entries: Seq<SubtitleView>, origin: u64, line: u64) -> Seq<SubtitleView>
    decreases entries.len(),
{
    if entries.len() == 0 {
        Seq::empty()
    } else if lasts(entries.last(), origin, line) {
        kept(entries.drop_last(), origin, line).push(entries.last())
    } else {
        kept(entries.drop_last(), origin, line)
    }
}

/// Whether a subtitle lies over a frame that ends at `frame_end`: it is of the
/// stream `active` and has started by then.
pub open spec fn shows(s: SubtitleView, active: u8, frame_end: u64) -> bool {
    s.stream == active && s.starts_at <= frame_end
}

/// The bytes of the subtitles among `entries` that lie over a frame, in their
/// order.
pub open spec fn overlay_bytes(entries: Seq<SubtitleView>, active: u8, frame_end: u64) -> Seq<u8>
    decreases entries.len(),
{
    if entries.len() == 0 {
        Seq::empty()
    } else {
        overlay_bytes(entries.drop_last(), active, frame_end) + (if shows(
            entries.last(),
            active,
            frame_end,
        ) {
            encode_utf8(entries.last().subtitle)
        } else {
            Seq::empty()
        })
    }
}

/// The subtitles as they are kept: in a `stable_vec::StableVec`. What it
/// holds is known through [`stored_subtitles`] alone.
#[verifier::external_body]
pub struct SubtitleStore {
    inner: StableVec<Subtitle>,
}

/// The subtitles that a `StableVec` holds, in their order.
pub uninterp spec fn stored_subtitles(store: SubtitleStore) -> Seq<SubtitleView>;

/// No subtitles, with room for eight.
/// Trusted: `stable_vec::StableVec::with_capacity` returns a vector without
/// elements.
#[verifier::external_body]
pub(crate) fn store_new() -> (store: SubtitleStore)
    ensures
        stored_subtitles(store).len() == 0,
{
    SubtitleStore { inner: StableVec::with_capacity(8) }
}

/// The number of subtitles.
/// Trusted: `stable_vec::StableVec::num_elements` returns the number of
/// elements.
#[verifier::external_body]
pub(crate) fn store_len(store: &SubtitleStore) -> (n: usize)
    ensures
        n == stored_subtitles(*store).len(),
{
    store.inner.num_elements()
}

/// Puts `subtitle` behind the others.
/// Trusted: `stable_vec::StableVec::push` puts the element behind all others.
#[verifier::external_body]
pub(crate) fn store_push(store: &mut SubtitleStore, subtitle: Subtitle)
    ensures
        stored_subtitles(*final(store)) == stored_subtitles(*old(store)).push(subtitle@),
{
    store.inner.push(subtitle);
}

/// Drops the subtitles that do not last to the frame that is due at `line`.
/// Trusted: `stable_vec::StableVec::retain` asks of each element, in their
/// order, whether it is to be kept, and removes the others; those kept stay
/// in their order.
#[verifier::external_body]
pub(crate) fn store_retain(store: &mut SubtitleStore, origin: u64, line: u64)
    ensures
        stored_subtitles(*final(store)) == kept(stored_subtitles(*old(store)), origin, line),
{
    store.inner.retain(|subtitle| subtitle_lasts(subtitle, origin, line));
}

/// The subtitles, in their order.
/// Trusted: `stable_vec::StableVec::values` hands out the elements in their
/// order.
#[verifier::external_body]
pub(crate) fn store_values(store: &SubtitleStore) -> (values: Vec<&Subtitle>)
    ensures
        values@.len() == stored_subtitles(*store).len(),
        forall|i: int| 0 <= i < values@.len() ==> (#[trigger] values@[i])@ == stored_subtitles(
            *store,
        )[i],
{
    store.inner.values().collect()
}

/// Whether the subtitle is still of use for the frame that is due at `line`,
/// when the video started at `origin`.
pub fn subtitle_lasts(subtitle: &Subtitle, origin: u64, line: u64) -> (b: bool)
    ensures
        b == lasts(subtitle@, origin, line),
{
    origin as u128 + subtitle.ends_at as u128 >= line as u128
}

/// The subtitles that are waiting to be shown or are being shown.
pub struct SubtitleOverlay {
    entries: SubtitleStore,
}

impl View for SubtitleOverlay {
    type V = Seq<SubtitleView>;

    closed spec fn view(&self) -> Seq<SubtitleView> {
        stored_subtitles(self.entries)
    }
}

impl SubtitleOverlay {
    /// No subtitles.
    pub fn new() -> (o: SubtitleOverlay)
        ensures
            o@ == Seq::<SubtitleView>::empty(),
    {
        let o = SubtitleOverlay { entries: store_new() };
        assert(o@ =~= Seq::<SubtitleView>::empty());
        o
    }

    /// The number of subtitles.
    pub fn len(&self) -> (n: usize)
        ensures
            n == self@.len(),
    {
        store_len(&self.entries)
    }

    /// Adds the subtitles of a packet: one for each of its rectangles, from
    /// the packet's timestamp to the end of its duration.
    pub fn push_rects(&mut self, header: &Packet, rects: &[SubRect])
        ensures
            final(self)@ == old(self)@ + subtitles_of(
                header.stream,
                header.timestamp,
                header.duration,
                sub_rect_views(rects@),
            ),
    {
        let ghost added = subtitles_of(
            header.stream,
            header.timestamp,
            header.duration,
            sub_rect_views(rects@),
        );
        let mut i: usize = 0;
        while i < rects.len()
            invariant
                i <= rects@.len(),
                added == subtitles_of(
                    header.stream,
                    header.timestamp,
                    header.duration,
                    sub_rect_views(rects@),
                ),
                stored_subtitles(self.entries) == old(self)@ + added.take(i as int),
            decreases rects@.len() - i,
        {
            let subtitle = Subtitle {
                stream: header.stream,
                starts_at: header.timestamp,
                ends_at: header.timestamp.saturating_add(header.duration),
                subtitle: rects[i].to_string(),
            };
            let ghost shown = subtitle@;
            store_push(&mut self.entries, subtitle);
            proof {
                assert(shown == added[i as int]);
                assert(added.take(i + 1) =~= added.take(i as int).push(added[i as int]));
                assert(stored_subtitles(self.entries) =~= old(self)@ + added.take(i + 1));
            }
            i = i + 1;
        }
        proof {
            assert(added.take(i as int) =~= added);
        }
    }

    /// Adds the subtitles of a subtitle packet with the payload `data`. Fails
    /// with the error of reading the payload, adding nothing.
    pub fn insert_packet(&mut self, header: &Packet, data: &[u8]) -> (r: Result<(), ErrorKind>)
        ensures
            match sub_rect_vec_parse(data@) {
                Ok((rects, n)) => r is Ok && final(self)@ == old(self)@ + subtitles_of(
                    header.stream,
                    header.timestamp,
                    header.duration,
                    rects,
                ),
                Err(e) => r == Err::<(), ErrorKind>(e) && final(self)@ == old(self)@,
            },
    {
        let mut input: ByteReader = ByteReader::new(data);
        proof {
            assert(input.remaining() =~= data@);
        }
        let rects: Vec<SubRect> = SubRectVec::decode_from(&mut input)?.into_inner();
        self.push_rects(header, rects.as_slice());
        Ok(())
    }

    /// Drops the subtitles that end before the frame that is due at `line`.
    pub fn retain(&mut self, origin: u64, line: u64)
        ensures
            final(self)@ == kept(old(self)@, origin, line),
    {
        store_retain(&mut self.entries, origin, line);
    }

    /// Appends the bytes of the subtitles of the stream `active` that lie over
    /// a frame that ends at `frame_end`.
    pub fn append_visible(&self, out: &mut Vec<u8>, active: u8, frame_end: u64)
        ensures
            final(out)@ == old(out)@ + overlay_bytes(self@, active, frame_end),
    {
        let entries: Vec<&Subtitle> = store_values(&self.entries);
        let mut i: usize = 0;
        while i < entries.len()
            invariant
                i <= entries@.len(),
                entries@.len() == self@.len(),
                forall|j: int| 0 <= j < entries@.len() ==> (#[trigger] entries@[j])@ == self@[j],
                out@ == old(out)@ + overlay_bytes(self@.take(i as int), active, frame_end),
            decreases entries@.len() - i,
        {
            proof {
                let next = self@.take(i + 1);
                assert(next.drop_last() =~= self@.take(i as int));
                assert(next.last() == entries@[i as int]@);
            }
            let entry: &Subtitle = entries[i];
            if entry.stream == active && entry.starts_at <= frame_end {
                out.extend_from_slice(entry.subtitle.as_str().as_bytes());
            }
            proof {
                assert(out@ =~= old(out)@ + overlay_bytes(self@.take(i + 1), active, frame_end));
            }
            i = i + 1;
        }
        proof {
            assert(self@.take(i as int) =~= self@);
        }
    }
}

/// What the terminal is sent before the first frame: the cursor goes to the
/// top left corner and is hidden.
pub open spec fn prologue() -> Seq<u8> {
    seq![0x1bu8, 0x5bu8, 0x31u8, 0x3bu8, 0x31u8, 0x48u8, 0x1bu8, 0x5bu8, 0x3fu8, 0x32u8, 0x35u8, 0x6cu8]
}

/// The colours are reset and the cursor goes to the top left corner.
pub open spec fn reset_home() -> Seq<u8> {
    seq![0x1bu8, 0x5bu8, 0x30u8, 0x6du8, 0x1bu8, 0x5bu8, 0x31u8, 0x3bu8, 0x31u8, 0x48u8]
}

/// The colours are reset.
pub open spec fn reset() -> Seq<u8> {
    seq![0x1bu8, 0x5bu8, 0x30u8, 0x6du8]
}

/// The foreground becomes green.
pub open spec fn green() -> Seq<u8> {
    seq![0x1bu8, 0x5bu8, 0x30u8, 0x3bu8, 0x33u8, 0x32u8, 0x6du8]
}

/// `n` black squares in UTF-8.
pub open spec fn squares(n: int) -> Seq<u8>
    decreases n,
{
    if n <= 0 {
        Seq::empty()
    } else {
        squares(n - 1) + seq![0xe2u8, 0x96u8, 0xa0u8]
    }
}

/// How many of the `width` squares of the progress bar are filled at the
/// time `timestamp` of a video of `total` microseconds: the same share as
/// the time is of the whole, rounded to the nearest square, and all of them
/// from the end of the video on.
pub open spec fn bar_filled(timestamp: u64, total: u64, width: u16) -> int {
    if total == 0 {
        0
    } else if (2 * timestamp * width + total) / (2 * total) > width {
        width as int
    } else {
        (2 * timestamp * width + total) / (2 * total)
    }
}

/// The progress bar: the filled squares in green, the others in the
/// terminal's own colour.
pub open spec fn progress_bar(timestamp: u64, total: u64, width: u16) -> Seq<u8> {
    reset() + green() + squares(bar_filled(timestamp, total, width)) + reset() + squares(
        width - bar_filled(timestamp, total, width),
    )
}

/// The line below the video: the time played and the whole time.
pub open spec fn time_marker(timestamp: u64, total: u64) -> Seq<u8> {
    reset() + seq![0x0au8, 0x0du8] + encode_utf8(FormatDuration::text(timestamp)) + seq![
        0x20u8,
        0x7cu8,
        0x20u8,
    ] + encode_utf8(FormatDuration::text(total))
}

/// What is written for a frame: the frame from the top left corner, the
/// progress bar, the times, the subtitles, and a reset with a new line.
pub open spec fn frame_output(
    data: Seq<u8>,
    timestamp: u64,
    total: u64,
    width: u16,
    overlay: Seq<u8>,
) -> Seq<u8> {
    reset_home() + data + progress_bar(timestamp, total, width) + time_marker(timestamp, total)
        + overlay + reset() + seq![0x0au8]
}

/// Appends `n` black squares.
fn push_squares(out: &mut Vec<u8>, n: usize)
    ensures
        final(out)@ == old(out)@ + squares(n as int),
{
    let mut i: usize = 0;
    while i < n
        invariant
            i <= n,
            out@ == old(out)@ + squares(i as int),
        decreases n - i,
    {
        out.push(0xe2);
        out.push(0x96);
        out.push(0xa0);
        proof {
            assert(out@ =~= old(out)@ + squares(i + 1));
        }
        i = i + 1;
    }
}

/// Appends the reset of the colours.
fn push_reset(out: &mut Vec<u8>)
    ensures
        final(out)@ == old(out)@ + reset(),
{
    out.push(0x1b);
    out.push(0x5b);
    out.push(0x30);
    out.push(0x6d);
    proof {
        assert(out@ =~= old(out)@ + reset());
    }
}

/// The number of filled squares of the progress bar.
pub fn filled_squares(timestamp: u64, total: u64, width: u16) -> (n: u16)
    ensures
        n == bar_filled(timestamp, total, width),
        n <= width,
{
    if total == 0 {
        return 0;
    }
    assert(2 * timestamp * width + total <= 2 * 0xffff_ffff_ffff_ffff * 0xffff
        + 0xffff_ffff_ffff_ffff) by (nonlinear_arith)
        requires
            timestamp <= 0xffff_ffff_ffff_ffff,
            width <= 0xffff,
            total <= 0xffff_ffff_ffff_ffff,
    ;
    let scaled: u128 = 2 * (timestamp as u128) * (width as u128) + total as u128;
    let n: u128 = scaled / (2 * (total as u128));
    if n > width as u128 {
        width
    } else {
        n as u16
    }
}

/// Appends what is written for a frame.
#[verifier::rlimit(60)]
pub fn compose_frame(
    out: &mut Vec<u8>,
    data: &[u8],
    timestamp: u64,
    total: u64,
    width: u16,
    overlay: &[u8],
)
    ensures
        final(out)@ == old(out)@ + frame_output(data@, timestamp, total, width, overlay@),
{
    let filled: u16 = filled_squares(timestamp, total, width);
    let ghost start = out@;
    push_reset(out);
    out.push(0x1b);
    out.push(0x5b);
    out.push(0x31);
    out.push(0x3b);
    out.push(0x31);
    out.push(0x48);
    proof {
        assert(out@ =~= start + reset_home());
    }
    out.extend_from_slice(data);
    let ghost at_bar = out@;
    push_reset(out);
    out.push(0x1b);
    out.push(0x5b);
    out.push(0x30);
    out.push(0x3b);
    out.push(0x33);
    out.push(0x32);
    out.push(0x6d);
    proof {
        assert(out@ =~= at_bar + reset() + green());
    }
    push_squares(out, filled as usize);
    push_reset(out);
    push_squares(out, (width - filled) as usize);
    proof {
        assert(out@ =~= at_bar + progress_bar(timestamp, total, width));
    }
    let ghost at_marker = out@;
    push_reset(out);
    out.push(0x0a);
    out.push(0x0d);
    let played: String = FormatDuration(timestamp).to_string();
    out.extend_from_slice(played.as_str().as_bytes());
    out.push(0x20);
    out.push(0x7c);
    out.push(0x20);
    let whole: String = FormatDuration(total).to_string();
    out.extend_from_slice(whole.as_str().as_bytes());
    proof {
        assert(out@ =~= at_marker + time_marker(timestamp, total));
    }
    out.extend_from_slice(overlay);
    push_reset(out);
    out.push(0x0a);
    proof {
        assert(out@ =~= start + frame_output(data@, timestamp, total, width, overlay@));
    }
}

/// What the thread that shows the frames does with a packet.
pub enum RenderAction {
    /// The packet held subtitles, which were put aside.
    Stored,
    /// The packet was thrown away, because a seek is under way.
    Dropped,
    /// The frame is to be written at the time `line`; then the video time is
    /// `video_time`.
    Emit { line: u64, video_time: u64, output: Vec<u8> },
}

/// The state of the thread that shows the frames.
pub struct Renderer {
    overlay: SubtitleOverlay,
    width: u16,
    total_duration: u64,
}

impl Renderer {
    /// The subtitles put aside.
    pub closed spec fn subtitles(&self) -> Seq<SubtitleView> {
        self.overlay@
    }

    /// The width of the video in columns.
    pub closed spec fn width(&self) -> u16 {
        self.width
    }

    /// The duration of the video in microseconds.
    pub closed spec fn total_duration(&self) -> u64 {
        self.total_duration
    }

    /// A renderer for a video with the parameters `video` that lasts
    /// `total_duration` microseconds.
    pub fn new(video: &VideoParameters, total_duration: u64) -> (r: Renderer)
        ensures
            r.subtitles() == Seq::<SubtitleView>::empty(),
            r.width() == video.width,
            r.total_duration() == total_duration,
    {
        Renderer { overlay: SubtitleOverlay::new(), width: video.width, total_duration }
    }

    /// What is sent to the terminal before the first frame.
    pub fn start(&self) -> (out: Vec<u8>)
        ensures
            out@ == prologue(),
    {
        let bytes: [u8; 12] = [0x1b, 0x5b, 0x31, 0x3b, 0x31, 0x48, 0x1b, 0x5b, 0x3f, 0x32, 0x35, 0x6c];
        let mut out: Vec<u8> = Vec::new();
        out.extend_from_slice(vstd::array::array_as_slice(&bytes));
        proof {
            assert(out@ =~= prologue());
        }
        out
    }

    /// Decides what to do with the packet `header` and its payload `data`, in
    /// the state `state`, when the video started at `origin` and the
    /// subtitles of the stream `active` are shown.
    ///
    /// Subtitles are put aside, also while a seek is under way. Any other
    /// packet is thrown away while a seek is under way; else it is a frame:
    /// the subtitles that end before it is due are dropped, and those of the
    /// active stream that have started by its end lie over it.
    pub fn handle(
        &mut self,
        state: PlayThreadState,
        header: &Packet,
        data: &[u8],
        origin: u64,
        active: u8,
    ) -> (r: Result<RenderAction, ErrorKind>)
        ensures
            final(self).width() == old(self).width(),
            final(self).total_duration() == old(self).total_duration(),
            header.data_type == PacketDataType::Subtitle ==> match sub_rect_vec_parse(data@) {
                Ok((rects, n)) => (r matches Ok(RenderAction::Stored)) && final(self).subtitles()
                    == old(self).subtitles() + subtitles_of(
                    header.stream,
                    header.timestamp,
                    header.duration,
                    rects,
                ),
                Err(e) => r matches Err(f) && f == e && final(self).subtitles() == old(self).subtitles(),
            },
            header.data_type != PacketDataType::Subtitle && state
                == PlayThreadState::DiscardRequest ==> (r matches Ok(RenderAction::Dropped))
                && final(self).subtitles() == old(self).subtitles(),
            header.data_type != PacketDataType::Subtitle && state
                != PlayThreadState::DiscardRequest ==> {
                &&& r matches Ok(RenderAction::Emit { line, video_time, output })
                &&& line == frame_line_of(origin, header.timestamp)
                &&& video_time == header.timestamp
                &&& final(self).subtitles() == kept(old(self).subtitles(), origin, line)
                &&& output@ == frame_output(
                    data@,
                    header.timestamp,
                    old(self).total_duration(),
                    old(self).width(),
                    overlay_bytes(
                        final(self).subtitles(),
                        active,
                        end_of(header.timestamp, header.duration),
                    ),
                )
            },
    {
        match header.data_type {
            PacketDataType::Subtitle => {
                self.overlay.insert_packet(header, data)?;
                return Ok(RenderAction::Stored);
            },
            _ => {},
        }
        match state {
            PlayThreadState::DiscardRequest => {
                return Ok(RenderAction::Dropped);
            },
            _ => {},
        }
        let line: u64 = frame_line(origin, header.timestamp);
        self.overlay.retain(origin, line);
        let mut overlay: Vec<u8> = Vec::new();
        self.overlay.append_visible(
            &mut overlay,
            active,
            header.timestamp.saturating_add(header.duration),
        );
        let mut output: Vec<u8> = Vec::new();
        compose_frame(
            &mut output,
            data,
            header.timestamp,
            self.total_duration,
            self.width,
            overlay.as_slice(),
        );
        Ok(RenderAction::Emit { line, video_time: header.timestamp, output })
    }
}

/// The wall-clock time at which a frame is due, at most the greatest time
/// there is.
pub open spec fn frame_line_of(origin: u64, timestamp: u64) -> u64 {
    if due(origin, timestamp) <= u64::MAX {
        due(origin, timestamp) as u64
    } else {
        u64::MAX
    }
}

} // verus!
