use ansimoe::error::ErrorKind;
use ansimoe::metadata::{ColorMode, VideoParameters};
use ansimoe::packet::{EncodableData, Packet, PacketDataType};
use ansimoe::player::{
    click_target, compose_frame, filled_squares, frame_line, origin_after_pause,
    origin_after_seek, progress_click, seek_backwards_target, seek_forward_target, sleep_before,
    PlayStatus, PlayThreadState, PlayerClock, PlayerEvent, RenderAction, Renderer,
    SubtitleOverlay, WRITE_SLACK,
};
use ansimoe::reader::{PacketWithData, Reader};
use ansimoe::sub_rect::{SubRect, SubRectVec};
use ansimoe::text::{progress_line, share_of, FormatDuration};

const SECOND: u64 = 1_000_000;

#[test]
fn player_starts_paused() {
    assert_eq!(PlayThreadState::default(), PlayThreadState::Paused);
    let status = PlayStatus::new();
    assert_eq!(status.state, PlayThreadState::Paused);
    assert!(!status.is_seeking());
    assert!(status.render_waits());
}

#[test]
fn resume_and_pause() {
    let mut status = PlayStatus::new();
    assert!(status.apply(PlayerEvent::Resume));
    assert_eq!(status.state, PlayThreadState::Playing);
    assert!(!status.render_waits());
    assert!(status.apply(PlayerEvent::Pause));
    assert_eq!(status.state, PlayThreadState::Paused);
    // The steps of a seek do not happen outside a seek.
    assert!(!status.apply(PlayerEvent::DrainComplete));
    assert!(!status.apply(PlayerEvent::SeekComplete));
    assert_eq!(status.state, PlayThreadState::Paused);
}

#[test]
fn seek_goes_through_its_steps() {
    for before in [PlayThreadState::Playing, PlayThreadState::Paused] {
        let mut status = PlayStatus { state: before, before_seek: PlayThreadState::Paused };
        assert!(status.apply(PlayerEvent::Seek));
        assert_eq!(status.state, PlayThreadState::DiscardRequest);
        assert!(status.is_seeking());
        assert!(!status.render_waits());
        // Nothing else happens while the seek is under way.
        assert!(!status.apply(PlayerEvent::Resume));
        assert!(!status.apply(PlayerEvent::Pause));
        assert!(!status.apply(PlayerEvent::Seek));
        assert!(!status.apply(PlayerEvent::SeekComplete));
        assert_eq!(status.state, PlayThreadState::DiscardRequest);

        assert!(status.apply(PlayerEvent::DrainComplete));
        assert_eq!(status.state, PlayThreadState::DiscardDone);
        assert!(status.render_waits());
        assert!(!status.apply(PlayerEvent::DrainComplete));
        assert!(!status.apply(PlayerEvent::Resume));

        assert!(status.apply(PlayerEvent::SeekComplete));
        assert_eq!(status.state, before);
        assert!(!status.is_seeking());
    }
}

#[test]
fn frames_are_due_three_milliseconds_early() {
    assert_eq!(WRITE_SLACK, 3000);
    assert_eq!(frame_line(5 * SECOND, 2 * SECOND), 7 * SECOND - 3000);
    assert_eq!(frame_line(0, 0), 0);
    assert_eq!(frame_line(1000, 1999), 0);
    assert_eq!(frame_line(1000, 2000), 0);
    assert_eq!(frame_line(1000, 2001), 1);
    assert_eq!(frame_line(u64::MAX, 2000), u64::MAX - 1000);
    assert_eq!(frame_line(u64::MAX, u64::MAX), u64::MAX);
}

#[test]
fn late_frames_are_written_at_once() {
    assert_eq!(sleep_before(100, 350), 250);
    assert_eq!(sleep_before(350, 350), 0);
    assert_eq!(sleep_before(9_000_000, 350), 0);
}

#[test]
fn pause_moves_the_origin() {
    // Paused at 20 s for 7 s: the frame at 25 s of the video, which was due
    // at origin + 25 s - 3 ms, is due 7 s later.
    let origin = 4 * SECOND;
    let before = frame_line(origin, 25 * SECOND);
    let mut status = PlayStatus { state: PlayThreadState::Playing, before_seek: PlayThreadState::Paused };
    let mut clock = PlayerClock { wallclock_origin: origin, video_time: 0, pause_time: None };
    assert!(clock.pause(&mut status, 20 * SECOND));
    assert_eq!(status.state, PlayThreadState::Paused);
    assert_eq!(clock.pause_time, Some(20 * SECOND));
    // Pausing again changes nothing.
    assert!(!clock.pause(&mut status, 21 * SECOND));
    assert_eq!(clock.pause_time, Some(20 * SECOND));

    assert!(clock.resume(&mut status, 27 * SECOND));
    assert_eq!(status.state, PlayThreadState::Playing);
    assert_eq!(clock.wallclock_origin, origin + 7 * SECOND);
    assert_eq!(clock.pause_time, None);
    assert_eq!(
        frame_line(clock.wallclock_origin, 25 * SECOND),
        clock.wallclock_origin + 25 * SECOND - 3000
    );
    assert_eq!(frame_line(clock.wallclock_origin, 25 * SECOND), before + 7 * SECOND);
    // Resuming again does not move the origin again.
    assert!(clock.resume(&mut status, 30 * SECOND));
    assert_eq!(clock.wallclock_origin, origin + 7 * SECOND);

    assert_eq!(origin_after_pause(10, 100, 130), 40);
    assert_eq!(origin_after_pause(10, 100, 90), 10);
    assert_eq!(origin_after_pause(u64::MAX - 5, 0, 10), u64::MAX);
}

#[test]
fn a_new_player_counts_its_first_pause() {
    let mut status = PlayStatus::new();
    let mut clock = PlayerClock::new(50);
    assert_eq!(clock.pause_time, Some(50));
    assert!(clock.resume(&mut status, 80));
    assert_eq!(clock.wallclock_origin, 80);
    // Not while a seek is under way.
    assert!(status.apply(PlayerEvent::Seek));
    assert!(!clock.pause(&mut status, 90));
    assert!(!clock.resume(&mut status, 90));
    assert_eq!(clock.wallclock_origin, 80);
}

#[test]
fn seek_moves_the_origin() {
    // At 30 s of the video a seek lands at 10 s: the frame at 10 s is due
    // when the frame at 30 s was.
    let origin = 100 * SECOND;
    let back = origin_after_seek(origin, 30 * SECOND, 10 * SECOND as i64, 0);
    assert_eq!(back, origin + 20 * SECOND);
    assert_eq!(frame_line(back, 10 * SECOND), frame_line(origin, 30 * SECOND));
    // Forward, and with the time that the seek took.
    let forward = origin_after_seek(origin, 30 * SECOND, 45 * SECOND as i64, 250);
    assert_eq!(forward, origin - 15 * SECOND + 250);
    assert_eq!(origin_after_seek(5, 0, 10, 0), 0);
    assert_eq!(origin_after_seek(u64::MAX, 10, 0, 0), u64::MAX);

    let mut clock = PlayerClock { wallclock_origin: origin, video_time: 30 * SECOND, pause_time: None };
    clock.sought(10 * SECOND as i64, 4);
    assert_eq!(clock.wallclock_origin, origin + 20 * SECOND + 4);
    assert_eq!(clock.video_time, 30 * SECOND);
}

#[test]
fn seek_targets() {
    assert_eq!(seek_forward_target(30 * SECOND, 5 * SECOND), 35 * SECOND);
    assert_eq!(seek_forward_target(u64::MAX - 1, 5), u64::MAX);
    assert_eq!(seek_backwards_target(30 * SECOND, 5 * SECOND), 25 * SECOND);
    assert_eq!(seek_backwards_target(3 * SECOND, 5 * SECOND), 0);
    assert_eq!(click_target(0, 192, 600 * SECOND), Some(0));
    assert_eq!(click_target(96, 192, 600 * SECOND), Some(300 * SECOND));
    assert_eq!(click_target(1, 3, 10), Some(3));
    assert_eq!(click_target(2, 3, 10), Some(7));
    assert_eq!(click_target(192, 192, 600 * SECOND), None);
    assert_eq!(click_target(0, 0, 600 * SECOND), None);
}

#[test]
fn a_click_on_the_progress_bar() {
    let video = VideoParameters::new(192, 108, ColorMode::Full);
    assert_eq!(progress_click(54, 96, &video, 600 * SECOND), Some(300 * SECOND));
    assert_eq!(progress_click(54, 0, &video, 600 * SECOND), Some(0));
    assert_eq!(progress_click(53, 96, &video, 600 * SECOND), None);
    assert_eq!(progress_click(54, 192, &video, 600 * SECOND), None);
}

#[test]
fn a_seek_comes_to_its_end() {
    // One seek table with the entries 0/0 and 100000/40, then the packets.
    let mut table = ansimoe::encoder::SeekTableEncoder::new(0);
    table.ingest(&Packet::builder().timestamp(0).build(), 0);
    table.ingest(&Packet::builder().timestamp(100_000).build(), 40);
    let mut file = 0u64.to_le_bytes().to_vec();
    file.push(1);
    file.extend_from_slice(&table.finish().unwrap());
    let start = file.len();
    file.extend_from_slice(&[0u8; 100]);
    let (reader, _) = Reader::new(file).read_header().unwrap();
    let (mut reader, _) = reader.read_seektables().unwrap();

    let mut status = PlayStatus { state: PlayThreadState::Playing, before_seek: PlayThreadState::Paused };
    assert!(status.apply(PlayerEvent::Seek));
    assert!(status.apply(PlayerEvent::DrainComplete));
    let mut clock = PlayerClock { wallclock_origin: 50 * SECOND, video_time: 5 * SECOND, pause_time: None };
    assert_eq!(clock.finish_seek(&mut status, &mut reader, 150_000, 7), Ok(100_000));
    assert_eq!(reader.stream_position(), start + 40);
    assert_eq!(clock.wallclock_origin, 50 * SECOND + 5 * SECOND - 100_000 + 7);
    assert_eq!(status.state, PlayThreadState::Playing);
    assert!(!status.is_seeking());
}

#[test]
fn packet_slots() {
    let mut slot = PacketWithData::new();
    assert_eq!(slot.header.data_type, PacketDataType::Invalid);
    slot.data.extend_from_slice(&[1, 2, 3]);
    slot.header.stream = 3;
    slot.recycle(2);
    assert!(slot.data.is_empty());
    assert_eq!(slot.header.stream, 3);
}

#[test]
fn progress_of_encoding() {
    assert_eq!(progress_line(0, 600 * SECOND), "00:00:00.000/00:10:00.000 (0.00%)");
    assert_eq!(progress_line(SECOND, 600 * SECOND), "00:00:01.000/00:10:00.000 (0.17%)");
    assert_eq!(progress_line(300 * SECOND, 600 * SECOND), "00:05:00.000/00:10:00.000 (50.00%)");
    assert_eq!(progress_line(599_999_999, 600 * SECOND), "00:09:59.999/00:10:00.000 (100.00%)");
    assert_eq!(progress_line(700 * SECOND, 600 * SECOND), "00:11:40.000/00:10:00.000 (100.00%)");
    assert_eq!(progress_line(5, 0), "00:00:00.000/00:00:00.000 (0.00%)");
    assert_eq!(share_of(1, 3), 3333);
    assert_eq!(share_of(2, 3), 6667);
    assert_eq!(share_of(1, 40_000), 0);
    assert_eq!(share_of(1, 20_000), 1);
}

#[test]
fn durations_as_text() {
    assert_eq!(FormatDuration(0).to_string(), "00:00:00.000");
    assert_eq!(FormatDuration(1_999).to_string(), "00:00:00.001");
    assert_eq!(FormatDuration(59_999_999).to_string(), "00:00:59.999");
    assert_eq!(FormatDuration(3_723_045_000).to_string(), "01:02:03.045");
    assert_eq!(FormatDuration(36_000 * SECOND).to_string(), "10:00:00.000");
    assert_eq!(FormatDuration(360_000 * SECOND + 7_000).to_string(), "100:00:00.007");
    assert_eq!(FormatDuration(u64::MAX).to_string(), "5124095576:01:49.551");
}

fn subtitle_packet(stream: u8, timestamp: u64, duration: u64) -> Packet {
    let mut packet = Packet::builder().stream(stream).timestamp(timestamp).duration(duration).build();
    packet.data_type = PacketDataType::Subtitle;
    packet
}

fn video_packet(timestamp: u64) -> Packet {
    let mut packet = Packet::builder().stream(0).timestamp(timestamp).duration(40_000).build();
    packet.data_type = PacketDataType::Video;
    packet
}

fn rects(text: &str) -> Vec<u8> {
    SubRectVec::from(vec![SubRect { x: 5, y: 50, fg: 15, bg: 0, text: text.to_string() }])
        .encode_to_vec()
}

fn shown(renderer: &mut Renderer, state: PlayThreadState, timestamp: u64, active: u8) -> Vec<u8> {
    match renderer.handle(state, &video_packet(timestamp), b"FRAME", 0, active) {
        Ok(RenderAction::Emit { line, video_time, output }) => {
            assert_eq!(line, frame_line(0, timestamp));
            assert_eq!(video_time, timestamp);
            output
        },
        _ => panic!("the frame was not written"),
    }
}

fn contains(haystack: &[u8], needle: &[u8]) -> bool {
    haystack.windows(needle.len()).any(|w| w == needle)
}

#[test]
fn subtitles_lie_over_the_frames_of_their_time() {
    // A subtitle of stream 3 from 10 s to 12 s.
    let video = VideoParameters::new(4, 2, ColorMode::EightBit);
    let mut renderer = Renderer::new(&video, 60 * SECOND);
    let stored = renderer.handle(
        PlayThreadState::Playing,
        &subtitle_packet(3, 10 * SECOND, 2 * SECOND),
        &rects("hello"),
        0,
        3,
    );
    assert!(matches!(stored, Ok(RenderAction::Stored)));
    let text = b"\x1b[50;5H\x1b[38;5;15m\x1b[48;5;0mhello";

    assert!(!contains(&shown(&mut renderer, PlayThreadState::Playing, 9 * SECOND, 3), text));
    for timestamp in [10 * SECOND, 10 * SECOND + 40_000, 11 * SECOND, 12 * SECOND] {
        assert!(contains(&shown(&mut renderer, PlayThreadState::Playing, timestamp, 3), text));
    }
    assert!(!contains(&shown(&mut renderer, PlayThreadState::Playing, 13 * SECOND, 3), text));
    // It is gone for good.
    assert!(!contains(&shown(&mut renderer, PlayThreadState::Playing, 11 * SECOND, 3), text));
}

#[test]
fn subtitles_of_another_stream_are_not_shown() {
    let video = VideoParameters::new(4, 2, ColorMode::EightBit);
    let mut renderer = Renderer::new(&video, 60 * SECOND);
    renderer
        .handle(PlayThreadState::Playing, &subtitle_packet(3, 10 * SECOND, 2 * SECOND), &rects("one"), 0, 4)
        .unwrap();
    renderer
        .handle(PlayThreadState::Playing, &subtitle_packet(4, 10 * SECOND, 2 * SECOND), &rects("two"), 0, 4)
        .unwrap();
    let output = shown(&mut renderer, PlayThreadState::Playing, 11 * SECOND, 4);
    assert!(!contains(&output, b"one"));
    assert!(contains(&output, b"two"));
    let output = shown(&mut renderer, PlayThreadState::Playing, 11 * SECOND, 255);
    assert!(!contains(&output, b"one"));
    assert!(!contains(&output, b"two"));
}

#[test]
fn a_seek_throws_frames_away_and_keeps_subtitles() {
    let video = VideoParameters::new(4, 2, ColorMode::EightBit);
    let mut renderer = Renderer::new(&video, 60 * SECOND);
    let dropped = renderer.handle(PlayThreadState::DiscardRequest, &video_packet(SECOND), b"FRAME", 0, 3);
    assert!(matches!(dropped, Ok(RenderAction::Dropped)));
    let stored = renderer.handle(
        PlayThreadState::DiscardRequest,
        &subtitle_packet(3, 10 * SECOND, 2 * SECOND),
        &rects("kept"),
        0,
        3,
    );
    assert!(matches!(stored, Ok(RenderAction::Stored)));
    assert!(contains(&shown(&mut renderer, PlayThreadState::Playing, 11 * SECOND, 3), b"kept"));
}

#[test]
fn bad_subtitles_stop_the_player() {
    let video = VideoParameters::new(4, 2, ColorMode::EightBit);
    let mut renderer = Renderer::new(&video, 60 * SECOND);
    let mut payload = rects("ab");
    let last = payload.len() - 1;
    payload[last] = 0xff;
    let result = renderer.handle(PlayThreadState::Playing, &subtitle_packet(3, 0, SECOND), &payload, 0, 3);
    assert!(matches!(result, Err(ErrorKind::InvalidData)));
    let result = renderer.handle(PlayThreadState::Playing, &subtitle_packet(3, 0, SECOND), &payload[..5], 0, 3);
    assert!(matches!(result, Err(ErrorKind::UnexpectedEof)));
}

#[test]
fn overlay_keeps_the_order() {
    let mut overlay = SubtitleOverlay::new();
    let first = vec![
        SubRect { x: 1, y: 1, fg: 1, bg: 1, text: "a".to_string() },
        SubRect { x: 2, y: 2, fg: 2, bg: 2, text: "b".to_string() },
    ];
    overlay.push_rects(&subtitle_packet(1, 0, 5 * SECOND), &first);
    overlay.insert_packet(&subtitle_packet(1, SECOND, SECOND), &rects("c")).unwrap();
    overlay.insert_packet(&subtitle_packet(1, 2 * SECOND, 9 * SECOND), &rects("d")).unwrap();
    assert_eq!(overlay.len(), 4);
    let mut out = Vec::new();
    overlay.append_visible(&mut out, 1, 3 * SECOND);
    let text = String::from_utf8(out).unwrap();
    let order: Vec<usize> = ["ma", "mb", "mc", "md"].iter().map(|s| text.find(s).unwrap()).collect();
    assert!(order.windows(2).all(|w| w[0] < w[1]));

    // At 2.5 s what ended at 2 s is dropped, the rest keeps its order.
    overlay.retain(0, 2 * SECOND + 500_000);
    assert_eq!(overlay.len(), 3);
    let mut out = Vec::new();
    overlay.append_visible(&mut out, 1, 3 * SECOND);
    let text = String::from_utf8(out).unwrap();
    assert!(text.find("ma").unwrap() < text.find("mb").unwrap());
    assert!(text.find("mb").unwrap() < text.find("md").unwrap());
    assert!(!text.contains("mc"));
    // What has not started is not shown.
    let mut out = Vec::new();
    overlay.append_visible(&mut out, 1, SECOND);
    let text = String::from_utf8(out).unwrap();
    assert!(text.contains("ma") && !text.contains("md"));
    overlay.retain(0, 20 * SECOND);
    assert_eq!(overlay.len(), 0);
}

#[test]
fn progress_bar() {
    assert_eq!(filled_squares(0, 60 * SECOND, 192), 0);
    assert_eq!(filled_squares(30 * SECOND, 60 * SECOND, 192), 96);
    assert_eq!(filled_squares(60 * SECOND, 60 * SECOND, 192), 192);
    assert_eq!(filled_squares(90 * SECOND, 60 * SECOND, 192), 192);
    assert_eq!(filled_squares(1, 3, 10), 3);
    assert_eq!(filled_squares(1, 4, 10), 3);
    assert_eq!(filled_squares(1, 4, 2), 1);
    assert_eq!(filled_squares(5, 0, 10), 0);
    assert_eq!(filled_squares(u64::MAX, u64::MAX, u16::MAX), u16::MAX);
}

#[test]
fn frame_output_layout() {
    let mut out = vec![b'>'];
    compose_frame(&mut out, b"FRAME", 61 * SECOND, 122 * SECOND, 4, b"SUBS");
    let expected = [
        &b">\x1b[0m\x1b[1;1HFRAME"[..],
        "\x1b[0m\x1b[0;32m■■\x1b[0m■■".as_bytes(),
        &b"\x1b[0m\n\r00:01:01.000 | 00:02:02.000"[..],
        &b"SUBS\x1b[0m\n"[..],
    ]
    .concat();
    assert_eq!(out, expected);

    let video = VideoParameters::new(4, 2, ColorMode::EightBit);
    let mut renderer = Renderer::new(&video, 122 * SECOND);
    assert_eq!(renderer.start(), b"\x1b[1;1H\x1b[?25l");
    let output = shown(&mut renderer, PlayThreadState::Paused, 61 * SECOND, 255);
    let without_subtitles = [
        &b"\x1b[0m\x1b[1;1HFRAME"[..],
        "\x1b[0m\x1b[0;32m■■\x1b[0m■■".as_bytes(),
        &b"\x1b[0m\n\r00:01:01.000 | 00:02:02.000"[..],
        &b"\x1b[0m\n"[..],
    ]
    .concat();
    assert_eq!(output, without_subtitles);
}
