use wizard_editor::media::backward::ReverseStretch;
use wizard_editor::media::clock::{
    gop_decision, in_reverse_window, next_reverse_window, GopDecision, ReversePacer, StreamClock,
};
use wizard_editor::media::fit::fit_dimensions;
use wizard_editor::media::frame::{
    expected_size, fit_bytes, frame_from_sink, letterbox, letterbox_streamed, needs_rebuild,
    plan_scale, RgbaFrame, ScalerKey,
};
use wizard_editor::media::import::{
    is_audio_extension, is_media_extension, is_media_extension_lower, is_taken_in, is_video_extension,
    EntryKind, FolderEntry, FolderScan,
};
use wizard_editor::media::scan::{
    is_mostly_black, read_step, FrameTargets, ReadBudget, ReadEvent, ReadStep, SeekDecision,
    SeekScan, ThumbnailSearch, ThumbnailStep,
};
use wizard_editor::media::stream::{
    bridge_step, duration_from_micros, is_muted, preroll_plan, prewarm_more, route_packet,
    route_pad, seek_micros, sound_poll_ms, starts_with, url_from_path, wait_step, BridgeEvent,
    BridgeStep, BufferPool, BusEvent, GateDecision, PrerollPlan, Route, SkipGate, SoundPosition,
    WaitStep,
};

const S: i64 = 1_000_000_000;
const MS: i64 = 1_000_000;

#[test]
fn media_extensions_ignore_case() {
    assert!(is_media_extension("MP4"));
    assert!(is_media_extension("Wav"));
    assert!(!is_media_extension("txt"));
    assert!(is_media_extension_lower("mov"));
    assert!(!is_media_extension_lower("MOV"));
    assert!(is_video_extension("mkv") && !is_video_extension("mp3"));
    assert!(is_audio_extension("mp3") && !is_audio_extension("mkv"));
}

#[test]
fn folders_are_searched_to_the_bottom() {
    let mut scan = FolderScan::new(0);
    assert_eq!(scan.next_folder(), Some(0));
    scan.take_entries(&vec![
        FolderEntry { path: 1, kind: EntryKind::Folder, extension: None },
        FolderEntry { path: 2, kind: EntryKind::File, extension: Some("MOV".to_string()) },
        FolderEntry { path: 3, kind: EntryKind::File, extension: Some("txt".to_string()) },
        FolderEntry { path: 4, kind: EntryKind::Other, extension: Some("mov".to_string()) },
        FolderEntry { path: 5, kind: EntryKind::File, extension: None },
    ]);
    assert_eq!(scan.next_folder(), Some(1));
    scan.take_entries(&vec![FolderEntry {
        path: 6,
        kind: EntryKind::File,
        extension: Some("wav".to_string()),
    }]);
    assert_eq!(scan.next_folder(), None);
    assert_eq!(scan.found, vec![2, 6]);
}

#[test]
fn watched_folder_brings_in_new_videos() {
    let entry = |kind: EntryKind, e: &str| FolderEntry { path: 1, kind, extension: Some(e.to_string()) };
    assert!(is_taken_in(true, &entry(EntryKind::File, "MP4")));
    assert!(!is_taken_in(false, &entry(EntryKind::File, "mp4")));
    assert!(!is_taken_in(true, &entry(EntryKind::Folder, "mp4")));
    assert!(!is_taken_in(true, &entry(EntryKind::File, "wav")));
    assert!(!is_taken_in(true, &FolderEntry { path: 1, kind: EntryKind::File, extension: None }));
}

#[test]
fn stretch_comes_out_backwards() {
    let mut s = ReverseStretch::new(2 * S, 1, 1);
    assert!(s.offer(S, &vec![1]));
    assert!(s.offer(2 * S + 50 * MS, &vec![2, 2, 2, 2, 2]));
    assert!(!s.offer(2 * S + 51 * MS, &vec![3]));
    let frames = s.reversed();
    let pts: Vec<i64> = frames.iter().map(|f| f.pts).collect();
    assert_eq!(pts, vec![2 * S + 50 * MS, S]);
    assert_eq!(frames[1].rgba_data, vec![1, 0, 0, 0]);
    assert_eq!(frames[0].rgba_data, vec![2, 2, 2, 2]);
}

#[test]
fn pictures_fit_their_frame() {
    assert_eq!(fit_dimensions(1920, 1080, 240, 135), (240, 134));
    assert_eq!(fit_dimensions(1920, 1080, 1280, 720), (1280, 720));
    assert_eq!(fit_dimensions(1080, 1920, 240, 136), (76, 136));
    assert_eq!(fit_dimensions(100, 50, 240, 135), (240, 120));
    assert_eq!(fit_dimensions(5000, 10, 240, 135), (240, 2));
    assert_eq!(fit_dimensions(0, 10, 240, 135), (240, 135));
}

#[test]
fn letterbox_centres_the_picture() {
    let data = vec![9u8, 9, 9, 255];
    let f = letterbox(&data, 4, 1, 1, 3, 1).unwrap();
    assert_eq!((f.width, f.height), (3, 1));
    assert_eq!(f.pixels, vec![0, 0, 0, 0, 9, 9, 9, 255, 0, 0, 0, 0]);
    assert!(letterbox(&vec![9u8, 9], 4, 1, 1, 3, 1).is_none());
}

#[test]
fn letterbox_of_equal_size_changes_nothing() {
    let data: Vec<u8> = (0..16).collect();
    assert_eq!(letterbox(&data, 8, 2, 2, 2, 2).unwrap().pixels, data);
    assert_eq!(letterbox_streamed(&data, 8, 2, 2, 2, 2).unwrap().pixels, data);
}

#[test]
fn letterbox_reads_by_stride() {
    let data: Vec<u8> = (0..12).collect();
    let f = letterbox(&data, 8, 1, 2, 1, 2).unwrap();
    assert_eq!(f.pixels, vec![0, 1, 2, 3, 8, 9, 10, 11]);
}

#[test]
fn scaler_is_rebuilt_on_change() {
    let k = ScalerKey { src_w: 4, src_h: 3, src_format: 0, out_width: 2, out_height: 1 };
    assert!(needs_rebuild(None, k));
    assert!(!needs_rebuild(Some(k), k));
    assert!(needs_rebuild(Some(ScalerKey { src_format: 1, ..k }), k));
    assert_eq!(plan_scale(0, 3, 4, 4), None);
    assert_eq!(plan_scale(1920, 1080, 240, 135), Some((240, 134)));
}

#[test]
fn sink_bytes_are_fitted() {
    assert_eq!(fit_bytes(&vec![1, 2, 3], 2), vec![1, 2]);
    assert_eq!(fit_bytes(&vec![1], 3), vec![1, 0, 0]);
    assert_eq!(expected_size(2, 3), Some(24));
    let f = frame_from_sink(5, 1, 1, &vec![7]);
    assert_eq!((f.pts, f.width, f.height, f.rgba_data), (5, 1, 1, vec![7, 0, 0, 0]));
}

#[test]
fn seek_takes_the_first_frame_at_the_target() {
    let mut s = SeekScan::new(2 * S);
    assert!(s.wants_more());
    assert_eq!(s.offer(S), SeekDecision::Remember);
    assert_eq!(s.offer(2 * S), SeekDecision::Take);
}

#[test]
fn seek_gives_up_on_a_standing_position() {
    let mut s = SeekScan::new(9 * S);
    for _ in 0..4 {
        assert_eq!(s.offer(S), SeekDecision::Remember);
    }
    assert_eq!(s.offer(S), SeekDecision::Take);
}

#[test]
fn seek_gives_up_after_its_limit() {
    let mut s = SeekScan::new(1000 * S);
    let mut frames = 0;
    while s.wants_more() {
        frames += 1;
        s.offer(frames * MS);
    }
    assert_eq!(frames, 180);
}

#[test]
fn reads_are_counted() {
    let mut b = ReadBudget::new(2);
    assert!(b.try_read());
    assert!(b.try_read());
    assert!(b.try_read());
    assert!(!b.try_read());
}

#[test]
fn every_read_event_has_its_step() {
    assert_eq!(read_step(ReadEvent::OtherStream), ReadStep::ReadOn);
    assert_eq!(read_step(ReadEvent::NoFrame), ReadStep::ReadOn);
    assert_eq!(read_step(ReadEvent::Refused), ReadStep::ReadOn);
    assert_eq!(read_step(ReadEvent::Frame), ReadStep::UseFrame);
    assert_eq!(read_step(ReadEvent::EndOfFile), ReadStep::Drain);
    assert_eq!(read_step(ReadEvent::Failed), ReadStep::GiveUp);
}

fn plain(shade: u8) -> RgbaFrame {
    RgbaFrame { width: 4, height: 4, pixels: vec![shade; 64] }
}

#[test]
fn dark_pictures_are_told_apart() {
    assert!(is_mostly_black(&plain(0)));
    assert!(!is_mostly_black(&plain(200)));
    let part_dark = |dark: usize| RgbaFrame {
        width: 200,
        height: 1,
        pixels: (0..200).flat_map(|i| if i < dark { [0, 0, 0, 255] } else { [255; 4] }).collect(),
    };
    assert!(is_mostly_black(&part_dark(181)));
    assert!(!is_mostly_black(&part_dark(180)));
}

#[test]
fn thumbnail_is_the_first_bright_picture() {
    let mut s = ThumbnailSearch::new();
    assert_eq!(s.next_time(), S / 2);
    assert!(matches!(s.offer(Some(plain(0))), ThumbnailStep::TryNext));
    assert_eq!(s.next_time(), S);
    match s.offer(Some(plain(90))) {
        ThumbnailStep::Done(Some(f)) => assert_eq!(f.pixels[0], 90),
        _ => panic!("a bright picture ends the search"),
    }
}

#[test]
fn thumbnail_search_ends_with_what_there_is() {
    let mut s = ThumbnailSearch::default();
    let mut steps = 0;
    loop {
        steps += 1;
        if let ThumbnailStep::Done(f) = s.offer(Some(plain(0))) {
            assert!(f.is_some());
            break;
        }
    }
    assert_eq!(steps, 8);
}

#[test]
fn preview_targets_are_spread_over_the_file() {
    let mut t = FrameTargets::plan(Some(10 * S), 5).unwrap();
    assert_eq!(t.offer(0), (0, 1));
    assert_eq!(t.offer(S), (1, 1));
    assert_eq!(t.offer(5 * S), (1, 3));
    assert!(!t.is_done());
    assert_eq!(t.offer(100 * S), (3, 5));
    assert!(t.is_done());
    assert!(FrameTargets::plan(None, 5).is_none());
    assert!(FrameTargets::plan(Some(0), 5).is_none());
    assert_eq!(FrameTargets::plan(Some(S), 0).unwrap().count, 1);
}

#[test]
fn stream_times_are_converted() {
    assert_eq!(duration_from_micros(2_500_000), Some(2_500_000_000));
    assert_eq!(duration_from_micros(0), None);
    assert_eq!(duration_from_micros(-5), None);
    assert_eq!(seek_micros(2_500_000_999), 2_500_000);
    assert_eq!(seek_micros(-1), 0);
}

#[test]
fn buffers_are_used_again() {
    let mut p = BufferPool::new();
    assert!(p.take().is_empty());
    for i in 0..10u8 {
        p.give_back(vec![i]);
    }
    assert_eq!(p.buffers.len(), 8);
    assert!(p.take().is_empty());
    assert_eq!(p.buffers.len(), 7);
    assert_eq!(p.buffers[6], vec![6]);
}

#[test]
fn frames_before_the_start_are_dropped() {
    let mut g = SkipGate::new(2 * S);
    assert_eq!(g.offer(S), GateDecision::Drop);
    assert_eq!(g.offer(2 * S - 10 * MS), GateDecision::Open);
    assert_eq!(g.offer(0), GateDecision::Pass);
    let mut h = SkipGate::new(0);
    assert_eq!(h.offer(0), GateDecision::Pass);
}

#[test]
fn sound_follows_on_itself() {
    let mut p = SoundPosition { next: None };
    assert_eq!(p.place(Some(S), 24_000, 48_000), (S, S / 2));
    assert_eq!(p.place(None, 48_000, 48_000), (S + S / 2, S));
}

#[test]
fn packets_find_their_stream() {
    assert_eq!(route_packet(0, Some(0), Some(1)), Route::Video);
    assert_eq!(route_packet(1, Some(0), Some(1)), Route::Audio);
    assert_eq!(route_packet(2, Some(0), Some(1)), Route::Nowhere);
    assert_eq!(route_packet(0, None, None), Route::Nowhere);
}

#[test]
fn pads_find_their_branch() {
    assert!(starts_with("video/x-raw", "video/"));
    assert!(!starts_with("vid", "video/"));
    assert_eq!(route_pad("video/x-raw", true, true), Route::Video);
    assert_eq!(route_pad("audio/x-raw", true, true), Route::Audio);
    assert_eq!(route_pad("audio/x-raw", true, false), Route::Nowhere);
    assert_eq!(route_pad("text/x-raw", true, true), Route::Nowhere);
}

#[test]
fn preroll_seeks_only_where_needed() {
    assert_eq!(preroll_plan(0, 1000), PrerollPlan { seek_to: None, rate: None });
    let p = preroll_plan(3 * S, 2000);
    assert_eq!((p.seek_to, p.rate), (Some(3 * S), Some(2000)));
}

#[test]
fn bus_messages_end_the_wait() {
    assert_eq!(wait_step(BusEvent::AsyncDone), WaitStep::Ready);
    assert_eq!(wait_step(BusEvent::Error), WaitStep::Failed);
    assert_eq!(wait_step(BusEvent::Other), WaitStep::KeepWaiting);
}

#[test]
fn bridge_hands_on_what_it_gets() {
    assert_eq!(bridge_step(BridgeEvent::Stop, false), BridgeStep::Exit);
    assert_eq!(bridge_step(BridgeEvent::Sample, false), BridgeStep::HandOn);
    assert_eq!(bridge_step(BridgeEvent::NoSample { at_end: true }, false), BridgeStep::Exit);
    assert_eq!(bridge_step(BridgeEvent::NoSample { at_end: false }, false), BridgeStep::PullAgain);
    assert_eq!(bridge_step(BridgeEvent::ReceiverGone, false), BridgeStep::Exit);
    assert_eq!(bridge_step(BridgeEvent::Sample, true), BridgeStep::PullAgain);
}

#[test]
fn slow_motion_is_mute() {
    assert!(!is_muted(1000));
    assert!(!is_muted(990));
    assert!(is_muted(989));
    assert_eq!((sound_poll_ms(true), sound_poll_ms(false)), (50, 8));
}

#[test]
fn prewarming_stops_at_its_limit() {
    assert_eq!(prewarm_more(0, 4_194_304), Some(4_194_304));
    assert_eq!(prewarm_more(0, 0), None);
    assert_eq!(prewarm_more(12_582_912, 4_194_304), None);
}

#[test]
fn paths_become_urls() {
    assert_eq!(url_from_path("/a b/c.mp4"), "file:///a b/c.mp4");
}

#[test]
fn clock_delays_by_speed() {
    let mut c = StreamClock::new(1000, 5 * S);
    assert_eq!(c.delay(S, 5 * S), 0);
    assert_eq!(c.delay(2 * S, 5 * S), S);
    c.set_speed(2000, 5 * S);
    assert_eq!(c.delay(3 * S, 5 * S), S);
    assert_eq!(c.delay(3 * S, 5 * S + 999 * MS + 500_000), 0);
    c.reset(9 * S, 7 * S);
    assert_eq!(c.delay(9 * S, 7 * S), 0);
    assert_eq!(c.delay(10 * S, 7 * S), S / 2);
}

#[test]
fn reverse_windows_follow_each_other() {
    assert_eq!(next_reverse_window(10 * S), Some(6 * S));
    assert_eq!(next_reverse_window(S), Some(0));
    assert_eq!(next_reverse_window(0), None);
    assert!(in_reverse_window(5 * S, 6 * S));
    assert!(!in_reverse_window(7 * S, 6 * S));
    assert_eq!(gop_decision(S, 2 * S, 4 * S), GopDecision::Skip);
    assert_eq!(gop_decision(3 * S, 2 * S, 4 * S), GopDecision::Keep);
    assert_eq!(gop_decision(5 * S, 2 * S, 4 * S), GopDecision::Finish);
    let film: Vec<i64> = (0..10).map(|i| i * S).collect();
    let decided = |pts: &i64| gop_decision(*pts, 2 * S, 6 * S);
    let before_end = film.iter().take_while(|p| decided(p) != GopDecision::Finish);
    let gathered: Vec<i64> = before_end.filter(|p| decided(p) == GopDecision::Keep).copied().collect();
    assert_eq!(gathered, vec![2 * S, 3 * S, 4 * S, 5 * S]);
}

#[test]
fn reverse_pictures_are_paced() {
    let mut p = ReversePacer::new(1000, 0);
    assert_eq!(p.pace(4 * S, 0), 0);
    assert_eq!(p.pace(3 * S, 0), S);
    assert_eq!(p.pace(8 * S, 2 * S), 0);
}
