use wizard_editor::browse::DebugUiState;
use wizard_editor::engine::forward::{find_timeline_clip, NextClip, Polled, Readiness};
use wizard_editor::engine::frames::{HoverNeed, PictureNeed, PictureOrder, ScrubNeed, SoundOrder};
use wizard_editor::engine::lookahead::{
    find_timeline_hit_for_source_pts, pick_best_frame_for_playhead,
    pick_best_reverse_frame_for_playhead,
};
use wizard_editor::engine::manage::Surroundings;
use wizard_editor::engine::pass::PassEnd;
use wizard_editor::engine::poll::{Incoming, PollContext};
use wizard_editor::engine::reverse::{reverse_boundary_threshold, should_use_cpu_reverse, ReverseTuning};
use wizard_editor::engine::rewind_cache::{CacheLimits, RewindCache, RewindCacheEntry};
use wizard_editor::engine::slots::{Command, FrameRef, PlaybackEngine, Source};
use wizard_editor::engine::status::{
    is_beyond_lookahead, is_within_lookahead, status_by_clock, status_by_frame, PipelineStatus,
};
use wizard_editor::ids::{ClipId, TimelineClipId};
use wizard_editor::playback::{Playback, PlaybackState};
use wizard_editor::timeline::edit::PlayheadHit;
use wizard_editor::timeline::lanes::Timeline;

const S: i64 = 1_000_000_000;
const MS: i64 = 1_000_000;

fn two_clips() -> (Timeline, TimelineClipId, TimelineClipId) {
    let mut t = Timeline::new();
    let track = t.video_tracks[0].id;
    let a = t.add_clip_to_track(ClipId(1), track, 0, 4 * S);
    let b = t.add_clip_to_track(ClipId(2), track, 4 * S, 4 * S);
    (t, a, b)
}

fn source(n: u128) -> Source {
    Source { clip: ClipId(n), path: n as u64 }
}

fn at(t: &Timeline, time: i64) -> NextClip {
    let hit: Option<PlayheadHit> = t.clip_at_time(time);
    NextClip { hit, source: hit.map(|h| source(h.clip.source_id.0)) }
}

fn ready() -> Readiness {
    Readiness { forward: true, reverse: true, force_reverse_after: 300 * MS }
}

fn around(t: &Timeline, playhead: i64, now: i64) -> Surroundings {
    Surroundings {
        now,
        scrubbing: None,
        here: at(t, playhead),
        has_audio: false,
        source_count: 0,
        ready: ready(),
        tuning: ReverseTuning { startup_timeout: 2 * S, boundary: 50 * MS },
        polled_shadow: Polled::Nothing,
        polled_reverse_shadow: Polled::Nothing,
        shadow_frame: None,
        reverse_shadow_frame: None,
    }
}

fn playing(playhead: i64) -> Playback {
    Playback { state: PlaybackState::Playing, playhead, speed: 1000 }
}

fn started(t: &Timeline, e: &mut PlaybackEngine, p: &mut Playback, out: &mut Vec<Command>) {
    e.manage_pipeline(p, t, around(t, p.playhead, 0), out);
    e.poll_pending_pipeline(Polled::Built { handle: 7, has_audio: true }, ready(), 0, out, p);
}

#[test]
fn playing_starts_a_pipeline() {
    let (t, a, _) = two_clips();
    let mut e = PlaybackEngine::new();
    let mut p = playing(S);
    let mut out = Vec::new();
    e.manage_pipeline(&mut p, &t, around(&t, S, 0), &mut out);
    assert_eq!(e.pending_forward.unwrap().timeline_clip, a);
    assert!(out.iter().any(|c| matches!(c, Command::SpawnForward { source_time, .. } if *source_time == S)));
    assert!(out.contains(&Command::StartAudioSources));
    out.clear();
    e.manage_pipeline(&mut p, &t, around(&t, S, MS), &mut out);
    assert!(!out.iter().any(|c| matches!(c, Command::SpawnForward { .. })));
    e.poll_pending_pipeline(Polled::Built { handle: 7, has_audio: true }, ready(), 2 * MS, &mut out, &p);
    assert!(e.forward.unwrap().activated);
    assert!(out.contains(&Command::BeginPlaying(7)));
}

#[test]
fn failed_pipeline_is_forgotten() {
    let (t, _, _) = two_clips();
    let mut e = PlaybackEngine::new();
    let mut p = playing(S);
    let mut out = Vec::new();
    e.manage_pipeline(&mut p, &t, around(&t, S, 0), &mut out);
    e.poll_pending_pipeline(Polled::Failed, ready(), 0, &mut out, &p);
    assert!(e.pending_forward.is_none() && e.forward.is_none());
}

#[test]
fn first_frame_places_the_playhead() {
    let (t, _, _) = two_clips();
    let mut e = PlaybackEngine::new();
    let mut p = playing(S);
    let mut out = Vec::new();
    started(&t, &mut e, &mut p, &mut out);
    out.clear();
    let frame = FrameRef { frame: 50, pts: S };
    let next = at(&t, 4 * S);
    e.apply_pipeline_frame(&mut p, frame, &t, next, MS, Polled::Nothing, &mut out);
    assert_eq!(p.playhead, S);
    assert_eq!(out, vec![Command::ShowFrame(50), Command::CountFrame]);
    assert!(e.pipeline_frame_delivered());
    assert_eq!(e.last_pipeline_frame_time(), Some(MS));
    assert_eq!(e.last_decoded_frame.unwrap().pts, S);
}

#[test]
fn shadow_takes_over_at_the_cut() {
    let (t, _, b) = two_clips();
    let mut e = PlaybackEngine::new();
    let mut p = playing(3 * S);
    let mut out = Vec::new();
    started(&t, &mut e, &mut p, &mut out);
    let next = at(&t, 4 * S);
    e.manage_pipeline(&mut p, &t, around(&t, 3 * S, MS), &mut out);
    e.manage_pipeline(&mut p, &t, around(&t, 3 * S, 2 * MS), &mut out);
    e.apply_pipeline_frame(&mut p, FrameRef { frame: 1, pts: 3 * S }, &t, next, 2 * MS, Polled::Nothing, &mut out);
    let ahead = wizard_editor::engine::lookahead::Ahead { next, remaining: Some(S) };
    e.manage_shadow_pipeline(&p, ahead, &t, 3 * MS, Polled::Nothing, &mut out);
    assert_eq!(e.pending_shadow.unwrap().timeline_clip, b);
    e.poll_pending_shadow_pipeline(Polled::Built { handle: 9, has_audio: true }, &out, &p);
    e.poll_shadow_frame(Some(FrameRef { frame: 2, pts: 0 }));
    assert!(e.shadow.unwrap().first_frame_ready);
    p.playhead = 4 * S;
    out.clear();
    e.apply_pipeline_frame(&mut p, FrameRef { frame: 3, pts: 4 * S }, &t, next, 4 * MS, Polled::Nothing, &mut out);
    assert_eq!(e.forward.unwrap().handle, 9);
    assert!(e.shadow.is_none());
    assert!(out.contains(&Command::ShowFrame(2)));
    assert!(out.contains(&Command::PromoteShadowAudio(9)));
}

#[test]
fn scrubbing_drops_all_pipelines() {
    let (t, _, _) = two_clips();
    let mut e = PlaybackEngine::new();
    let mut p = playing(S);
    let mut out = Vec::new();
    started(&t, &mut e, &mut p, &mut out);
    out.clear();
    let s = Surroundings { scrubbing: Some(2 * S), ..around(&t, 2 * S, MS) };
    e.manage_pipeline(&mut p, &t, s, &mut out);
    assert!(e.forward.is_none() && e.pending_forward.is_none());
    assert!(e.was_scrubbing);
    assert_eq!(out, vec![Command::ClearRewindCache, Command::ResetAudio]);
}

#[test]
fn gap_clears_the_picture() {
    let (t, _, _) = two_clips();
    let mut e = PlaybackEngine::new();
    let mut p = playing(S);
    let mut out = Vec::new();
    started(&t, &mut e, &mut p, &mut out);
    out.clear();
    p.playhead = 20 * S;
    e.manage_pipeline(&mut p, &t, around(&t, 20 * S, MS), &mut out);
    assert!(e.forward.is_none());
    assert_eq!(out, vec![Command::ClearTexture, Command::ResetAudio]);
}

#[test]
fn reverse_starts_its_own_pipeline() {
    let (t, a, _) = two_clips();
    let mut e = PlaybackEngine::new();
    let mut p = Playback { state: PlaybackState::PlayingReverse, ..playing(2 * S) };
    let mut out = Vec::new();
    e.manage_pipeline(&mut p, &t, around(&t, 2 * S, 0), &mut out);
    assert_eq!(e.pending_reverse.unwrap().timeline_clip, a);
    assert!(out.iter().any(|c| matches!(c, Command::SpawnReverse { .. })));
    e.poll_pending_reverse_pipeline(Polled::Built { handle: 4, has_audio: false }, ready(), MS, &mut out, &p);
    assert!(e.reverse.unwrap().activated);
    out.clear();
    e.apply_reverse_pipeline_frame(&mut p, FrameRef { frame: 8, pts: 2 * S }, &t, at(&t, -1), 50 * MS, ready(), 2 * MS, &mut out);
    assert!(out.contains(&Command::ShowFrame(8)));
    assert_eq!(e.reverse.unwrap().last_frame_time, Some(2 * MS));
}

#[test]
fn slow_reverse_pipeline_is_let_go_in_the_end() {
    let (t, _, _) = two_clips();
    let mut e = PlaybackEngine::new();
    let mut p = Playback { state: PlaybackState::PlayingReverse, ..playing(2 * S) };
    let mut out = Vec::new();
    let waiting = Readiness { forward: false, reverse: false, force_reverse_after: 300 * MS };
    e.manage_pipeline(&mut p, &t, around(&t, 2 * S, 0), &mut out);
    e.poll_pending_reverse_pipeline(Polled::Built { handle: 4, has_audio: false }, waiting, 0, &mut out, &p);
    assert!(!e.reverse.unwrap().activated);
    e.try_activate_pipeline(waiting, 299 * MS, &mut out, &p);
    assert!(!e.reverse.unwrap().activated);
    e.try_activate_pipeline(waiting, 300 * MS, &mut out, &p);
    assert!(e.reverse.unwrap().activated);
}

#[test]
fn container_decides_how_reverse_decodes() {
    assert_eq!(reverse_boundary_threshold("MPG"), 400 * MS);
    assert_eq!(reverse_boundary_threshold("mp4"), 120 * MS);
    assert!(should_use_cpu_reverse("Mov"));
    assert!(!should_use_cpu_reverse("webm"));
}

#[test]
fn status_follows_the_last_frame() {
    assert_eq!(status_by_frame(false, None, 9 * S), PipelineStatus::StartingUp);
    assert_eq!(status_by_frame(true, Some(0), 120 * MS), PipelineStatus::Delivering);
    assert_eq!(status_by_frame(true, Some(0), 121 * MS), PipelineStatus::Stalled);
    assert_eq!(status_by_frame(true, Some(0), 251 * MS), PipelineStatus::LongStall);
    assert_eq!(status_by_clock(true, Some(0), 81 * MS), PipelineStatus::Stalled);
    assert!(PipelineStatus::LongStall.is_stalled());
    assert!(!PipelineStatus::StartingUp.is_stalled());
    assert!(is_within_lookahead(S, 1000));
    assert!(is_beyond_lookahead(3 * S, 1000));
    assert!(!is_within_lookahead(3 * S / 2, 2000));
    assert!(is_within_lookahead(3 * S, 500));
}

fn entry(pos: i64, bytes: usize) -> RewindCacheEntry {
    RewindCacheEntry {
        timeline_pos: pos,
        source_pts: pos,
        clip_id: ClipId(1),
        timeline_clip_id: TimelineClipId(1),
        frame: pos as u64,
        bytes,
    }
}

#[test]
fn rewind_cache_drops_its_oldest() {
    let mut c = RewindCache::new(CacheLimits { max_frames: 3, max_bytes: 100 });
    assert!(c.is_empty());
    for i in 1..=4 {
        c.push(entry(i * S, 10));
    }
    assert_eq!(c.len(), 3);
    assert!(c.best_entry_for_playhead(S).is_none());
    assert_eq!(c.best_entry_for_playhead(3 * S).unwrap().timeline_pos, 3 * S);
    c.push(entry(5 * S, 95));
    assert_eq!(c.len(), 1);
    c.push(entry(6 * S, 1));
    c.trim_above(5 * S);
    assert_eq!(c.len(), 1);
    assert_eq!(c.last_timeline_clip_id(), Some(TimelineClipId(1)));
    c.clear();
    assert!(c.is_empty() && c.last_timeline_clip_id().is_none());
}

fn nothing_new() -> Incoming {
    Incoming { fallback: None, shadow_frame: None, forward: Vec::new(), reverse: Vec::new(), snippet: false }
}

fn context(t: &Timeline, playhead: i64, now: i64) -> PollContext {
    PollContext {
        now,
        scrubbing: false,
        here: at(t, playhead),
        next: at(t, 4 * S),
        previous: at(t, -1),
        boundary: 50 * MS,
        ready: ready(),
        polled_shadow: Polled::Nothing,
    }
}

#[test]
fn forward_frames_are_kept_for_rewinding() {
    let (t, _, _) = two_clips();
    let mut e = PlaybackEngine::new();
    let mut p = playing(S);
    let mut out = Vec::new();
    started(&t, &mut e, &mut p, &mut out);
    out.clear();
    let mut cache = RewindCache::new(CacheLimits { max_frames: 10, max_bytes: 1_000 });
    let incoming = Incoming { forward: vec![FrameRef { frame: 5, pts: S }], ..nothing_new() };
    assert!(e.poll_pipeline_frames(&mut p, &mut cache, &incoming, &t, context(&t, S, MS), &mut out));
    assert!(out.contains(&Command::ShowFrame(5)));
}

#[test]
fn snippet_sounds_only_at_rest() {
    let (t, _, _) = two_clips();
    let mut e = PlaybackEngine::new();
    let mut rest = Playback::default();
    let mut cache = RewindCache::new(CacheLimits { max_frames: 10, max_bytes: 1_000 });
    let mut out = Vec::new();
    let incoming = Incoming { snippet: true, ..nothing_new() };
    e.poll_pipeline_frames(&mut rest, &mut cache, &incoming, &t, context(&t, 0, 0), &mut out);
    assert!(out.contains(&Command::PlaySnippet));
    out.clear();
    let mut p = playing(S);
    e.poll_pipeline_frames(&mut p, &mut cache, &incoming, &t, context(&t, S, 0), &mut out);
    assert!(!out.contains(&Command::PlaySnippet));
}

#[test]
fn rewinding_is_served_from_the_cache() {
    let (t, _, _) = two_clips();
    let mut e = PlaybackEngine::new();
    let p = Playback { state: PlaybackState::PlayingReverse, ..playing(2 * S) };
    let mut cache = RewindCache::new(CacheLimits { max_frames: 10, max_bytes: 1_000 });
    cache.push(entry(S, 10));
    cache.push(entry(2 * S, 10));
    cache.push(entry(3 * S, 10));
    let mut out = Vec::new();
    assert!(e.serve_from_cache(&p, &mut cache, false, at(&t, 2 * S), 0, &mut out));
    assert!(out.contains(&Command::ShowFrame(2 * S as u64)));
    assert_eq!(cache.len(), 2);
}

#[test]
fn stopping_drops_what_plays() {
    let (t, _, _) = two_clips();
    let mut e = PlaybackEngine::new();
    let mut p = playing(S);
    let mut out = Vec::new();
    started(&t, &mut e, &mut p, &mut out);
    out.clear();
    e.handle_playback_state_transition(PlaybackState::Playing, PlaybackState::Stopped, &mut out);
    assert!(out.is_empty());
    e.handle_playback_stop_transition(&mut out);
    assert!(e.shadow.is_none() && e.pending_forward.is_none() && e.last_decoded_frame.is_none());
    assert!(out.contains(&Command::ResetAudio) && out.contains(&Command::ClearRewindCache));
    assert!(!e.is_playing(PlaybackState::Stopped));
}

#[test]
fn turning_round_drops_all_pipelines() {
    let (t, _, _) = two_clips();
    let mut e = PlaybackEngine::new();
    let mut p = playing(S);
    let mut out = Vec::new();
    started(&t, &mut e, &mut p, &mut out);
    out.clear();
    e.handle_playback_state_transition(PlaybackState::Playing, PlaybackState::PlayingReverse, &mut out);
    assert!(e.forward.is_none());
    assert!(!out.contains(&Command::ClearRewindCache));
    e.handle_playback_state_transition(PlaybackState::PlayingReverse, PlaybackState::Playing, &mut out);
    assert!(out.contains(&Command::ClearRewindCache));
}

#[test]
fn clock_waits_for_a_stalled_pipeline() {
    let (t, _, _) = two_clips();
    let mut e = PlaybackEngine::new();
    let mut p = playing(S);
    let mut out = Vec::new();
    started(&t, &mut e, &mut p, &mut out);
    let frame = FrameRef { frame: 50, pts: S };
    e.apply_pipeline_frame(&mut p, frame, &t, at(&t, 4 * S), MS, Polled::Nothing, &mut out);
    assert!(e.should_use_clock_advance(PlaybackState::Playing, 2 * MS, S));
    assert!(e.should_use_clock_advance(PlaybackState::Playing, 81 * MS, S));
    assert!(!e.should_use_clock_advance(PlaybackState::Playing, 82 * MS, S));
    for now in [2, 150, 200, 300, 60_000] {
        assert!(!e.shows_fallback(PlaybackState::Playing, false, true, now * MS));
    }
    e.last_decoded_frame = None;
    assert!(!e.shows_fallback(PlaybackState::Playing, false, true, 100 * MS));
    assert!(e.shows_fallback(PlaybackState::Playing, false, true, 150 * MS));
}

#[test]
fn pass_moves_the_playhead() {
    let e = PlaybackEngine::new();
    let mut p = playing(S);
    let mut d = DebugUiState::default();
    e.begin_pass(&mut p, &mut d, None, 5 * S, 100 * S, S);
    assert_eq!((p.playhead, d.ui_fps), (S, 0));
    e.begin_pass(&mut p, &mut d, Some(5 * S), 5 * S + 20 * MS, 100 * S, S);
    assert_eq!((p.playhead, d.ui_fps), (S + 20 * MS, 50_000));
    p.state = PlaybackState::Stopped;
    e.begin_pass(&mut p, &mut d, Some(6 * S), 7 * S, 100 * S, S);
    assert_eq!(p.playhead, S + 20 * MS);
}

#[test]
fn starting_pipeline_holds_the_playhead() {
    let (t, a, _) = two_clips();
    let mut e = PlaybackEngine::new();
    let mut p = playing(S);
    let mut out = Vec::new();
    started(&t, &mut e, &mut p, &mut out);
    assert_eq!(e.active_timeline_clip(), Some(a));
    let since = e.forward.as_ref().unwrap().started_at;
    assert!(!e.shows_fallback(PlaybackState::Playing, false, true, since + 220 * MS));
    assert!(e.shows_fallback(PlaybackState::Playing, false, true, since + 221 * MS));
    let mut d = DebugUiState::default();
    e.begin_pass(&mut p, &mut d, Some(0), S, 100 * S, S);
    assert_eq!(p.playhead, S);
    e.begin_pass(&mut p, &mut d, Some(S), 2 * S, 100 * S, S);
    assert_eq!(p.playhead, 2 * S);
}

#[test]
fn stop_is_noticed_once() {
    let mut e = PlaybackEngine::new();
    let mut out = Vec::new();
    let mut p = playing(3 * S);
    assert_eq!(e.end_pass(&p, &mut out), PassEnd { jumped_back: None, repaint: true });
    p.playhead = 2 * S;
    assert_eq!(e.end_pass(&p, &mut out), PassEnd { jumped_back: Some(S), repaint: true });
    assert!(out.is_empty());
    p.state = PlaybackState::Stopped;
    assert!(!e.end_pass(&p, &mut out).repaint);
    assert_eq!(out, vec![Command::StopAudioPreview, Command::ClearRewindCache, Command::ResetAudio]);
    out.clear();
    e.end_pass(&p, &mut out);
    assert!(out.is_empty());
}

#[test]
fn rest_asks_for_each_picture_once() {
    let (t, _, _) = two_clips();
    let mut e = PlaybackEngine::new();
    let p = Playback { playhead: S, ..Playback::default() };
    let n = PictureNeed { scrubbing: true, here: at(&t, S), cached: false, now: 0 };
    assert_eq!(
        e.update_playback_frame(&p, n),
        PictureOrder::Decode { clip: ClipId(1), source_time: S, scrubbing: true }
    );
    assert_eq!(e.update_playback_frame(&p, n), PictureOrder::Nothing);
}

#[test]
fn hovering_sounds_once_per_place() {
    let mut e = PlaybackEngine::new();
    let n = HoverNeed {
        has_output: true,
        playing: false,
        scrubbing: false,
        hovered: Some(ClipId(1)),
        place: Some(500_000),
        has_preview: true,
        sounding: Some(10 * S),
    };
    assert_eq!(e.update_hover_audio(n), SoundOrder::Preview { clip: ClipId(1), time: 5 * S });
    assert_eq!(e.update_hover_audio(n), SoundOrder::Nothing);
    assert_eq!(e.update_hover_audio(HoverNeed { hovered: None, ..n }), SoundOrder::Stop);
    assert_eq!(e.update_hover_audio(HoverNeed { hovered: None, ..n }), SoundOrder::Nothing);
}

#[test]
fn scrubbing_sounds_once_per_place() {
    let (t, _, _) = two_clips();
    let mut e = PlaybackEngine::new();
    let n = ScrubNeed { has_output: true, scrubbing: true, hovering: false, hit: at(&t, S).hit, sounds: true };
    assert_eq!(e.update_timeline_scrub_audio(n), SoundOrder::Preview { clip: ClipId(1), time: S });
    assert_eq!(e.update_timeline_scrub_audio(n), SoundOrder::Nothing);
    assert_eq!(e.update_timeline_scrub_audio(ScrubNeed { scrubbing: false, ..n }), SoundOrder::Nothing);
    assert_eq!(e.update_timeline_scrub_audio(ScrubNeed { sounds: false, ..n }), SoundOrder::Nothing);
}

#[test]
fn best_frame_is_nearest_the_playhead() {
    let (t, a, _) = two_clips();
    let clip = find_timeline_clip(&t, a);
    let frames: Vec<FrameRef> = [900, 1000, 1100].iter().map(|ms| FrameRef { frame: *ms as u64, pts: ms * MS }).collect();
    assert_eq!(pick_best_frame_for_playhead(&frames, Some(0), clip, S), 1);
    assert_eq!(pick_best_frame_for_playhead(&frames, Some(0), clip, 9 * S), 2);
    let back: Vec<FrameRef> = frames.iter().rev().copied().collect();
    assert_eq!(pick_best_reverse_frame_for_playhead(&back, Some(0), clip, S), 1);
    assert_eq!(find_timeline_hit_for_source_pts(clip, S), Some(S));
    assert_eq!(find_timeline_hit_for_source_pts(clip, 5 * S), None);
    assert!(find_timeline_clip(&t, TimelineClipId(3)).is_none());
}
