use std::collections::HashSet;

use wizard_editor::clip::{Clip, MediaPath};
use wizard_editor::ids::{ClipId, TimelineClipId};
use wizard_editor::project::ProjectState;
use wizard_editor::timeline::edit::PlayheadHit;
use wizard_editor::workers::decode::{DecodeStep, DecodeWorker, VideoDecodeRequest};
use wizard_editor::workers::intake::{frame_at_time, put_frame};
use wizard_editor::workers::queue::{scrub_frame_count, PreviewRequest, ScrubCacheRequest, WorkQueue};
use wizard_editor::workers::shelf::TextureCache;
use wizard_editor::workers::sound::{
    start_audio_sources, AudioPreviewRequest, SoundStep, SoundWorker,
};

const S: i64 = 1_000_000_000;

fn preview(n: u128, priority: bool) -> PreviewRequest {
    PreviewRequest::Enqueue { clip_id: ClipId(n), priority }
}

#[test]
fn previews_wait_once_and_urgent_ones_first() {
    let mut q = WorkQueue::new();
    q.apply_preview_req(preview(1, false));
    q.apply_preview_req(preview(2, false));
    q.apply_preview_req(preview(1, false));
    q.apply_preview_req(preview(3, true));
    q.apply_preview_req(preview(2, true));
    assert_eq!(q.next(), Some(ClipId(3)));
    assert_eq!(q.next(), Some(ClipId(1)));
    assert_eq!(q.next(), Some(ClipId(2)));
    assert_eq!(q.next(), None);
    q.apply_preview_req(preview(1, false));
    assert_eq!(q.next(), Some(ClipId(1)));
}

#[test]
fn invalidated_work_is_gone() {
    let mut q = WorkQueue::new();
    q.apply_scrub_req(ScrubCacheRequest::Extract { clip_id: ClipId(1) });
    q.apply_scrub_req(ScrubCacheRequest::Extract { clip_id: ClipId(2) });
    q.apply_scrub_req(ScrubCacheRequest::Invalidate { clip_id: ClipId(1) });
    assert_eq!(q.next(), Some(ClipId(2)));
    assert_eq!(q.next(), None);
}

#[test]
fn scrub_frames_are_counted_by_duration() {
    assert_eq!(scrub_frame_count(Some(10 * S), 2, 100), Some(20));
    assert_eq!(scrub_frame_count(Some(1_000 * S), 2, 100), Some(100));
    assert_eq!(scrub_frame_count(Some(1), 2, 100), Some(1));
    assert_eq!(scrub_frame_count(None, 2, 100), None);
    assert_eq!(scrub_frame_count(Some(0), 2, 100), None);
}

fn request(path: u64, time: i64) -> VideoDecodeRequest {
    VideoDecodeRequest { clip_id: ClipId(path as u128), path, time }
}

#[test]
fn decoded_pictures_are_kept() {
    let mut w = DecodeWorker::new();
    let r = request(1, S);
    assert_eq!(w.begin(r, None), DecodeStep::Open);
    assert_eq!(w.opened(r, true), (DecodeStep::Seek, None));
    assert_eq!(w.decoded(r, Some(77)), Some(77));
    assert_eq!(w.begin(r, Some(S)), DecodeStep::Skip);
    let next = request(1, S + S / 10);
    assert_eq!(w.begin(next, Some(S)), DecodeStep::DecodeNext);
    assert_eq!(w.decoded(next, Some(78)), Some(78));
    assert_eq!(w.begin(r, Some(S + S / 10)), DecodeStep::Emit(77));
    assert_eq!(w.begin(request(1, 9 * S), Some(S)), DecodeStep::Seek);
    assert_eq!(w.decoded(request(1, 9 * S), None), None);
}

#[test]
fn least_used_decoder_is_closed() {
    let mut w = DecodeWorker::new();
    for path in 1..=4 {
        let r = request(path, 0);
        assert_eq!(w.begin(r, None), DecodeStep::Open);
        assert_eq!(w.opened(r, true).1, None);
    }
    assert_ne!(w.begin(request(1, 5 * S), None), DecodeStep::Open);
    let r = request(5, 0);
    assert_eq!(w.begin(r, None), DecodeStep::Open);
    assert_eq!(w.opened(r, true).1, Some(2));
    assert_eq!(w.opened(request(6, 0), false).0, DecodeStep::Skip);
}

fn library(names: &[&str]) -> (ProjectState, Vec<ClipId>) {
    let mut p = ProjectState::default();
    let mut ids = Vec::new();
    for name in names {
        let c = Clip::from_path(MediaPath::parse(name.to_string()));
        ids.push(c.id);
        p.add_clip(c);
    }
    (p, ids)
}

#[test]
fn previews_are_asked_for_once() {
    let (p, ids) = library(&["/a.mp4", "/b.mp4", "/c.mp4", "/d.mp4"]);
    let mut t = TextureCache::default();
    let mut out = Vec::new();
    assert!(t.enqueue_preview_request(&p, ids[0], true, &mut out));
    assert!(!t.enqueue_preview_request(&p, ids[0], true, &mut out));
    assert!(!t.enqueue_preview_request(&p, ClipId(9), true, &mut out));
    assert_eq!(out, vec![PreviewRequest::Enqueue { clip_id: ids[0], priority: true }]);
    out.clear();
    t.enqueue_visible_previews(&p, Some(ids[1]), None, &ids, &mut out);
    assert_eq!(out[0], PreviewRequest::Enqueue { clip_id: ids[1], priority: true });
    assert_eq!(out.len(), 3);
}

#[test]
fn scrub_pictures_follow_the_timeline() {
    let (mut p, ids) = library(&["/a.mp4", "/b.mp4"]);
    let mut t = TextureCache::default();
    let track = p.timeline.video_tracks[0].id;
    let on = p.timeline.add_clip_to_track(ids[0], track, 0, S);
    let (extract, drop) = t.enqueue_scrub_cache_for_timeline_clips(&p);
    assert_eq!(extract, vec![ScrubCacheRequest::Extract { clip_id: ids[0] }]);
    assert!(drop.is_empty());
    let (extract, _) = t.enqueue_scrub_cache_for_timeline_clips(&p);
    assert!(extract.is_empty());
    t.scrub_frames.insert(ids[0].0);
    p.timeline.remove_clip(on);
    let (_, drop) = t.enqueue_scrub_cache_for_timeline_clips(&p);
    assert_eq!(drop, vec![ScrubCacheRequest::Invalidate { clip_id: ids[0] }]);
}

#[test]
fn frames_are_put_at_their_place() {
    let mut frames = vec![1];
    put_frame(&mut frames, 3, 9, 0);
    assert_eq!(frames, vec![1, 0, 0, 9]);
    put_frame(&mut frames, 0, 5, 0);
    assert_eq!(frames[0], 5);
}

#[test]
fn results_are_taken_in() {
    let mut t = TextureCache::default();
    t.pending_thumbnails.insert(1);
    t.take_thumbnail(ClipId(1), 40);
    assert_eq!(t.thumbnails.get(&1), Some(&40));
    t.take_preview_frame(ClipId(1), 1, 41, 40);
    assert_eq!(t.preview_frames.get(&1), Some(&vec![40, 41]));
    t.take_waveform(ClipId(1), vec![(-1, 1)]);
    assert_eq!(t.waveform_peaks.get(&1), Some(&vec![(-1, 1)]));
    assert!(!t.is_preview_loading(ClipId(1)));
    assert!(t.can_reuse_playback_texture(4, 3).is_none());
    t.playback_texture = Some((50, 4, 3));
    assert_eq!(t.can_reuse_playback_texture(4, 3), Some(50));
    assert!(t.can_reuse_playback_texture(4, 4).is_none());
}

#[test]
fn silent_files_are_not_opened_again() {
    let mut w = SoundWorker::new();
    let ask = AudioPreviewRequest::Preview { path: 1, time: S, sample_rate_hz: 48_000 };
    assert_eq!(w.begin(AudioPreviewRequest::Stop), SoundStep::Skip);
    assert_eq!(w.begin(ask), SoundStep::Open);
    assert_eq!(w.opened(1, S, true, true), SoundStep::Decode(S));
    assert_eq!(w.begin(ask), SoundStep::Decode(S));
    assert_eq!(w.opened(2, 0, false, false), SoundStep::Skip);
    assert!(w.path_has_no_audio(2));
    assert!(!w.path_has_no_audio(1));
    assert_eq!(
        w.begin(AudioPreviewRequest::Preview { path: 2, time: 0, sample_rate_hz: 48_000 }),
        SoundStep::Skip
    );
}

#[test]
fn sounding_clips_get_sources() {
    let (mut p, ids) = library(&["/a.mp4", "/b.mp4"]);
    let track = p.timeline.audio_tracks[0].id;
    let a = p.timeline.add_clip_to_track(ids[0], track, 0, S);
    let b = p.timeline.add_clip_to_track(ids[1], track, 2 * S, S);
    let hit = |id: TimelineClipId, time: i64| PlayheadHit {
        track_id: track,
        clip: *p.timeline.find_clip(id).unwrap().2,
        source_time: time,
    };
    let mut silent: HashSet<u128> = HashSet::new();
    silent.insert(ids[1].0);
    let started = start_audio_sources(&p, &silent, &vec![hit(a, 5), hit(b, 6)]);
    assert_eq!(started.len(), 1);
    assert_eq!((started[0].clip, started[0].source_time), (ids[0], 5));
}

#[test]
fn picture_that_is_asked_for_again_is_kept_longer() {
    let mut w = DecodeWorker::new();
    let first = request(1, 0);
    w.begin(first, None);
    w.opened(first, true);
    w.decoded(first, Some(1000));
    let second = request(1, S);
    assert_eq!(w.decoded(second, Some(1001)), Some(1001));
    for n in 2..64 {
        assert_eq!(w.decoded(request(1, n * S), Some(1000 + n as u64)), Some(1000 + n as u64));
    }
    assert_eq!(w.begin(first, None), DecodeStep::Emit(1000));
    w.decoded(request(1, 64 * S), Some(1064));
    assert_eq!(w.begin(first, None), DecodeStep::Emit(1000));
    assert_eq!(w.begin(second, None), DecodeStep::Seek);
    assert!(w.keeps(1000));
    assert!(!w.keeps(1001));
}

#[test]
fn moment_is_shown_by_the_last_picture_before_it() {
    let positions = vec![2 * S, 4 * S, 6 * S];
    assert_eq!(frame_at_time(&positions, 5 * S), Some(1));
    assert_eq!(frame_at_time(&positions, 6 * S), Some(2));
    assert_eq!(frame_at_time(&positions, 9 * S), Some(2));
    assert_eq!(frame_at_time(&positions, S), Some(0));
    assert_eq!(frame_at_time(&Vec::new(), S), None);
}
