use wizard_editor::ids::{ClipId, TimelineClipId, TrackId};
use wizard_editor::project::{TrimEdge, TrimState};
use wizard_editor::timeline::clip::TimelineClip;
use wizard_editor::timeline::lanes::Timeline;
use wizard_editor::timeline::overlap::take_range;
use wizard_editor::timeline::track::{Track, TrackKind};
use wizard_editor::timeline::trim::trim_clip;

const S: i64 = 1_000_000_000;

fn clip(n: u128, start: i64, duration: i64, source_in: i64) -> TimelineClip {
    TimelineClip {
        id: TimelineClipId(n),
        source_id: ClipId(n),
        track_id: TrackId(0),
        timeline_start: start * S,
        duration: duration * S,
        source_in: source_in * S,
        source_out: (source_in + duration) * S,
        linked_to: None,
    }
}

fn spans(clips: &[TimelineClip]) -> Vec<(i64, i64, i64, i64)> {
    let mut all: Vec<(i64, i64, i64, i64)> = clips
        .iter()
        .map(|c| (c.timeline_start / S, (c.timeline_start + c.duration) / S, c.source_in / S, c.source_out / S))
        .collect();
    all.sort();
    all
}

#[test]
fn range_inside_a_clip_splits_it() {
    let mut clips = vec![clip(1, 0, 10, 0)];
    take_range(&mut clips, 3 * S, 5 * S);
    assert_eq!(spans(&clips), vec![(0, 3, 0, 3), (5, 10, 5, 10)]);
    assert_ne!(clips[0].id, clips[1].id);
}

#[test]
fn split_pieces_come_after_all_that_survive() {
    let mut clips = vec![clip(1, 0, 10, 0), clip(2, 4, 2, 0), clip(3, 12, 2, 0)];
    take_range(&mut clips, 3 * S, 5 * S);
    let ids: Vec<u128> = clips.iter().map(|c| c.id.0).take(3).collect();
    assert_eq!(ids, vec![1, 2, 3]);
    assert_eq!(clips.len(), 4);
    assert_eq!((clips[3].timeline_start, clips[3].source_in), (5 * S, 5 * S));
    assert!(clips.iter().all(|c| c.duration > 0 && c.source_out - c.source_in == c.duration));
}

#[test]
fn range_over_a_clip_removes_it() {
    let mut clips = vec![clip(1, 2, 2, 0), clip(2, 8, 2, 0)];
    take_range(&mut clips, S, 5 * S);
    assert_eq!(spans(&clips), vec![(8, 10, 0, 2)]);
}

#[test]
fn range_over_an_end_cuts_it_back() {
    let mut clips = vec![clip(1, 0, 4, 1), clip(2, 6, 4, 1)];
    take_range(&mut clips, 3 * S, 7 * S);
    assert_eq!(spans(&clips), vec![(0, 3, 1, 4), (7, 10, 2, 5)]);
}

#[test]
fn range_beside_clips_changes_nothing() {
    let mut clips = vec![clip(1, 0, 3, 0), clip(2, 5, 2, 0)];
    take_range(&mut clips, 3 * S, 5 * S);
    assert_eq!(spans(&clips), vec![(0, 3, 0, 3), (5, 7, 0, 2)]);
}

#[test]
fn placing_a_clip_makes_room() {
    let mut track = Track::new("V1".to_string(), TrackKind::Video);
    track.place(clip(1, 0, 10, 0));
    track.place(clip(2, 4, 2, 0));
    assert_eq!(spans(&track.clips), vec![(0, 4, 0, 4), (4, 6, 0, 2), (6, 10, 6, 10)]);
}

#[test]
fn new_timeline_has_three_pairs() {
    let t = Timeline::new();
    assert_eq!(t.pair_count(), 3);
    assert_eq!(t.track_count(), 6);
    assert_eq!(t.video_tracks[0].name, "V1");
    assert_eq!(t.audio_tracks[2].name, "A3");
    assert_eq!(t.timeline_duration(), 0);
}

#[test]
fn pairs_are_added_and_removed() {
    let mut t = Timeline::new();
    t.add_track_pair();
    assert_eq!(t.pair_count(), 4);
    assert_eq!(t.video_tracks[3].name, "V4");
    let kept = t.video_tracks[1].id;
    t.remove_track_pair(0);
    assert_eq!(t.pair_count(), 3);
    assert_eq!(t.video_tracks[0].id, kept);
}

#[test]
fn last_pair_is_not_removed() {
    let mut t = Timeline::new();
    t.remove_track_pair(0);
    t.remove_track_pair(0);
    t.remove_track_pair(0);
    assert_eq!(t.pair_count(), 1);
    assert_eq!(t.audio_tracks.len(), 1);
}

#[test]
fn paired_tracks_find_each_other() {
    let t = Timeline::new();
    assert_eq!(t.paired_track_id(t.video_tracks[1].id), Some(t.audio_tracks[1].id));
    assert_eq!(t.paired_track_id(t.audio_tracks[2].id), Some(t.video_tracks[2].id));
    assert_eq!(t.paired_track_id(TrackId(7)), None);
}

#[test]
fn added_clip_is_found() {
    let mut t = Timeline::new();
    let track = t.video_tracks[0].id;
    let id = t.add_clip_to_track(ClipId(5), track, 2 * S, 3 * S);
    let (found, place, c) = t.find_clip(id).unwrap();
    assert_eq!(found.id, track);
    assert_eq!(place, 0);
    assert_eq!(c.timeline_start, 2 * S);
    assert_eq!(c.end(), 5 * S);
    assert_eq!(t.track_kind_for_clip(id), Some(TrackKind::Video));
    assert_eq!(t.timeline_duration(), 5 * S);
    assert!(t.find_clip(TimelineClipId(1)).is_none());
}

#[test]
fn clip_is_not_added_before_the_beginning() {
    let mut t = Timeline::new();
    let track = t.audio_tracks[0].id;
    let id = t.add_clip_to_track(ClipId(5), track, -S, S);
    assert_eq!(t.find_clip(id).unwrap().2.timeline_start, 0);
}

#[test]
fn clip_moves_along_its_track() {
    let mut t = Timeline::new();
    let track = t.video_tracks[0].id;
    let a = t.add_clip_to_track(ClipId(1), track, 0, 2 * S);
    let _ = t.add_clip_to_track(ClipId(2), track, 4 * S, 4 * S);
    t.move_clip_on_track(track, a, 5 * S);
    assert_eq!(
        spans(&t.video_tracks[0].clips),
        vec![(4, 5, 0, 1), (5, 7, 0, 2), (7, 8, 3, 4)]
    );
}

#[test]
fn linked_clips_move_together() {
    let mut t = Timeline::new();
    let (v, a) = (t.video_tracks[0].id, t.audio_tracks[0].id);
    let x = t.add_clip_to_track(ClipId(1), v, 0, 2 * S);
    let y = t.add_clip_to_track(ClipId(1), a, 0, 2 * S);
    t.link_clips(x, y);
    t.move_clip_on_track(v, x, 6 * S);
    assert_eq!(t.find_clip(y).unwrap().2.timeline_start, 6 * S);
    t.move_clip_across_tracks(x, t.video_tracks[2].id, S);
    assert_eq!(t.find_clip(x).unwrap().0.id, t.video_tracks[2].id);
    assert_eq!(t.find_clip(x).unwrap().2.track_id, t.video_tracks[2].id);
    assert_eq!(t.find_clip(y).unwrap().2.timeline_start, S);
    assert_eq!(t.find_clip(y).unwrap().0.id, a);
}

#[test]
fn playhead_hits_the_first_track_first() {
    let mut t = Timeline::new();
    let (low, high) = (t.video_tracks[0].id, t.video_tracks[2].id);
    let a = t.add_clip_to_track(ClipId(1), low, 0, 10 * S);
    let b = t.add_clip_to_track(ClipId(2), high, 4 * S, 2 * S);
    let first = t.clip_at_time(S).unwrap();
    assert_eq!((first.clip.id, first.source_time, first.track_id), (a, S, low));
    assert_ne!(a, b);
    assert_eq!(t.clip_at_time(5 * S).unwrap().clip.id, a);
    assert!(t.clip_at_time(10 * S).is_none());
    assert!(t.audio_clip_at_time(S).is_none());
}

#[test]
fn trimmed_link_is_synced_with_room() {
    let mut t = Timeline::new();
    let (v, a) = (t.video_tracks[0].id, t.audio_tracks[0].id);
    let x = t.add_clip_to_track(ClipId(1), v, 0, 4 * S);
    let y = t.add_clip_to_track(ClipId(1), a, 0, 2 * S);
    let z = t.add_clip_to_track(ClipId(2), a, 3 * S, 4 * S);
    t.link_clips(x, y);
    t.sync_linked_clip(x);
    assert_eq!(t.find_clip(y).unwrap().2.duration, 4 * S);
    t.sync_linked_clip_after_trim(x);
    assert_eq!(t.find_clip(y).unwrap().2.end(), 4 * S);
    assert_eq!(t.find_clip(z).unwrap().2.timeline_start, 4 * S);
}

#[test]
fn removing_a_clip_can_take_its_link_along() {
    let mut t = Timeline::new();
    let (v, a) = (t.video_tracks[0].id, t.audio_tracks[0].id);
    let x = t.add_clip_to_track(ClipId(1), v, 0, 2 * S);
    let y = t.add_clip_to_track(ClipId(1), a, 0, 2 * S);
    t.link_clips(x, y);
    let mut single = t.snapshot();
    single.remove_clip_single(x);
    assert!(single.find_clip(x).is_none());
    assert!(single.find_clip(y).is_some());
    t.remove_clip(x);
    assert!(t.find_clip(x).is_none());
    assert!(t.find_clip(y).is_none());
}

#[test]
fn removing_several_clips() {
    let mut t = Timeline::new();
    let v = t.video_tracks[0].id;
    let x = t.add_clip_to_track(ClipId(1), v, 0, S);
    let y = t.add_clip_to_track(ClipId(1), v, 2 * S, S);
    let z = t.add_clip_to_track(ClipId(1), v, 4 * S, S);
    t.remove_clips(&vec![x, z, TimelineClipId(3)]);
    assert!(t.find_clip(x).is_none() && t.find_clip(z).is_none());
    assert!(t.find_clip(y).is_some());
}

fn trim(c: TimelineClip, edge: TrimEdge) -> TrimState {
    TrimState {
        clip_id: c.id,
        edge,
        original_position: c.timeline_start,
        original_duration: c.duration,
        original_in_point: c.source_in,
        original_out_point: c.source_out,
    }
}

#[test]
fn right_end_is_trimmed_to_the_pointer() {
    let c = clip(1, 10, 4, 2);
    let r = trim_clip(c, trim(c, TrimEdge::Right), 13 * S, 20 * S);
    assert_eq!((r.source_out, r.duration, r.timeline_start), (5 * S, 3 * S, 10 * S));
}

#[test]
fn right_end_stays_within_source_and_shortest() {
    let c = clip(1, 10, 4, 2);
    let far = trim_clip(c, trim(c, TrimEdge::Right), 90 * S, 20 * S);
    assert_eq!((far.source_out, far.duration), (20 * S, 18 * S));
    let near = trim_clip(c, trim(c, TrimEdge::Right), 0, 20 * S);
    assert_eq!(near.duration, 100_000_000);
    let short = TimelineClip { duration: 50_000_000, source_in: 0, source_out: 50_000_000, ..c };
    let longer = trim_clip(short, trim(short, TrimEdge::Right), 12 * S, 20 * S);
    assert_eq!((longer.duration, longer.source_out), (2 * S, 2 * S));
}

#[test]
fn left_end_is_trimmed_to_the_pointer() {
    let c = clip(1, 10, 4, 2);
    let r = trim_clip(c, trim(c, TrimEdge::Left), 11 * S, 20 * S);
    assert_eq!((r.timeline_start, r.source_in, r.duration), (11 * S, 3 * S, 3 * S));
    let back = trim_clip(c, trim(c, TrimEdge::Left), 0, 20 * S);
    assert_eq!((back.timeline_start, back.source_in, back.duration), (8 * S, 0, 6 * S));
    let far = trim_clip(c, trim(c, TrimEdge::Left), 90 * S, 20 * S);
    assert_eq!((far.duration, far.end()), (100_000_000, 14 * S));
}

#[test]
fn finished_trim_makes_room_on_both_tracks() {
    let mut t = Timeline::new();
    let (v, a) = (t.video_tracks[0].id, t.audio_tracks[0].id);
    let x = t.add_clip_to_track(ClipId(1), v, 0, 2 * S);
    let y = t.add_clip_to_track(ClipId(1), a, 0, 2 * S);
    let next = t.add_clip_to_track(ClipId(2), v, 2 * S, 4 * S);
    let under = t.add_clip_to_track(ClipId(3), a, 2 * S, 4 * S);
    t.link_clips(x, y);
    let c = *t.find_clip(x).unwrap().2;
    t.draw_trim(trim(c, TrimEdge::Right), 3 * S, 9 * S);
    assert_eq!(t.find_clip(x).unwrap().2.end(), 3 * S);
    assert_eq!(t.find_clip(y).unwrap().2.end(), 3 * S);
    assert_eq!(t.find_clip(next).unwrap().2.timeline_start, 2 * S);
    t.finalize_trim(x);
    assert_eq!(t.find_clip(next).unwrap().2.timeline_start, 3 * S);
    assert_eq!(t.find_clip(under).unwrap().2.timeline_start, 3 * S);
}

#[test]
fn edits_never_leave_an_overlap() {
    let assert_sound = |t: &Timeline| {
        for track in t.all_tracks() {
            let spans = spans(&track.clips);
            assert!(spans.windows(2).all(|w| w[0].1 <= w[1].0));
            assert!(track.clips.iter().all(|c| c.source_out - c.source_in == c.duration));
        }
    };
    let mut t = Timeline::new();
    let (v, a, w) = (t.video_tracks[0].id, t.audio_tracks[0].id, t.video_tracks[1].id);
    let x = t.add_clip_to_track(ClipId(1), v, 0, 6 * S);
    let y = t.add_clip_to_track(ClipId(1), a, 0, 6 * S);
    t.link_clips(x, y);
    assert_sound(&t);
    let z = t.add_clip_to_track(ClipId(2), v, 2 * S, 2 * S);
    assert_eq!(t.video_tracks[0].clips.len(), 3);
    assert_sound(&t);
    t.move_clip_on_track(v, z, S);
    assert_sound(&t);
    t.move_clip_across_tracks(x, w, 3 * S);
    assert_sound(&t);
    let c = *t.find_clip(z).unwrap().2;
    t.draw_trim(trim(c, TrimEdge::Right), 5 * S, 9 * S);
    t.finalize_trim(z);
    assert_sound(&t);
    t.move_track_pair(0, 1);
    t.remove_clip(x);
    assert!(t.find_clip(x).is_none() && t.find_clip(y).is_none());
    assert_sound(&t);
    t.remove_track_pair(2);
    assert_sound(&t);
}

#[test]
fn all_tracks_lists_video_before_audio() {
    let t = Timeline::new();
    let all = t.all_tracks();
    assert_eq!(all.len(), 6);
    assert_eq!(all[0].id, t.video_tracks[0].id);
    assert_eq!(all[3].id, t.audio_tracks[0].id);
    assert_eq!(t.track_index_and_kind(all[4].id), Some((TrackKind::Audio, 1)));
    assert_eq!(t.track_by_id(all[2].id).unwrap().name, "V3");
}

#[test]
fn identifiers_are_fresh() {
    assert_ne!(TimelineClipId::new(), TimelineClipId::new());
    assert_ne!(ClipId::new(), ClipId::new());
    let id = TrackId::new();
    assert_eq!((id.0 >> 76) & 0xf, 4);
}

#[test]
fn muted_is_not_heard_and_hidden_is_not_seen() {
    let mut t = Timeline::new();
    t.video_tracks[0].clips.push(clip(1, 0, 4, 0));
    t.video_tracks[1].clips.push(clip(2, 0, 4, 0));
    t.audio_tracks[0].clips.push(clip(3, 0, 4, 0));
    t.audio_tracks[1].clips.push(clip(4, 0, 4, 0));
    assert_eq!(t.video_clip_at_time(S).unwrap().clip.id, TimelineClipId(1));
    t.video_tracks[0].visible = false;
    assert_eq!(t.video_clip_at_time(S).unwrap().clip.id, TimelineClipId(2));
    t.video_tracks[1].visible = false;
    assert!(t.video_clip_at_time(S).is_none());
    t.audio_tracks[0].muted = true;
    let heard = t.audio_clips_at_time(S);
    assert_eq!(heard.iter().map(|h| h.clip.id.0).collect::<Vec<u128>>(), vec![4]);
    assert!(t.has_unmuted_audio_at_time(S) && !t.has_unmuted_audio_at_time(4 * S));
    t.audio_tracks[1].muted = true;
    assert!(!t.has_unmuted_audio_at_time(S));
}

#[test]
fn pairs_between_give_way_to_a_moved_pair() {
    let mut t = Timeline::new();
    t.add_track_pair();
    let ids: Vec<TrackId> = t.video_tracks.iter().map(|v| v.id).collect();
    t.move_track_pair(0, 2);
    let moved: Vec<TrackId> = t.video_tracks.iter().map(|v| v.id).collect();
    assert_eq!(moved, vec![ids[1], ids[2], ids[0], ids[3]]);
    t.move_track_pair(0, 4);
    t.move_track_pair(7, 1);
    assert_eq!(t.video_tracks.iter().map(|v| v.id).collect::<Vec<TrackId>>(), moved);
    t.move_track_pair(2, 0);
    assert_eq!(t.video_tracks.iter().map(|v| v.id).collect::<Vec<TrackId>>(), ids);
}

#[test]
fn clips_find_their_neighbours() {
    let mut t = Timeline::new();
    t.video_tracks[0].clips.push(clip(1, 0, 4, 2));
    t.video_tracks[1].clips.push(clip(2, 4, 4, 0));
    let next = t.next_clip_after(TimelineClipId(1)).unwrap();
    assert_eq!((next.clip.id.0, next.source_time), (2, 0));
    let previous = t.previous_clip_before(TimelineClipId(2)).unwrap();
    assert_eq!((previous.clip.id.0, previous.source_time), (1, 6 * S - 1));
    assert!(t.next_clip_after(TimelineClipId(2)).is_none());
    assert!(t.previous_clip_before(TimelineClipId(1)).is_none());
    assert!(t.next_clip_after(TimelineClipId(9)).is_none());
    assert_eq!(t.time_remaining_in_clip(TimelineClipId(2), 5 * S), Some(3 * S));
    assert_eq!(t.time_remaining_in_clip(TimelineClipId(2), 9 * S), Some(-S));
    assert_eq!(t.time_remaining_in_clip(TimelineClipId(9), 0), None);
    t.video_tracks[1].visible = false;
    assert!(t.next_clip_after(TimelineClipId(1)).is_none());
}

#[test]
fn every_sounding_track_is_heard() {
    let mut t = Timeline::new();
    t.audio_tracks[0].clips.push(clip(1, 0, 4, 2));
    t.audio_tracks[2].clips.push(clip(2, 1, 4, 0));
    t.video_tracks[1].clips.push(clip(3, 0, 9, 0));
    let heard = t.audio_clips_at_time(3 * S);
    assert_eq!(heard.iter().map(|h| h.clip.id.0).collect::<Vec<u128>>(), vec![1, 2]);
    assert_eq!(heard[0].source_time, 5 * S);
    assert_eq!(heard[1].source_time, 2 * S);
    assert_eq!(t.audio_clip_at_time(3 * S).unwrap().clip.id, heard[0].clip.id);
    assert_eq!(t.audio_clips_at_time(4 * S).len(), 1);
    assert!(t.audio_clips_at_time(8 * S).is_empty());
    assert_eq!(t.video_clip_at_time(8 * S).unwrap().clip.id, TimelineClipId(3));
    assert!(t.video_clip_at_time(9 * S).is_none());
}
