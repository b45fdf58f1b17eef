use wizard_editor::browse::{BrowserUiState, TimelineUiState};
use wizard_editor::clip::{Clip, MediaPath};
use wizard_editor::ids::{ClipId, TimelineClipId};
use wizard_editor::panel::browser::{
    click_thumbnail, drag_payload, finish_rename, grid, look_at_thumbnail, pointer_along,
    scrub_frame,
};
use wizard_editor::panel::drag::{
    begin_drag, handle_clip_drag_drop, visible_clip_box, ClipBox, PanelGeometry, Point,
};
use wizard_editor::panel::face::{clip_face, ClipMeans};
use wizard_editor::panel::ghosts::{drag_ghosts, drop_files};
use wizard_editor::engine::slots::{FrameOrigin, Shown};
use wizard_editor::panel::inspector::{clip_lines, decode_line, fine_seconds_text, fps_line, instance_lines, project_lines, short_fps_line};
use wizard_editor::panel::labels::{
    can_shorten, drop_time_text, rate_text, rounded_quotient, ruler_label, seconds_text, shorten,
    thumbnail_line, timecode_text,
};
use wizard_editor::panel::layout::{
    available_track_height, build_track_layout, find_row, total_track_height, ROW_HEIGHT,
};
use wizard_editor::panel::menus::{
    add_pair, begin_rename, can_move_up, click_clip, delete_clip, delete_pair, move_pair_down,
    move_pair_up, toggle_muted, toggle_visible,
};
use wizard_editor::panel::pixels::{px_of_time, time_at_px};
use wizard_editor::panel::snap::snap_time_to_clip_boundaries;
use wizard_editor::panel::tile::{
    begin_browsing, end_browsing, see_tile, tile_motion, tile_picture, toggle_tag_filter, TilePicture,
};
use wizard_editor::panel::transport::{
    fit_picture, jump_to_clip, rewind, scrub_to, selected_clip_id, skip_forward, stop_at_start,
    timeline_clip_count,
};
use wizard_editor::panel::trimming::handle_clip_trim;
use wizard_editor::panel::view::{
    handle_zoom_scroll, ruler_marks, scroll_from_pointer, scrollbar_thumb, shown_duration, Heights,
    Wheel,
};
use wizard_editor::panel::waves::{
    bar_extent, center_crop_uv, has_peak_slice, visible_peak_slice, waveform_bars, waveform_vertices, Crop,
};
use wizard_editor::playback::{Playback, PlaybackState};
use wizard_editor::project::{ProjectState, TrimEdge};
use wizard_editor::selection::Selection;
use wizard_editor::tag::Tag;
use wizard_editor::timeline::lanes::Timeline;
use wizard_editor::timeline::track::TrackKind;

const S: i64 = 1_000_000_000;

fn geometry() -> PanelGeometry {
    PanelGeometry { content_left: 70_000, content_width: 900_000, tracks_top: 0, zoom: 100_000, scroll: 0 }
}

#[test]
fn times_and_pixels_agree() {
    assert_eq!(px_of_time(2 * S, 100_000), 200_000);
    assert_eq!(time_at_px(250_000, 100_000), 2 * S + S / 2);
    assert_eq!(time_at_px(-5_000, 100_000), 0);
    let g = geometry();
    assert_eq!(g.time_at(g.x_of(3 * S)), 3 * S);
}

#[test]
fn rows_mirror_the_pairs() {
    let t = Timeline::new();
    let rows = build_track_layout(&t);
    let names: Vec<&str> = rows.iter().map(|r| r.name.as_str()).collect();
    assert_eq!(names, vec!["V3", "V2", "V1", "A1", "A2", "A3"]);
    assert_eq!(rows[0].pair_index, 2);
    assert_eq!(rows[3].pair_index, 0);
    assert_eq!(rows[3].kind, TrackKind::Audio);
    assert_eq!(rows[5].display_index, 5);
    assert_eq!(find_row(ROW_HEIGHT * 2 + 1, 0), 2);
    assert_eq!(find_row(-10, 0), 0);
    assert_eq!(total_track_height(6), 6 * ROW_HEIGHT);
    assert_eq!(available_track_height(100_000), 100_000 - 24_000 - 12_000 - 8_000);
}

fn one_clip() -> (ProjectState, TimelineClipId) {
    let mut p = ProjectState::default();
    let track = p.timeline.video_tracks[0].id;
    let id = p.timeline.add_clip_to_track(ClipId(1), track, 2 * S, 4 * S);
    (p, id)
}

#[test]
fn pointer_snaps_to_the_nearest_end() {
    let (p, id) = one_clip();
    assert_eq!(snap_time_to_clip_boundaries(&p.timeline, 2 * S + S / 20, 100_000, None), (2 * S, true));
    assert_eq!(snap_time_to_clip_boundaries(&p.timeline, 6 * S - S / 20, 100_000, None), (6 * S, true));
    assert_eq!(snap_time_to_clip_boundaries(&p.timeline, 4 * S, 100_000, None), (4 * S, false));
    assert_eq!(snap_time_to_clip_boundaries(&p.timeline, 2 * S + 1, 100_000, Some(id)), (2 * S + 1, false));
    assert_eq!(snap_time_to_clip_boundaries(&p.timeline, -5, 100_000, Some(id)), (0, false));
}

#[test]
fn clip_box_and_its_ends() {
    let (p, id) = one_clip();
    let c = *p.timeline.find_clip(id).unwrap().2;
    let b = visible_clip_box(geometry(), c, 10_000).unwrap();
    assert_eq!(b, ClipBox { left: 270_000, right: 670_000, top: 12_000, bottom: 68_000 });
    assert_eq!(b.edge_under(Point { x: 275_000, y: 20_000 }), Some(TrimEdge::Left));
    assert_eq!(b.edge_under(Point { x: 665_000, y: 20_000 }), Some(TrimEdge::Right));
    assert_eq!(b.edge_under(Point { x: 400_000, y: 20_000 }), None);
    assert_eq!(b.edge_under(Point { x: 275_000, y: 90_000 }), None);
    let backward = ClipBox { left: 670_000, right: 270_000, ..b };
    assert_eq!(backward.edge_under(Point { x: 670_000, y: 20_000 }), None);
    let mut ui = TimelineUiState::default();
    begin_drag(&mut ui, geometry(), c, backward, Point { x: 670_000, y: 20_000 });
    assert!(ui.dragging_clip == Some(id) && ui.trimming_clip.is_none());
    let far = PanelGeometry { scroll: 5_000_000, ..geometry() };
    assert!(visible_clip_box(far, c, 0).is_none());
}

#[test]
fn drag_begins_in_the_middle_trim_at_the_ends() {
    let (p, id) = one_clip();
    let c = *p.timeline.find_clip(id).unwrap().2;
    let b = visible_clip_box(geometry(), c, 0).unwrap();
    let mut ui = TimelineUiState::default();
    begin_drag(&mut ui, geometry(), c, b, Point { x: 370_000, y: 20_000 });
    assert_eq!(ui.dragging_clip, Some(id));
    assert_eq!(ui.drag_grab_offset, Some(S));
    let mut ui = TimelineUiState::default();
    begin_drag(&mut ui, geometry(), c, b, Point { x: 670_000, y: 20_000 });
    assert!(ui.dragging_clip.is_none());
    assert_eq!(ui.trimming_clip.unwrap().edge, TrimEdge::Right);
}

#[test]
fn dropped_clip_moves_to_the_row() {
    let (mut p, id) = one_clip();
    let mut ui = TimelineUiState { dragging_clip: Some(id), drag_grab_offset: Some(S), ..TimelineUiState::default() };
    let mut sel = Selection::new();
    let over_v2 = Point { x: 70_000 + 900_000, y: ROW_HEIGHT + 5 };
    handle_clip_drag_drop(&mut p, &mut ui, &mut sel, true, Some(over_v2), geometry());
    assert_eq!(ui.dragging_clip, Some(id));
    handle_clip_drag_drop(&mut p, &mut ui, &mut sel, false, Some(over_v2), geometry());
    let (track, _, c) = p.timeline.find_clip(id).unwrap();
    assert_eq!(track.name, "V2");
    assert_eq!(c.timeline_start, 8 * S);
    assert!(ui.dragging_clip.is_none() && ui.drag_grab_offset.is_none());
    p.undo();
    assert_eq!(p.timeline.find_clip(id).unwrap().0.name, "V1");
}

#[test]
fn clip_is_not_dropped_on_the_other_kind() {
    let (mut p, id) = one_clip();
    let mut ui = TimelineUiState { dragging_clip: Some(id), drag_grab_offset: Some(0), ..TimelineUiState::default() };
    let mut sel = Selection::new();
    handle_clip_drag_drop(&mut p, &mut ui, &mut sel, false, Some(Point { x: 900_000, y: 4 * ROW_HEIGHT }), geometry());
    let (track, _, c) = p.timeline.find_clip(id).unwrap();
    assert_eq!((track.name.as_str(), c.timeline_start), ("V1", 2 * S));
    assert!(ui.dragging_clip.is_none());
}

#[test]
fn trim_follows_the_pointer_until_release() {
    let (mut p, id) = one_clip();
    let mut source = Clip::from_path(MediaPath::parse("/a.mp4".to_string()));
    source.id = ClipId(1);
    source.duration = Some(10 * S);
    p.add_clip(source);
    let c = *p.timeline.find_clip(id).unwrap().2;
    let b = visible_clip_box(geometry(), c, 0).unwrap();
    let mut ui = TimelineUiState::default();
    begin_drag(&mut ui, geometry(), c, b, Point { x: 670_000, y: 20_000 });
    handle_clip_trim(&mut p, &mut ui, true, Some(570_000), geometry());
    assert_eq!(p.timeline.find_clip(id).unwrap().2.duration, 3 * S);
    assert!(ui.trimming_clip.is_some());
    handle_clip_trim(&mut p, &mut ui, false, Some(570_000), geometry());
    assert!(ui.trimming_clip.is_none());
    assert_eq!(p.timeline.find_clip(id).unwrap().2.duration, 3 * S);
}

fn two_files() -> (ProjectState, ClipId, ClipId) {
    let mut p = ProjectState::default();
    let mut a = Clip::from_path(MediaPath::parse("/a.mp4".to_string()));
    a.duration = Some(2 * S);
    let b = Clip::from_path(MediaPath::parse("/b.wav".to_string()));
    let (x, y) = (a.id, b.id);
    p.add_clip(a);
    p.add_clip(b);
    (p, x, y)
}

#[test]
fn dropped_files_follow_each_other() {
    let (mut p, x, y) = two_files();
    let track = p.timeline.video_tracks[0].id;
    drop_files(&mut p, &vec![x, y], track, S);
    let clips = &p.timeline.video_tracks[0].clips;
    assert_eq!((clips[0].timeline_start, clips[0].duration), (S, 2 * S));
    assert_eq!((clips[1].timeline_start, clips[1].duration), (3 * S, 3 * S));
}

#[test]
fn ghosts_show_where_files_would_land() {
    let (p, x, y) = two_files();
    let ui = TimelineUiState::default();
    let at = Point { x: 170_000, y: 2 * ROW_HEIGHT + 5 };
    let g = drag_ghosts(&p, &ui, &vec![x, y], true, at, geometry());
    assert_eq!(g[0].time, S);
    assert!(g.iter().any(|c| c.source == y && c.time == 3 * S));
    assert!(g.iter().all(|c| !c.mismatch));
}

#[test]
fn zooming_keeps_the_time_under_the_pointer() {
    let mut ui = TimelineUiState { scroll_offset: 100_000, ..TimelineUiState::default() };
    let h = Heights { total: 372_000, available: 200_000 };
    handle_zoom_scroll(&mut ui, Wheel { zoom_factor: 2_000_000, dx: 0, dy: 0 }, 50_000, h);
    assert_eq!((ui.zoom, ui.scroll_offset), (200_000, 250_000));
    handle_zoom_scroll(&mut ui, Wheel { zoom_factor: 900_000_000, dx: 0, dy: 0 }, 0, h);
    assert_eq!(ui.zoom, 500_000);
    handle_zoom_scroll(&mut ui, Wheel { zoom_factor: 1, dx: 0, dy: 0 }, 0, h);
    assert_eq!(ui.zoom, 20_000);
}

#[test]
fn wheel_scrolls_within_bounds() {
    let mut ui = TimelineUiState::default();
    let h = Heights { total: 372_000, available: 200_000 };
    handle_zoom_scroll(&mut ui, Wheel { zoom_factor: 1_000_000, dx: -30_000, dy: -20_000 }, 0, h);
    assert_eq!((ui.scroll_offset, ui.vertical_scroll_offset), (30_000, 20_000));
    handle_zoom_scroll(&mut ui, Wheel { zoom_factor: 1_000_000, dx: 90_000, dy: -900_000 }, 0, h);
    assert_eq!((ui.scroll_offset, ui.vertical_scroll_offset), (0, 172_000));
    handle_zoom_scroll(&mut ui, Wheel { zoom_factor: 1_000_000, dx: 50, dy: 50 }, 0, h);
    assert_eq!((ui.scroll_offset, ui.vertical_scroll_offset), (0, 172_000));
}

#[test]
fn scrollbar_reaches_both_ends() {
    assert_eq!(scrollbar_thumb(400_000, 1_600_000, 0), (0, 100_000));
    assert_eq!(scrollbar_thumb(400_000, 1_600_000, 1_200_000), (300_000, 100_000));
    assert_eq!(scroll_from_pointer(-5, 400_000, 900), 0);
    assert_eq!(scroll_from_pointer(400_000, 400_000, 900), 900);
    assert_eq!(scroll_from_pointer(200_000, 400_000, 900), 450);
}

#[test]
fn panel_reaches_past_the_last_clip() {
    let (mut p, _) = one_clip();
    assert_eq!(shown_duration(&p.timeline), 15 * S);
    let track = p.timeline.audio_tracks[1].id;
    p.timeline.add_clip_to_track(ClipId(2), track, 20 * S, 4 * S);
    assert_eq!(shown_duration(&p.timeline), 29 * S);
}

#[test]
fn ruler_marks_whole_seconds() {
    assert_eq!(ruler_marks(150_000, 200_000, 100_000), vec![1, 2, 3, 4]);
    assert_eq!(ruler_marks(0, 100_000, 100_000), vec![0, 1]);
}

#[test]
fn waveform_shows_the_used_part() {
    assert_eq!(visible_peak_slice(100, 2 * S, 4 * S, Some(10 * S)), (20, 40));
    assert_eq!(visible_peak_slice(100, 2 * S, 40 * S, Some(10 * S)), (20, 100));
    assert_eq!(visible_peak_slice(100, 2 * S, 4 * S, None), (0, 100));
    assert_eq!(visible_peak_slice(100, 4 * S, 2 * S, None), (0, 100));
    assert_eq!(visible_peak_slice(100, 4 * S, 2 * S, Some(0)), (0, 100));
    assert_eq!(visible_peak_slice(100, 40 * S, 30 * S, Some(10 * S)), (100, 100));
    assert!(!has_peak_slice(100, 4 * S, 2 * S, Some(10 * S)));
    assert!(has_peak_slice(100, 2 * S, 4 * S, Some(10 * S)));
    assert_eq!(waveform_bars(4_000, 8), vec![0, 2, 4, 6]);
    assert_eq!(waveform_bars(9_000, 3), vec![0, 1, 2]);
    assert!(waveform_bars(9_000, 0).is_empty());
    assert_eq!(bar_extent((-16_777_216, 0), 20_000).1, 20_000);
    assert_eq!(bar_extent((0, 0), 20_000), (1_000, 1_000));
    assert_eq!(waveform_vertices(10), (10, 66));
    assert_eq!(waveform_vertices(5_000), (2_048, 12_294));
}

#[test]
fn crop_is_centred() {
    assert_eq!(center_crop_uv(100, 100, 100, 100), Crop { left: 0, top: 0, right: 1_000_000, bottom: 1_000_000 });
    assert_eq!(center_crop_uv(200, 100, 100, 100), Crop { left: 250_000, top: 0, right: 750_000, bottom: 1_000_000 });
    assert_eq!(center_crop_uv(100, 200, 100, 100), Crop { left: 0, top: 250_000, right: 1_000_000, bottom: 750_000 });
    assert_eq!(center_crop_uv(0, 200, 100, 100).right, 1_000_000);
}

#[test]
fn labels_are_written_out() {
    assert_eq!(ruler_label(0), "0:00");
    assert_eq!(ruler_label(75), "1:15");
    assert_eq!(timecode_text(3_661 * S + S / 2), "61:01.12");
    assert_eq!(thumbnail_line(Some(65 * S), Some((1920, 1080))), "1:05  1920x1080");
    assert_eq!(thumbnail_line(None, None), "");
    assert_eq!(rate_text(59_940), "59.9");
    assert_eq!(thumbnail_line(None, Some((4, 3))), "4x3");
    assert_eq!(drop_time_text(62 * S + S / 2), "1:02.5");
    assert_eq!(seconds_text(2 * S + S / 2), "2.50s");
    assert_eq!(drop_time_text(S / 4), "0:00.2");
    assert_eq!(drop_time_text(3 * S / 4), "0:00.8");
    assert_eq!(drop_time_text(60 * S - 1), "0:60.0");
    assert_eq!((seconds_text(S / 8), seconds_text(3 * S / 8)), ("0.12s".to_string(), "0.38s".to_string()));
    assert_eq!((rate_text(2_250), rate_text(2_750), rate_text(2_251)), ("2.2".to_string(), "2.8".to_string(), "2.3".to_string()));
    assert_eq!(fine_seconds_text(2 * S + 62_500_000), "2.062");
    assert_eq!((rounded_quotient(5, 2), rounded_quotient(7, 2), rounded_quotient(8, 3)), (2, 4, 3));
}

#[test]
fn long_names_are_shortened() {
    assert!(can_shorten("a long file name.mp4", 12, 9));
    assert_eq!(shorten("a long file name.mp4", 12, 9), "a long fi...");
    assert_eq!(shorten("short.mp4", 12, 9), "short.mp4");
    assert!(!can_shorten("ééééééé", 12, 9));
}

#[test]
fn thumbnails_fill_the_width() {
    let (columns, size) = grid(330, 100, 10, 9);
    assert_eq!(columns, 3);
    assert!(size >= 100);
    assert_eq!(grid(50, 100, 10, 9).0, 1);
}

#[test]
fn hovering_waits_for_its_delay() {
    let mut ui = BrowserUiState::default();
    let first = look_at_thumbnail(&mut ui, ClipId(1), false, true, 0, 300);
    assert!(!first.ready);
    assert_eq!(first.repaint_after, Some(300));
    let later = look_at_thumbnail(&mut ui, ClipId(1), false, true, 300, 300);
    assert!(later.ready);
    let gone = look_at_thumbnail(&mut ui, ClipId(1), false, false, 400, 300);
    assert!(!gone.ready);
}

#[test]
fn pointer_place_chooses_the_frame() {
    assert_eq!(pointer_along(150, 100, 100), 500_000);
    assert_eq!(pointer_along(50, 100, 100), 0);
    assert_eq!(pointer_along(500, 100, 100), 1_000_000);
    assert_eq!(scrub_frame(11, false, None, true, Some(500_000)), Some(5));
    assert_eq!(scrub_frame(0, false, None, true, Some(500_000)), None);
    assert_eq!(scrub_frame(11, false, None, false, Some(500_000)), None);
}

#[test]
fn clicks_select_files() {
    let ids: Vec<ClipId> = (1..5).map(ClipId).collect();
    let mut s = Selection::new();
    click_thumbnail(&mut s, ids[0], false, false, &ids, Some(100_000), None);
    assert_eq!(s.primary_clip(), Some(ids[0]));
    click_thumbnail(&mut s, ids[2], false, true, &ids, None, None);
    assert_eq!(s.selected_clips.len(), 3);
    assert_eq!(drag_payload(&s, ids[1], &ids), vec![ids[0], ids[1], ids[2]]);
    assert_eq!(drag_payload(&s, ids[3], &ids), vec![ids[3]]);
    click_thumbnail(&mut s, ids[1], true, false, &ids, None, None);
    assert!(!s.is_clip_selected(ids[1]));
    assert_eq!(s.last_selected_clip, Some(ids[2]));
    click_thumbnail(&mut s, ids[3], true, false, &ids, None, None);
    assert_eq!(s.last_selected_clip, Some(ids[3]));
    click_thumbnail(&mut s, ids[3], true, false, &ids, None, None);
    assert!(s.last_selected_clip.is_some_and(|id| s.is_clip_selected(id)));
}

#[test]
fn stars_and_tags_of_a_selection_are_made_equal() {
    let (mut p, x, y) = two_files();
    let mut s = Selection::new();
    s.toggle_clip(x);
    s.toggle_clip(y);
    p.toggle_star(x);
    p.star_selected(&s);
    assert!(p.starred.contains(&x.0) && p.starred.contains(&y.0));
    p.star_selected(&s);
    assert!(p.starred.is_empty());
    p.toggle_tag(y, Tag::VO);
    p.tag_selected(&s, Tag::VO);
    assert_eq!((p.clip_tag_mask(x), p.clip_tag_mask(y)), (2, 2));
    p.tag_selected(&s, Tag::VO);
    assert_eq!((p.clip_tag_mask(x), p.clip_tag_mask(y)), (0, 0));
}

#[test]
fn rename_keeps_trimmed_names() {
    let (mut p, x, _) = two_files();
    let mut ui = BrowserUiState { renaming_clip: Some(x), rename_buffer: "  Take 2 ".to_string(), ..BrowserUiState::default() };
    finish_rename(&mut p, &mut ui, x, false);
    assert_eq!(p.clips.get(&x.0).unwrap().display_name(), "Take 2");
    assert!(ui.renaming_clip.is_none());
    let mut ui = BrowserUiState { renaming_clip: Some(x), rename_buffer: "no".to_string(), ..BrowserUiState::default() };
    finish_rename(&mut p, &mut ui, x, true);
    assert_eq!(p.clips.get(&x.0).unwrap().display_name(), "Take 2");
}

#[test]
fn transport_buttons_move_the_playhead() {
    let mut p = Playback { playhead: 3 * S, ..Playback::default() };
    skip_forward(&mut p);
    assert_eq!(p.playhead, 8 * S);
    rewind(&mut p);
    rewind(&mut p);
    assert_eq!(p.playhead, 0);
    p.playhead = S;
    p.state = PlaybackState::Playing;
    stop_at_start(&mut p);
    assert_eq!((p.state, p.playhead), (PlaybackState::Stopped, 0));
}

#[test]
fn scrubbing_snaps_and_jumping_finds_the_clip() {
    let (mut p, id) = one_clip();
    let mut ui = TimelineUiState::default();
    let mut playback = Playback::default();
    assert!(scrub_to(&mut playback, &mut ui, &p.timeline, 275_000, geometry()));
    assert_eq!(playback.playhead, 2 * S);
    assert!(!scrub_to(&mut playback, &mut ui, &p.timeline, 470_000, geometry()));
    assert_eq!(playback.playhead, 4 * S);
    p.playback.playhead = 9 * S;
    jump_to_clip(&mut p, id);
    assert_eq!(p.playback.playhead, 2 * S);
    assert_eq!(timeline_clip_count(&p.timeline), 1);
    assert_eq!(selected_clip_id(&p, &Selection::new(), Some(id)), Some(ClipId(1)));
    assert_eq!(selected_clip_id(&p, &Selection::new(), None), None);
}

#[test]
fn picture_fits_its_room() {
    let (w, h) = fit_picture(1920, 1080, 1000, 1000);
    assert!(w <= 1_000_000 && h <= 940_000);
    assert_eq!(w * 9 / 16, h);
}

#[test]
fn menu_deletes_one_clip_or_both() {
    let (mut p, x, _) = two_files();
    let track = p.timeline.video_tracks[0].id;
    p.add_clip_to_track(x, track, 0);
    let id = p.timeline.video_tracks[0].clips[0].id;
    let other = p.timeline.audio_tracks[0].clips[0].id;
    let mut s = Selection::new();
    s.select_single_timeline_clip(id);
    delete_clip(&mut p, &mut s, id, false);
    assert!(p.timeline.find_clip(id).is_none() && p.timeline.find_clip(other).is_some());
    assert!(!s.is_timeline_clip_selected(id));
    p.undo();
    s.select_single_timeline_clip(other);
    delete_clip(&mut p, &mut s, id, true);
    assert!(p.timeline.find_clip(id).is_none() && p.timeline.find_clip(other).is_none());
    assert!(s.is_timeline_clip_selected(other));
}

#[test]
fn menu_adds_and_deletes_pairs() {
    let mut p = ProjectState::default();
    add_pair(&mut p);
    assert_eq!(p.timeline.pair_count(), 4);
    delete_pair(&mut p, 1);
    assert_eq!(p.timeline.pair_count(), 3);
    p.undo();
    assert_eq!(p.timeline.pair_count(), 4);
    p.undo();
    assert_eq!(p.timeline.pair_count(), 3);
}

#[test]
fn menu_mutes_and_hides_tracks() {
    let mut p = ProjectState::default();
    let id = p.timeline.audio_tracks[1].id;
    assert!(build_track_layout(&p.timeline).iter().all(|l| !l.is_dimmed()));
    toggle_muted(&mut p, id);
    let rows = build_track_layout(&p.timeline);
    let muted: Vec<_> = rows.iter().filter(|l| l.muted).collect();
    assert_eq!(muted.len(), 1);
    assert!(muted[0].track_id == id && muted[0].is_dimmed() && muted[0].visible);
    toggle_visible(&mut p, id);
    assert!(!p.timeline.audio_tracks[1].visible && p.timeline.audio_tracks[1].muted);
    toggle_muted(&mut p, id);
    assert!(!p.timeline.audio_tracks[1].muted);
    toggle_visible(&mut p, id);
    assert!(build_track_layout(&p.timeline).iter().all(|l| !l.is_dimmed()));
    p.undo();
    assert!(!p.timeline.audio_tracks[1].visible && !p.timeline.audio_tracks[1].muted);
}

#[test]
fn menu_moves_pairs() {
    let mut p = ProjectState::default();
    let video: Vec<_> = p.timeline.video_tracks.iter().map(|t| t.id).collect();
    let audio: Vec<_> = p.timeline.audio_tracks.iter().map(|t| t.id).collect();
    let order = |p: &ProjectState| -> (Vec<_>, Vec<_>) {
        (
            p.timeline.video_tracks.iter().map(|t| t.id).collect(),
            p.timeline.audio_tracks.iter().map(|t| t.id).collect(),
        )
    };
    assert!(can_move_up(&p, 1) && !can_move_up(&p, 2));
    move_pair_up(&mut p, 2);
    move_pair_down(&mut p, 0);
    assert_eq!(order(&p), (video.clone(), audio.clone()));
    move_pair_up(&mut p, 0);
    assert_eq!(
        order(&p),
        (vec![video[1], video[0], video[2]], vec![audio[1], audio[0], audio[2]])
    );
    move_pair_down(&mut p, 1);
    assert_eq!(order(&p), (video.clone(), audio.clone()));
    p.undo();
    p.undo();
    assert_eq!(order(&p), (video, audio));
    assert!(p.timeline.pair_count() == 3);
}

#[test]
fn click_selects_clip_and_file() {
    let (p, id) = one_clip();
    let c = *p.timeline.find_clip(id).unwrap().2;
    let mut s = Selection::new();
    let mut ui = TimelineUiState::default();
    click_clip(&ui, &mut s, c);
    assert!(s.is_timeline_clip_selected(id) && s.is_clip_selected(ClipId(1)));
    s = Selection::new();
    let b = visible_clip_box(geometry(), c, 0).unwrap();
    begin_drag(&mut ui, geometry(), c, b, Point { x: 670_000, y: 20_000 });
    click_clip(&ui, &mut s, c);
    assert!(!s.is_timeline_clip_selected(id));
}

#[test]
fn labels_can_be_searched() {
    let (mut p, x, _) = two_files();
    p.toggle_tag(x, Tag::Music);
    assert_eq!(p.clip_tag_mask(x), Tag::Music.bit());
    let label = Tag::Music.label().to_lowercase();
    assert!(p.clips.get(&x.0).unwrap().search_haystack.contains(&label));
    p.toggle_tag(x, Tag::Music);
    assert!(!p.clips.get(&x.0).unwrap().search_haystack.contains(&label));
    let mut s = Selection::new();
    s.toggle_clip(x);
    p.tag_selected(&s, Tag::Music);
    assert!(p.clips.get(&x.0).unwrap().search_haystack.contains(&label));
}

#[test]
fn rename_begins_with_the_present_name() {
    let (p, x, _) = two_files();
    let mut ui = BrowserUiState::default();
    begin_rename(&p, &mut ui, x);
    assert_eq!((ui.renaming_clip, ui.rename_buffer.as_str()), (Some(x), "a.mp4"));
    begin_rename(&p, &mut ui, ClipId(9));
    assert_eq!(ui.rename_buffer, "");
}

#[test]
fn clip_faces_follow_their_width() {
    let (mut p, x, _) = two_files();
    let track = p.timeline.video_tracks[0].id;
    p.add_clip_to_track(x, track, 0);
    p.toggle_star(x);
    let c = p.timeline.video_tracks[0].clips[0];
    let s = Selection::new();
    let ui = TimelineUiState::default();
    let m = ClipMeans { kind: TrackKind::Video, width: 40_000, gpu: true, has_peaks: true, has_thumbnail: true, pointed: Some(TrimEdge::Left) };
    let f = clip_face(&p, &ui, &s, c, m);
    assert_eq!((f.thumbnail, f.name, f.star), (Some(40_000), true, true));
    assert!(f.left_handle && !f.right_handle && f.resize_pointer && !f.selected && !f.dragged);
    assert!(!f.gpu_waveform && !f.waveform);
    let narrow = clip_face(&p, &ui, &s, c, ClipMeans { width: 19_999, pointed: None, ..m });
    assert_eq!((narrow.thumbnail, narrow.name, narrow.star), (None, false, false));
    let sound = ClipMeans { kind: TrackKind::Audio, width: 90_000, ..m };
    assert!(clip_face(&p, &ui, &s, c, sound).gpu_waveform);
    assert!(clip_face(&p, &ui, &s, c, ClipMeans { gpu: false, ..sound }).waveform);
    let linked = p.timeline.audio_tracks[0].clips[0];
    assert!(clip_face(&p, &ui, &s, linked, sound).star);
    p.toggle_star(x);
    assert!(!clip_face(&p, &ui, &s, c, m).star && !clip_face(&p, &ui, &s, linked, sound).star);
}

#[test]
fn tiles_show_the_best_there_is() {
    assert_eq!(tile_picture(Some(3), true, true, true), TilePicture::Frame(3));
    assert_eq!(tile_picture(None, true, true, true), TilePicture::Thumbnail);
    assert_eq!(tile_picture(None, false, true, true), TilePicture::Waiting);
    assert_eq!(tile_picture(None, false, false, true), TilePicture::Sound);
    assert_eq!(tile_picture(None, false, false, false), TilePicture::NoPreview);
    assert!(tile_motion(true, false, true).veil);
    assert!(tile_motion(true, true, false).repaint);
    assert!(!tile_motion(false, true, true).repaint);
}

#[test]
fn browser_notes_what_is_pointed_at() {
    let mut ui = BrowserUiState::default();
    let mut s = Selection::new();
    begin_browsing(&mut ui, &mut s);
    assert!(see_tile(&mut ui, &mut s, ClipId(1), true, Some(7)));
    assert!(!see_tile(&mut ui, &mut s, ClipId(2), false, None));
    assert_eq!((s.hovered_clip, ui.hovered_scrub_t), (Some(ClipId(1)), Some(7)));
    assert_eq!(ui.visible_clips, vec![ClipId(1), ClipId(2)]);
    ui.hover_active_clip = Some(ClipId(1));
    end_browsing(&mut ui, true);
    assert_eq!(ui.hover_active_clip, Some(ClipId(1)));
    end_browsing(&mut ui, false);
    assert_eq!(ui.hover_active_clip, None);
    begin_browsing(&mut ui, &mut s);
    assert!(ui.visible_clips.is_empty() && s.hovered_clip.is_none());
    s.select_single(ClipId(1));
    assert!(!see_tile(&mut ui, &mut s, ClipId(1), true, Some(7)));
    toggle_tag_filter(&mut ui, Tag::Sfx);
    assert_eq!(ui.tag_filter_mask, 8);
}

#[test]
fn inspector_lines_are_written_out() {
    let (mut p, x, _) = two_files();
    let track = p.timeline.video_tracks[0].id;
    p.add_clip_to_track(x, track, S);
    assert_eq!(
        clip_lines(p.clips.get(&x.0).unwrap()),
        vec!["Duration: 2.00s", "Resolution: Unknown", "Codec: Unknown", "Type: Video + Audio"]
    );
    assert_eq!(project_lines(&p), vec!["Clips: 2", "Tracks: 3 video / 3 audio", "Timeline clips: 2"]);
    let on = &p.timeline.video_tracks[0];
    assert_eq!(
        instance_lines(on, on.clips[0]),
        vec!["Track: V1 (video)", "Start: 1.00s", "Duration: 2.00s", "Source range: 0.00s -> 2.00s"]
    );
    assert_eq!(fps_line(60_000, 23_976), "UI 60.0 fps | Video 24.0 fps");
    assert_eq!(short_fps_line(60_000, 23_976), "UI 60.0 | Video 24.0");
    assert_eq!(decode_line(None), "Decode pts: -");
    assert_eq!(
        decode_line(Some(Shown { pts: S + 7_000_000, origin: FrameOrigin::Forward })),
        "Decode fwd pts: 1.007"
    );
}
