use std::collections::HashSet;

use wizard_editor::browse::{AppState, SortMode};
use wizard_editor::clip::{round_seconds, Clip, MediaPath};
use wizard_editor::ids::{ClipId, TimelineClipId};
use wizard_editor::keyboard::{handle_keyboard, play_keys, Keys};
use wizard_editor::media::stream::{MediaMetadata, VideoInfo};
use wizard_editor::order::{stable_order, Key};
use wizard_editor::playback::{Playback, PlaybackDirection, PlaybackState, NORMAL_SPEED};
use wizard_editor::project::ProjectState;
use wizard_editor::selection::{place_of, Selection};
use wizard_editor::tag::Tag;
use wizard_editor::text::{comes_before, chars_of, find_in, same_text, split_words, text_of, trim_text};
use wizard_editor::timeline::lanes::Timeline;
use wizard_editor::undo::UndoManager;
use wizard_editor::workers::intake::{import_file, take_metadata};
use wizard_editor::workers::shelf::TextureCache;

const S: i64 = 1_000_000_000;

fn media(path: &str) -> Clip {
    Clip::from_path(MediaPath::parse(path.to_string()))
}

#[test]
fn clip_takes_name_and_extension_from_path() {
    let c = media("/films/Holiday One.MOV");
    assert_eq!(c.filename, "Holiday One.MOV");
    assert_eq!(c.extension(), "MOV");
    assert_eq!(c.display_name(), "Holiday One.MOV");
    assert_eq!(c.search_haystack, "holiday one.mov");
    assert!(c.duration.is_none() && !c.audio_only);
}

#[test]
fn path_without_name_gives_empty_texts() {
    let c = media("/");
    assert_eq!(c.filename, "");
    assert_eq!(c.extension(), "");
    assert_eq!(media("/films/README").extension(), "");
    assert_eq!(media("/films/.hidden").extension(), "");
    assert_eq!(media("/films/two.parts.Mkv").extension(), "Mkv");
    assert_eq!(media("/films/dot.").path.extension, Some(String::new()));
    assert_eq!(media("/films/..").path.file_name, None);
}

#[test]
fn haystack_holds_all_that_is_known() {
    let mut c = media("/films/a.mp4");
    c.display_name = Some("Opening SHOT".to_string());
    c.codec = Some("H264".to_string());
    c.resolution = Some((1920, 1080));
    c.duration = Some(125 * S + 600_000_000);
    c.rebuild_search_haystack(Tag::Music.bit() | Tag::BRoll.bit());
    assert_eq!(
        c.search_haystack,
        "a.mp4 opening shot h264 1920x1080 02:06 b-roll music"
    );
    assert_eq!(c.display_name(), "Opening SHOT");
}

#[test]
fn haystack_is_one_line_of_fields() {
    let mut c = media("filename.mp4");
    c.codec = Some("h264".to_string());
    c.resolution = Some((1920, 1080));
    c.duration = Some(30 * S);
    c.rebuild_search_haystack(Tag::BRoll.bit() | Tag::Music.bit());
    assert_eq!(c.search_haystack, "filename.mp4 h264 1920x1080 00:30 b-roll music");
    c.duration = Some(6000 * S);
    c.rebuild_search_haystack(0);
    assert_eq!(c.search_haystack, "filename.mp4 h264 1920x1080 100:00");
}

#[test]
fn seconds_are_rounded() {
    assert_eq!(round_seconds(-3 * S), 0);
    assert_eq!(round_seconds(1_499_999_999), 1);
    assert_eq!(round_seconds(1_500_000_000), 2);
}

#[test]
fn tag_bits_differ() {
    let bits: HashSet<u32> = Tag::all().iter().map(|t| t.bit()).collect();
    assert_eq!(bits.len(), 4);
    assert_eq!(Tag::BRoll.bit(), 1);
    assert_eq!(Tag::Sfx.bit(), 8);
}

#[test]
fn toggles_undo_themselves() {
    let mut p = ProjectState::default();
    let c = media("/a.mp4");
    let id = c.id;
    p.add_clip(c);
    p.toggle_star(id);
    assert!(p.starred.contains(&id.0));
    p.toggle_star(id);
    assert!(!p.starred.contains(&id.0));
    p.toggle_tag(id, Tag::VO);
    assert_eq!(p.clip_tag_mask(id), Tag::VO.bit());
    p.toggle_tag(id, Tag::VO);
    assert_eq!(p.clip_tag_mask(id), 0);
    assert_eq!(p.clip_tag_mask(ClipId(9)), 0);
}

#[test]
fn file_is_put_on_both_tracks_of_a_pair() {
    let mut p = ProjectState::default();
    let mut c = media("/a.mp4");
    c.duration = Some(4 * S);
    let id = c.id;
    p.add_clip(c);
    let track = p.timeline.video_tracks[1].id;
    p.add_clip_to_track(id, track, 2 * S);
    let v = p.timeline.video_tracks[1].clips[0];
    let a = p.timeline.audio_tracks[1].clips[0];
    assert_eq!(v.linked_to, Some(a.id));
    assert_eq!(a.linked_to, Some(v.id));
    assert_eq!((v.timeline_start, v.duration, a.duration), (2 * S, 4 * S, 4 * S));
}

#[test]
fn sound_goes_to_the_audio_track() {
    let mut p = ProjectState::default();
    let mut c = media("/a.wav");
    c.audio_only = true;
    let id = c.id;
    p.add_clip(c);
    let track = p.timeline.video_tracks[0].id;
    p.add_clip_to_track(id, track, 0);
    assert!(p.timeline.video_tracks[0].clips.is_empty());
    assert_eq!(p.timeline.audio_tracks[0].clips[0].duration, 3 * S);
    assert!(p.timeline.audio_tracks[0].clips[0].linked_to.is_none());
}

#[test]
fn playback_stops_at_both_ends() {
    let mut p = Playback::default();
    p.toggle_play();
    p.advance(500_000_000, 10 * S);
    assert_eq!((p.playhead, p.state), (500_000_000, PlaybackState::Playing));
    p.speed = 2 * NORMAL_SPEED;
    p.advance(S, 10 * S);
    assert_eq!(p.playhead, 2_500_000_000);
    p.advance(20 * S, 10 * S);
    assert_eq!((p.playhead, p.state), (10 * S, PlaybackState::Stopped));
    p.play_reverse();
    assert_eq!(p.direction(), PlaybackDirection::Reverse);
    p.advance(S, 10 * S);
    assert_eq!(p.playhead, 8 * S);
    p.advance(9 * S, 10 * S);
    assert_eq!((p.playhead, p.state), (0, PlaybackState::Stopped));
}

#[test]
fn reverse_retraces_forward() {
    let mut p = Playback::default();
    p.playhead = 3 * S;
    p.toggle_play();
    p.advance(S, 10 * S);
    p.play_reverse();
    p.advance(S, 10 * S);
    assert_eq!(p.playhead, 3 * S);
    p.play_reverse();
    assert_eq!(p.state, PlaybackState::Stopped);
}

fn no_keys() -> Keys {
    Keys {
        l: false,
        j: false,
        k: false,
        space: false,
        delete: false,
        backspace: false,
        z: false,
        command: false,
        shift: false,
    }
}

#[test]
fn transport_keys_work() {
    let mut p = Playback::default();
    play_keys(Keys { l: true, ..no_keys() }, &mut p);
    assert_eq!((p.state, p.speed), (PlaybackState::Playing, 1000));
    play_keys(Keys { l: true, ..no_keys() }, &mut p);
    play_keys(Keys { l: true, ..no_keys() }, &mut p);
    play_keys(Keys { l: true, ..no_keys() }, &mut p);
    assert_eq!(p.speed, 4000);
    play_keys(Keys { j: true, ..no_keys() }, &mut p);
    assert_eq!((p.state, p.speed), (PlaybackState::PlayingReverse, 1000));
    play_keys(Keys { j: true, ..no_keys() }, &mut p);
    assert_eq!(p.speed, 2000);
    play_keys(Keys { k: true, ..no_keys() }, &mut p);
    assert_eq!((p.state, p.speed), (PlaybackState::Stopped, 1000));
    play_keys(Keys { space: true, ..no_keys() }, &mut p);
    assert_eq!(p.state, PlaybackState::Playing);
}

#[test]
fn delete_key_can_be_undone() {
    let mut p = ProjectState::default();
    let mut sel = Selection::new();
    let track = p.timeline.video_tracks[0].id;
    let id = p.timeline.add_clip_to_track(ClipId(1), track, 0, S);
    sel.select_single_timeline_clip(id);
    handle_keyboard(Keys { delete: true, ..no_keys() }, &mut p, &mut sel);
    assert!(p.timeline.find_clip(id).is_none());
    assert!(sel.primary_timeline_clip().is_none());
    handle_keyboard(Keys { z: true, command: true, ..no_keys() }, &mut p, &mut sel);
    assert!(p.timeline.find_clip(id).is_some());
    handle_keyboard(Keys { z: true, command: true, shift: true, ..no_keys() }, &mut p, &mut sel);
    assert!(p.timeline.find_clip(id).is_none());
}

#[test]
fn undo_and_redo_take_each_other_back() {
    let mut m = UndoManager::new();
    assert!(!m.can_undo() && !m.can_redo());
    let mut t = Timeline::new();
    m.save(t.snapshot());
    t.add_track_pair();
    let back = m.undo(t.snapshot()).unwrap();
    assert_eq!(back.pair_count(), 3);
    assert!(m.can_redo());
    let again = m.redo(back).unwrap();
    assert_eq!(again.pair_count(), 4);
    assert!(m.undo(again).is_some());
    assert!(m.undo(Timeline::new()).is_none());
}

#[test]
fn history_is_limited_and_edits_forget_redo() {
    let mut m = UndoManager::new();
    let mut saved = Vec::new();
    for _ in 0..105 {
        let t = Timeline::new();
        saved.push(t.video_tracks[0].id);
        m.save(t);
    }
    let mut steps = 0;
    while let Some(t) = m.undo(Timeline::new()) {
        steps += 1;
        assert_eq!(t.video_tracks[0].id, saved[105 - steps]);
    }
    assert_eq!(steps, 100);
    assert!(m.undo(Timeline::new()).is_none());
    m.save(Timeline::new());
    assert!(!m.can_redo());
}

#[test]
fn project_undo_restores_the_timeline() {
    let mut p = ProjectState::default();
    p.snapshot_for_undo();
    p.timeline.add_track_pair();
    p.undo();
    assert_eq!(p.timeline.pair_count(), 3);
    p.redo();
    assert_eq!(p.timeline.pair_count(), 4);
    p.redo();
    assert_eq!(p.timeline.pair_count(), 4);
}

#[test]
fn selection_of_single_files_and_ranges() {
    let ids: Vec<ClipId> = (1..6).map(ClipId).collect();
    let mut s = Selection::new();
    s.select_single(ids[1]);
    s.select_range(s.primary_clip(), ids[3], &ids);
    assert!(s.is_clip_selected(ids[1]) && s.is_clip_selected(ids[2]) && s.is_clip_selected(ids[3]));
    assert!(!s.is_clip_selected(ids[0]) && !s.is_clip_selected(ids[4]));
    assert_eq!(s.primary_clip(), Some(ids[3]));
    s.select_range(Some(ClipId(99)), ids[0], &ids);
    assert_eq!(s.selected_clips.len(), 1);
    s.select_range(None, ids[4], &ids);
    assert!(s.is_clip_selected(ids[4]));
    s.clear_clips();
    assert_eq!(s.primary_clip(), None);
}

#[test]
fn toggled_file_is_selected_then_not() {
    let mut s = Selection::new();
    s.toggle_clip(ClipId(1));
    s.toggle_clip(ClipId(2));
    assert_eq!(s.primary_clip(), Some(ClipId(2)));
    s.toggle_clip(ClipId(2));
    assert_eq!(s.primary_clip(), Some(ClipId(1)));
    s.toggle_clip(ClipId(1));
    assert_eq!(s.primary_clip(), None);
}

#[test]
fn timeline_selection_follows_its_link() {
    let (a, b) = (TimelineClipId(1), TimelineClipId(2));
    let mut s = Selection::new();
    s.toggle_timeline_clip(a);
    s.toggle_timeline_clip_to_match(b, a);
    assert!(s.is_timeline_clip_selected(b));
    s.toggle_timeline_clip(a);
    s.toggle_timeline_clip_to_match(b, a);
    assert!(!s.is_timeline_clip_selected(b));
    s.select_single_timeline_clip(a);
    assert_eq!(s.drain_timeline_clips(), vec![a]);
    assert!(s.primary_timeline_clip().is_none());
    assert_eq!(place_of(&vec![ClipId(3), ClipId(4)], ClipId(4)), Some(1));
}

fn library(names: &[(&str, i64)]) -> (AppState, Vec<ClipId>) {
    let mut s = AppState::default();
    let mut ids = Vec::new();
    for (name, seconds) in names {
        let mut c = media(name);
        c.duration = Some(seconds * S);
        c.rebuild_search_haystack(0);
        ids.push(c.id);
        s.project.add_clip(c);
    }
    (s, ids)
}

#[test]
fn browser_lists_all_without_filter() {
    let (s, ids) = library(&[("/b.mp4", 5), ("/a.mov", 9)]);
    assert_eq!(s.filtered_clips(), ids);
}

#[test]
fn browser_searches_every_word() {
    let (mut s, ids) = library(&[("/Beach Day.mp4", 5), ("/Beach Night.mov", 9)]);
    s.ui.browser.search_query = "  BEACH  day ".to_string();
    assert_eq!(s.filtered_clips(), vec![ids[0]]);
    s.ui.browser.search_query = "0:09".to_string();
    assert_eq!(s.filtered_clips(), vec![ids[1]]);
    s.ui.browser.search_query = "castle".to_string();
    assert!(s.filtered_clips().is_empty());
}

#[test]
fn more_words_only_narrow_the_list() {
    let (mut s, _) = library(&[("/beach b.mp4", 5), ("/beach a.mov", 9), ("/c.mp4", 5), ("/Beach C.mov", 1)]);
    for (mode, ascending) in [(SortMode::ImportOrder, true), (SortMode::ImportOrder, false), (SortMode::Name, true), (SortMode::Duration, false)] {
        s.ui.browser.sort_mode = mode;
        s.ui.browser.sort_ascending = ascending;
        s.ui.browser.search_query = "beach".to_string();
        let wide = s.filtered_clips();
        assert_eq!(wide.len(), 3);
        s.ui.browser.search_query = "beach  \t \u{3000}".to_string();
        assert_eq!(s.filtered_clips(), wide);
        s.ui.browser.search_query = "beach .MOV".to_string();
        let narrow = s.filtered_clips();
        assert_eq!(narrow.len(), 2);
        let kept: Vec<ClipId> = wide.iter().filter(|id| narrow.contains(id)).copied().collect();
        assert_eq!(narrow, kept);
    }
}

#[test]
fn a_space_parts_what_is_searched_for() {
    let (mut s, ids) = library(&[("/ΟΔΟΣ ΑΒ.mp4", 5)]);
    for query in ["ΟΔΟΣ", "ΟΔΟΣ ΑΒ", "ΟΔΟΣ  "] {
        s.ui.browser.search_query = query.to_string();
        assert_eq!(s.filtered_clips(), ids, "{query}");
    }
}

#[test]
fn words_are_parted_by_every_white_space() {
    let white = |n: u32| {
        matches!(n, 0x9..=0xd | 0x20 | 0x85 | 0xa0 | 0x1680 | 0x2000..=0x200a | 0x2028 | 0x2029 | 0x202f | 0x205f | 0x3000)
    };
    for n in 0..=0x10ffff {
        if let Some(c) = char::from_u32(n) {
            let parts = split_words(&format!("a{c}b")).len();
            assert_eq!(parts, if white(n) { 2 } else { 1 }, "{n:x}");
        }
    }
}

#[test]
fn fresh_state_is_empty() {
    let s = AppState::default();
    assert!(s.project.clips.is_empty() && s.project.starred.is_empty() && s.project.clip_tags.is_empty());
    assert!(s.project.timeline.all_tracks().iter().all(|t| t.clips.is_empty() && t.visible && !t.muted));
    assert_eq!(s.project.timeline.audio_tracks[2].name, "A3");
    assert_eq!(s.project.playback.state, PlaybackState::Stopped);
    assert_eq!((s.ui.timeline.zoom, s.ui.timeline.scroll_offset), (100_000, 0));
    assert!(s.ui.selection.selected_clips.is_empty() && !s.ui.debug.show_fps);
}

#[test]
fn browser_filters_by_star_and_tag() {
    let (mut s, ids) = library(&[("/a.mp4", 5), ("/b.mp4", 9)]);
    s.project.toggle_star(ids[1]);
    s.ui.browser.starred_only = true;
    assert_eq!(s.filtered_clips(), vec![ids[1]]);
    s.ui.browser.starred_only = false;
    s.project.toggle_tag(ids[0], Tag::Music);
    s.ui.browser.tag_filter_mask = Tag::Music.bit() | Tag::Sfx.bit();
    assert_eq!(s.filtered_clips(), vec![ids[0]]);
}

#[test]
fn browser_sorts_stably_both_ways() {
    let (mut s, ids) = library(&[("/b.mp4", 5), ("/A.mov", 9), ("/c.mp4", 5)]);
    s.ui.browser.sort_mode = SortMode::Name;
    assert_eq!(s.filtered_clips(), vec![ids[1], ids[0], ids[2]]);
    s.ui.browser.sort_mode = SortMode::Duration;
    assert_eq!(s.filtered_clips(), vec![ids[0], ids[2], ids[1]]);
    s.ui.browser.sort_ascending = false;
    assert_eq!(s.filtered_clips(), vec![ids[1], ids[0], ids[2]]);
    s.ui.browser.sort_mode = SortMode::FileType;
    assert_eq!(s.filtered_clips(), vec![ids[0], ids[2], ids[1]]);
    s.ui.browser.sort_mode = SortMode::ImportOrder;
    assert_eq!(s.filtered_clips(), vec![ids[2], ids[1], ids[0]]);
}

#[test]
fn sort_by_resolution_counts_pixels() {
    let (mut s, ids) = library(&[("/b.mp4", 5), ("/A.mov", 9)]);
    s.project.clips.get_mut(&ids[0].0).unwrap().resolution = Some((100, 100));
    s.project.clips.get_mut(&ids[1].0).unwrap().resolution = Some((3000, 2));
    s.ui.browser.sort_mode = SortMode::Resolution;
    assert_eq!(s.filtered_clips(), vec![ids[1], ids[0]]);
}

#[test]
fn sort_modes_have_labels() {
    let labels: Vec<&str> = SortMode::all().iter().map(|m| m.label()).collect();
    assert_eq!(labels, vec!["Import Order", "Name", "Duration", "Resolution", "File Type"]);
}

#[test]
fn order_of_keys() {
    let keys = vec![Key::Number(3), Key::Number(1), Key::Number(3)];
    assert_eq!(stable_order(&keys, true), vec![1, 0, 2]);
    assert_eq!(stable_order(&keys, false), vec![0, 2, 1]);
}

#[test]
fn texts_are_split_and_found() {
    let words: Vec<String> = split_words(" one\t two\n").iter().map(text_of).collect();
    assert_eq!(words, vec!["one", "two"]);
    assert!(find_in(&chars_of("haystack"), &chars_of("yst")));
    assert!(!find_in(&chars_of("haystack"), &chars_of("x")));
    assert!(comes_before(&chars_of("abc"), &chars_of("abd")));
    assert!(!comes_before(&chars_of("b"), &chars_of("ab")));
    assert!(same_text("a", "a") && !same_text("a", "b"));
    assert_eq!(trim_text("  a b \u{3000}"), "a b");
    assert_eq!(trim_text(" \t"), "");
}

#[test]
fn files_are_imported_once() {
    let mut p = ProjectState::default();
    let mut t = TextureCache::default();
    let mut known: HashSet<u64> = HashSet::new();
    let id = import_file(&mut known, 1, MediaPath::parse("/a.mp4".to_string()), &mut p, &mut t).unwrap();
    assert!(t.is_pending(id));
    assert_eq!(p.clip_order, vec![id]);
    let c = &p.clips[&id.0];
    assert_eq!((c.filename.as_str(), c.search_haystack.as_str()), ("a.mp4", "a.mp4"));
    assert!(c.display_name.is_none() && c.resolution.is_none() && c.codec.is_none());
    assert!(import_file(&mut known, 1, MediaPath::parse("/a.mp4".to_string()), &mut p, &mut t).is_none());
    assert_eq!(p.clip_order.len(), 1);
}

#[test]
fn metadata_completes_a_file() {
    let mut p = ProjectState::default();
    let mut t = TextureCache::default();
    let mut known: HashSet<u64> = HashSet::new();
    let id = import_file(&mut known, 1, MediaPath::parse("/a.wav".to_string()), &mut p, &mut t).unwrap();
    let meta = MediaMetadata { duration: Some(3 * S), resolution: None, codec: Some("PCM".to_string()), has_video: false };
    take_metadata(&mut p, &mut t, id, meta);
    let c = p.clips.get(&id.0).unwrap();
    assert_eq!((c.duration, c.audio_only), (Some(3 * S), true));
    assert!(c.search_haystack.contains("pcm"));
    assert!(!t.is_pending(id));
    take_metadata(&mut p, &mut t, ClipId(5), MediaMetadata::unknown());
    assert_eq!(p.clips.len(), 1);
}

#[test]
fn discovered_size_needs_both_sides() {
    let full = MediaMetadata::discovered(Some(1), Some(VideoInfo { width: 4, height: 3, codec: None }));
    assert_eq!((full.resolution, full.has_video), (Some((4, 3)), true));
    let flat = MediaMetadata::discovered(None, Some(VideoInfo { width: 4, height: 0, codec: None }));
    assert_eq!((flat.resolution, flat.has_video), (None, true));
    assert!(!MediaMetadata::discovered(None, None).has_video);
}

#[test]
fn browser_finds_files_by_name_and_label() {
    let (mut s, ids) = library(&[("/a.mp4", 5), ("/b.mp4", 9)]);
    s.ui.browser.search_query = Tag::Music.label().to_string();
    assert!(s.filtered_clips().is_empty());
    s.project.toggle_tag(ids[1], Tag::Music);
    assert_eq!(s.filtered_clips(), vec![ids[1]]);
    s.project.toggle_tag(ids[1], Tag::Music);
    assert!(s.filtered_clips().is_empty());
    s.ui.browser.search_query = "A.MP4".to_string();
    assert_eq!(s.filtered_clips(), vec![ids[0]]);
}
