//! The transport bar, the picture above it, and the inspector.

use vstd::prelude::*;

use crate::browse::TimelineUiState;
use crate::ids::{ClipId, TimelineClipId};
use crate::panel::drag::PanelGeometry;
use crate::panel::pixels::in_pixels;
use crate::panel::snap::{snap_time_to_clip_boundaries, snapped};
use crate::playback::{Playback, PlaybackState};
use crate::project::ProjectState;
use crate::selection::Selection;
use crate::time::{floor_div, in_time, later, max_time};
use crate::timeline::lanes::Timeline;
use crate::timeline::track::{Track, TrackView};

verus! {

broadcast use vstd::std_specs::hash::group_hash_axioms;

/// How far the skip buttons move the playhead.
pub const SKIP: i64 = 5_000_000_000;

/// Moves the playhead back, though not before the beginning.
pub fn rewind(playback: &mut Playback)
    requires
        in_time(old(playback).playhead as int),
    ensures
        *final(playback) == (Playback {
            playhead: later(old(playback).playhead - SKIP, 0) as i64,
            ..*old(playback)
        }),
{
    playback.playhead = max_time(playback.playhead - SKIP, 0);
}

/// Moves the playhead on.
pub fn skip_forward(playback: &mut Playback)
    requires
        in_time(old(playback).playhead as int),
    ensures
        *final(playback) == (Playback {
            playhead: (old(playback).playhead + SKIP) as i64,
            ..*old(playback)
        }),
{
    playback.playhead = playback.playhead + SKIP;
}

/// Stops playback and goes to the beginning.
pub fn stop_at_start(playback: &mut Playback)
    ensures
        *final(playback) == (Playback {
            state: PlaybackState::Stopped,
            playhead: 0,
            ..*old(playback)
        }),
{
    playback.stop();
    playback.playhead = 0;
}

/// Drags the playhead to where the pointer is on the ruler, or to the end of a clip near
/// it. Says whether it was drawn there.
pub fn scrub_to(
    playback: &mut Playback,
    ui: &mut TimelineUiState,
    timeline: &Timeline,
    x: i64,
    g: PanelGeometry,
) -> (r: bool)
    requires
        timeline@.fits(),
        g.wf(),
        in_pixels(x as int),
    ensures
        ({
            let (t, near) = snapped(timeline@, g.time_under(x as int), g.zoom as int, None);
            &&& r == near
            &&& *final(playback) == (Playback { playhead: t as i64, ..*old(playback) })
            &&& *final(ui) == (TimelineUiState { scrubbing: Some(t as i64), ..*old(ui) })
        }),
        0 <= final(playback).playhead,
{
    let raw: i64 = g.time_at(x);
    let (t, near) = snap_time_to_clip_boundaries(timeline, raw, g.zoom, None);
    playback.playhead = t;
    ui.scrubbing = Some(t);
    near
}

/// The space that is kept free below the picture.
pub const PICTURE_MARGIN: i64 = 60;

/// The size at which a picture is drawn, in pixels: as large as fits, and no larger than
/// it is.
pub open spec fn picture_size(w: int, h: int, room_w: int, room_h: int) -> (int, int) {
    let high = room_h - PICTURE_MARGIN;
    if w <= room_w && h <= high {
        (w, h)
    } else if room_w * h <= high * w {
        (room_w, h * room_w / w)
    } else {
        (w * high / h, high)
    }
}

/// The size at which a picture is drawn.
pub fn fit_picture(w: u32, h: u32, room_w: u32, room_h: u32) -> (r: (i64, i64))
    requires
        w > 0,
        h > 0,
    ensures
        (r.0 as int, r.1 as int) == picture_size(w as int, h as int, room_w as int, room_h as int),
{
    let high: i64 = room_h as i64 - PICTURE_MARGIN;
    if w <= room_w && h as i64 <= high {
        return (w as i64, h as i64);
    }
    proof {
        assert(0 <= room_w * h <= 0xffff_ffff * 0xffff_ffff) by (nonlinear_arith)
            requires
                0 <= room_w <= 0xffff_ffff,
                0 <= h <= 0xffff_ffff,
        ;
        assert(-60 * 0xffff_ffff <= high * w <= 0xffff_ffff * 0xffff_ffff) by (nonlinear_arith)
            requires
                -60 <= high <= 0xffff_ffff,
                0 <= w <= 0xffff_ffff,
        ;
        assert(h * room_w == room_w * h) by (nonlinear_arith);
        assert(w * high == high * w) by (nonlinear_arith);
        let a = room_w * h;
        let b = high * w;
        assert(0 <= a / (w as int) <= a) by (nonlinear_arith)
            requires
                0 <= a,
                w >= 1,
        ;
        assert(-0x4000_0000_0000 <= b / (h as int) <= 0xffff_ffff * 0xffff_ffff) by (
            nonlinear_arith)
            requires
                -60 * 0xffff_ffff <= b <= 0xffff_ffff * 0xffff_ffff,
                h >= 1,
        ;
        if a <= b {
            assert(a / (w as int) <= high) by (nonlinear_arith)
                requires
                    a <= b,
                    b == high * w,
                    w >= 1,
            ;
        } else {
            assert(b / (h as int) <= room_w) by (nonlinear_arith)
                requires
                    a > b,
                    a == room_w * h,
                    h >= 1,
            ;
        }
    }
    let across: i128 = room_w as i128 * h as i128;
    let down: i128 = high as i128 * w as i128;
    if across <= down {
        (room_w as i64, (across / w as i128) as i64)
    } else {
        (floor_div(down, h as i128) as i64, high)
    }
}

/// The media file that the inspector shows: the one selected last in the browser, or else
/// the one that the selected clip of the timeline shows.
pub open spec fn inspected(
    project: ProjectState,
    primary: Option<ClipId>,
    timeline_clip: Option<TimelineClipId>,
) -> Option<ClipId> {
    match primary {
        Some(id) => Some(id),
        None => match timeline_clip {
            Some(t) => match project.timeline@.clip_place(t) {
                Some(p) => Some(project.timeline@.clip_at(p).source_id),
                None => None,
            },
            None => None,
        },
    }
}

/// The media file that the inspector shows.
pub fn selected_clip_id(
    project: &ProjectState,
    selection: &Selection,
    selected_timeline_clip: Option<TimelineClipId>,
) -> (r: Option<ClipId>)
    ensures
        r == inspected(*project, selection.last_selected_clip, selected_timeline_clip),
{
    if let Some(id) = selection.primary_clip() {
        return Some(id);
    }
    match selected_timeline_clip {
        Some(t) => match project.timeline.find_clip(t) {
            Some((_, _, c)) => Some(c.source_id),
            None => {
                proof {
                    crate::timeline::lanes::lemma_clip_place_first(project.timeline@, t);
                }
                None
            },
        },
        None => None,
    }
}

/// How many clips some tracks hold together.
pub open spec fn clips_on(tracks: Seq<TrackView>) -> int
    decreases tracks.len(),
{
    if tracks.len() == 0 {
        0
    } else {
        clips_on(tracks.drop_last()) + tracks.last().clips.len()
    }
}

proof fn lemma_clips_grow(tracks: Seq<TrackView>, n: int)
    requires
        0 <= n <= tracks.len(),
    ensures
        0 <= clips_on(tracks.take(n)) <= clips_on(tracks),
    decreases tracks.len() - n,
{
    if n < tracks.len() {
        lemma_clips_grow(tracks, n + 1);
        assert(tracks.take(n + 1).drop_last() =~= tracks.take(n));
        lemma_clips_nonneg(tracks.take(n));
    } else {
        assert(tracks.take(n) =~= tracks);
        lemma_clips_nonneg(tracks);
    }
}

proof fn lemma_clips_nonneg(tracks: Seq<TrackView>)
    ensures
        clips_on(tracks) >= 0,
    decreases tracks.len(),
{
    if tracks.len() > 0 {
        lemma_clips_nonneg(tracks.drop_last());
    }
}

/// How many clips the timeline holds.
pub fn timeline_clip_count(timeline: &Timeline) -> (r: usize)
    requires
        clips_on(timeline@.tracks()) <= usize::MAX,
    ensures
        r == clips_on(timeline@.tracks()),
{
    let tracks = timeline.all_tracks();
    let ghost views = timeline@.tracks();
    let mut n: usize = 0;
    let mut i: usize = 0;
    while i < tracks.len()
        invariant
            i <= tracks@.len(),
            views == timeline@.tracks(),
            tracks@.len() == views.len(),
            forall|k: int| 0 <= k < tracks@.len() ==> (#[trigger] tracks@[k])@ == views[k],
            clips_on(views) <= usize::MAX,
            n == clips_on(views.take(i as int)),
        decreases tracks@.len() - i,
    {
        let track: &Track = tracks[i];
        proof {
            assert(views.take(i + 1).drop_last() =~= views.take(i as int));
            assert(views.take(i + 1).last() == tracks@[i as int]@);
            lemma_clips_grow(views, i + 1);
        }
        n = n + track.clips.len();
        i += 1;
    }
    assert(views.take(i as int) =~= views);
    n
}

/// Goes to where a clip starts. Nothing happens where it is not on the timeline.
pub fn jump_to_clip(project: &mut ProjectState, id: TimelineClipId)
    ensures
        final(project).playback == (match old(project).timeline@.clip_place(id) {
            Some(p) => Playback {
                playhead: old(project).timeline@.clip_at(p).timeline_start,
                ..old(project).playback
            },
            None => old(project).playback,
        }),
        final(project).same_but_edited(
            ProjectState { playback: final(project).playback, ..*old(project) },
        ),
        final(project).edited() == old(project).edited(),
{
    match project.timeline.find_clip(id) {
        Some((_, _, c)) => {
            let start: i64 = c.timeline_start;
            project.playback.playhead = start;
        },
        None => {
            proof {
                crate::timeline::lanes::lemma_clip_place_first(project.timeline@, id);
            }
        },
    }
}

/// A picture is never drawn larger than it is, nor larger than there is room.
pub proof fn law_picture_fits(w: int, h: int, room_w: int, room_h: int)
    requires
        0 < w,
        0 < h,
        0 <= room_w,
        PICTURE_MARGIN <= room_h,
    ensures
        ({
            let (a, b) = picture_size(w, h, room_w, room_h);
            &&& 0 <= a <= w && a <= room_w
            &&& 0 <= b <= h && b <= room_h - PICTURE_MARGIN
        }),
{
    let high = room_h - PICTURE_MARGIN;
    if !(w <= room_w && h <= high) {
        let a = room_w * h;
        let b = high * w;
        assert(h * room_w == a) by (nonlinear_arith)
            requires
                a == room_w * h,
        ;
        assert(w * high == b) by (nonlinear_arith)
            requires
                b == high * w,
        ;
        assert(a >= 0 && b >= 0) by (nonlinear_arith)
            requires
                a == room_w * h,
                b == high * w,
                0 <= room_w,
                0 <= high,
                0 < w,
                0 < h,
        ;
        if a <= b {
            assert(room_w <= w) by (nonlinear_arith)
                requires
                    a <= b,
                    a == room_w * h,
                    b == high * w,
                    !(w <= room_w && h <= high),
                    0 < w,
                    0 < h,
            ;
            assert(0 <= a / w <= h && a / w <= high) by (nonlinear_arith)
                requires
                    a == room_w * h,
                    b == high * w,
                    a <= b,
                    0 <= a,
                    room_w <= w,
                    0 < w,
                    0 < h,
            ;
        } else {
            assert(high <= h) by (nonlinear_arith)
                requires
                    a > b,
                    a == room_w * h,
                    b == high * w,
                    !(w <= room_w && h <= high),
                    0 < w,
                    0 < h,
            ;
            assert(0 <= b / h <= w && b / h <= room_w) by (nonlinear_arith)
                requires
                    a == room_w * h,
                    b == high * w,
                    a > b,
                    0 <= b,
                    high <= h,
                    0 < w,
                    0 < h,
            ;
        }
    }
}

/// A picture is shown as large as it is where it fits, and is otherwise made smaller in
/// its proportions: one side fills the room, and the other is what the proportions make
/// it, rounded down.
pub proof fn law_picture_keeps_proportions(w: int, h: int, room_w: int, room_h: int)
    requires
        0 < w,
        0 < h,
        0 <= room_w,
        60 <= room_h,
    ensures
        ({
            let (a, b) = picture_size(w, h, room_w, room_h);
            let high = room_h - 60;
            &&& w <= room_w && h <= high ==> a == w && b == h
            &&& !(w <= room_w && h <= high) ==> (a == room_w && b * w <= h * a < (b + 1) * w) || (b
                == high && a * h <= w * b < (a + 1) * h)
        }),
{
    let high = room_h - 60;
    if !(w <= room_w && h <= high) {
        if room_w * h <= high * w {
            let x = h * room_w;
            vstd::arithmetic::div_mod::lemma_fundamental_div_mod(x, w);
            vstd::arithmetic::div_mod::lemma_mod_bound(x, w);
            let q = x / w;
            assert(q * w == w * q && (q + 1) * w == w * q + w) by (nonlinear_arith);
        } else {
            let x = w * high;
            vstd::arithmetic::div_mod::lemma_fundamental_div_mod(x, h);
            vstd::arithmetic::div_mod::lemma_mod_bound(x, h);
            let q = x / h;
            assert(q * h == h * q && (q + 1) * h == h * q + h) by (nonlinear_arith);
        }
    }
}

/// The clips on some tracks are those of each of them.
pub proof fn law_clips_add_up(tracks: Seq<TrackView>, t: TrackView)
    ensures
        clips_on(Seq::<TrackView>::empty()) == 0,
        clips_on(tracks.push(t)) == clips_on(tracks) + t.clips.len(),
{
    assert(tracks.push(t).drop_last() =~= tracks);
}

/// What is inspected is the selected media file, or else the file of the selected clip of
/// the timeline.
pub proof fn law_inspected_is_what_is_selected(
    project: ProjectState,
    primary: Option<ClipId>,
    timeline_clip: Option<TimelineClipId>,
)
    ensures
        primary is Some ==> inspected(project, primary, timeline_clip) == primary,
        primary is None && timeline_clip is None ==> inspected(project, primary, timeline_clip)
            is None,
        primary is None ==> (timeline_clip matches Some(t) ==> match project.timeline@.clip_place(
            t,
        ) {
            Some(p) => inspected(project, primary, timeline_clip) == Some(
                project.timeline@.tracks()[p.0].clips[p.1].source_id,
            ),
            None => inspected(project, primary, timeline_clip) is None,
        }),
{
}

} // verus!
