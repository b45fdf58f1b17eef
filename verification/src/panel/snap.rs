//! Snapping to the ends of clips.

use vstd::prelude::*;

use crate::ids::TimelineClipId;
use crate::panel::pixels::in_zoom;
use crate::time::{in_time, later, max_time, SECOND};
use crate::timeline::clip::TimelineClip;
use crate::timeline::lanes::{Timeline, TimelineView};
use crate::timeline::overlap::all_fit;
use crate::timeline::track::{Track, TrackView};

verus! {

/// The end of a clip draws the pointer from this far.
pub const SNAP_THRESHOLD: i64 = 10_000;

/// How far apart two times are.
pub open spec fn gap(a: int, b: int) -> int {
    if a <= b {
        b - a
    } else {
        a - b
    }
}

/// The time `e` draws the time `c`.
pub open spec fn draws(e: int, c: int, zoom: int) -> bool {
    gap(c, e) * zoom <= SNAP_THRESHOLD * SECOND
}

/// The nearer of the time found so far and another, where that draws at all.
pub open spec fn nearer(best: Option<int>, e: int, c: int, zoom: int) -> Option<int> {
    if draws(e, c, zoom) && (best matches Some(b) ==> gap(c, e) < gap(c, b)) {
        Some(e)
    } else {
        best
    }
}

/// The nearest end of some clips, where it is nearer than `best`.
pub open spec fn nearest_in_clips(
    best: Option<int>,
    clips: Seq<TimelineClip>,
    c: int,
    zoom: int,
    exclude: Option<TimelineClipId>,
) -> Option<int>
    decreases clips.len(),
{
    if clips.len() == 0 {
        best
    } else {
        let b = nearest_in_clips(best, clips.drop_last(), c, zoom, exclude);
        let k = clips.last();
        if exclude == Some(k.id) {
            b
        } else {
            nearer(nearer(b, k.timeline_start as int, c, zoom), k.end_at(), c, zoom)
        }
    }
}

/// The nearest end of the clips of some tracks.
pub open spec fn nearest_in_tracks(
    tracks: Seq<TrackView>,
    c: int,
    zoom: int,
    exclude: Option<TimelineClipId>,
) -> Option<int>
    decreases tracks.len(),
{
    if tracks.len() == 0 {
        None
    } else {
        nearest_in_clips(
            nearest_in_tracks(tracks.drop_last(), c, zoom, exclude),
            tracks.last().clips,
            c,
            zoom,
            exclude,
        )
    }
}

/// The time that a pointer at `c` means, and whether it was drawn there.
pub open spec fn snapped(
    t: TimelineView,
    c: int,
    zoom: int,
    exclude: Option<TimelineClipId>,
) -> (int, bool) {
    if zoom <= 0 {
        (later(c, 0), false)
    } else {
        match nearest_in_tracks(t.tracks(), c, zoom, exclude) {
            Some(b) => (later(b, 0), true),
            None => (later(c, 0), false),
        }
    }
}

/// What is found lies among the time limits.
pub open spec fn found_in_time(best: Option<i64>) -> bool {
    best matches Some(b) ==> in_time(b as int)
}

/// A found time as a mathematical one.
pub open spec fn found(best: Option<i64>) -> Option<int> {
    match best {
        Some(b) => Some(b as int),
        None => None,
    }
}

fn distance(a: i64, b: i64) -> (r: i64)
    requires
        in_time(a as int),
        in_time(b as int),
    ensures
        r == gap(a as int, b as int),
        0 <= r <= 0x2000_0000_0000_0000,
{
    if a <= b {
        b - a
    } else {
        a - b
    }
}

fn take_nearer(best: Option<i64>, e: i64, c: i64, zoom: i64) -> (r: Option<i64>)
    requires
        found_in_time(best),
        in_time(e as int),
        in_time(c as int),
        0 < zoom,
    ensures
        found(r) == nearer(found(best), e as int, c as int, zoom as int),
        found_in_time(r),
{
    let d: i64 = distance(c, e);
    proof {
        assert(0 <= d * zoom <= 0x2000_0000_0000_0000 * 0x7fff_ffff_ffff_ffff) by (nonlinear_arith)
            requires
                0 <= d <= 0x2000_0000_0000_0000,
                0 <= zoom <= 0x7fff_ffff_ffff_ffff,
        ;
    }
    if d as i128 * zoom as i128 <= 10_000_000_000_000 {
        match best {
            Some(b) => {
                if d < distance(c, b) {
                    return Some(e);
                }
            },
            None => {
                return Some(e);
            },
        }
    }
    best
}

fn search_clips(
    start: Option<i64>,
    clips: &Vec<TimelineClip>,
    c: i64,
    zoom: i64,
    exclude: Option<TimelineClipId>,
) -> (r: Option<i64>)
    requires
        found_in_time(start),
        all_fit(clips@),
        in_time(c as int),
        0 < zoom,
    ensures
        found(r) == nearest_in_clips(found(start), clips@, c as int, zoom as int, exclude),
        found_in_time(r),
{
    let mut best: Option<i64> = start;
    let mut i: usize = 0;
    while i < clips.len()
        invariant
            i <= clips@.len(),
            all_fit(clips@),
            in_time(c as int),
            0 < zoom,
            found_in_time(best),
            found(best) == nearest_in_clips(
                found(start),
                clips@.take(i as int),
                c as int,
                zoom as int,
                exclude,
            ),
        decreases clips@.len() - i,
    {
        let k: TimelineClip = clips[i];
        assert(clips@.take(i + 1).drop_last() =~= clips@.take(i as int));
        assert(clips@.take(i + 1).last() == k);
        if !(exclude == Some(k.id)) {
            best = take_nearer(best, k.timeline_start, c, zoom);
            best = take_nearer(best, k.end(), c, zoom);
        }
        i += 1;
    }
    assert(clips@.take(i as int) =~= clips@);
    best
}

/// The time that a pointer means: that of the nearest end of a clip, where one is near
/// enough, and otherwise its own. Of two that are as near the first counts.
pub fn snap_time_to_clip_boundaries(
    timeline: &Timeline,
    candidate: i64,
    zoom: i64,
    exclude: Option<TimelineClipId>,
) -> (r: (i64, bool))
    requires
        timeline@.fits(),
        in_time(candidate as int),
    ensures
        (r.0 as int, r.1) == snapped(timeline@, candidate as int, zoom as int, exclude),
        0 <= r.0 && in_time(r.0 as int),
        in_zoom(zoom as int) ==> r.0 <= later(candidate as int, 0) + 500_000_000,
{
    if zoom <= 0 {
        return (max_time(candidate, 0), false);
    }
    let tracks = timeline.all_tracks();
    let ghost views = timeline@.tracks();
    let mut best: Option<i64> = None;
    let mut i: usize = 0;
    while i < tracks.len()
        invariant
            i <= tracks@.len(),
            views == timeline@.tracks(),
            tracks@.len() == views.len(),
            forall|k: int| 0 <= k < tracks@.len() ==> (#[trigger] tracks@[k])@ == views[k],
            timeline@.fits(),
            in_time(candidate as int),
            0 < zoom,
            found_in_time(best),
            found(best) == nearest_in_tracks(
                views.take(i as int),
                candidate as int,
                zoom as int,
                exclude,
            ),
        decreases tracks@.len() - i,
    {
        proof {
            assert(views.take(i + 1).drop_last() =~= views.take(i as int));
            assert(views.take(i + 1).last() == tracks@[i as int]@);
            assert(all_fit(timeline@.tracks()[i as int].clips));
        }
        let track: &Track = tracks[i];
        best = search_clips(best, &track.clips, candidate, zoom, exclude);
        i += 1;
    }
    proof {
        assert(views.take(i as int) =~= views);
        law_snap_is_nearest(timeline@, candidate as int, zoom as int, exclude);
        if in_zoom(zoom as int) {
            if let Some(b) = best {
                lemma_drawn_is_near(b as int, candidate as int, zoom as int);
            }
        }
    }
    match best {
        Some(b) => (max_time(b, 0), true),
        None => (max_time(candidate, 0), false),
    }
}

proof fn lemma_drawn_is_near(e: int, c: int, zoom: int)
    requires
        draws(e, c, zoom),
        in_zoom(zoom),
    ensures
        gap(c, e) <= 500_000_000,
{
    let d = gap(c, e);
    assert(d <= 500_000_000) by (nonlinear_arith)
        requires
            d * zoom <= 10_000_000_000_000,
            zoom >= 20_000,
    ;
}

/// The time is an end of one of the clips.
pub open spec fn end_of_clips(
    clips: Seq<TimelineClip>,
    e: int,
    exclude: Option<TimelineClipId>,
) -> bool {
    exists|i: int|
        0 <= i < clips.len() && exclude != Some((#[trigger] clips[i]).id) && (
        clips[i].timeline_start == e || clips[i].end_at() == e)
}

/// The time is an end of some clip on the timeline.
pub open spec fn is_clip_end(
    tracks: Seq<TrackView>,
    e: int,
    exclude: Option<TimelineClipId>,
) -> bool {
    exists|k: int|
        0 <= k < tracks.len() && end_of_clips((#[trigger] tracks[k]).clips, e, exclude)
}

/// `best` draws and is as near as any that draws.
spec fn is_nearest(best: Option<int>, e: int, c: int, zoom: int) -> bool {
    draws(e, c, zoom) ==> (best matches Some(b) && draws(b, c, zoom) && gap(c, b) <= gap(c, e))
}

proof fn lemma_nearest_in_clips(
    best: Option<int>,
    clips: Seq<TimelineClip>,
    c: int,
    zoom: int,
    exclude: Option<TimelineClipId>,
)
    requires
        best matches Some(b) ==> draws(b, c, zoom),
    ensures
        ({
            let r = nearest_in_clips(best, clips, c, zoom, exclude);
            &&& r matches Some(b) ==> draws(b, c, zoom) && (r == best || end_of_clips(
                clips,
                b,
                exclude,
            ))
            &&& best matches Some(b) ==> (r matches Some(a) && gap(c, a) <= gap(c, b))
            &&& forall|e: int| #[trigger]
                end_of_clips(clips, e, exclude) ==> is_nearest(r, e, c, zoom)
        }),
    decreases clips.len(),
{
    if clips.len() > 0 {
        let init = clips.drop_last();
        lemma_nearest_in_clips(best, init, c, zoom, exclude);
        let b = nearest_in_clips(best, init, c, zoom, exclude);
        let r = nearest_in_clips(best, clips, c, zoom, exclude);
        let last = clips.last();
        assert(clips[clips.len() - 1] == last);
        assert forall|e: int| #[trigger] end_of_clips(init, e, exclude) implies end_of_clips(
            clips,
            e,
            exclude,
        ) by {
            let i = choose|i: int|
                0 <= i < init.len() && exclude != Some((#[trigger] init[i]).id) && (
                init[i].timeline_start == e || init[i].end_at() == e);
            assert(clips[i] == init[i]);
        }
        assert forall|e: int| #[trigger] end_of_clips(clips, e, exclude) implies is_nearest(
            r,
            e,
            c,
            zoom,
        ) by {
            let i = choose|i: int|
                0 <= i < clips.len() && exclude != Some((#[trigger] clips[i]).id) && (
                clips[i].timeline_start == e || clips[i].end_at() == e);
            if i < init.len() {
                assert(init[i] == clips[i]);
                assert(end_of_clips(init, e, exclude));
                assert(is_nearest(b, e, c, zoom));
            }
        }
        if exclude != Some(last.id) {
            assert(end_of_clips(clips, last.timeline_start as int, exclude));
            assert(end_of_clips(clips, last.end_at(), exclude));
        }
    }
}

proof fn lemma_nearest_in_tracks(
    tracks: Seq<TrackView>,
    c: int,
    zoom: int,
    exclude: Option<TimelineClipId>,
)
    ensures
        ({
            let r = nearest_in_tracks(tracks, c, zoom, exclude);
            &&& r matches Some(b) ==> draws(b, c, zoom) && is_clip_end(tracks, b, exclude)
            &&& forall|e: int| #[trigger]
                is_clip_end(tracks, e, exclude) ==> is_nearest(r, e, c, zoom)
        }),
    decreases tracks.len(),
{
    if tracks.len() > 0 {
        let init = tracks.drop_last();
        let last = tracks.last();
        lemma_nearest_in_tracks(init, c, zoom, exclude);
        let b = nearest_in_tracks(init, c, zoom, exclude);
        let r = nearest_in_tracks(tracks, c, zoom, exclude);
        lemma_nearest_in_clips(b, last.clips, c, zoom, exclude);
        assert(tracks[tracks.len() - 1] == last);
        assert forall|e: int| #[trigger] is_clip_end(init, e, exclude) implies is_clip_end(
            tracks,
            e,
            exclude,
        ) by {
            let k = choose|k: int|
                0 <= k < init.len() && end_of_clips((#[trigger] init[k]).clips, e, exclude);
            assert(tracks[k] == init[k]);
        }
        assert forall|e: int| #[trigger] is_clip_end(tracks, e, exclude) implies is_nearest(
            r,
            e,
            c,
            zoom,
        ) by {
            let k = choose|k: int|
                0 <= k < tracks.len() && end_of_clips((#[trigger] tracks[k]).clips, e, exclude);
            if k < init.len() {
                assert(init[k] == tracks[k]);
                assert(is_clip_end(init, e, exclude));
                assert(is_nearest(b, e, c, zoom));
            } else {
                assert(end_of_clips(last.clips, e, exclude));
            }
        }
        if let Some(a) = r {
            if r != b {
                assert(end_of_clips(last.clips, a, exclude));
                assert(is_clip_end(tracks, a, exclude));
            }
        }
    }
}

/// A pointer is drawn to an end of a clip that draws it and that no other end is nearer
/// than; it is drawn to none only where none draws it.
pub proof fn law_snap_is_nearest(
    t: TimelineView,
    c: int,
    zoom: int,
    exclude: Option<TimelineClipId>,
)
    requires
        zoom > 0,
    ensures
        nearest_in_tracks(t.tracks(), c, zoom, exclude) matches Some(b) ==> draws(b, c, zoom)
            && is_clip_end(t.tracks(), b, exclude),
        forall|e: int| #[trigger]
            is_clip_end(t.tracks(), e, exclude) && draws(e, c, zoom) ==> (nearest_in_tracks(
                t.tracks(),
                c,
                zoom,
                exclude,
            ) matches Some(b) && gap(c, b) <= gap(c, e)),
{
    lemma_nearest_in_tracks(t.tracks(), c, zoom, exclude);
    assert forall|e: int| #[trigger]
        is_clip_end(t.tracks(), e, exclude) && draws(e, c, zoom) implies (nearest_in_tracks(
        t.tracks(),
        c,
        zoom,
        exclude,
    ) matches Some(b) && gap(c, b) <= gap(c, e)) by {
        assert(is_nearest(nearest_in_tracks(t.tracks(), c, zoom, exclude), e, c, zoom));
    }
}

/// A moment snaps to an end of a clip that is no more than ten pixels away, and to none
/// where there is a nearer one; the clip that is left out does not count. Where no end is
/// as near, the moment stays what it is. Nothing snaps to before the beginning.
pub proof fn law_snaps_to_a_near_clip_end(
    t: TimelineView,
    c: int,
    zoom: int,
    exclude: Option<TimelineClipId>,
)
    requires
        zoom > 0,
    ensures
        ({
            let r = snapped(t, c, zoom, exclude);
            &&& r.0 >= 0
            &&& r.1 ==> exists|e: int| #[trigger]
                end_somewhere(t, e, exclude) && (e >= 0 ==> r.0 == e) && (e < 0 ==> r.0 == 0)
                    && (e - c) * zoom <= 10_000 * 1_000_000_000 && (c - e) * zoom <= 10_000
                    * 1_000_000_000 && forall|other: int| #[trigger]
                    end_somewhere(t, other, exclude) ==> (e - c <= other - c || e - c <= c - other)
                        && (c - e <= other - c || c - e <= c - other)
            &&& !r.1 ==> (c >= 0 ==> r.0 == c) && (c < 0 ==> r.0 == 0) && forall|e: int| #[trigger]
                end_somewhere(t, e, exclude) ==> (e - c) * zoom > 10_000 * 1_000_000_000 || (c - e)
                    * zoom > 10_000 * 1_000_000_000
        }),
{
    law_snap_is_nearest(t, c, zoom, exclude);
    assert forall|e: int| #[trigger] end_somewhere(t, e, exclude) implies is_clip_end(
        t.tracks(),
        e,
        exclude,
    ) by {
        let (k, i) = choose|k: int, i: int|
            0 <= k < t.tracks().len() && 0 <= i < t.tracks()[k].clips.len() && exclude != Some(
                (#[trigger] t.tracks()[k].clips[i]).id,
            ) && (t.tracks()[k].clips[i].timeline_start == e || t.tracks()[k].clips[i].timeline_start
                + t.tracks()[k].clips[i].duration == e);
        assert(end_of_clips(t.tracks()[k].clips, e, exclude));
    }
    assert forall|e: int| (e - c) * zoom <= 10_000 * 1_000_000_000 && (c - e) * zoom <= 10_000
        * 1_000_000_000 <==> #[trigger] draws(e, c, zoom) by {
        let d = gap(c, e);
        assert((e - c) * zoom + (c - e) * zoom == 0) by (nonlinear_arith);
        assert(d * zoom >= 0) by (nonlinear_arith)
            requires
                d >= 0,
                zoom > 0,
        ;
    }
    match nearest_in_tracks(t.tracks(), c, zoom, exclude) {
        Some(b) => {
            let k = choose|k: int|
                0 <= k < t.tracks().len() && end_of_clips(
                    (#[trigger] t.tracks()[k]).clips,
                    b,
                    exclude,
                );
            let clips = t.tracks()[k].clips;
            let i = choose|i: int|
                0 <= i < clips.len() && exclude != Some((#[trigger] clips[i]).id) && (
                clips[i].timeline_start == b || clips[i].end_at() == b);
            assert(t.tracks()[k].clips[i] == clips[i]);
            assert(end_somewhere(t, b, exclude));
            assert(draws(b, c, zoom));
            assert forall|other: int| #[trigger] end_somewhere(t, other, exclude) implies (b - c
                <= other - c || b - c <= c - other) && (c - b <= other - c || c - b <= c
                - other) by {
                if !draws(other, c, zoom) {
                    let far = gap(c, other);
                    let near = gap(c, b);
                    assert(near < far) by (nonlinear_arith)
                        requires
                            near * zoom < far * zoom,
                            zoom > 0,
                    ;
                }
            }
        },
        None => {
            assert forall|e: int| #[trigger] end_somewhere(t, e, exclude) implies (e - c) * zoom
                > 10_000 * 1_000_000_000 || (c - e) * zoom > 10_000 * 1_000_000_000 by {
                assert(!draws(e, c, zoom));
            }
        },
    }
}

/// A clip that is not left out begins or ends at `e`.
pub open spec fn end_somewhere(t: TimelineView, e: int, exclude: Option<TimelineClipId>) -> bool {
    exists|k: int, i: int|
        0 <= k < t.tracks().len() && 0 <= i < t.tracks()[k].clips.len() && exclude != Some(
            (#[trigger] t.tracks()[k].clips[i]).id,
        ) && (t.tracks()[k].clips[i].timeline_start == e || t.tracks()[k].clips[i].timeline_start
            + t.tracks()[k].clips[i].duration == e)
}

} // verus!
