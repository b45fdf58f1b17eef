//! Dragging clips along the timeline and onto it.

use vstd::prelude::*;

use crate::browse::TimelineUiState;
use crate::ids::{TimelineClipId, TrackId};
use crate::panel::layout::{find_row, row_at, TRACK_HEIGHT};
use crate::panel::pixels::{in_pixels, in_zoom, length_of, px_of_time, time_along, time_at_px};
use crate::panel::snap::{snap_time_to_clip_boundaries, snapped};
use crate::project::{
    kept_for_undo, law_undo_takes_back_edit, stepped_back, Edited, ProjectState, TrimEdge, TrimState,
};
use crate::selection::Selection;
use crate::time::{in_time, later, max_time};
use crate::timeline::clip::TimelineClip;
use crate::timeline::edit::{
    link_followed, moved_across, moved_across_with_link, moved_on_track, moved_on_track_with_link,
    roomy, roomy_all, taken_out,
};
use crate::timeline::lanes::{
    lemma_clip_place_first, lemma_track_index, lemma_with_track, Timeline, TimelineView,
};
use crate::timeline::laws::unique_clips;
use crate::timeline::overlap::{all_fit, kept_all, split_all};
use crate::timeline::placing::{
    law_clip_changes_tracks, law_moved_clip_starts_there, put_among, tracks_differ,
};
use crate::timeline::track::{
    first_at, lacks, lemma_index_in, lemma_index_in_first, placed, TrackKind, TrackView,
};
use crate::timeline::trim::{all_modest, modest, modest_clip};

verus! {

/// Within this distance of an end of a clip the pointer trims.
pub const TRIM_HANDLE_WIDTH: i64 = 12_000;

/// The gap above and below a clip in its row.
pub const CLIP_INSET: i64 = 2_000;

/// Where the contents of the panel are drawn.
#[derive(Debug, Clone, Copy)]
pub struct PanelGeometry {
    pub content_left: i64,
    pub content_width: i64,
    pub tracks_top: i64,
    pub zoom: i64,
    pub scroll: i64,
}

impl PanelGeometry {
    /// The lengths are ones that can be on screen.
    pub open spec fn wf(self) -> bool {
        &&& in_pixels(self.content_left as int)
        &&& in_pixels(self.content_width as int)
        &&& in_pixels(self.tracks_top as int)
        &&& in_pixels(self.scroll as int)
        &&& in_zoom(self.zoom as int)
    }

    /// The time under a point.
    pub open spec fn time_under(self, x: int) -> int {
        time_along(x - self.content_left + self.scroll, self.zoom as int)
    }

    /// Where a time is drawn.
    pub open spec fn place_of(self, t: int) -> int {
        self.content_left + length_of(t, self.zoom as int) - self.scroll
    }

    /// The time under a point.
    pub fn time_at(&self, x: i64) -> (r: i64)
        requires
            self.wf(),
            in_pixels(x as int),
        ensures
            r == self.time_under(x as int),
            0 <= r <= 440_000_000_000_000_000,
    {
        time_at_px(x - self.content_left + self.scroll, self.zoom)
    }

    /// Where a time is drawn.
    pub fn x_of(&self, t: i64) -> (r: i64)
        requires
            self.wf(),
            in_time(t as int),
        ensures
            r == self.place_of(t as int),
            -0x8_0000_0000_0000 <= r <= 0x8_0000_0000_0000,
    {
        self.content_left + px_of_time(t, self.zoom) - self.scroll
    }
}

/// A point of the panel.
#[derive(Debug, Clone, Copy)]
pub struct Point {
    pub x: i64,
    pub y: i64,
}

impl Point {
    /// The point is one that can be on screen.
    pub open spec fn wf(self) -> bool {
        in_pixels(self.x as int) && in_pixels(self.y as int)
    }
}

/// Where a clip is drawn.
#[derive(Debug, Clone, Copy, PartialEq, Eq, Structural)]
pub struct ClipBox {
    pub left: i64,
    pub right: i64,
    pub top: i64,
    pub bottom: i64,
}

/// Where a clip is drawn in the row that begins at `y`.
pub open spec fn box_of(g: PanelGeometry, c: TimelineClip, y: int) -> ClipBox {
    let left = g.place_of(c.timeline_start as int);
    ClipBox {
        left: left as i64,
        right: (left + length_of(c.duration as int, g.zoom as int)) as i64,
        top: (y + CLIP_INSET) as i64,
        bottom: (y + TRACK_HEIGHT - CLIP_INSET) as i64,
    }
}

/// Where a clip is drawn; nothing where it is outside the panel.
pub fn visible_clip_box(g: PanelGeometry, c: TimelineClip, y: i64) -> (r: Option<ClipBox>)
    requires
        g.wf(),
        in_time(c.timeline_start as int),
        in_time(c.duration as int),
        in_pixels(y as int),
    ensures
        ({
            let b = box_of(g, c, y as int);
            r == if b.right < g.content_left || b.left > g.content_left + g.content_width {
                None
            } else {
                Some(b)
            }
        }),
{
    let left: i64 = g.x_of(c.timeline_start);
    let right: i64 = left + px_of_time(c.duration, g.zoom);
    if right < g.content_left || left > g.content_left + g.content_width {
        return None;
    }
    Some(
        ClipBox {
            left,
            right,
            top: y + CLIP_INSET,
            bottom: y + TRACK_HEIGHT - CLIP_INSET,
        },
    )
}

impl ClipBox {
    /// The box lies where lengths can be.
    pub open spec fn wf(self) -> bool {
        &&& -0x10_0000_0000_0000 <= self.left <= 0x10_0000_0000_0000
        &&& -0x10_0000_0000_0000 <= self.right <= 0x10_0000_0000_0000
    }

    /// How near to an end the pointer trims: never more than a third of the clip.
    pub open spec fn reach(self) -> int {
        let third = (self.right - self.left) / 3;
        if third < TRIM_HANDLE_WIDTH {
            third
        } else {
            TRIM_HANDLE_WIDTH as int
        }
    }

    /// The pointer is on the height of the clip and near to `x`.
    pub open spec fn near(self, p: Point, x: int) -> bool {
        self.top <= p.y <= self.bottom && -self.reach() < p.x - x < self.reach()
    }

    /// The end of the clip that the pointer trims.
    pub open spec fn edge_at(self, p: Point) -> Option<TrimEdge> {
        if self.near(p, self.left as int) {
            Some(TrimEdge::Left)
        } else if self.near(p, self.right as int) {
            Some(TrimEdge::Right)
        } else {
            None
        }
    }

    /// The end of the clip that the pointer trims. A clip that is drawn backwards has
    /// none.
    pub fn edge_under(&self, p: Point) -> (r: Option<TrimEdge>)
        requires
            self.wf(),
            p.wf(),
        ensures
            r == self.edge_at(p),
    {
        let third: i64 = (self.right - self.left) / 3;
        let reach: i64 = if third < TRIM_HANDLE_WIDTH {
            third
        } else {
            TRIM_HANDLE_WIDTH
        };
        let level = p.y >= self.top && p.y <= self.bottom;
        let from_left: i64 = p.x - self.left;
        let from_right: i64 = p.x - self.right;
        if level && -reach < from_left && from_left < reach {
            Some(TrimEdge::Left)
        } else if level && -reach < from_right && from_right < reach {
            Some(TrimEdge::Right)
        } else {
            None
        }
    }
}

/// The panel once a drag has begun on a clip: near an end it trims, elsewhere it moves.
pub open spec fn drag_begun(
    ui: TimelineUiState,
    g: PanelGeometry,
    c: TimelineClip,
    b: ClipBox,
    origin: Point,
) -> TimelineUiState {
    match b.edge_at(origin) {
        Some(edge) => TimelineUiState {
            trimming_clip: Some(
                TrimState {
                    clip_id: c.id,
                    edge,
                    original_position: c.timeline_start,
                    original_duration: c.duration,
                    original_in_point: c.source_in,
                    original_out_point: c.source_out,
                },
            ),
            ..ui
        },
        None => TimelineUiState {
            drag_grab_offset: Some((g.time_under(origin.x as int) - c.timeline_start) as i64),
            dragging_clip: Some(c.id),
            ..ui
        },
    }
}

/// A drag begins on a clip.
pub fn begin_drag(
    ui: &mut TimelineUiState,
    g: PanelGeometry,
    c: TimelineClip,
    b: ClipBox,
    origin: Point,
)
    requires
        g.wf(),
        origin.wf(),
        in_time(c.timeline_start as int),
        b.wf(),
    ensures
        *final(ui) == drag_begun(*old(ui), g, c, b, origin),
{
    match b.edge_under(origin) {
        Some(edge) => {
            ui.trimming_clip = Some(
                TrimState {
                    clip_id: c.id,
                    edge,
                    original_position: c.timeline_start,
                    original_duration: c.duration,
                    original_in_point: c.source_in,
                    original_out_point: c.source_out,
                },
            );
        },
        None => {
            ui.drag_grab_offset = Some(g.time_at(origin.x) - c.timeline_start);
            ui.dragging_clip = Some(c.id);
        },
    }
}

/// The track that a row shows.
pub open spec fn row_track(t: TimelineView, i: int) -> TrackView {
    if i < t.video.len() {
        t.video[t.video.len() - 1 - i]
    } else {
        t.audio[i - t.video.len()]
    }
}

/// The first row from `i` on that shows the track.
pub open spec fn row_from(t: TimelineView, id: TrackId, i: int) -> Option<int>
    decreases t.tracks().len() - i,
{
    if i < 0 || i >= t.tracks().len() {
        None
    } else if row_track(t, i).id == id {
        Some(i)
    } else {
        row_from(t, id, i + 1)
    }
}

/// What a row shows: the identifier and the kind of its track.
pub(crate) fn row(timeline: &Timeline, i: usize) -> (r: Option<(TrackId, TrackKind)>)
    requires
        timeline@.tracks().len() <= usize::MAX,
    ensures
        r == if i < timeline@.tracks().len() {
            Some((row_track(timeline@, i as int).id, row_track(timeline@, i as int).kind))
        } else {
            None
        },
{
    let n: usize = timeline.video_tracks.len();
    if i < n {
        let track = &timeline.video_tracks[n - 1 - i];
        Some((track.id, track.kind))
    } else if i - n < timeline.audio_tracks.len() {
        let track = &timeline.audio_tracks[i - n];
        Some((track.id, track.kind))
    } else {
        None
    }
}

/// The row that shows the track.
pub(crate) fn row_of(timeline: &Timeline, id: TrackId) -> (r: Option<usize>)
    requires
        timeline@.tracks().len() <= usize::MAX,
    ensures
        match r {
            Some(i) => row_from(timeline@, id, 0) == Some(i as int) && i < timeline@.tracks().len(),
            None => row_from(timeline@, id, 0) is None,
        },
{
    let mut i: usize = 0;
    let n: usize = timeline.track_count();
    while i < n
        invariant
            i <= n,
            n == timeline@.tracks().len(),
            n <= usize::MAX,
            row_from(timeline@, id, 0) == row_from(timeline@, id, i as int),
        decreases n - i,
    {
        if let Some((track_id, _)) = row(timeline, i) {
            if track_id == id {
                return Some(i);
            }
        }
        i += 1;
    }
    None
}

/// Where a dragged clip would be put down: on which track, and when.
pub open spec fn drop_of(
    t: TimelineView,
    id: TimelineClipId,
    grab_offset: int,
    p: Point,
    g: PanelGeometry,
) -> Option<(TrackId, int)> {
    match t.clip_place(id) {
        None => None,
        Some(place) => {
            let row = row_at(p.y as int, g.tracks_top as int);
            if row >= t.tracks().len() || t.tracks()[place.0].kind != row_track(t, row).kind {
                None
            } else {
                Some(
                    (
                        row_track(t, row).id,
                        snapped(
                            t,
                            later(g.time_under(p.x as int) - grab_offset, 0),
                            g.zoom as int,
                            Some(id),
                        ).0,
                    ),
                )
            }
        },
    }
}

/// The timeline and what can be undone, before and after a dragged clip is put down: it
/// moves along its track, or to another one, and the clip linked to it along with it.
pub open spec fn put_down(a: Edited, b: Edited, id: TimelineClipId, dst: TrackId, at: int) -> bool {
    exists|m: Edited| #[trigger]
        kept_for_undo(a, m) && b.history == m.history && if a.timeline@.tracks()[(
        a.timeline@.clip_place(id)->0).0].id == dst {
            moved_on_track_with_link(a.timeline@, b.timeline@, dst, id, at)
        } else {
            moved_across_with_link(a.timeline@, b.timeline@, id, dst, at)
        }
}

proof fn lemma_modest_is_roomy(t: TimelineView, at: int)
    requires
        all_modest(t),
        0 <= at <= 441_000_000_000_000_000 + 0x0400_0000_0000_0000,
    ensures
        roomy_all(t, at),
{
    assert forall|k: int| 0 <= k < t.tracks().len() implies roomy(
        (#[trigger] t.tracks()[k]).clips,
        at,
    ) by {
        assert forall|i: int| 0 <= i < t.tracks()[k].clips.len() implies in_time(
            at + (#[trigger] t.tracks()[k].clips[i]).duration,
        ) by {
            assert(modest_clip(t.tracks()[k].clips[i]));
        }
    }
}

fn find_drop(
    timeline: &Timeline,
    id: TimelineClipId,
    grab_offset: i64,
    p: Point,
    g: PanelGeometry,
) -> (r: Option<(TrackId, i64)>)
    requires
        timeline@.fits(),
        timeline@.tracks().len() <= usize::MAX,
        g.wf(),
        p.wf(),
        modest(grab_offset as int),
    ensures
        match r {
            Some((dst, at)) => drop_of(timeline@, id, grab_offset as int, p, g) == Some(
                (dst, at as int),
            ) && 0 <= at <= 441_000_000_000_000_000 + 0x0400_0000_0000_0000,
            None => drop_of(timeline@, id, grab_offset as int, p, g) is None,
        },
{
    let src_kind = match timeline.track_kind_for_clip(id) {
        Some(kind) => kind,
        None => {
            proof {
                crate::timeline::lanes::lemma_clip_place_first(timeline@, id);
            }
            return None;
        },
    };
    let dst_row: usize = find_row(p.y, g.tracks_top);
    let (dst, dst_kind) = match row(timeline, dst_row) {
        Some(track) => track,
        None => {
            return None;
        },
    };
    if !(src_kind == dst_kind) {
        return None;
    }
    let wanted: i64 = max_time(g.time_at(p.x) - grab_offset, 0);
    let (at, _) = snap_time_to_clip_boundaries(timeline, wanted, g.zoom, Some(id));
    Some((dst, at))
}

/// Puts a dragged clip down once the pointer is released: on the row under the pointer,
/// where that is of its kind, and otherwise nowhere.
pub fn handle_clip_drag_drop(
    project: &mut ProjectState,
    ui: &mut TimelineUiState,
    selection: &mut Selection,
    pointer_down: bool,
    pointer: Option<Point>,
    g: PanelGeometry,
)
    requires
        old(project).timeline@.fits(),
        all_modest(old(project).timeline@),
        old(project).timeline@.tracks().len() <= usize::MAX,
        g.wf(),
        pointer matches Some(p) ==> p.wf(),
        old(ui).drag_grab_offset matches Some(o) ==> modest(o as int),
    ensures
        ({
            let ends = old(ui).dragging_clip is Some && !pointer_down;
            let grab = match old(ui).drag_grab_offset {
                Some(o) => o as int,
                None => 0,
            };
            let target = if ends && pointer is Some {
                drop_of(old(project).timeline@, old(ui).dragging_clip->0, grab, pointer->0, g)
            } else {
                None
            };
            &&& *final(ui) == if ends {
                TimelineUiState { dragging_clip: None, drag_grab_offset: None, ..*old(ui) }
            } else {
                *old(ui)
            }
            &&& match target {
                Some((dst, at)) => put_down(
                    old(project).edited(),
                    final(project).edited(),
                    old(ui).dragging_clip->0,
                    dst,
                    at,
                ) && final(selection).selected_timeline_clips@ == Set::<u128>::empty(),
                None => final(project).edited() == old(project).edited() && final(selection).selected_timeline_clips@ == old(selection).selected_timeline_clips@,
            }
        }),
        final(project).timeline@.fits(),
        final(project).same_but_edited(*old(project)),
        final(selection).same_but_timeline(*old(selection)),
{
    let id = match ui.dragging_clip {
        Some(id) => id,
        None => {
            return;
        },
    };
    if pointer_down {
        return;
    }
    let grab_offset: i64 = match ui.drag_grab_offset {
        Some(o) => o,
        None => 0,
    };
    ui.dragging_clip = None;
    ui.drag_grab_offset = None;
    let p = match pointer {
        Some(p) => p,
        None => {
            return;
        },
    };
    let (dst, at) = match find_drop(&project.timeline, id, grab_offset, p, g) {
        Some(target) => target,
        None => {
            return;
        },
    };
    let ghost before = project.edited();
    proof {
        lemma_modest_is_roomy(before.timeline@, at as int);
    }
    let src = match project.timeline.find_clip(id) {
        Some((track, _, _)) => track.id,
        None => {
            return;
        },
    };
    project.snapshot_for_undo();
    let ghost kept = project.edited();
    if src == dst {
        project.timeline.move_clip_on_track(src, id, at);
    } else {
        project.timeline.move_clip_across_tracks(id, dst, at);
    }
    selection.clear_timeline_clips();
    assert(kept_for_undo(before, kept));
    assert(put_down(before, project.edited(), id, dst, at as int));
}

/// A clip that is dragged goes as far as the pointer does: dropped where nothing is near
/// enough to snap to, it begins as far from where it began as the moment under the pointer
/// is from the moment under which it was taken.
pub proof fn law_dragged_clip_goes_with_pointer(
    ui: TimelineUiState,
    g: PanelGeometry,
    c: TimelineClip,
    b: ClipBox,
    origin: Point,
    x: int,
)
    requires
        b.edge_at(origin) is None,
        in_time(g.time_under(origin.x as int)),
        in_time(c.timeline_start as int),
    ensures
        ({
            let after = drag_begun(ui, g, c, b, origin);
            &&& after.dragging_clip == Some(c.id)
            &&& after.trimming_clip == ui.trimming_clip
            &&& after.drag_grab_offset matches Some(offset) && g.time_under(x) - offset
                == c.timeline_start + (g.time_under(x) - g.time_under(origin.x as int))
        }),
{
}

/// A drag that begins at an end of a clip trims that end, from what the clip is then; the
/// clip is not moved.
pub proof fn law_drag_at_an_end_trims(
    ui: TimelineUiState,
    g: PanelGeometry,
    c: TimelineClip,
    b: ClipBox,
    origin: Point,
)
    requires
        b.edge_at(origin) is Some,
    ensures
        ({
            let after = drag_begun(ui, g, c, b, origin);
            &&& after.dragging_clip == ui.dragging_clip
            &&& after.trimming_clip matches Some(trim) && trim.clip_id == c.id && Some(trim.edge)
                == b.edge_at(origin) && trim.original_position == c.timeline_start
                && trim.original_duration == c.duration && trim.original_in_point == c.source_in
                && trim.original_out_point == c.source_out
        }),
{
}

/// The ends of a clip are taken hold of within twelve pixels of them, or within a third of
/// the clip where that is less; the left end where both are as near, and neither above or
/// below the clip.
pub proof fn law_ends_are_near(b: ClipBox, p: Point)
    requires
        b.left <= b.right,
    ensures
        ({
            let dl = if p.x < b.left {
                b.left - p.x
            } else {
                p.x - b.left
            };
            let dr = if p.x < b.right {
                b.right - p.x
            } else {
                p.x - b.right
            };
            let third = (b.right - b.left) / 3;
            let level = b.top <= p.y && p.y <= b.bottom;
            &&& b.edge_at(p) == Some(TrimEdge::Left) <==> level && dl < 12_000 && dl < third
            &&& b.edge_at(p) == Some(TrimEdge::Right) <==> level && dr < 12_000 && dr < third && !(dl
                < 12_000 && dl < third)
        }),
{
}

/// A clip is dropped on the row under the pointer, and only where that holds tracks of its
/// own kind: the rows are the video tracks, the last at the top, and below them the audio
/// tracks.
pub proof fn law_dropped_on_the_row_under_pointer(
    t: TimelineView,
    id: TimelineClipId,
    grab_offset: int,
    p: Point,
    g: PanelGeometry,
)
    requires
        !t.lacks_clip(id),
        row_at(p.y as int, g.tracks_top as int) >= 0,
    ensures
        ({
            let row = row_at(p.y as int, g.tracks_top as int);
            let own = t.tracks()[(t.clip_place(id)->0).0].kind;
            let n = t.video.len();
            let wanted = g.time_under(p.x as int) - grab_offset;
            match drop_of(t, id, grab_offset, p, g) {
                Some((dst, at)) => {
                    &&& row < n ==> dst == t.video[n - 1 - row].id && own == t.video[n - 1
                        - row].kind
                    &&& n <= row ==> row - n < t.audio.len() && dst == t.audio[row - n].id && own
                        == t.audio[row - n].kind
                    &&& wanted >= 0 ==> at == snapped(t, wanted, g.zoom as int, Some(id)).0
                    &&& wanted < 0 ==> at == snapped(t, 0, g.zoom as int, Some(id)).0
                },
                None => {
                    &&& row < n ==> own != t.video[n - 1 - row].kind
                    &&& n <= row < n + t.audio.len() ==> own != t.audio[row - n].kind
                },
            }
        }),
{
}

proof fn lemma_names_differ(t: TimelineView, mid: TimelineView)
    requires
        tracks_differ(t),
        mid.tracks().len() == t.tracks().len(),
        forall|n: int|
            0 <= n < t.tracks().len() ==> (#[trigger] mid.tracks()[n]).id == t.tracks()[n].id,
    ensures
        tracks_differ(mid),
{
    assert forall|k: int, m: int| 0 <= k < m < mid.tracks().len() implies (
    #[trigger] mid.tracks()[k]).id != (#[trigger] mid.tracks()[m]).id by {
        assert(t.tracks()[k].id != t.tracks()[m].id);
    }
}

proof fn lemma_kept_ids(clips: Seq<TimelineClip>, a: int, b: int)
    ensures
        forall|j: int|
            0 <= j < kept_all(clips, a, b).len() ==> exists|i: int|
                0 <= i < clips.len() && (#[trigger] clips[i]).id == (#[trigger] kept_all(
                    clips,
                    a,
                    b,
                )[j]).id,
        forall|j: int|
            0 <= j < split_all(clips, a, b).len() ==> (#[trigger] split_all(
                clips,
                a,
                b,
            )[j]).linked_to is None,
    decreases clips.len(),
{
    if clips.len() > 0 {
        let init = clips.drop_last();
        let last = clips.len() - 1;
        lemma_kept_ids(init, a, b);
        let k = kept_all(clips, a, b);
        let first = kept_all(init, a, b);
        assert forall|j: int| 0 <= j < k.len() implies exists|i: int|
            0 <= i < clips.len() && (#[trigger] clips[i]).id == (#[trigger] k[j]).id by {
            if j < first.len() {
                assert(k[j] == first[j]);
                let i = choose|i: int|
                    0 <= i < init.len() && (#[trigger] init[i]).id == first[j].id;
                assert(clips[i] == init[i]);
            } else {
                assert(clips[last].id == k[j].id);
            }
        }
        let s = split_all(clips, a, b);
        let before = split_all(init, a, b);
        assert forall|j: int| 0 <= j < s.len() implies (#[trigger] s[j]).linked_to is None by {
            if j < before.len() {
                assert(s[j] == before[j]);
            }
        }
    }
}

/// What stands on a track beside a clip that was put there has the identifier of a clip
/// that stood there before, or no link.
proof fn lemma_beside_put(
    rest: Seq<TimelineClip>,
    after: Seq<TimelineClip>,
    c: TimelineClip,
    j: int,
)
    requires
        placed(rest, after, c),
        0 <= j < after.len() - 1,
    ensures
        after[j].linked_to is None || exists|i: int|
            0 <= i < rest.len() && (#[trigger] rest[i]).id == after[j].id,
{
    let a = c.timeline_start as int;
    let b = c.end_at();
    let others = after.drop_last();
    let k = kept_all(rest, a, b);
    let s = split_all(rest, a, b);
    lemma_kept_ids(rest, a, b);
    assert(others[j] == after[j]);
    if j < k.len() {
        assert(others.take(k.len() as int)[j] == others[j]);
        assert(k[j] == others[j]);
        let i = choose|i: int| 0 <= i < rest.len() && (#[trigger] rest[i]).id == k[j].id;
        assert(rest[i].id == after[j].id);
    } else {
        assert(others[k.len() + (j - k.len())].same_but_id(s[j - k.len()]));
        assert(s[j - k.len()].linked_to is None);
    }
}

proof fn lemma_put_down_found(
    t: TimelineView,
    mid: TimelineView,
    k: int,
    i: int,
    m: int,
    at: i64,
)
    requires
        t.fits(),
        unique_clips(t),
        tracks_differ(t),
        0 <= k < t.tracks().len(),
        0 <= i < t.tracks()[k].clips.len(),
        0 <= m < t.tracks().len(),
        in_time(at as int),
        in_time(at + t.tracks()[k].clips[i].duration),
        m == k ==> moved_on_track(
            t,
            mid,
            t.tracks()[k].id,
            t.tracks()[k].clips[i].id,
            at as int,
        ),
        m != k ==> moved_across(
            t,
            mid,
            t.tracks()[k].clips[i].id,
            t.tracks()[m].id,
            at as int,
        ),
    ensures
        ({
            let c = t.tracks()[k].clips[i];
            let last = mid.tracks()[m].clips.len() - 1;
            &&& mid.clip_place(c.id) matches Some(q) && q.0 == m && 0 <= q.1 <= last
                && mid.tracks()[m].clips[q.1].id == c.id && (q.1 != last
                ==> mid.tracks()[m].clips[q.1].linked_to is None)
            &&& mid.tracks()[m].clips[last].id == c.id
            &&& mid.tracks()[m].clips[last].linked_to == c.linked_to
        }),
{
    let c = t.tracks()[k].clips[i];
    let id = c.id;
    lemma_put_down_alone(t, mid, k, i, m, at);
    let last = mid.tracks()[m].clips.len() - 1;
    lemma_clip_place_first(mid, id);
    assert(mid.tracks()[m].clips[last].id == id);
    assert(!lacks(mid.tracks()[m].clips, id));
    let q = mid.clip_place(id)->0;
    assert(t.track_first_at(t.tracks()[k].id, k));
    assert(t.track_first_at(t.tracks()[m].id, m));
    lemma_clip_place_first(t, id);
    assert(!lacks(t.tracks()[k].clips, id));
    let p = t.clip_place(id)->0;
    assert(t.tracks()[p.0].clips[p.1].id == t.tracks()[k].clips[i].id);
    let own = t.tracks()[k].clips;
    assert forall|x: int| 0 <= x < own.remove(i).len() implies (#[trigger] own.remove(i)[x]).id
        != id by {
        let y = if x < i {
            x
        } else {
            x + 1
        };
        assert(own.remove(i)[x] == own[y]);
        assert(t.tracks()[k].clips[y].id != t.tracks()[k].clips[i].id);
    }
    if q.0 != m {
        if q.0 != k {
            assert(mid.tracks()[q.0] == t.tracks()[q.0]);
            assert(t.tracks()[q.0].clips[q.1].id == t.tracks()[k].clips[i].id);
        } else {
            law_clip_changes_tracks(t, mid, id, m, at);
            assert(mid.tracks()[k].clips == own.remove(i));
        }
    }
    if q.1 != last {
        let clips = mid.tracks()[m].clips;
        if m == k {
            lemma_track_index(t, t.tracks()[k].id, k);
            lemma_index_in(own, id, i);
            lemma_beside_put(own.remove(i), clips, TimelineClip { timeline_start: at, ..c }, q.1);
        } else {
            let dst = t.tracks()[m].id;
            let taken = taken_out(t, p);
            lemma_with_track(
                t,
                k,
                TrackView { clips: own.remove(i), ..t.tracks()[k] },
            );
            assert(taken.track_first_at(dst, m)) by {
                assert forall|x: int| 0 <= x < m implies (#[trigger] taken.tracks()[x]).id
                    != dst by {
                    assert(t.tracks()[x].id != dst);
                }
            }
            lemma_track_index(taken, dst, m);
            lemma_beside_put(
                t.tracks()[m].clips,
                clips,
                TimelineClip { timeline_start: at, track_id: dst, ..c },
                q.1,
            );
            assert forall|x: int| 0 <= x < t.tracks()[m].clips.len() implies (
            #[trigger] t.tracks()[m].clips[x]).id != id by {
                assert(t.tracks()[m].clips[x].id != t.tracks()[k].clips[i].id);
            }
        }
    }
}

proof fn lemma_put_down_alone(
    before: TimelineView,
    after: TimelineView,
    k: int,
    i: int,
    m: int,
    at: i64,
)
    requires
        before.fits(),
        unique_clips(before),
        tracks_differ(before),
        0 <= k < before.tracks().len(),
        0 <= i < before.tracks()[k].clips.len(),
        0 <= m < before.tracks().len(),
        in_time(at as int),
        in_time(at + before.tracks()[k].clips[i].duration),
        m == k ==> moved_on_track(
            before,
            after,
            before.tracks()[k].id,
            before.tracks()[k].clips[i].id,
            at as int,
        ),
        m != k ==> moved_across(
            before,
            after,
            before.tracks()[k].clips[i].id,
            before.tracks()[m].id,
            at as int,
        ),
    ensures
        after.tracks().len() == before.tracks().len(),
        after.tracks()[m].clips.len() > 0,
        ({
            let c = before.tracks()[k].clips[i];
            let d = after.tracks()[m].clips.last();
            &&& d.id == c.id && d.source_id == c.source_id && d.duration == c.duration
                && d.source_in == c.source_in && d.source_out == c.source_out && d.linked_to
                == c.linked_to
            &&& d.timeline_start == at
        }),
        forall|n: int|
            0 <= n < before.tracks().len() && n != m && n != k ==> #[trigger] after.tracks()[n]
                == before.tracks()[n],
        forall|n: int|
            0 <= n < before.tracks().len() ==> (#[trigger] after.tracks()[n]).id
                == before.tracks()[n].id,
{
    let c = before.tracks()[k].clips[i];
    let id = c.id;
    assert(before.track_first_at(before.tracks()[k].id, k));
    assert(before.track_first_at(before.tracks()[m].id, m));
    lemma_clip_place_first(before, id);
    assert(!lacks(before.tracks()[k].clips, id));
    let p = before.clip_place(id)->0;
    assert(before.tracks()[p.0].clips[p.1].id == before.tracks()[k].clips[i].id);
    assert(all_fit(before.tracks()[k].clips));
    if m == k {
        law_moved_clip_starts_there(before, after, k, i, at);
        let d = choose|d: TimelineClip| #[trigger]
            put_among(before.tracks()[k].clips.remove(i), after.tracks()[k].clips, d) && d.id
                == c.id && d.source_id == c.source_id && d.track_id == c.track_id
                && d.timeline_start == at && d.duration == c.duration && d.source_in == c.source_in
                && d.source_out == c.source_out && d.linked_to == c.linked_to;
        assert(after.tracks()[k].clips.last() == d);
    } else {
        law_clip_changes_tracks(before, after, id, m, at);
        let d = choose|d: TimelineClip| #[trigger]
            put_among(before.tracks()[m].clips, after.tracks()[m].clips, d) && d.id == c.id
                && d.source_id == c.source_id && d.track_id == before.tracks()[m].id
                && d.timeline_start == at && d.duration == c.duration && d.source_in == c.source_in
                && d.source_out == c.source_out && d.linked_to == c.linked_to;
        assert(after.tracks()[m].clips.last() == d);
        lemma_moved_keeps_names(before, after, id, m, at);
    }
}

proof fn lemma_moved_keeps_names(
    before: TimelineView,
    after: TimelineView,
    id: TimelineClipId,
    m: int,
    at: i64,
)
    requires
        !before.lacks_clip(id),
        before.track_first_at(before.tracks()[m].id, m),
        moved_across(before, after, id, before.tracks()[m].id, at as int),
    ensures
        after.tracks().len() == before.tracks().len(),
        forall|n: int|
            0 <= n < before.tracks().len() ==> (#[trigger] after.tracks()[n]).id
                == before.tracks()[n].id,
{
    lemma_clip_place_first(before, id);
    let p = before.clip_place(id)->0;
    let mid = taken_out(before, p);
    lemma_with_track(
        before,
        p.0,
        TrackView { clips: before.tracks()[p.0].clips.remove(p.1), ..before.tracks()[p.0] },
    );
    let dst = before.tracks()[m].id;
    assert(mid.track_first_at(dst, m)) by {
        assert forall|n: int| 0 <= n < m implies (#[trigger] mid.tracks()[n]).id != dst by {
            assert(before.tracks()[n].id != dst);
        }
    }
    lemma_track_index(mid, dst, m);
    lemma_with_track(
        mid,
        m,
        TrackView { clips: after.tracks()[m].clips, ..mid.tracks()[m] },
    );
}

/// Where the identifiers differ, a clip without a link that is put down stands on the
/// track it was put on, begins at the moment it was put at, and is otherwise what it was;
/// the tracks between are as they were, and undo gives the timeline back.
pub proof fn law_put_down_clip_stands_there(
    a: Edited,
    b: Edited,
    end: Edited,
    k: int,
    i: int,
    m: int,
    at: i64,
)
    requires
        a.timeline@.fits(),
        unique_clips(a.timeline@),
        tracks_differ(a.timeline@),
        0 <= k < a.timeline@.tracks().len(),
        0 <= i < a.timeline@.tracks()[k].clips.len(),
        0 <= m < a.timeline@.tracks().len(),
        a.timeline@.tracks()[k].clips[i].linked_to is None,
        in_time(at as int),
        in_time(at + a.timeline@.tracks()[k].clips[i].duration),
        put_down(
            a,
            b,
            a.timeline@.tracks()[k].clips[i].id,
            a.timeline@.tracks()[m].id,
            at as int,
        ),
    ensures
        ({
            let c = a.timeline@.tracks()[k].clips[i];
            exists|j: int|
                0 <= j < b.timeline@.tracks()[m].clips.len() && (
                #[trigger] b.timeline@.tracks()[m].clips[j]).id == c.id
                    && b.timeline@.tracks()[m].clips[j].timeline_start == at
                    && b.timeline@.tracks()[m].clips[j].source_id == c.source_id
                    && b.timeline@.tracks()[m].clips[j].duration == c.duration
                    && b.timeline@.tracks()[m].clips[j].source_in == c.source_in
                    && b.timeline@.tracks()[m].clips[j].source_out == c.source_out
        }),
        forall|n: int|
            0 <= n < a.timeline@.tracks().len() && n != m && n != k
                ==> #[trigger] b.timeline@.tracks()[n] == a.timeline@.tracks()[n],
        stepped_back(b, end) ==> end.timeline@ == a.timeline@,
{
    let t = a.timeline@;
    let c = t.tracks()[k].clips[i];
    let id = c.id;
    let dst = t.tracks()[m].id;
    lemma_clip_place_first(t, id);
    assert(!lacks(t.tracks()[k].clips, id));
    let p = t.clip_place(id)->0;
    assert(t.tracks()[p.0].clips[p.1].id == t.tracks()[k].clips[i].id);
    let e = choose|e: Edited| #[trigger]
        kept_for_undo(a, e) && b.history == e.history && if t.tracks()[p.0].id == dst {
            moved_on_track_with_link(t, b.timeline@, dst, id, at as int)
        } else {
            moved_across_with_link(t, b.timeline@, id, dst, at as int)
        };
    assert(t.tracks()[k].id == dst <==> k == m) by {
        if k < m {
            assert(t.tracks()[k].id != t.tracks()[m].id);
        }
        if m < k {
            assert(t.tracks()[m].id != t.tracks()[k].id);
        }
    }
    let mid = if k == m {
        choose|mid: TimelineView| #[trigger]
            moved_on_track(t, mid, dst, id, at as int) && link_followed(
                mid,
                b.timeline@,
                id,
                at as int,
            )
    } else {
        choose|mid: TimelineView| #[trigger]
            moved_across(t, mid, id, dst, at as int) && link_followed(
                mid,
                b.timeline@,
                id,
                at as int,
            )
    };
    lemma_put_down_alone(t, mid, k, i, m, at);
    lemma_put_down_found(t, mid, k, i, m, at);
    assert(b.timeline@ == mid);
    if stepped_back(b, end) {
        law_undo_takes_back_edit(a, e, b, end);
    }
}

/// A clip is drawn from where it begins to as far as it lasts, and the moment under its
/// left end is when it begins, to within a step of the scale.
pub proof fn law_clip_is_drawn_where_it_is(g: PanelGeometry, t: int)
    requires
        0 <= t,
        0 < g.zoom,
    ensures
        g.time_under(g.place_of(t)) <= t,
        (t - g.time_under(g.place_of(t))) * g.zoom < 1_000_000_000 + g.zoom,
{
    crate::panel::pixels::law_pointer_finds_time(t, g.zoom as int);
    assert(g.place_of(t) - g.content_left + g.scroll == length_of(t, g.zoom as int));
}

/// Where the identifiers differ, before and after, a clip that is put down takes the clip it
/// is linked to along: that one stays on its own track, which is another, and begins at the same moment.
pub proof fn law_put_down_clip_takes_its_link_along(
    a: Edited,
    b: Edited,
    k: int,
    i: int,
    m: int,
    n: int,
    j: int,
    at: i64,
)
    requires
        a.timeline@.fits(),
        unique_clips(a.timeline@),
        tracks_differ(a.timeline@),
        0 <= k < a.timeline@.tracks().len(),
        0 <= i < a.timeline@.tracks()[k].clips.len(),
        0 <= m < a.timeline@.tracks().len(),
        0 <= n < a.timeline@.tracks().len(),
        0 <= j < a.timeline@.tracks()[n].clips.len(),
        n != k,
        n != m,
        a.timeline@.tracks()[k].clips[i].linked_to == Some(a.timeline@.tracks()[n].clips[j].id),
        in_time(at as int),
        in_time(at + a.timeline@.tracks()[k].clips[i].duration),
        in_time(at + a.timeline@.tracks()[n].clips[j].duration),
        put_down(
            a,
            b,
            a.timeline@.tracks()[k].clips[i].id,
            a.timeline@.tracks()[m].id,
            at as int,
        ),
        unique_clips(b.timeline@),
    ensures
        exists|x: int|
            0 <= x < b.timeline@.tracks()[m].clips.len() && (
            #[trigger] b.timeline@.tracks()[m].clips[x]).id == a.timeline@.tracks()[k].clips[i].id
                && b.timeline@.tracks()[m].clips[x].timeline_start == at,
        exists|y: int|
            0 <= y < b.timeline@.tracks()[n].clips.len() && (
            #[trigger] b.timeline@.tracks()[n].clips[y]).id == a.timeline@.tracks()[n].clips[j].id
                && b.timeline@.tracks()[n].clips[y].timeline_start == at
                && b.timeline@.tracks()[n].clips[y].duration
                == a.timeline@.tracks()[n].clips[j].duration
                && b.timeline@.tracks()[n].clips[y].source_in
                == a.timeline@.tracks()[n].clips[j].source_in,
{
    let t = a.timeline@;
    let after = b.timeline@;
    let c = t.tracks()[k].clips[i];
    let d = t.tracks()[n].clips[j];
    let id = c.id;
    let dst = t.tracks()[m].id;
    lemma_clip_place_first(t, id);
    assert(!lacks(t.tracks()[k].clips, id));
    let p = t.clip_place(id)->0;
    assert(t.tracks()[p.0].clips[p.1].id == t.tracks()[k].clips[i].id);
    let e = choose|e: Edited| #[trigger]
        kept_for_undo(a, e) && b.history == e.history && if t.tracks()[p.0].id == dst {
            moved_on_track_with_link(t, after, dst, id, at as int)
        } else {
            moved_across_with_link(t, after, id, dst, at as int)
        };
    assert(t.tracks()[k].id == dst <==> k == m) by {
        if k < m {
            assert(t.tracks()[k].id != t.tracks()[m].id);
        }
        if m < k {
            assert(t.tracks()[m].id != t.tracks()[k].id);
        }
    }
    let mid = if k == m {
        choose|mid: TimelineView| #[trigger]
            moved_on_track(t, mid, dst, id, at as int) && link_followed(mid, after, id, at as int)
    } else {
        choose|mid: TimelineView| #[trigger]
            moved_across(t, mid, id, dst, at as int) && link_followed(mid, after, id, at as int)
    };
    lemma_put_down_alone(t, mid, k, i, m, at);
    lemma_put_down_found(t, mid, k, i, m, at);
    let last = mid.tracks()[m].clips.len() - 1;
    let q = mid.clip_place(id)->0;
    assert(mid.tracks()[n] == t.tracks()[n]);
    if q != (m, last) {
        assert(after == mid);
        assert(after.tracks()[m].clips[q.1].id == after.tracks()[m].clips[last].id);
    }
    lemma_clip_place_first(mid, d.id);
    assert(mid.tracks()[n].clips[j].id == d.id);
    assert(!lacks(mid.tracks()[n].clips, d.id));
    let r = mid.clip_place(d.id)->0;
    lemma_names_differ(t, mid);
    if r.0 != n {
        let at_r = mid.tracks()[r.0];
        assert(mid.track_first_at(at_r.id, r.0)) by {
            assert forall|x: int| 0 <= x < r.0 implies (#[trigger] mid.tracks()[x]).id
                != at_r.id by {
                assert(mid.tracks()[x].id != mid.tracks()[r.0].id);
            }
        }
        lemma_track_index(mid, at_r.id, r.0);
        lemma_index_in_first(at_r.clips, d.id);
        assert(!lacks(at_r.clips, d.id));
        lemma_with_track(
            mid,
            r.0,
            TrackView { clips: after.tracks()[r.0].clips, ..at_r },
        );
        let end = after.tracks()[r.0].clips.len() - 1;
        assert(after.tracks()[r.0].clips[end].id == d.id);
        assert(after.tracks()[n].clips[j].id == d.id);
    }
    assert(r == (n, j)) by {
        assert(t.tracks()[n].clips[r.1].id == t.tracks()[n].clips[j].id);
    }
    assert(mid.track_first_at(mid.tracks()[n].id, n)) by {
        assert forall|x: int| 0 <= x < n implies (#[trigger] mid.tracks()[x]).id
            != mid.tracks()[n].id by {
            assert(t.tracks()[x].id != t.tracks()[n].id);
        }
    }
    assert(first_at(mid.tracks()[n].clips, d.id, j));
    assert(all_fit(t.tracks()[n].clips));
    law_moved_clip_starts_there(mid, after, n, j, at);
    let f = choose|f: TimelineClip| #[trigger]
        put_among(mid.tracks()[n].clips.remove(j), after.tracks()[n].clips, f) && f.id == d.id
            && f.source_id == d.source_id && f.track_id == d.track_id && f.timeline_start == at
            && f.duration == d.duration && f.source_in == d.source_in && f.source_out
            == d.source_out && f.linked_to == d.linked_to;
    let y = after.tracks()[n].clips.len() - 1;
    assert(after.tracks()[n].clips[y] == f);
    assert(after.tracks()[m] == mid.tracks()[m]);
    assert(after.tracks()[m].clips[last].timeline_start == at);
}

} // verus!
