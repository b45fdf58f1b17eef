//! The rows of the timeline panel.

use vstd::prelude::*;

use crate::ids::TrackId;
use crate::panel::pixels::{in_pixels, PIXEL_LIMIT};
use crate::time::later;
use crate::timeline::lanes::{Timeline, TimelineView};
use crate::timeline::track::TrackKind;

verus! {

/// The height of a track.
pub const TRACK_HEIGHT: i64 = 60_000;

/// The height of a row: a track and the gap below it.
pub const ROW_HEIGHT: i64 = 62_000;

/// The width of the track headers.
pub const TRACK_HEADER_WIDTH: i64 = 70_000;

/// The height of the ruler.
pub const RULER_HEIGHT: i64 = 24_000;

/// The height of the horizontal scrollbar.
pub const SCROLLBAR_HEIGHT: i64 = 12_000;

/// The width of the vertical scrollbar.
pub const V_SCROLLBAR_WIDTH: i64 = 10_000;

/// The space above the horizontal scrollbar and below it.
pub const SCROLLBAR_MARGIN: i64 = 8_000;

/// The width of the thumbnail on a clip.
pub const THUMB_WIDTH: i64 = 50_000;

/// A row of the panel: which track it shows, and where.
#[derive(Debug)]
pub struct TrackLayout {
    pub track_id: TrackId,
    pub kind: TrackKind,
    pub name: String,
    pub display_index: usize,
    pub pair_index: usize,
    pub muted: bool,
    pub visible: bool,
}

impl TrackLayout {
    /// Whether the row is drawn dimmed: nothing of it is heard, or nothing seen.
    pub fn is_dimmed(&self) -> (r: bool)
        ensures
            r == (self.muted || !self.visible),
    {
        self.muted || !self.visible
    }
}

/// The row shows the track at its place: video tracks from the last to the first, then
/// audio tracks from the first to the last.
pub open spec fn is_row(t: TimelineView, l: TrackLayout, i: int) -> bool {
    let n = t.video.len();
    let pair = if i < n {
        n - 1 - i
    } else {
        i - n
    };
    let track = if i < n {
        t.video[pair]
    } else {
        t.audio[pair]
    };
    &&& l.track_id == track.id
    &&& l.kind == track.kind
    &&& l.name@ == track.name
    &&& l.display_index == i
    &&& l.pair_index == pair
    &&& l.muted == track.muted
    &&& l.visible == track.visible
}

/// The rows of the panel, from top to bottom.
pub fn build_track_layout(timeline: &Timeline) -> (r: Vec<TrackLayout>)
    requires
        timeline@.tracks().len() <= usize::MAX,
    ensures
        r@.len() == timeline@.tracks().len(),
        forall|i: int| 0 <= i < r@.len() ==> is_row(timeline@, #[trigger] r@[i], i),
{
    let mut out: Vec<TrackLayout> = Vec::new();
    let n: usize = timeline.video_tracks.len();
    let mut i: usize = 0;
    while i < n
        invariant
            i <= n,
            n == timeline.video_tracks@.len(),
            out@.len() == i,
            forall|k: int| 0 <= k < i ==> is_row(timeline@, #[trigger] out@[k], k),
        decreases n - i,
    {
        let pair: usize = n - 1 - i;
        let track = &timeline.video_tracks[pair];
        out.push(
            TrackLayout {
                track_id: track.id,
                kind: track.kind,
                name: track.name.clone(),
                display_index: i,
                pair_index: pair,
                muted: track.muted,
                visible: track.visible,
            },
        );
        assert(is_row(timeline@, out@[i as int], i as int));
        i += 1;
    }
    let mut j: usize = 0;
    while j < timeline.audio_tracks.len()
        invariant
            j <= timeline.audio_tracks@.len(),
            n == timeline.video_tracks@.len(),
            n + timeline.audio_tracks@.len() <= usize::MAX,
            out@.len() == n + j,
            forall|k: int| 0 <= k < n + j ==> is_row(timeline@, #[trigger] out@[k], k),
        decreases timeline.audio_tracks@.len() - j,
    {
        let track = &timeline.audio_tracks[j];
        out.push(
            TrackLayout {
                track_id: track.id,
                kind: track.kind,
                name: track.name.clone(),
                display_index: n + j,
                pair_index: j,
                muted: track.muted,
                visible: track.visible,
            },
        );
        assert(is_row(timeline@, out@[n + j], n + j));
        j += 1;
    }
    out
}

/// Which row is at a height; the first where it is above all.
pub open spec fn row_at(y: int, tracks_top: int) -> int {
    later((y - tracks_top) / (ROW_HEIGHT as int), 0)
}

/// Which row is at a height.
pub fn find_row(y: i64, tracks_top: i64) -> (r: usize)
    requires
        in_pixels(y as int),
        in_pixels(tracks_top as int),
    ensures
        r == row_at(y as int, tracks_top as int),
{
    let d: i64 = y - tracks_top;
    if d < 0 {
        0
    } else {
        (d / ROW_HEIGHT) as usize
    }
}

/// Where a row begins.
pub open spec fn row_top(tracks_top: int, i: int) -> int {
    tracks_top + i * ROW_HEIGHT
}

/// The height of all rows.
pub fn total_track_height(rows: usize) -> (r: i64)
    requires
        rows <= 1_000_000,
    ensures
        r == rows * ROW_HEIGHT,
        0 <= r <= PIXEL_LIMIT,
{
    rows as i64 * ROW_HEIGHT
}

/// The height that is left for the rows in a panel.
pub fn available_track_height(panel_height: i64) -> (r: i64)
    requires
        in_pixels(panel_height as int),
    ensures
        r == panel_height - RULER_HEIGHT - SCROLLBAR_HEIGHT - SCROLLBAR_MARGIN,
{
    panel_height - RULER_HEIGHT - SCROLLBAR_HEIGHT - SCROLLBAR_MARGIN
}

/// A point within a row is in that row.
pub proof fn law_row_is_found(tracks_top: int, i: int, y: int)
    requires
        0 <= i,
        row_top(tracks_top, i) <= y < row_top(tracks_top, i) + ROW_HEIGHT,
    ensures
        row_at(y, tracks_top) == i,
{
}

/// The two tracks of a pair lie as far from the middle as one another.
pub proof fn law_pairs_mirror(t: TimelineView, a: TrackLayout, b: TrackLayout, i: int, j: int)
    requires
        0 <= i < t.video.len() <= j < t.tracks().len(),
        is_row(t, a, i),
        is_row(t, b, j),
        a.pair_index == b.pair_index,
    ensures
        t.video.len() - 1 - i == j - t.video.len(),
{
}

} // verus!
