//! Trimming the ends of a clip.

use vstd::prelude::*;

use crate::ids::TimelineClipId;
use crate::project::{TrimEdge, TrimState};
use crate::time::{in_time, later, max_time, min_time, earlier};
use crate::timeline::clip::TimelineClip;
use crate::timeline::edit::{placed_on, synced, synced_after_trim, taken_out, with_clip};
use crate::timeline::lanes::{lemma_with_track, Timeline, TimelineView};
use crate::timeline::overlap::all_fit;

verus! {

/// No clip is trimmed shorter.
pub const MIN_CLIP_DURATION: i64 = 100_000_000;

/// A time is small enough that sums of a few stay within the limits: a quarter of them.
pub open spec fn modest(t: int) -> bool {
    -0x0400_0000_0000_0000 <= t <= 0x0400_0000_0000_0000
}

/// All times of a clip are small enough.
pub open spec fn modest_clip(c: TimelineClip) -> bool {
    modest(c.timeline_start as int) && modest(c.duration as int) && modest(c.source_in as int)
        && modest(c.source_out as int)
}

/// All times of a trim are small enough.
pub open spec fn modest_trim(t: TrimState) -> bool {
    modest(t.original_position as int) && modest(t.original_duration as int) && modest(
        t.original_in_point as int,
    ) && modest(t.original_out_point as int)
}

/// All times on a timeline are small enough.
pub open spec fn all_modest(t: TimelineView) -> bool {
    forall|k: int, i: int|
        0 <= k < t.tracks().len() && 0 <= i < t.tracks()[k].clips.len() ==> modest_clip(
            #[trigger] t.tracks()[k].clips[i],
        )
}

/// How far the source can be shown: to its end, or where that is not known as far as it
/// was shown before.
pub open spec fn source_limit(trim: TrimState, known: Option<i64>) -> int {
    match known {
        Some(d) => d as int,
        None => later(
            trim.original_out_point as int,
            trim.original_in_point + trim.original_duration,
        ),
    }
}

/// A time held between two others.
pub open spec fn held(t: int, low: int, high: int) -> int {
    if t < low {
        low
    } else if t > high {
        high
    } else {
        t
    }
}

/// The clip with one end drawn to where the pointer is.
pub open spec fn trimmed(
    c: TimelineClip,
    trim: TrimState,
    pointer: int,
    limit: int,
) -> TimelineClip {
    match trim.edge {
        TrimEdge::Right => {
            let wanted = pointer - trim.original_position + trim.original_in_point;
            let out = earlier(later(wanted, trim.original_in_point + MIN_CLIP_DURATION), limit);
            TimelineClip { source_out: out as i64, duration: (out - c.source_in) as i64, ..c }
        },
        TrimEdge::Left => {
            let d = held(
                pointer - trim.original_position,
                -trim.original_in_point,
                trim.original_duration - MIN_CLIP_DURATION,
            );
            TimelineClip {
                timeline_start: (trim.original_position + d) as i64,
                source_in: (trim.original_in_point + d) as i64,
                duration: (trim.original_duration - d) as i64,
                ..c
            }
        },
    }
}

/// The source is long enough for the shortest clip, counted from its beginning.
pub open spec fn can_trim_left(trim: TrimState) -> bool {
    -trim.original_in_point <= trim.original_duration - MIN_CLIP_DURATION
}

/// Draws one end of a clip to where the pointer is.
pub fn trim_clip(c: TimelineClip, trim: TrimState, pointer: i64, limit: i64) -> (r: TimelineClip)
    requires
        modest_clip(c),
        modest_trim(trim),
        in_time(pointer as int),
        modest(limit as int),
        trim.edge == TrimEdge::Left ==> can_trim_left(trim),
    ensures
        r == trimmed(c, trim, pointer as int, limit as int),
        r.fits(),
{
    let mut r = c;
    match trim.edge {
        TrimEdge::Right => {
            let wanted: i64 = pointer - trim.original_position + trim.original_in_point;
            let shortest: i64 = trim.original_in_point + MIN_CLIP_DURATION;
            let out: i64 = min_time(max_time(wanted, shortest), limit);
            r.source_out = out;
            r.duration = out - c.source_in;
        },
        TrimEdge::Left => {
            let delta: i64 = pointer - trim.original_position;
            let low: i64 = -trim.original_in_point;
            let high: i64 = trim.original_duration - MIN_CLIP_DURATION;
            let d: i64 = if delta < low {
                low
            } else if delta > high {
                high
            } else {
                delta
            };
            r.timeline_start = trim.original_position + d;
            r.source_in = trim.original_in_point + d;
            r.duration = trim.original_duration - d;
        },
    }
    r
}

/// The timeline with one end of the clip drawn to where the pointer is, and the clip
/// linked to it along with it.
pub open spec fn drawn(t: TimelineView, trim: TrimState, pointer: int, limit: int) -> TimelineView {
    let mid = match t.clip_place(trim.clip_id) {
        Some(p) => with_clip(t, p, trimmed(t.clip_at(p), trim, pointer, limit)),
        None => t,
    };
    synced(mid, trim.clip_id)
}

/// The clip is taken out and put back on its track, where room is made for it.
pub open spec fn settled(before: TimelineView, after: TimelineView, id: TimelineClipId) -> bool {
    match before.clip_place(id) {
        None => after == before,
        Some(p) => {
            let mid = taken_out(before, p);
            match mid.track_index(before.tracks()[p.0].id) {
                None => after == mid,
                Some(k) => placed_on(mid, after, k, mid.tracks()[k].clips, before.clip_at(p)),
            }
        },
    }
}

/// The trimmed clip and the clip linked to it are settled on their tracks.
pub open spec fn trim_finalized(
    before: TimelineView,
    after: TimelineView,
    id: TimelineClipId,
) -> bool {
    exists|mid: TimelineView| #[trigger]
        settled(before, mid, id) && synced_after_trim(mid, after, id)
}

impl Timeline {
    /// Draws one end of a clip to where the pointer is, and the clip linked to it along
    /// with it. Other clips are overlapped until the trim is finished.
    pub fn draw_trim(&mut self, trim: TrimState, pointer: i64, limit: i64)
        requires
            old(self)@.fits(),
            all_modest(old(self)@),
            modest_trim(trim),
            in_time(pointer as int),
            modest(limit as int),
            trim.edge == TrimEdge::Left ==> can_trim_left(trim),
        ensures
            final(self)@ == drawn(old(self)@, trim, pointer as int, limit as int),
            final(self)@.fits(),
    {
        let ghost before = self@;
        match self.find_clip_track_mut(trim.clip_id) {
            None => {},
            Some((track, i)) => {
                proof {
                    let p = before.clip_place(trim.clip_id)->0;
                    assert(modest_clip(before.tracks()[p.0].clips[p.1]));
                }
                let c = trim_clip(track.clips[i], trim, pointer, limit);
                track.clips.set(i, c);
                proof {
                    let p = before.clip_place(trim.clip_id)->0;
                    lemma_with_track(before, p.0, track@);
                    let after = with_clip(before, p, c);
                    assert forall|k: int| 0 <= k < after.tracks().len() implies all_fit(
                        (#[trigger] after.tracks()[k]).clips,
                    ) by {
                        assert(all_fit(before.tracks()[k].clips));
                    }
                }
            },
        }
        self.sync_linked_clip(trim.clip_id);
    }

    /// Ends a trim: room is made for the trimmed clip on its track, and for the clip
    /// linked to it on its own.
    pub fn finalize_trim(&mut self, id: TimelineClipId)
        requires
            old(self)@.fits(),
        ensures
            trim_finalized(old(self)@, final(self)@, id),
            final(self)@.fits(),
    {
        let ghost before = self@;
        if let Some((clip, track_id)) = self.take_clip(id) {
            let ghost taken = self@;
            proof {
                let p = before.clip_place(id)->0;
                assert(all_fit(before.tracks()[p.0].clips));
            }
            match self.track_by_id_mut(track_id) {
                None => {},
                Some(track) => {
                    let ghost k = taken.track_index(track_id)->0;
                    proof {
                        assert(all_fit(taken.tracks()[k].clips));
                    }
                    track.place(clip);
                    proof {
                        lemma_with_track(taken, k, track@);
                        let after = taken.with_track(k, track@);
                        assert forall|j: int| 0 <= j < after.tracks().len() implies all_fit(
                            (#[trigger] after.tracks()[j]).clips,
                        ) by {
                            assert(all_fit(taken.tracks()[j].clips));
                        }
                    }
                },
            }
        }
        assert(settled(before, self@, id));
        self.sync_linked_clip_after_trim(id);
    }
}

/// A trim never moves the end of the clip that is not trimmed, keeps the clip as long as
/// its source window, and leaves it no shorter than the shortest clip where the source
/// is long enough.
pub proof fn law_trim_keeps_other_end(c: TimelineClip, trim: TrimState, pointer: int, limit: int)
    requires
        modest_clip(c),
        modest_trim(trim),
        in_time(pointer),
        modest(limit),
        trim.edge == TrimEdge::Left ==> can_trim_left(trim),
        c.timeline_start == trim.original_position,
        c.duration == trim.original_duration,
        c.source_in == trim.original_in_point,
        c.source_out == trim.original_out_point,
        c.window_matches(),
        limit >= trim.original_in_point + MIN_CLIP_DURATION,
    ensures
        ({
            let r = trimmed(c, trim, pointer, limit);
            &&& r.window_matches()
            &&& r.duration >= MIN_CLIP_DURATION
            &&& trim.edge == TrimEdge::Left ==> r.end_at() == c.end_at() && r.source_out
                == c.source_out
            &&& trim.edge == TrimEdge::Right ==> r.timeline_start == c.timeline_start
                && r.source_in == c.source_in && r.source_out <= limit
        }),
{
}

/// With the pointer on the end that is trimmed, nothing changes.
pub proof fn law_trim_in_place(c: TimelineClip, trim: TrimState, limit: int)
    requires
        modest_clip(c),
        modest_trim(trim),
        trim.edge == TrimEdge::Left ==> can_trim_left(trim),
        c.timeline_start == trim.original_position,
        c.duration == trim.original_duration,
        c.source_in == trim.original_in_point,
        c.source_out == trim.original_out_point,
        c.window_matches(),
        c.duration >= MIN_CLIP_DURATION,
        c.source_in >= 0,
        c.source_out <= limit,
    ensures
        trim.edge == TrimEdge::Left ==> trimmed(c, trim, c.timeline_start as int, limit) == c,
        trim.edge == TrimEdge::Right ==> trimmed(c, trim, c.end_at(), limit) == c,
{
}

/// A clip is drawn out no further than its source lasts; where that is not known, no
/// further than it was shown before.
pub proof fn law_source_limits_a_trim(trim: TrimState, known: Option<i64>)
    ensures
        known matches Some(d) ==> source_limit(trim, known) == d,
        known is None ==> source_limit(trim, known) >= trim.original_out_point && source_limit(
            trim,
            known,
        ) >= trim.original_in_point + trim.original_duration && (source_limit(trim, known)
            == trim.original_out_point || source_limit(trim, known) == trim.original_in_point
            + trim.original_duration),
{
}

} // verus!
