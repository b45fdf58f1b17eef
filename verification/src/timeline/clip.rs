//! One appearance of a media file on a track.

use vstd::prelude::*;

use crate::ids::{ClipId, TimelineClipId, TrackId};
use crate::time::in_time;

verus! {

/// A clip instance: `duration` of the source, from `source_in` to `source_out`,
/// shown from `timeline_start` on.
#[derive(Debug, Clone, Copy)]
pub struct TimelineClip {
    pub id: TimelineClipId,
    pub source_id: ClipId,
    pub track_id: TrackId,
    pub timeline_start: i64,
    pub duration: i64,
    pub source_in: i64,
    pub source_out: i64,
    pub linked_to: Option<TimelineClipId>,
}

impl TimelineClip {
    /// Where the clip ends on the timeline.
    pub open spec fn end_at(self) -> int {
        self.timeline_start + self.duration
    }

    /// The clip is on screen at `t`.
    pub open spec fn covers(self, t: int) -> bool {
        self.timeline_start <= t < self.end_at()
    }

    /// The source position that the clip shows at `t`.
    pub open spec fn source_at(self, t: int) -> int {
        self.source_in + (t - self.timeline_start)
    }

    /// The clip's ends on the timeline and in the source lie within the time
    /// limits, so that its arithmetic cannot overflow.
    pub open spec fn fits(self) -> bool {
        &&& in_time(self.timeline_start as int)
        &&& in_time(self.end_at())
        &&& in_time(self.source_in as int)
        &&& in_time(self.source_in + self.duration)
        &&& in_time(self.source_out as int)
        &&& in_time(self.source_out - self.duration)
    }

    /// The source window is as long as the clip.
    pub open spec fn window_matches(self) -> bool {
        self.source_out - self.source_in == self.duration
    }

    /// Equal but for the identifier.
    pub open spec fn same_but_id(self, other: TimelineClip) -> bool {
        self == (TimelineClip { id: self.id, ..other })
    }

    /// Where the clip ends on the timeline.
    pub fn end(&self) -> (r: i64)
        requires
            self.fits(),
        ensures
            r == self.end_at(),
    {
        self.timeline_start + self.duration
    }
}

} // verus!
