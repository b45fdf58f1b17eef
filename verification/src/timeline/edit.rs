//! Editing operations on the timeline.

use vstd::prelude::*;

use crate::ids::{is_random_id, ClipId, TimelineClipId, TrackId};
use crate::time::{in_time, later, max_time};
use crate::timeline::clip::TimelineClip;
use crate::timeline::lanes::{lemma_with_track, Timeline, TimelineView};
use crate::timeline::overlap::{all_fit, lemma_resolved_shorter, shrunk};
use crate::timeline::track::{index_in, placed, position, TrackView};

verus! {

/// What is on screen, or heard, at a point in time.
#[derive(Debug, Clone, Copy)]
pub struct PlayheadHit {
    pub track_id: TrackId,
    pub clip: TimelineClip,
    pub source_time: i64,
}

/// The clip's start is moved to `pos`.
pub open spec fn started_at(c: TimelineClip, pos: int) -> TimelineClip {
    TimelineClip { timeline_start: pos as i64, ..c }
}

/// `after` is `before` but for the clips of the `k`-th track, where the clip `c`
/// has been placed among `rest`.
pub open spec fn placed_on(
    before: TimelineView,
    after: TimelineView,
    k: int,
    rest: Seq<TimelineClip>,
    c: TimelineClip,
) -> bool {
    let clips = after.tracks()[k].clips;
    &&& placed(rest, clips, c)
    &&& after == before.with_clips(k, clips)
}

/// One clip is moved along its track; nothing happens where the track or, on it,
/// the clip is missing.
pub open spec fn moved_on_track(
    before: TimelineView,
    after: TimelineView,
    track_id: TrackId,
    clip_id: TimelineClipId,
    pos: int,
) -> bool {
    match before.track_index(track_id) {
        None => after == before,
        Some(k) => match index_in(before.tracks()[k].clips, clip_id) {
            None => after == before,
            Some(i) => {
                let clips = before.tracks()[k].clips;
                placed_on(before, after, k, clips.remove(i), started_at(clips[i], pos))
            },
        },
    }
}

/// The clip that the clip with the identifier is linked to.
pub open spec fn link_of(t: TimelineView, id: TimelineClipId) -> Option<TimelineClipId> {
    match t.clip_place(id) {
        Some(p) => t.clip_at(p).linked_to,
        None => None,
    }
}

/// The linked clip, where there is one, is moved along its own track.
pub open spec fn link_followed(
    before: TimelineView,
    after: TimelineView,
    clip_id: TimelineClipId,
    pos: int,
) -> bool {
    match link_of(before, clip_id) {
        None => after == before,
        Some(other) => match before.clip_place(other) {
            None => after == before,
            Some(p) => moved_on_track(before, after, before.tracks()[p.0].id, other, pos),
        },
    }
}

/// A clip is moved along its track, and the clip linked to it along its own.
pub open spec fn moved_on_track_with_link(
    before: TimelineView,
    after: TimelineView,
    track_id: TrackId,
    clip_id: TimelineClipId,
    pos: int,
) -> bool {
    exists|mid: TimelineView| #[trigger]
        moved_on_track(before, mid, track_id, clip_id, pos) && link_followed(
            mid,
            after,
            clip_id,
            pos,
        )
}

/// The clip is taken out of the timeline.
pub open spec fn taken_out(t: TimelineView, p: (int, int)) -> TimelineView {
    t.with_clips(p.0, t.tracks()[p.0].clips.remove(p.1))
}

/// One clip is moved to a track. Where the clip is missing nothing happens; where
/// the track is missing the clip is lost.
pub open spec fn moved_across(
    before: TimelineView,
    after: TimelineView,
    clip_id: TimelineClipId,
    dst: TrackId,
    pos: int,
) -> bool {
    match before.clip_place(clip_id) {
        None => after == before,
        Some(p) => {
            let mid = taken_out(before, p);
            match mid.track_index(dst) {
                None => after == mid,
                Some(k) => {
                    let c = before.clip_at(p);
                    placed_on(
                        mid,
                        after,
                        k,
                        mid.tracks()[k].clips,
                        TimelineClip { timeline_start: pos as i64, track_id: dst, ..c },
                    )
                },
            }
        },
    }
}

/// A clip is moved to a track, and the clip linked to it along its own track.
pub open spec fn moved_across_with_link(
    before: TimelineView,
    after: TimelineView,
    clip_id: TimelineClipId,
    dst: TrackId,
    pos: int,
) -> bool {
    exists|mid: TimelineView| #[trigger]
        moved_across(before, mid, clip_id, dst, pos) && link_followed(mid, after, clip_id, pos)
}

/// A new clip that shows `duration` of a source from its beginning.
pub open spec fn new_clip(
    id: TimelineClipId,
    source_id: ClipId,
    track_id: TrackId,
    position: int,
    duration: int,
) -> TimelineClip {
    TimelineClip {
        id,
        source_id,
        track_id,
        timeline_start: later(position, 0) as i64,
        duration: duration as i64,
        source_in: 0,
        source_out: duration as i64,
        linked_to: None,
    }
}

/// The clip is put on its track, where the track is there.
pub open spec fn added(before: TimelineView, after: TimelineView, c: TimelineClip) -> bool {
    match before.track_index(c.track_id) {
        None => after == before,
        Some(k) => placed_on(before, after, k, before.tracks()[k].clips, c),
    }
}

/// A clip at a place is replaced.
pub open spec fn with_clip(t: TimelineView, p: (int, int), c: TimelineClip) -> TimelineView {
    t.with_clips(p.0, t.tracks()[p.0].clips.update(p.1, c))
}

/// The first clip with identifier `a` is linked to `b`.
pub open spec fn linked_one_way(
    t: TimelineView,
    a: TimelineClipId,
    b: TimelineClipId,
) -> TimelineView {
    match t.clip_place(a) {
        Some(p) => with_clip(t, p, TimelineClip { linked_to: Some(b), ..t.clip_at(p) }),
        None => t,
    }
}

/// `c` with the place on the timeline and the source window of `from`.
pub open spec fn timed_like(c: TimelineClip, from: TimelineClip) -> TimelineClip {
    TimelineClip {
        timeline_start: from.timeline_start,
        duration: from.duration,
        source_in: from.source_in,
        source_out: from.source_out,
        ..c
    }
}

/// The place of the clip that a clip is linked to, where both are there.
pub open spec fn link_place(t: TimelineView, id: TimelineClipId) -> Option<(int, int)> {
    match link_of(t, id) {
        Some(other) => t.clip_place(other),
        None => None,
    }
}

/// The linked clip takes over place and source window, whatever it then overlaps.
pub open spec fn synced(t: TimelineView, id: TimelineClipId) -> TimelineView {
    match link_place(t, id) {
        Some(q) => with_clip(t, q, timed_like(t.clip_at(q), t.clip_at(t.clip_place(id)->0))),
        None => t,
    }
}

/// The linked clip takes over place and source window, and room is made for it on
/// its track.
pub open spec fn synced_after_trim(
    before: TimelineView,
    after: TimelineView,
    id: TimelineClipId,
) -> bool {
    match link_place(before, id) {
        None => after == before,
        Some(q) => {
            let mid = taken_out(before, q);
            let c = timed_like(before.clip_at(q), before.clip_at(before.clip_place(id)->0));
            match mid.track_index(before.tracks()[q.0].id) {
                None => after == mid,
                Some(k) => placed_on(mid, after, k, mid.tracks()[k].clips, c),
            }
        },
    }
}

/// Every clip, started at `pos`, would end within the time limits.
pub open spec fn roomy(clips: Seq<TimelineClip>, pos: int) -> bool {
    forall|i: int| 0 <= i < clips.len() ==> in_time(pos + (#[trigger] clips[i]).duration)
}

/// Every clip of every track, started at `pos`, would end within the time limits.
pub open spec fn roomy_all(t: TimelineView, pos: int) -> bool {
    forall|k: int| 0 <= k < t.tracks().len() ==> roomy((#[trigger] t.tracks()[k]).clips, pos)
}

/// Placing a clip leaves room for what is placed after it.
pub proof fn lemma_placed_keeps_room(
    before: Seq<TimelineClip>,
    after: Seq<TimelineClip>,
    c: TimelineClip,
    pos: int,
)
    requires
        all_fit(before),
        c.fits(),
        placed(before, after, c),
        roomy(before, pos),
        in_time(pos + c.duration),
        0 <= pos <= crate::time::TIME_LIMIT,
    ensures
        roomy(after, pos),
{
    let rest = after.drop_last();
    lemma_resolved_shorter(before, rest, c.timeline_start as int, c.end_at());
    assert forall|j: int| 0 <= j < after.len() implies in_time(
        pos + (#[trigger] after[j]).duration,
    ) by {
        if j < rest.len() {
            assert(after[j] == rest[j]);
            let i = choose|i: int| 0 <= i < before.len() && shrunk(#[trigger] before[i], rest[j]);
            assert(in_time(pos + before[i].duration));
        }
    }
}

impl Timeline {
    /// Moves one clip along its track.
    fn move_clip_on_track_core(
        &mut self,
        track_id: TrackId,
        clip_id: TimelineClipId,
        new_position: i64,
    )
        requires
            old(self)@.fits(),
            in_time(new_position as int),
            roomy_all(old(self)@, later(new_position as int, 0)),
        ensures
            moved_on_track(
                old(self)@,
                final(self)@,
                track_id,
                clip_id,
                later(new_position as int, 0),
            ),
            final(self)@.fits(),
            roomy_all(final(self)@, later(new_position as int, 0)),
    {
        let ghost before = self@;
        let ghost pos = later(new_position as int, 0);
        match self.track_by_id_mut(track_id) {
            None => {},
            Some(track) => {
                let ghost k = before.track_index(track_id)->0;
                let ghost clips = before.tracks()[k].clips;
                match position(&track.clips, clip_id) {
                    None => {},
                    Some(idx) => {
                        let clip = track.clips.remove(idx);
                        let new_pos = max_time(new_position, 0);
                        let mut moved = clip;
                        moved.timeline_start = new_pos;
                        track.place(moved);
                        proof {
                            let rest = clips.remove(idx as int);
                            lemma_placed_keeps_room(rest, track.clips@, moved, pos);
                        }
                    },
                }
                proof {
                    lemma_with_track(before, k, track@);
                }
            },
        }
    }

    /// Moves the linked clip, where there is one, along its own track.
    fn follow_link(&mut self, clip_id: TimelineClipId, new_position: i64)
        requires
            old(self)@.fits(),
            in_time(new_position as int),
            roomy_all(old(self)@, later(new_position as int, 0)),
        ensures
            link_followed(old(self)@, final(self)@, clip_id, later(new_position as int, 0)),
            final(self)@.fits(),
    {
        let linked = match self.find_clip(clip_id) {
            Some((_, _, c)) => c.linked_to,
            None => None,
        };
        if let Some(linked_id) = linked {
            let linked_track = match self.find_clip(linked_id) {
                Some((t, _, _)) => Some(t.id),
                None => None,
            };
            if let Some(lt_id) = linked_track {
                self.move_clip_on_track_core(lt_id, linked_id, new_position);
            }
        }
    }

    /// Moves a clip along its track, and the clip linked to it along its own.
    pub fn move_clip_on_track(
        &mut self,
        track_id: TrackId,
        clip_id: TimelineClipId,
        new_position: i64,
    )
        requires
            old(self)@.fits(),
            in_time(new_position as int),
            roomy_all(old(self)@, later(new_position as int, 0)),
        ensures
            moved_on_track_with_link(
                old(self)@,
                final(self)@,
                track_id,
                clip_id,
                later(new_position as int, 0),
            ),
            final(self)@.fits(),
    {
        self.move_clip_on_track_core(track_id, clip_id, new_position);
        let ghost mid = self@;
        self.follow_link(clip_id, new_position);
        assert(moved_on_track(old(self)@, mid, track_id, clip_id, later(new_position as int, 0)));
    }

    /// Takes the first clip with the identifier out of the timeline. Gives back the
    /// clip and the track it was on.
    pub(crate) fn take_clip(&mut self, clip_id: TimelineClipId) -> (r: Option<(TimelineClip, TrackId)>)
        requires
            old(self)@.fits(),
        ensures
            match r {
                Some((c, track_id)) => old(self)@.clip_place(clip_id) matches Some(p) && old(self)@.clip_first_at(clip_id, p.0, p.1) && c == old(self)@.clip_at(p) && track_id
                    == old(self)@.tracks()[p.0].id && final(self)@ == taken_out(old(self)@, p),
                None => old(self)@.clip_place(clip_id) is None && final(self)@ == old(self)@,
            },
            final(self)@.fits(),
            forall|pos: int| roomy_all(old(self)@, pos) ==> roomy_all(final(self)@, pos),
    {
        let ghost before = self@;
        match self.find_clip_track_mut(clip_id) {
            None => None,
            Some((track, idx)) => {
                let clip = track.clips.remove(idx);
                let track_id = track.id;
                proof {
                    let p = before.clip_place(clip_id)->0;
                    lemma_with_track(before, p.0, track@);
                    assert(track@ == (TrackView {
                        clips: before.tracks()[p.0].clips.remove(p.1),
                        ..before.tracks()[p.0]
                    }));
                    let after = taken_out(before, p);
                    assert forall|pos: int| roomy_all(before, pos) implies roomy_all(
                        after,
                        pos,
                    ) by {
                        assert forall|k: int| 0 <= k < after.tracks().len() implies roomy(
                            (#[trigger] after.tracks()[k]).clips,
                            pos,
                        ) by {
                            assert(roomy(before.tracks()[k].clips, pos));
                        }
                    }
                }
                Some((clip, track_id))
            },
        }
    }

    /// Moves one clip to a track.
    fn move_clip_across_tracks_core(
        &mut self,
        clip_id: TimelineClipId,
        dst_track_id: TrackId,
        new_position: i64,
    )
        requires
            old(self)@.fits(),
            in_time(new_position as int),
            roomy_all(old(self)@, later(new_position as int, 0)),
        ensures
            moved_across(
                old(self)@,
                final(self)@,
                clip_id,
                dst_track_id,
                later(new_position as int, 0),
            ),
            final(self)@.fits(),
            roomy_all(final(self)@, later(new_position as int, 0)),
    {
        let ghost before = self@;
        let ghost pos = later(new_position as int, 0);
        let (taken, _) = match self.take_clip(clip_id) {
            None => {
                return;
            },
            Some(taken) => taken,
        };
        let ghost mid = self@;
        proof {
            let p = before.clip_place(clip_id)->0;
            assert(roomy(before.tracks()[p.0].clips, pos));
            assert(all_fit(before.tracks()[p.0].clips));
        }
        let mut clip = taken;
        let new_pos = max_time(new_position, 0);
        match self.track_by_id_mut(dst_track_id) {
            None => {},
            Some(dst) => {
                let ghost k = mid.track_index(dst_track_id)->0;
                clip.timeline_start = new_pos;
                clip.track_id = dst_track_id;
                dst.place(clip);
                proof {
                    lemma_placed_keeps_room(mid.tracks()[k].clips, dst.clips@, clip, pos);
                    lemma_with_track(mid, k, dst@);
                }
            },
        }
    }

    /// Moves a clip to a track, and the clip linked to it along its own track.
    pub fn move_clip_across_tracks(
        &mut self,
        clip_id: TimelineClipId,
        dst_track_id: TrackId,
        new_position: i64,
    )
        requires
            old(self)@.fits(),
            in_time(new_position as int),
            roomy_all(old(self)@, later(new_position as int, 0)),
        ensures
            moved_across_with_link(
                old(self)@,
                final(self)@,
                clip_id,
                dst_track_id,
                later(new_position as int, 0),
            ),
            final(self)@.fits(),
    {
        self.move_clip_across_tracks_core(clip_id, dst_track_id, new_position);
        let ghost mid = self@;
        self.follow_link(clip_id, new_position);
        assert(moved_across(
            old(self)@,
            mid,
            clip_id,
            dst_track_id,
            later(new_position as int, 0),
        ));
    }

    /// Puts `duration` of a source on a track, from its beginning, and gives back
    /// the fresh identifier of the new clip. Where there is no such track nothing
    /// is put anywhere.
    pub fn add_clip_to_track(
        &mut self,
        source_id: ClipId,
        track_id: TrackId,
        position_seconds: i64,
        duration: i64,
    ) -> (id: TimelineClipId)
        requires
            old(self)@.fits(),
            in_time(position_seconds as int),
            in_time(duration as int),
            in_time(later(position_seconds as int, 0) + duration),
        ensures
            is_random_id(id.0),
            added(
                old(self)@,
                final(self)@,
                new_clip(id, source_id, track_id, position_seconds as int, duration as int),
            ),
            final(self)@.fits(),
    {
        let ghost before = self@;
        let id = TimelineClipId::new();
        match self.track_by_id_mut(track_id) {
            None => {},
            Some(track) => {
                let pos = max_time(position_seconds, 0);
                let ghost k = before.track_index(track_id)->0;
                track.place(
                    TimelineClip {
                        id,
                        source_id,
                        track_id,
                        timeline_start: pos,
                        duration,
                        source_in: 0,
                        source_out: duration,
                        linked_to: None,
                    },
                );
                proof {
                    lemma_with_track(before, k, track@);
                }
            },
        }
        id
    }

    fn link_one_way(&mut self, a: TimelineClipId, b: TimelineClipId)
        ensures
            final(self)@ == linked_one_way(old(self)@, a, b),
            old(self)@.fits() ==> final(self)@.fits(),
    {
        let ghost before = self@;
        match self.find_clip_track_mut(a) {
            None => {},
            Some((track, idx)) => {
                let mut c = track.clips[idx];
                c.linked_to = Some(b);
                track.clips.set(idx, c);
                proof {
                    let p = before.clip_place(a)->0;
                    lemma_with_track(before, p.0, track@);
                    let after = linked_one_way(before, a, b);
                    if before.fits() {
                        assert forall|k: int| 0 <= k < after.tracks().len() implies all_fit(
                            (#[trigger] after.tracks()[k]).clips,
                        ) by {
                            assert(all_fit(before.tracks()[k].clips));
                        }
                    }
                }
            },
        }
    }

    /// Links two clips to each other, as far as they are on the timeline.
    pub fn link_clips(&mut self, a: TimelineClipId, b: TimelineClipId)
        ensures
            final(self)@ == linked_one_way(linked_one_way(old(self)@, a, b), b, a),
            old(self)@.fits() ==> final(self)@.fits(),
    {
        self.link_one_way(a, b);
        self.link_one_way(b, a);
    }

    /// Gives the linked clip the place and the source window of the clip.
    pub fn sync_linked_clip(&mut self, clip_id: TimelineClipId)
        ensures
            final(self)@ == synced(old(self)@, clip_id),
            old(self)@.fits() ==> final(self)@.fits(),
    {
        let ghost before = self@;
        let clip = match self.find_clip(clip_id) {
            None => {
                return;
            },
            Some((_, _, clip)) => *clip,
        };
        let linked_id = match clip.linked_to {
            None => {
                return;
            },
            Some(linked_id) => linked_id,
        };
        match self.find_clip_track_mut(linked_id) {
            None => {},
            Some((track, idx)) => {
                let mut lc = track.clips[idx];
                lc.timeline_start = clip.timeline_start;
                lc.duration = clip.duration;
                lc.source_in = clip.source_in;
                lc.source_out = clip.source_out;
                track.clips.set(idx, lc);
                proof {
                    let p = before.clip_place(clip_id)->0;
                    let q = before.clip_place(linked_id)->0;
                    lemma_with_track(before, q.0, track@);
                    let after = synced(before, clip_id);
                    if before.fits() {
                        assert(all_fit(before.tracks()[p.0].clips));
                        assert forall|k: int| 0 <= k < after.tracks().len() implies all_fit(
                            (#[trigger] after.tracks()[k]).clips,
                        ) by {
                            assert(all_fit(before.tracks()[k].clips));
                        }
                    }
                }
            },
        }
    }

    /// Gives the linked clip the place and the source window of the clip, and makes
    /// room for it on its track.
    pub fn sync_linked_clip_after_trim(&mut self, clip_id: TimelineClipId)
        requires
            old(self)@.fits(),
        ensures
            synced_after_trim(old(self)@, final(self)@, clip_id),
            final(self)@.fits(),
    {
        let ghost before = self@;
        let clip = match self.find_clip(clip_id) {
            None => {
                return;
            },
            Some((_, _, clip)) => *clip,
        };
        let linked_id = match clip.linked_to {
            None => {
                return;
            },
            Some(linked_id) => linked_id,
        };
        proof {
            let p = before.clip_place(clip_id)->0;
            assert(all_fit(before.tracks()[p.0].clips));
        }
        let (taken, lt_id) = match self.take_clip(linked_id) {
            None => {
                return;
            },
            Some(taken) => taken,
        };
        let ghost mid = self@;
        let mut lc = taken;
        lc.timeline_start = clip.timeline_start;
        lc.duration = clip.duration;
        lc.source_in = clip.source_in;
        lc.source_out = clip.source_out;
        match self.track_by_id_mut(lt_id) {
            None => {},
            Some(track) => {
                let ghost k = mid.track_index(lt_id)->0;
                track.place(lc);
                proof {
                    lemma_with_track(mid, k, track@);
                }
            },
        }
    }
}

} // verus!
