//! Taking clips off the timeline, and copies of the whole.

use vstd::prelude::*;

use crate::ids::TimelineClipId;
use crate::timeline::clip::TimelineClip;
use crate::timeline::edit::{link_of, taken_out};
use crate::timeline::lanes::{lemma_with_track, track_views, Timeline, TimelineView};
use crate::timeline::overlap::all_fit;
use crate::timeline::track::{Track, TrackView};

verus! {

/// The first clip with the identifier is off the timeline.
pub open spec fn removed_single(t: TimelineView, id: TimelineClipId) -> TimelineView {
    match t.clip_place(id) {
        Some(p) => taken_out(t, p),
        None => t,
    }
}

/// The clip and the clip it is linked to are off the timeline.
pub open spec fn removed(t: TimelineView, id: TimelineClipId) -> TimelineView {
    match link_of(t, id) {
        Some(other) => removed_single(removed_single(t, id), other),
        None => removed_single(t, id),
    }
}

/// Some clips, one after the other, are off the timeline, each with the clip it is
/// linked to.
pub open spec fn removed_all(t: TimelineView, ids: Seq<TimelineClipId>) -> TimelineView
    decreases ids.len(),
{
    if ids.len() == 0 {
        t
    } else {
        removed(removed_all(t, ids.drop_last()), ids.last())
    }
}

proof fn lemma_taken_out_fits(t: TimelineView, p: (int, int))
    requires
        t.fits(),
        0 <= p.0 < t.tracks().len(),
        0 <= p.1 < t.tracks()[p.0].clips.len(),
    ensures
        taken_out(t, p).fits(),
{
    let v = TrackView { clips: t.tracks()[p.0].clips.remove(p.1), ..t.tracks()[p.0] };
    lemma_with_track(t, p.0, v);
    assert(all_fit(t.tracks()[p.0].clips));
    let after = taken_out(t, p);
    assert forall|k: int| 0 <= k < after.tracks().len() implies all_fit(
        (#[trigger] after.tracks()[k]).clips,
    ) by {
        if k != p.0 {
            assert(all_fit(t.tracks()[k].clips));
        }
    }
}

impl Timeline {
    /// Takes one clip off the timeline. The clip it is linked to stays.
    pub fn remove_clip_single(&mut self, id: TimelineClipId)
        ensures
            final(self)@ == removed_single(old(self)@, id),
            old(self)@.fits() ==> final(self)@.fits(),
    {
        let ghost before = self@;
        match self.find_clip_track_mut(id) {
            Some((track, i)) => {
                let _ = track.clips.remove(i);
                proof {
                    let p = before.clip_place(id)->0;
                    lemma_with_track(before, p.0, track@);
                    if before.fits() {
                        lemma_taken_out_fits(before, p);
                    }
                    assert(track@ == (TrackView {
                        clips: before.tracks()[p.0].clips.remove(p.1),
                        ..before.tracks()[p.0]
                    }));
                }
            },
            None => {},
        }
    }

    /// Takes a clip off the timeline, and the clip it is linked to.
    pub fn remove_clip(&mut self, id: TimelineClipId)
        ensures
            final(self)@ == removed(old(self)@, id),
            old(self)@.fits() ==> final(self)@.fits(),
    {
        let other = match self.find_clip(id) {
            Some((_, _, c)) => c.linked_to,
            None => None,
        };
        self.remove_clip_single(id);
        if let Some(other) = other {
            self.remove_clip_single(other);
        }
    }

    /// Takes some clips off the timeline, each with the clip it is linked to.
    pub fn remove_clips(&mut self, ids: &Vec<TimelineClipId>)
        ensures
            final(self)@ == removed_all(old(self)@, ids@),
            old(self)@.fits() ==> final(self)@.fits(),
    {
        let mut i: usize = 0;
        while i < ids.len()
            invariant
                i <= ids.len(),
                self@ == removed_all(old(self)@, ids@.take(i as int)),
                old(self)@.fits() ==> self@.fits(),
            decreases ids.len() - i,
        {
            self.remove_clip(ids[i]);
            assert(ids@.take(i + 1).drop_last() =~= ids@.take(i as int));
            i += 1;
        }
        assert(ids@.take(i as int) =~= ids@);
    }

    /// A copy.
    pub fn snapshot(&self) -> (r: Timeline)
        ensures
            r@ == self@,
    {
        let video_tracks = copy_tracks(&self.video_tracks);
        let audio_tracks = copy_tracks(&self.audio_tracks);
        Timeline { video_tracks, audio_tracks }
    }
}

fn copy_clips(clips: &Vec<TimelineClip>) -> (r: Vec<TimelineClip>)
    ensures
        r@ == clips@,
{
    let mut out: Vec<TimelineClip> = Vec::new();
    let mut i: usize = 0;
    while i < clips.len()
        invariant
            i <= clips.len(),
            out@ == clips@.take(i as int),
        decreases clips.len() - i,
    {
        out.push(clips[i]);
        i += 1;
        assert(out@ =~= clips@.take(i as int));
    }
    assert(out@ =~= clips@);
    out
}

fn copy_tracks(tracks: &Vec<Track>) -> (r: Vec<Track>)
    ensures
        track_views(r@) == track_views(tracks@),
{
    let mut out: Vec<Track> = Vec::new();
    let mut i: usize = 0;
    while i < tracks.len()
        invariant
            i <= tracks.len(),
            out.len() == i,
            forall|k: int| 0 <= k < i ==> (#[trigger] out@[k])@ == tracks@[k]@,
        decreases tracks.len() - i,
    {
        let t = &tracks[i];
        let copy = Track {
            id: t.id,
            name: t.name.clone(),
            kind: t.kind,
            clips: copy_clips(&t.clips),
            muted: t.muted,
            visible: t.visible,
        };
        assert(copy@ == t@);
        out.push(copy);
        i += 1;
    }
    assert(track_views(out@) =~= track_views(tracks@));
    out
}

} // verus!
