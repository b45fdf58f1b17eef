//! The timeline as a whole: paired video and audio tracks, and how clips are
//! found on them.

use vstd::prelude::*;

use crate::ids::{TimelineClipId, TrackId};
use crate::timeline::clip::TimelineClip;
use crate::timeline::overlap::all_fit;
use crate::timeline::track::{first_at, index_in, lacks, lemma_index_in, lemma_index_in_first, position, Track, TrackKind, TrackView};

verus! {

/// The video tracks and the audio tracks. The tracks at one index of both form a
/// pair.
#[derive(Debug)]
pub struct Timeline {
    pub video_tracks: Vec<Track>,
    pub audio_tracks: Vec<Track>,
}

/// The contents of a timeline.
#[verifier::ext_equal]
pub struct TimelineView {
    pub video: Seq<TrackView>,
    pub audio: Seq<TrackView>,
}

/// The contents of some tracks.
pub open spec fn track_views(tracks: Seq<Track>) -> Seq<TrackView> {
    Seq::new(tracks.len(), |i: int| tracks[i]@)
}

impl View for Timeline {
    type V = TimelineView;

    open spec fn view(&self) -> TimelineView {
        TimelineView {
            video: track_views(self.video_tracks@),
            audio: track_views(self.audio_tracks@),
        }
    }
}

impl TimelineView {
    /// All tracks: first the video tracks, then the audio tracks.
    pub open spec fn tracks(self) -> Seq<TrackView> {
        self.video + self.audio
    }

    /// There is an `i`-th track of the kind.
    pub open spec fn has_lane(self, kind: TrackKind, i: int) -> bool {
        match kind {
            TrackKind::Video => 0 <= i < self.video.len(),
            TrackKind::Audio => 0 <= i < self.audio.len(),
        }
    }

    /// The place among all tracks of the `i`-th track of a kind.
    pub open spec fn flat(self, kind: TrackKind, i: int) -> int {
        match kind {
            TrackKind::Video => i,
            TrackKind::Audio => self.video.len() + i,
        }
    }

    /// The track at the same index of the other kind.
    pub open spec fn paired(self, id: TrackId) -> Option<TrackId> {
        match self.track_index(id) {
            Some(k) => if k < self.video.len() {
                if k < self.audio.len() {
                    Some(self.audio[k].id)
                } else {
                    None
                }
            } else if k - self.video.len() < self.video.len() {
                Some(self.video[k - self.video.len()].id)
            } else {
                None
            },
            None => None,
        }
    }

    /// The timeline with the `k`-th of all tracks replaced.
    pub open spec fn with_track(self, k: int, t: TrackView) -> TimelineView {
        if k < self.video.len() {
            TimelineView { video: self.video.update(k, t), ..self }
        } else {
            TimelineView { audio: self.audio.update(k - self.video.len(), t), ..self }
        }
    }

    /// The timeline with the clips of the `k`-th of all tracks replaced.
    pub open spec fn with_clips(self, k: int, clips: Seq<TimelineClip>) -> TimelineView {
        self.with_track(k, TrackView { clips, ..self.tracks()[k] })
    }

    /// Every clip lies within the time limits.
    pub open spec fn fits(self) -> bool {
        forall|k: int| 0 <= k < self.tracks().len() ==> all_fit((#[trigger] self.tracks()[k]).clips)
    }

    /// `k` is the first of all tracks that has the identifier.
    pub open spec fn track_first_at(self, id: TrackId, k: int) -> bool {
        &&& 0 <= k < self.tracks().len()
        &&& self.tracks()[k].id == id
        &&& forall|j: int| 0 <= j < k ==> (#[trigger] self.tracks()[j]).id != id
    }

    /// No track has the identifier.
    pub open spec fn lacks_track(self, id: TrackId) -> bool {
        forall|j: int| 0 <= j < self.tracks().len() ==> (#[trigger] self.tracks()[j]).id != id
    }

    /// The first of all tracks that has the identifier.
    pub open spec fn track_index(self, id: TrackId) -> Option<int> {
        if self.lacks_track(id) {
            None
        } else {
            Some(choose|k: int| self.track_first_at(id, k))
        }
    }

    /// The first clip with the identifier is the `i`-th of the `k`-th track.
    pub open spec fn clip_first_at(self, id: TimelineClipId, k: int, i: int) -> bool {
        &&& 0 <= k < self.tracks().len()
        &&& first_at(self.tracks()[k].clips, id, i)
        &&& forall|j: int| 0 <= j < k ==> lacks((#[trigger] self.tracks()[j]).clips, id)
    }

    /// No track holds a clip with the identifier.
    pub open spec fn lacks_clip(self, id: TimelineClipId) -> bool {
        forall|j: int|
            0 <= j < self.tracks().len() ==> lacks((#[trigger] self.tracks()[j]).clips, id)
    }

    /// The track and the place on it of the first clip with the identifier.
    pub open spec fn clip_place(self, id: TimelineClipId) -> Option<(int, int)> {
        if self.lacks_clip(id) {
            None
        } else {
            Some(choose|p: (int, int)| self.clip_first_at(id, p.0, p.1))
        }
    }

    /// The clip at a place.
    pub open spec fn clip_at(self, p: (int, int)) -> TimelineClip {
        self.tracks()[p.0].clips[p.1]
    }
}

/// Replacing a track replaces it among all tracks.
pub proof fn lemma_with_track(t: TimelineView, k: int, v: TrackView)
    requires
        0 <= k < t.tracks().len(),
    ensures
        t.with_track(k, v).tracks() == t.tracks().update(k, v),
        t.with_track(k, t.tracks()[k]) == t,
{
    assert(t.with_track(k, v).tracks() =~= t.tracks().update(k, v));
    assert(t.with_track(k, t.tracks()[k]) =~= t);
}

/// A first track is the track that `track_index` gives.
pub proof fn lemma_track_index(t: TimelineView, id: TrackId, k: int)
    requires
        t.track_first_at(id, k),
    ensures
        t.track_index(id) == Some(k),
{
    let c = choose|k: int| t.track_first_at(id, k);
    assert(t.track_first_at(id, c));
    assert(!t.lacks_track(id));
    if c < k {
        assert(t.tracks()[c].id != id);
    }
    if k < c {
        assert(t.tracks()[k].id != id);
    }
}

/// A first place is the place that `clip_place` gives.
pub proof fn lemma_clip_place(t: TimelineView, id: TimelineClipId, k: int, i: int)
    requires
        t.clip_first_at(id, k, i),
    ensures
        t.clip_place(id) == Some((k, i)),
{
    assert(t.clip_first_at(id, (k, i).0, (k, i).1));
    let p = choose|p: (int, int)| t.clip_first_at(id, p.0, p.1);
    assert(t.clip_first_at(id, p.0, p.1));
    assert(t.tracks()[k].clips[i].id == id);
    assert(!lacks(t.tracks()[k].clips, id));
    assert(!lacks(t.tracks()[p.0].clips, id)) by {
        assert(t.tracks()[p.0].clips[p.1].id == id);
    }
    if p.0 < k {
        assert(lacks(t.tracks()[p.0].clips, id));
    }
    if k < p.0 {
        assert(lacks(t.tracks()[k].clips, id));
    }
    lemma_index_in(t.tracks()[k].clips, id, i);
    lemma_index_in(t.tracks()[k].clips, id, p.1);
}

/// Where some track has the identifier, there is a first one.
pub proof fn lemma_track_index_first(t: TimelineView, id: TrackId)
    ensures
        match t.track_index(id) {
            Some(k) => t.track_first_at(id, k),
            None => t.lacks_track(id),
        },
{
    if !t.lacks_track(id) {
        let j = choose|j: int| 0 <= j < t.tracks().len() && (#[trigger] t.tracks()[j]).id == id;
        lemma_track_from(t, id, j);
    }
}

proof fn lemma_track_from(t: TimelineView, id: TrackId, j: int)
    requires
        0 <= j < t.tracks().len(),
        t.tracks()[j].id == id,
    ensures
        exists|k: int| t.track_first_at(id, k),
    decreases j,
{
    if exists|i: int| 0 <= i < j && (#[trigger] t.tracks()[i]).id == id {
        let i = choose|i: int| 0 <= i < j && (#[trigger] t.tracks()[i]).id == id;
        lemma_track_from(t, id, i);
    } else {
        assert(t.track_first_at(id, j));
    }
}

/// Where some track holds the clip, there is a first one.
pub proof fn lemma_clip_place_first(t: TimelineView, id: TimelineClipId)
    ensures
        match t.clip_place(id) {
            Some(p) => t.clip_first_at(id, p.0, p.1),
            None => t.lacks_clip(id),
        },
{
    if !t.lacks_clip(id) {
        let j = choose|j: int|
            0 <= j < t.tracks().len() && !lacks((#[trigger] t.tracks()[j]).clips, id);
        lemma_clip_from(t, id, j);
        let (k, i) = choose|k: int, i: int| t.clip_first_at(id, k, i);
        lemma_clip_place(t, id, k, i);
    }
}

proof fn lemma_clip_from(t: TimelineView, id: TimelineClipId, j: int)
    requires
        0 <= j < t.tracks().len(),
        !lacks(t.tracks()[j].clips, id),
    ensures
        exists|k: int, i: int| t.clip_first_at(id, k, i),
    decreases j,
{
    if exists|i: int| 0 <= i < j && !lacks((#[trigger] t.tracks()[i]).clips, id) {
        let i = choose|i: int| 0 <= i < j && !lacks((#[trigger] t.tracks()[i]).clips, id);
        lemma_clip_from(t, id, i);
    } else {
        lemma_index_in_first(t.tracks()[j].clips, id);
        let i = index_in(t.tracks()[j].clips, id)->0;
        assert(t.clip_first_at(id, j, i));
    }
}

impl Timeline {
    /// The `i`-th track of a kind.
    fn lane(&self, kind: TrackKind, i: usize) -> (r: &Track)
        requires
            self@.has_lane(kind, i as int),
        ensures
            r@ == self@.tracks()[self@.flat(kind, i as int)],
    {
        match kind {
            TrackKind::Video => &self.video_tracks[i],
            TrackKind::Audio => &self.audio_tracks[i],
        }
    }

    /// The `i`-th track of a kind, to change it in place.
    pub(crate) fn lane_mut(&mut self, kind: TrackKind, i: usize) -> (r: &mut Track)
        requires
            old(self)@.has_lane(kind, i as int),
        ensures
            r@ == old(self)@.tracks()[old(self)@.flat(kind, i as int)],
            final(self)@ == old(self)@.with_track(old(self)@.flat(kind, i as int), final(r)@),
    {
        match kind {
            TrackKind::Video => &mut self.video_tracks[i],
            TrackKind::Audio => &mut self.audio_tracks[i],
        }
    }

    /// The first track of a kind from `i` on that has the identifier.
    fn scan_tracks(tracks: &Vec<Track>, id: TrackId) -> (r: Option<usize>)
        ensures
            match r {
                Some(i) => i < tracks.len() && tracks[i as int].id == id && forall|j: int|
                    0 <= j < i ==> (#[trigger] tracks[j]).id != id,
                None => forall|j: int| 0 <= j < tracks.len() ==> (#[trigger] tracks[j]).id != id,
            },
    {
        let mut i: usize = 0;
        while i < tracks.len()
            invariant
                i <= tracks.len(),
                forall|j: int| 0 <= j < i ==> (#[trigger] tracks[j]).id != id,
            decreases tracks.len() - i,
        {
            if tracks[i].id == id {
                return Some(i);
            }
            i += 1;
        }
        None
    }

    /// The first track among `tracks` that holds the clip, and the place on it.
    fn scan_clips(tracks: &Vec<Track>, id: TimelineClipId) -> (r: Option<(usize, usize)>)
        ensures
            match r {
                Some((k, i)) => k < tracks.len() && first_at(tracks[k as int].clips@, id, i as int)
                    && forall|j: int| 0 <= j < k ==> lacks((#[trigger] tracks[j]).clips@, id),
                None => forall|j: int|
                    0 <= j < tracks.len() ==> lacks((#[trigger] tracks[j]).clips@, id),
            },
    {
        let mut k: usize = 0;
        while k < tracks.len()
            invariant
                k <= tracks.len(),
                forall|j: int| 0 <= j < k ==> lacks((#[trigger] tracks[j]).clips@, id),
            decreases tracks.len() - k,
        {
            match position(&tracks[k].clips, id) {
                Some(i) => {
                    return Some((k, i));
                },
                None => {},
            }
            k += 1;
        }
        None
    }

    /// Which track has the identifier: its kind, and its place among that kind.
    pub fn track_index_and_kind(&self, id: TrackId) -> (r: Option<(TrackKind, usize)>)
        ensures
            match r {
                Some((kind, i)) => self@.has_lane(kind, i as int) && self@.track_index(id) == Some(
                    self@.flat(kind, i as int),
                ) && self@.track_first_at(id, self@.flat(kind, i as int)),
                None => self@.lacks_track(id) && self@.track_index(id) is None,
            },
    {
        match Self::scan_tracks(&self.video_tracks, id) {
            Some(i) => {
                proof {
                    assert forall|j: int| 0 <= j < i implies (#[trigger] self@.tracks()[j]).id
                        != id by {
                        assert(self.video_tracks[j].id != id);
                    }
                    lemma_track_index(self@, id, i as int);
                }
                return Some((TrackKind::Video, i));
            },
            None => {},
        }
        let r = Self::scan_tracks(&self.audio_tracks, id);
        proof {
            let n = self.video_tracks.len() as int;
            let bound = match r {
                Some(i) => n + i as int,
                None => n + self.audio_tracks.len() as int,
            };
            assert forall|j: int| 0 <= j < bound implies (#[trigger] self@.tracks()[j]).id
                != id by {
                if j < n {
                    assert(self.video_tracks[j].id != id);
                } else {
                    assert(self.audio_tracks[j - n].id != id);
                }
            }
            if let Some(i) = r {
                lemma_track_index(self@, id, n + i as int);
            }
        }
        match r {
            Some(i) => Some((TrackKind::Audio, i)),
            None => None,
        }
    }

    /// Where the first clip with the identifier is: the kind of its track, the
    /// track's place among that kind, and the place on the track.
    pub(crate) fn locate(&self, id: TimelineClipId) -> (r: Option<(TrackKind, usize, usize)>)
        ensures
            match r {
                Some((kind, k, i)) => self@.has_lane(kind, k as int) && self@.clip_place(id)
                    == Some((self@.flat(kind, k as int), i as int)) && self@.clip_first_at(
                    id,
                    self@.flat(kind, k as int),
                    i as int,
                ),
                None => self@.lacks_clip(id) && self@.clip_place(id) is None,
            },
    {
        match Self::scan_clips(&self.video_tracks, id) {
            Some((k, i)) => {
                proof {
                    assert forall|j: int| 0 <= j < k implies lacks(
                        (#[trigger] self@.tracks()[j]).clips,
                        id,
                    ) by {
                        assert(lacks(self.video_tracks[j].clips@, id));
                    }
                    lemma_clip_place(self@, id, k as int, i as int);
                }
                return Some((TrackKind::Video, k, i));
            },
            None => {},
        }
        let r = Self::scan_clips(&self.audio_tracks, id);
        proof {
            let n = self.video_tracks.len() as int;
            let bound = match r {
                Some((k, i)) => n + k as int,
                None => n + self.audio_tracks.len() as int,
            };
            assert forall|j: int| 0 <= j < bound implies lacks(
                (#[trigger] self@.tracks()[j]).clips,
                id,
            ) by {
                if j < n {
                    assert(lacks(self.video_tracks[j].clips@, id));
                } else {
                    assert(lacks(self.audio_tracks[j - n].clips@, id));
                }
            }
            if let Some((k, i)) = r {
                lemma_clip_place(self@, id, n + k as int, i as int);
            }
        }
        match r {
            Some((k, i)) => Some((TrackKind::Audio, k, i)),
            None => None,
        }
    }

    /// The track that has the identifier.
    pub fn track_by_id(&self, id: TrackId) -> (r: Option<&Track>)
        ensures
            match r {
                Some(t) => self@.track_index(id) matches Some(k) && self@.track_first_at(id, k)
                    && t@ == self@.tracks()[k],
                None => self@.lacks_track(id),
            },
    {
        match self.track_index_and_kind(id) {
            Some((kind, i)) => Some(self.lane(kind, i)),
            None => None,
        }
    }

    /// The track that has the identifier, to change it in place.
    pub fn track_by_id_mut(&mut self, id: TrackId) -> (r: Option<&mut Track>)
        ensures
            match r {
                Some(t) => old(self)@.track_index(id) matches Some(k) && old(self)@.track_first_at(id, k) && t@ == old(self)@.tracks()[k] && final(self)@ == old(self)@.with_track(
                    k,
                    final(t)@,
                ),
                None => old(self)@.lacks_track(id) && *final(self) == *old(self),
            },
    {
        match self.track_index_and_kind(id) {
            Some((kind, i)) => Some(self.lane_mut(kind, i)),
            None => None,
        }
    }

    /// The first clip with the identifier, its track and its place on the track.
    pub fn find_clip(&self, id: TimelineClipId) -> (r: Option<(&Track, usize, &TimelineClip)>)
        ensures
            match r {
                Some((t, i, c)) => self@.clip_place(id) matches Some(p) && self@.clip_first_at(
                    id,
                    p.0,
                    p.1,
                ) && t@ == self@.tracks()[p.0] && i == p.1 && *c == self@.clip_at(p) && c.id == id,
                None => self@.lacks_clip(id),
            },
    {
        match self.locate(id) {
            Some((kind, k, i)) => {
                let track = self.lane(kind, k);
                Some((track, i, &track.clips[i]))
            },
            None => None,
        }
    }

    /// The track that holds the first clip with the identifier, to change it in
    /// place, and the clip's place on it.
    pub fn find_clip_track_mut(&mut self, id: TimelineClipId) -> (r: Option<(&mut Track, usize)>)
        ensures
            match r {
                Some((t, i)) => old(self)@.clip_place(id) matches Some(p) && old(self)@.clip_first_at(id, p.0, p.1) && t@ == old(self)@.tracks()[p.0] && i == p.1
                    && final(self)@
                    == old(self)@.with_track(p.0, final(t)@),
                None => old(self)@.lacks_clip(id) && *final(self) == *old(self),
            },
    {
        match self.locate(id) {
            Some((kind, k, i)) => Some((self.lane_mut(kind, k), i)),
            None => None,
        }
    }

    /// What the track of the clip carries.
    pub fn track_kind_for_clip(&self, id: TimelineClipId) -> (r: Option<TrackKind>)
        ensures
            match r {
                Some(kind) => self@.clip_place(id) matches Some(p) && self@.clip_first_at(
                    id,
                    p.0,
                    p.1,
                ) && kind == self@.tracks()[p.0].kind,
                None => self@.lacks_clip(id),
            },
    {
        match self.find_clip(id) {
            Some((track, _, _)) => Some(track.kind),
            None => None,
        }
    }

    /// The track at the same index of the other kind.
    pub fn paired_track_id(&self, track_id: TrackId) -> (r: Option<TrackId>)
        ensures
            r == self@.paired(track_id),
    {
        match self.track_index_and_kind(track_id) {
            Some((TrackKind::Video, i)) => {
                if i < self.audio_tracks.len() {
                    Some(self.audio_tracks[i].id)
                } else {
                    None
                }
            },
            Some((TrackKind::Audio, i)) => {
                if i < self.video_tracks.len() {
                    Some(self.video_tracks[i].id)
                } else {
                    None
                }
            },
            None => None,
        }
    }

    /// How many tracks there are.
    pub fn track_count(&self) -> (r: usize)
        requires
            self@.tracks().len() <= usize::MAX,
        ensures
            r == self@.tracks().len(),
    {
        self.video_tracks.len() + self.audio_tracks.len()
    }

    /// How many pairs of tracks there are: one for each video track.
    pub fn pair_count(&self) -> (r: usize)
        ensures
            r == self@.video.len(),
    {
        self.video_tracks.len()
    }

    /// All tracks: first the video tracks, then the audio tracks.
    pub fn all_tracks(&self) -> (r: Vec<&Track>)
        ensures
            r.len() == self@.tracks().len(),
            forall|k: int| 0 <= k < r.len() ==> (#[trigger] r[k])@ == self@.tracks()[k],
    {
        let mut out: Vec<&Track> = Vec::new();
        let mut i: usize = 0;
        while i < self.video_tracks.len()
            invariant
                i <= self.video_tracks.len(),
                out.len() == i,
                forall|k: int| 0 <= k < i ==> (#[trigger] out[k])@ == self@.tracks()[k],
            decreases self.video_tracks.len() - i,
        {
            out.push(&self.video_tracks[i]);
            i += 1;
        }
        let mut j: usize = 0;
        while j < self.audio_tracks.len()
            invariant
                j <= self.audio_tracks.len(),
                out.len() == self.video_tracks.len() + j,
                forall|k: int|
                    0 <= k < out.len() ==> (#[trigger] out[k])@ == self@.tracks()[k],
            decreases self.audio_tracks.len() - j,
        {
            out.push(&self.audio_tracks[j]);
            j += 1;
        }
        out
    }
}

} // verus!
