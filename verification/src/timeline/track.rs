//! One lane of the timeline.

use vstd::prelude::*;

use crate::ids::{TimelineClipId, TrackId};
use crate::time::in_time;
use crate::timeline::clip::TimelineClip;
use crate::timeline::overlap::{all_fit, resolved, take_range};

verus! {

/// What a track carries.
#[derive(Debug, Clone, Copy, PartialEq, Eq, Structural)]
pub enum TrackKind {
    Video,
    Audio,
}

/// One lane of the timeline.
#[derive(Debug)]
pub struct Track {
    pub id: TrackId,
    pub name: String,
    pub kind: TrackKind,
    pub clips: Vec<TimelineClip>,
    /// Its sound is not heard.
    pub muted: bool,
    /// Its pictures are shown.
    pub visible: bool,
}

/// The contents of a track.
#[verifier::ext_equal]
pub struct TrackView {
    pub id: TrackId,
    pub name: Seq<char>,
    pub kind: TrackKind,
    pub clips: Seq<TimelineClip>,
    pub muted: bool,
    pub visible: bool,
}

impl View for Track {
    type V = TrackView;

    open spec fn view(&self) -> TrackView {
        TrackView {
            id: self.id,
            name: self.name@,
            kind: self.kind,
            clips: self.clips@,
            muted: self.muted,
            visible: self.visible,
        }
    }
}

/// `i` is the first place in `clips` that holds `id`.
pub open spec fn first_at(clips: Seq<TimelineClip>, id: TimelineClipId, i: int) -> bool {
    &&& 0 <= i < clips.len()
    &&& clips[i].id == id
    &&& forall|j: int| 0 <= j < i ==> (#[trigger] clips[j]).id != id
}

/// `id` is not among `clips`.
pub open spec fn lacks(clips: Seq<TimelineClip>, id: TimelineClipId) -> bool {
    forall|j: int| 0 <= j < clips.len() ==> (#[trigger] clips[j]).id != id
}

/// The place of the first clip with the identifier.
pub open spec fn index_in(clips: Seq<TimelineClip>, id: TimelineClipId) -> Option<int> {
    if lacks(clips, id) {
        None
    } else {
        Some(choose|i: int| first_at(clips, id, i))
    }
}

/// A first place is the place that `index_in` gives.
pub proof fn lemma_index_in(clips: Seq<TimelineClip>, id: TimelineClipId, i: int)
    requires
        first_at(clips, id, i),
    ensures
        index_in(clips, id) == Some(i),
{
    let c = choose|i: int| first_at(clips, id, i);
    assert(first_at(clips, id, c));
    assert(!lacks(clips, id));
    if c < i {
        assert(clips[c].id != id);
    }
    if i < c {
        assert(clips[i].id != id);
    }
}

/// Where some clip has the identifier, there is a first one.
pub proof fn lemma_index_in_first(clips: Seq<TimelineClip>, id: TimelineClipId)
    ensures
        match index_in(clips, id) {
            Some(i) => first_at(clips, id, i),
            None => lacks(clips, id),
        },
    decreases clips.len(),
{
    if !lacks(clips, id) {
        let init = clips.drop_last();
        lemma_index_in_first(init, id);
        if lacks(init, id) {
            assert forall|j: int| 0 <= j < clips.len() - 1 implies (#[trigger] clips[j]).id
                != id by {
                assert(init[j].id != id);
            }
            assert(first_at(clips, id, clips.len() - 1));
        } else {
            let i = index_in(init, id)->0;
            assert forall|j: int| 0 <= j < i implies (#[trigger] clips[j]).id != id by {
                assert(init[j].id != id);
            }
            assert(first_at(clips, id, i));
        }
    }
}

/// `after` is `before` with room made for `c` and `c` put at the end.
pub open spec fn placed(
    before: Seq<TimelineClip>,
    after: Seq<TimelineClip>,
    c: TimelineClip,
) -> bool {
    &&& after.len() > 0
    &&& after.last() == c
    &&& resolved(before, after.drop_last(), c.timeline_start as int, c.end_at())
}

/// The place of the first clip with the identifier.
pub fn position(clips: &Vec<TimelineClip>, id: TimelineClipId) -> (r: Option<usize>)
    ensures
        match r {
            Some(i) => index_in(clips@, id) == Some(i as int) && first_at(clips@, id, i as int),
            None => index_in(clips@, id) is None,
        },
{
    let mut i: usize = 0;
    while i < clips.len()
        invariant
            i <= clips.len(),
            forall|j: int| 0 <= j < i ==> (#[trigger] clips@[j]).id != id,
        decreases clips.len() - i,
    {
        if clips[i].id == id {
            proof {
                lemma_index_in(clips@, id, i as int);
            }
            return Some(i);
        }
        i += 1;
    }
    None
}

impl Track {
    /// An empty track under a fresh identifier.
    pub fn new(name: String, kind: TrackKind) -> (r: Self)
        ensures
            crate::ids::is_random_id(r.id.0),
            r@ == (TrackView {
                id: r.id,
                name: name@,
                kind,
                clips: Seq::empty(),
                muted: false,
                visible: true,
            }),
    {
        Track {
            id: TrackId::new(),
            name,
            kind,
            clips: Vec::new(),
            muted: false,
            visible: true,
        }
    }

    /// Takes the range from `new_start` to `new_end` out of the track: what lies
    /// inside leaves, what reaches in is cut back, and a clip that sticks out on
    /// both sides is split in two.
    pub fn resolve_overlaps(&mut self, new_start: i64, new_end: i64)
        requires
            all_fit(old(self)@.clips),
            in_time(new_start as int),
            in_time(new_end as int),
        ensures
            final(self)@ == (TrackView { clips: final(self)@.clips, ..old(self)@ }),
            resolved(old(self)@.clips, final(self)@.clips, new_start as int, new_end as int),
            all_fit(final(self)@.clips),
    {
        take_range(&mut self.clips, new_start, new_end);
    }

    /// Makes room for `clip` and puts it at the end.
    pub fn place(&mut self, clip: TimelineClip)
        requires
            all_fit(old(self)@.clips),
            clip.fits(),
        ensures
            final(self)@ == (TrackView { clips: final(self)@.clips, ..old(self)@ }),
            placed(old(self)@.clips, final(self)@.clips, clip),
            all_fit(final(self)@.clips),
    {
        self.resolve_overlaps(clip.timeline_start, clip.timeline_start + clip.duration);
        let ghost mid = self.clips@;
        self.clips.push(clip);
        assert(self.clips@.drop_last() =~= mid);
    }
}

} // verus!
