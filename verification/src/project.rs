//! The project: its media files, their labels, and the timeline.

use std::collections::{HashMap, HashSet};

use vstd::prelude::*;

use crate::clip::Clip;
use crate::ids::{is_random_id, ClipId, TimelineClipId, TrackId};
use crate::playback::{Playback, PlaybackState, NORMAL_SPEED};
use crate::tag::Tag;
use crate::time::{in_time, later, max_time};
use crate::timeline::edit::{added, linked_one_way, new_clip};
use crate::timeline::lanes::{lemma_clip_place, lemma_with_track, Timeline, TimelineView};
use crate::undo::{law_undo_restores_saved, redone, saved, undone, UndoManager};
use crate::timeline::query::is_fresh_timeline;
use crate::timeline::track::{lacks, TrackKind, TrackView};

verus! {

broadcast use vstd::std_specs::hash::group_hash_axioms;

/// Which end of a clip is trimmed.
#[derive(Debug, Clone, Copy, PartialEq, Eq, Structural)]
pub enum TrimEdge {
    Left,
    Right,
}

/// A trim under way: the clip, the end, and what the clip was like at the start.
#[derive(Debug, Clone, Copy)]
pub struct TrimState {
    pub clip_id: TimelineClipId,
    pub edge: TrimEdge,
    pub original_position: i64,
    pub original_duration: i64,
    pub original_in_point: i64,
    pub original_out_point: i64,
}

/// How long a clip is where its duration is not known.
pub const DEFAULT_CLIP_DURATION: i64 = 3_000_000_000;

/// The shortest clip that is put on a track.
pub const SHORTEST_CLIP: i64 = 100_000_000;

/// The project. Maps and sets are keyed by the numbers of the identifiers.
#[derive(Debug)]
pub struct ProjectState {
    pub clips: HashMap<u128, Clip>,
    pub clip_order: Vec<ClipId>,
    pub starred: HashSet<u128>,
    pub clip_tags: HashMap<u128, u32>,
    pub timeline: Timeline,
    pub playback: Playback,
    pub history: UndoManager,
}

impl ProjectState {
    /// No media files, three pairs of empty tracks, playback stopped at the beginning, and
    /// nothing to undo or to redo.
    pub open spec fn is_initial(self) -> bool {
        &&& self.clips@ == Map::<u128, Clip>::empty()
        &&& self.clip_order@ == Seq::<ClipId>::empty()
        &&& self.starred@ == Set::<u128>::empty()
        &&& self.clip_tags@ == Map::<u128, u32>::empty()
        &&& is_fresh_timeline(self.timeline@)
        &&& self.playback == Playback {
            state: PlaybackState::Stopped,
            playhead: 0,
            speed: NORMAL_SPEED,
        }
        &&& self.history.past() == Seq::<Timeline>::empty()
        &&& self.history.future() == Seq::<Timeline>::empty()
    }
}

impl Default for ProjectState {
    fn default() -> (r: Self)
        ensures
            r.is_initial(),
    {
        ProjectState {
            clips: HashMap::new(),
            clip_order: Vec::new(),
            starred: HashSet::new(),
            clip_tags: HashMap::new(),
            timeline: Timeline::new(),
            playback: Playback { state: PlaybackState::Stopped, playhead: 0, speed: NORMAL_SPEED },
            history: UndoManager::new(),
        }
    }
}

/// How long a media file lasts on the timeline.
pub open spec fn clip_length(duration: Option<i64>) -> int {
    later(
        match duration {
            Some(d) => d as int,
            None => DEFAULT_CLIP_DURATION as int,
        },
        SHORTEST_CLIP as int,
    )
}

/// Where sound without a picture goes: the track itself, or the audio track paired
/// with it.
pub open spec fn audio_target(t: TimelineView, track_id: TrackId) -> TrackId {
    match t.track_index(track_id) {
        Some(k) => if k < t.video.len() {
            match t.paired(track_id) {
                Some(other) => other,
                None => track_id,
            }
        } else {
            track_id
        },
        None => track_id,
    }
}

/// A clip under some fresh identifier is put on a track.
pub open spec fn added_fresh(
    before: TimelineView,
    after: TimelineView,
    id: TimelineClipId,
    source_id: ClipId,
    track_id: TrackId,
    position: int,
    duration: int,
) -> bool {
    is_random_id(id.0) && added(
        before,
        after,
        new_clip(id, source_id, track_id, position, duration),
    )
}

/// Two clips under fresh identifiers are put on two tracks and linked.
pub open spec fn added_pair(
    before: TimelineView,
    after: TimelineView,
    a: TimelineClipId,
    b: TimelineClipId,
    source_id: ClipId,
    track_id: TrackId,
    paired: TrackId,
    position: int,
    duration: int,
) -> bool {
    exists|m: TimelineView, n: TimelineView| #[trigger]
        added_fresh(before, m, a, source_id, track_id, position, duration)
            && #[trigger] added_fresh(m, n, b, source_id, paired, position, duration) && after
            == linked_one_way(linked_one_way(n, a, b), b, a)
}

/// A media file is put on the timeline at a track: sound alone on an audio track,
/// anything else on the track and, linked to it, on the track paired with it.
pub open spec fn dropped(
    before: TimelineView,
    after: TimelineView,
    source_id: ClipId,
    track_id: TrackId,
    position: int,
    duration: int,
    audio_only: bool,
) -> bool {
    if audio_only {
        exists|id: TimelineClipId| #[trigger]
            added_fresh(
                before,
                after,
                id,
                source_id,
                audio_target(before, track_id),
                position,
                duration,
            )
    } else {
        match before.paired(track_id) {
            None => exists|id: TimelineClipId| #[trigger]
                added_fresh(before, after, id, source_id, track_id, position, duration),
            Some(p) => exists|a: TimelineClipId, b: TimelineClipId| #[trigger]
                added_pair(before, after, a, b, source_id, track_id, p, position, duration),
        }
    }
}

/// What an edit changes: the timeline, and what can be undone.
pub struct Edited {
    pub timeline: Timeline,
    pub history: UndoManager,
}

/// The timeline is kept as it is, so that the edit that follows can be undone.
pub open spec fn kept_for_undo(a: Edited, b: Edited) -> bool {
    b.timeline == a.timeline && exists|snapshot: Timeline|
        snapshot@ == a.timeline@ && #[trigger] saved(a.history, b.history, snapshot)
}

/// The last edit is undone, where there is one.
pub open spec fn stepped_back(a: Edited, b: Edited) -> bool {
    exists|current: Timeline, got: Option<Timeline>|
        current@ == a.timeline@ && b.timeline == (match got {
            Some(t) => t,
            None => a.timeline,
        }) && #[trigger] undone(a.history, b.history, current, got)
}

/// The edit that was undone last is done again, where there is one.
pub open spec fn stepped_forward(a: Edited, b: Edited) -> bool {
    exists|current: Timeline, got: Option<Timeline>|
        current@ == a.timeline@ && b.timeline == (match got {
            Some(t) => t,
            None => a.timeline,
        }) && #[trigger] redone(a.history, b.history, current, got)
}

/// A media file of which nothing has changed but what a search looks through.
pub open spec fn relabelled(before: Clip, after: Clip, mask: u32) -> bool {
    &&& after.id == before.id
    &&& after.path == before.path
    &&& after.filename == before.filename
    &&& after.display_name == before.display_name
    &&& after.duration == before.duration
    &&& after.resolution == before.resolution
    &&& after.codec == before.codec
    &&& after.audio_only == before.audio_only
    &&& after.search_haystack@ == before.haystack(mask)
}

impl ProjectState {
    /// What an edit changes.
    pub open spec fn edited(self) -> Edited {
        Edited { timeline: self.timeline, history: self.history }
    }

    /// The media files and their labels are the same, and so is the transport.
    pub open spec fn same_but_edited(self, other: ProjectState) -> bool {
        &&& self.clips@ == other.clips@
        &&& self.clip_order@ == other.clip_order@
        &&& self.starred@ == other.starred@
        &&& self.clip_tags@ == other.clip_tags@
        &&& self.playback == other.playback
    }

    /// Keeps the timeline as it is, so that the edit that follows can be undone.
    pub fn snapshot_for_undo(&mut self)
        ensures
            kept_for_undo(old(self).edited(), final(self).edited()),
            final(self).same_but_edited(*old(self)),
    {
        let snapshot = self.timeline.snapshot();
        self.history.save(snapshot);
        assert(saved(old(self).edited().history, self.edited().history, snapshot));
    }

    /// Undoes the last edit, where there is one.
    pub fn undo(&mut self)
        ensures
            stepped_back(old(self).edited(), final(self).edited()),
            final(self).same_but_edited(*old(self)),
    {
        let current = self.timeline.snapshot();
        let got = self.history.undo(current);
        if let Some(previous) = got {
            self.timeline = previous;
        }
        assert(undone(old(self).edited().history, self.edited().history, current, got));
    }

    /// Does the edit that was undone last again, where there is one.
    pub fn redo(&mut self)
        ensures
            stepped_forward(old(self).edited(), final(self).edited()),
            final(self).same_but_edited(*old(self)),
    {
        let current = self.timeline.snapshot();
        let got = self.history.redo(current);
        if let Some(next) = got {
            self.timeline = next;
        }
        assert(redone(old(self).edited().history, self.edited().history, current, got));
    }
}

/// Undo after an edit gives the timeline back as it was before the edit.
pub proof fn law_undo_takes_back_edit(start: Edited, kept: Edited, edit: Edited, end: Edited)
    requires
        kept_for_undo(start, kept),
        edit.history == kept.history,
        stepped_back(edit, end),
    ensures
        end.timeline@ == start.timeline@,
{
    let snapshot = choose|snapshot: Timeline|
        snapshot@ == start.timeline@ && #[trigger] saved(start.history, kept.history, snapshot);
    let (current, got) = choose|current: Timeline, got: Option<Timeline>|
        current@ == edit.timeline@ && end.timeline == (match got {
            Some(t) => t,
            None => edit.timeline,
        }) && #[trigger] undone(edit.history, end.history, current, got);
    law_undo_restores_saved(start.history, kept.history, end.history, snapshot, current, got);
}

impl ProjectState {
    /// The labels of a media file.
    pub open spec fn tags(self, id: ClipId) -> u32 {
        if self.clip_tags@.contains_key(id.0) {
            self.clip_tags@[id.0]
        } else {
            0
        }
    }

    /// The media file, where it is known.
    pub open spec fn known(self, id: ClipId) -> Option<Clip> {
        if self.clips@.contains_key(id.0) {
            Some(self.clips@[id.0])
        } else {
            None
        }
    }

    /// The duration of a media file, where it is known.
    pub open spec fn known_duration(self, id: ClipId) -> Option<i64> {
        match self.known(id) {
            Some(c) => c.duration,
            None => None,
        }
    }

    /// The media file is known to have sound alone.
    pub open spec fn known_audio_only(self, id: ClipId) -> bool {
        match self.known(id) {
            Some(c) => c.audio_only,
            None => false,
        }
    }

    /// What a search looks through is up to date: for every media file it tells of its
    /// names, of what is known of it, and of its labels.
    pub open spec fn searchable(self) -> bool {
        forall|n: u128| #[trigger]
            self.clips@.contains_key(n) ==> self.clips@[n].search_haystack@ == self.clips@[n].haystack(
                self.tags(ClipId(n)),
            )
    }

    /// Adds a media file at the end of the import order. Labels that it already has
    /// stay.
    pub fn add_clip(&mut self, clip: Clip)
        ensures
            old(self).searchable() && clip.search_haystack@ == clip.haystack(old(self).tags(clip.id))
                ==> final(self).searchable(),
            final(self).clip_order@ == old(self).clip_order@.push(clip.id),
            final(self).clips@ == old(self).clips@.insert(clip.id.0, clip),
            final(self).clip_tags@ == old(self).clip_tags@.insert(
                clip.id.0,
                old(self).tags(clip.id),
            ),
            final(self).starred@ == old(self).starred@,
            final(self).timeline == old(self).timeline,
            final(self).playback == old(self).playback,
            final(self).history == old(self).history,
    {
        let id = clip.id;
        self.clip_order.push(id);
        self.clips.insert(id.0, clip);
        let mask: u32 = self.clip_tag_mask(id);
        self.clip_tags.insert(id.0, mask);
    }

    /// Stars a media file, or takes its star away.
    pub fn toggle_star(&mut self, id: ClipId)
        ensures
            final(self).starred@ == if old(self).starred@.contains(id.0) {
                old(self).starred@.remove(id.0)
            } else {
                old(self).starred@.insert(id.0)
            },
            final(self).clip_order@ == old(self).clip_order@,
            final(self).clips@ == old(self).clips@,
            final(self).clip_tags@ == old(self).clip_tags@,
            final(self).timeline == old(self).timeline,
            final(self).playback == old(self).playback,
            final(self).history == old(self).history,
    {
        if !self.starred.remove(&id.0) {
            self.starred.insert(id.0);
        }
    }

    /// The labels of a media file; none where it is not known.
    pub fn clip_tag_mask(&self, id: ClipId) -> (r: u32)
        ensures
            r == self.tags(id),
    {
        match self.clip_tags.get(&id.0) {
            Some(mask) => *mask,
            None => 0,
        }
    }

    /// Rebuilds what a search looks through of a media file. Nothing happens where it is
    /// not in the project.
    pub fn rebuild_clip_search_haystack(&mut self, id: ClipId)
        ensures
            old(self).relabelled_in(*final(self), set![id.0]),
            final(self).clip_order@ == old(self).clip_order@,
            final(self).starred@ == old(self).starred@,
            final(self).clip_tags@ == old(self).clip_tags@,
            final(self).timeline == old(self).timeline,
            final(self).playback == old(self).playback,
            final(self).history == old(self).history,
    {
        let mask: u32 = self.clip_tag_mask(id);
        match self.clips.remove(&id.0) {
            Some(found) => {
                let mut clip = found;
                clip.rebuild_search_haystack(mask);
                self.clips.insert(id.0, clip);
                assert(self.clips@.dom() =~= old(self).clips@.dom());
            },
            None => {
                assert(self.clips@ =~= old(self).clips@);
            },
        }
    }

    /// Of the media files only what a search looks through has changed: for those given
    /// it is up to date.
    pub open spec fn relabelled_in(self, after: ProjectState, ids: Set<u128>) -> bool {
        &&& after.clips@.dom() == self.clips@.dom()
        &&& forall|n: u128| #[trigger]
            after.clips@.contains_key(n) ==> if ids.contains(n) {
                relabelled(self.clips@[n], after.clips@[n], after.tags(ClipId(n)))
            } else {
                after.clips@[n] == self.clips@[n]
            }
    }

    /// Gives a media file a label, or takes it away. What a search looks through follows.
    pub fn toggle_tag(&mut self, id: ClipId, tag: Tag)
        ensures
            final(self).clip_tags@ == old(self).clip_tags@.insert(
                id.0,
                old(self).tags(id) ^ tag.mask(),
            ),
            old(self).relabelled_in(*final(self), set![id.0]),
            old(self).searchable() ==> final(self).searchable(),
            final(self).clip_order@ == old(self).clip_order@,
            final(self).starred@ == old(self).starred@,
            final(self).timeline == old(self).timeline,
            final(self).playback == old(self).playback,
            final(self).history == old(self).history,
    {
        let mask: u32 = self.clip_tag_mask(id);
        self.clip_tags.insert(id.0, mask ^ tag.bit());
        self.rebuild_clip_search_haystack(id);
        proof {
            if old(self).searchable() {
                assert forall|n: u128| #[trigger] self.clips@.contains_key(
                    n,
                ) implies self.clips@[n].search_haystack@ == self.clips@[n].haystack(
                    self.tags(ClipId(n)),
                ) by {
                    assert(old(self).clips@.contains_key(n));
                }
            }
        }
    }

    /// Puts a media file on the timeline at a track.
    pub fn add_clip_to_track(
        &mut self,
        source_id: ClipId,
        track_id: TrackId,
        position_seconds: i64,
    )
        requires
            old(self).timeline@.fits(),
            in_time(position_seconds as int),
            in_time(
                later(position_seconds as int, 0) + clip_length(
                    old(self).known_duration(source_id),
                ),
            ),
        ensures
            dropped(
                old(self).timeline@,
                final(self).timeline@,
                source_id,
                track_id,
                position_seconds as int,
                clip_length(old(self).known_duration(source_id)),
                old(self).known_audio_only(source_id),
            ),
            final(self).timeline@.fits(),
            final(self).clips@ == old(self).clips@,
            final(self).clip_order@ == old(self).clip_order@,
            final(self).starred@ == old(self).starred@,
            final(self).clip_tags@ == old(self).clip_tags@,
            final(self).playback == old(self).playback,
            final(self).history == old(self).history,
    {
        let ghost before = self.timeline@;
        let mut duration: i64 = DEFAULT_CLIP_DURATION;
        let mut audio_only = false;
        if let Some(clip) = self.clips.get(&source_id.0) {
            if let Some(d) = clip.duration {
                duration = d;
            }
            audio_only = clip.audio_only;
        }
        duration = max_time(duration, SHORTEST_CLIP);

        if audio_only {
            let audio_track_id = match self.timeline.track_index_and_kind(track_id) {
                Some((TrackKind::Audio, _)) => track_id,
                Some((TrackKind::Video, _)) => match self.timeline.paired_track_id(track_id) {
                    Some(other) => other,
                    None => track_id,
                },
                None => track_id,
            };
            let id = self.timeline.add_clip_to_track(
                source_id,
                audio_track_id,
                position_seconds,
                duration,
            );
            assert(added_fresh(
                before,
                self.timeline@,
                id,
                source_id,
                audio_target(before, track_id),
                position_seconds as int,
                duration as int,
            ));
            return;
        }
        let paired = self.timeline.paired_track_id(track_id);
        let primary_id = self.timeline.add_clip_to_track(
            source_id,
            track_id,
            position_seconds,
            duration,
        );
        let ghost m = self.timeline@;
        assert(added_fresh(
            before,
            m,
            primary_id,
            source_id,
            track_id,
            position_seconds as int,
            duration as int,
        ));
        if let Some(paired_track) = paired {
            let linked_id = self.timeline.add_clip_to_track(
                source_id,
                paired_track,
                position_seconds,
                duration,
            );
            let ghost n = self.timeline@;
            assert(added_fresh(
                m,
                n,
                linked_id,
                source_id,
                paired_track,
                position_seconds as int,
                duration as int,
            ));
            self.timeline.link_clips(primary_id, linked_id);
            assert(added_pair(
                before,
                self.timeline@,
                primary_id,
                linked_id,
                source_id,
                track_id,
                paired_track,
                position_seconds as int,
                duration as int,
            ));
        }
    }
}

/// Two clips at different places, each the first with its identifier, are linked to
/// each other once they have been linked.
pub proof fn law_linking_is_mutual(t: TimelineView, p: (int, int), q: (int, int))
    requires
        t.clip_first_at(t.clip_at(p).id, p.0, p.1),
        t.clip_first_at(t.clip_at(q).id, q.0, q.1),
        p != q,
    ensures
        ({
            let a = t.clip_at(p).id;
            let b = t.clip_at(q).id;
            let after = linked_one_way(linked_one_way(t, a, b), b, a);
            after.clip_at(p).linked_to == Some(b) && after.clip_at(q).linked_to == Some(a)
        }),
{
    let a = t.clip_at(p).id;
    let b = t.clip_at(q).id;
    lemma_clip_place(t, a, p.0, p.1);
    let m = linked_one_way(t, a, b);
    lemma_with_track(
        t,
        p.0,
        TrackView {
            clips: t.tracks()[p.0].clips.update(
                p.1,
                crate::timeline::clip::TimelineClip { linked_to: Some(b), ..t.clip_at(p) },
            ),
            ..t.tracks()[p.0]
        },
    );
    assert(m.clip_first_at(b, q.0, q.1)) by {
        assert forall|j: int| 0 <= j < q.1 implies (#[trigger] m.tracks()[q.0].clips[j]).id
            != b by {
            assert(t.tracks()[q.0].clips[j].id != b);
        }
        assert forall|k: int| 0 <= k < q.0 implies lacks(
            (#[trigger] m.tracks()[k]).clips,
            b,
        ) by {
            assert(lacks(t.tracks()[k].clips, b));
            assert forall|j: int| 0 <= j < m.tracks()[k].clips.len() implies (
            #[trigger] m.tracks()[k].clips[j]).id != b by {
                assert(t.tracks()[k].clips[j].id != b);
            }
        }
    }
    lemma_clip_place(m, b, q.0, q.1);
    lemma_with_track(
        m,
        q.0,
        TrackView {
            clips: m.tracks()[q.0].clips.update(
                q.1,
                crate::timeline::clip::TimelineClip { linked_to: Some(a), ..m.clip_at(q) },
            ),
            ..m.tracks()[q.0]
        },
    );
}

/// Toggling a label twice changes nothing of a mask.
pub proof fn law_toggle_tag_twice(mask: u32, tag: Tag)
    ensures
        (mask ^ tag.mask()) ^ tag.mask() == mask,
{
    let b = tag.mask();
    assert((mask ^ b) ^ b == mask) by (bit_vector);
}

} // verus!
