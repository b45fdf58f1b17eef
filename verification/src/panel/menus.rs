//! What the menus of the timeline and of the browser do.

use vstd::prelude::*;

use crate::browse::{BrowserUiState, TimelineUiState};
use crate::ids::{ClipId, TimelineClipId, TrackId};
use crate::project::{
    kept_for_undo, law_undo_takes_back_edit, stepped_back, Edited, ProjectState,
};
use crate::selection::Selection;
use crate::text::decimal;
use crate::timeline::clip::TimelineClip;
use crate::timeline::lanes::{
    lemma_track_index_first, lemma_track_index, lemma_with_track, TimelineView,
};
use crate::timeline::laws::unique_clips;
use crate::timeline::query::{pair_added, pair_moved, pair_removed};
use crate::timeline::removal::{
    law_removed_with_its_link, law_removing_one_leaves_the_rest, on_timeline, only_kept,
};
use crate::timeline::remove::{removed, removed_single};
use crate::timeline::track::{TrackKind, TrackView};

verus! {

broadcast use vstd::std_specs::hash::group_hash_axioms;

/// A clip is taken off the timeline, alone or with the clip it is linked to, and the
/// timeline is kept for undo before.
pub open spec fn deleted(a: Edited, b: Edited, id: TimelineClipId, both: bool) -> bool {
    exists|m: Edited| #[trigger]
        kept_for_undo(a, m) && b.history == m.history && b.timeline@ == if both {
            removed(a.timeline@, id)
        } else {
            removed_single(a.timeline@, id)
        }
}

/// Takes a clip off the timeline, alone or with the clip it is linked to. It is then no
/// longer selected.
pub fn delete_clip(
    project: &mut ProjectState,
    selection: &mut Selection,
    id: TimelineClipId,
    both: bool,
)
    ensures
        deleted(old(project).edited(), final(project).edited(), id, both),
        final(project).same_but_edited(*old(project)),
        old(project).timeline@.fits() ==> final(project).timeline@.fits(),
        final(selection).selected_timeline_clips@ == old(selection).selected_timeline_clips@.remove(
            id.0,
        ),
        final(selection).same_but_timeline(*old(selection)),
{
    let ghost start = project.edited();
    project.snapshot_for_undo();
    let ghost kept = project.edited();
    if both {
        project.timeline.remove_clip(id);
    } else {
        project.timeline.remove_clip_single(id);
    }
    selection.selected_timeline_clips.remove(&id.0);
    assert(kept_for_undo(start, kept));
}

/// A pair of tracks is added, and the timeline is kept for undo before.
pub open spec fn pair_put(a: Edited, b: Edited) -> bool {
    exists|m: Edited| #[trigger]
        kept_for_undo(a, m) && b.history == m.history && pair_added(a.timeline@, b.timeline@)
}

/// Adds a pair of tracks.
pub fn add_pair(project: &mut ProjectState)
    requires
        old(project).timeline@.video.len() < usize::MAX,
    ensures
        pair_put(old(project).edited(), final(project).edited()),
        final(project).same_but_edited(*old(project)),
        old(project).timeline@.fits() ==> final(project).timeline@.fits(),
{
    let ghost start = project.edited();
    project.snapshot_for_undo();
    let ghost kept = project.edited();
    project.timeline.add_track_pair();
    assert(kept_for_undo(start, kept));
}

/// A pair of tracks is removed, unless it is the last, and the timeline is kept for undo
/// before.
pub open spec fn pair_gone(a: Edited, b: Edited, idx: int) -> bool {
    exists|m: Edited| #[trigger]
        kept_for_undo(a, m) && b.history == m.history && b.timeline@ == pair_removed(
            a.timeline@,
            idx,
        )
}

/// Removes a pair of tracks, unless it is the last.
pub fn delete_pair(project: &mut ProjectState, idx: usize)
    ensures
        pair_gone(old(project).edited(), final(project).edited(), idx as int),
        final(project).same_but_edited(*old(project)),
        old(project).timeline@.fits() ==> final(project).timeline@.fits(),
{
    let ghost start = project.edited();
    project.snapshot_for_undo();
    let ghost kept = project.edited();
    project.timeline.remove_track_pair(idx);
    assert(kept_for_undo(start, kept));
}

/// The sound of a track is turned off, or on again.
pub open spec fn mute_flipped(t: TimelineView, id: TrackId) -> TimelineView {
    match t.track_index(id) {
        Some(k) => t.with_track(k, TrackView { muted: !t.tracks()[k].muted, ..t.tracks()[k] }),
        None => t,
    }
}

/// The pictures of a track are hidden, or shown again.
pub open spec fn show_flipped(t: TimelineView, id: TrackId) -> TimelineView {
    match t.track_index(id) {
        Some(k) => t.with_track(k, TrackView { visible: !t.tracks()[k].visible, ..t.tracks()[k] }),
        None => t,
    }
}

/// The timeline becomes `after`, and is kept for undo before.
pub open spec fn changed_to(a: Edited, b: Edited, after: TimelineView) -> bool {
    exists|m: Edited| #[trigger]
        kept_for_undo(a, m) && b.history == m.history && b.timeline@ == after
}

/// Mutes a track, or has it heard again.
pub fn toggle_muted(project: &mut ProjectState, id: TrackId)
    ensures
        changed_to(
            old(project).edited(),
            final(project).edited(),
            mute_flipped(old(project).timeline@, id),
        ),
        final(project).same_but_edited(*old(project)),
        old(project).timeline@.fits() ==> final(project).timeline@.fits(),
{
    let ghost start = project.edited();
    project.snapshot_for_undo();
    let ghost kept = project.edited();
    let ghost before = project.timeline@;
    match project.timeline.track_by_id_mut(id) {
        Some(track) => {
            track.muted = !track.muted;
            proof {
                lemma_with_track(before, before.track_index(id)->0, track@);
            }
        },
        None => {},
    }
    assert(kept_for_undo(start, kept));
}

/// Hides a track, or has it shown again.
pub fn toggle_visible(project: &mut ProjectState, id: TrackId)
    ensures
        changed_to(
            old(project).edited(),
            final(project).edited(),
            show_flipped(old(project).timeline@, id),
        ),
        final(project).same_but_edited(*old(project)),
        old(project).timeline@.fits() ==> final(project).timeline@.fits(),
{
    let ghost start = project.edited();
    project.snapshot_for_undo();
    let ghost kept = project.edited();
    let ghost before = project.timeline@;
    match project.timeline.track_by_id_mut(id) {
        Some(track) => {
            track.visible = !track.visible;
            proof {
                lemma_with_track(before, before.track_index(id)->0, track@);
            }
        },
        None => {},
    }
    assert(kept_for_undo(start, kept));
}

/// Whether there is a pair above this one to change places with.
pub fn can_move_up(project: &ProjectState, idx: usize) -> (r: bool)
    ensures
        r == (idx + 1 < project.timeline@.video.len()),
{
    let n: usize = project.timeline.pair_count();
    idx < n && n - idx > 1
}

/// Moves a pair of tracks one place up, where it can be.
pub fn move_pair_up(project: &mut ProjectState, idx: usize)
    ensures
        if idx + 1 < old(project).timeline@.video.len() {
            &&& changed_to(
                old(project).edited(),
                final(project).edited(),
                pair_moved(old(project).timeline@, idx as int, idx + 1),
            )
            &&& final(project).same_but_edited(*old(project))
        } else {
            *final(project) == *old(project)
        },
        old(project).timeline@.fits() ==> final(project).timeline@.fits(),
{
    if can_move_up(project, idx) {
        assert(idx + 1 < project.timeline.video_tracks.len());
        let above: usize = idx + 1;
        let ghost start = project.edited();
        project.snapshot_for_undo();
        let ghost kept = project.edited();
        project.timeline.move_track_pair(idx, above);
        assert(kept_for_undo(start, kept));
    }
}

/// Moves a pair of tracks one place down, unless it is the lowest.
pub fn move_pair_down(project: &mut ProjectState, idx: usize)
    ensures
        if idx > 0 {
            &&& changed_to(
                old(project).edited(),
                final(project).edited(),
                pair_moved(old(project).timeline@, idx as int, idx - 1),
            )
            &&& final(project).same_but_edited(*old(project))
        } else {
            *final(project) == *old(project)
        },
        old(project).timeline@.fits() ==> final(project).timeline@.fits(),
{
    if idx > 0 {
        let ghost start = project.edited();
        project.snapshot_for_undo();
        let ghost kept = project.edited();
        project.timeline.move_track_pair(idx, idx - 1);
        assert(kept_for_undo(start, kept));
    }
}

/// Muting a track twice, or hiding it twice, leaves the timeline as it was.
pub proof fn law_toggling_twice_changes_nothing(t: TimelineView, id: TrackId)
    ensures
        mute_flipped(mute_flipped(t, id), id) == t,
        show_flipped(show_flipped(t, id), id) == t,
{
    if let Some(k) = t.track_index(id) {
        let track = t.tracks()[k];
        let mute = TrackView { muted: !track.muted, ..track };
        let show = TrackView { visible: !track.visible, ..track };
        lemma_flipped_back(t, id, k, mute);
        lemma_flipped_back(t, id, k, show);
    }
}

proof fn lemma_flipped_back(t: TimelineView, id: TrackId, k: int, v: TrackView)
    requires
        t.track_index(id) == Some(k),
        v.id == t.tracks()[k].id,
    ensures
        t.with_track(k, v).track_index(id) == Some(k),
        t.with_track(k, v).tracks()[k] == v,
        t.with_track(k, v).with_track(k, t.tracks()[k]) == t,
{
    lemma_track_index_first(t, id);
    lemma_with_track(t, k, v);
    let u = t.with_track(k, v);
    assert(u.track_first_at(id, k));
    lemma_track_index(u, id, k);
    assert(u.with_track(k, t.tracks()[k]) =~= t);
}

/// A click on a clip of the timeline selects it, and its media file, and nothing else;
/// but not while a clip is trimmed.
pub fn click_clip(ui: &TimelineUiState, selection: &mut Selection, c: TimelineClip)
    ensures
        ui.trimming_clip is None ==> {
            &&& final(selection).selected_timeline_clips@ == set![c.id.0]
            &&& final(selection).only(c.source_id)
        },
        ui.trimming_clip is Some ==> {
            &&& final(selection).selected_timeline_clips@ == old(selection).selected_timeline_clips@
            &&& final(selection).selected_clips@ == old(selection).selected_clips@
            &&& final(selection).last_selected_clip == old(selection).last_selected_clip
        },
        final(selection).hovered_clip == old(selection).hovered_clip,
        final(selection).selected_scrub_t == old(selection).selected_scrub_t,
{
    if ui.trimming_clip.is_none() {
        selection.select_single_timeline_clip(c.id);
        selection.select_single(c.source_id);
    }
}

/// Begins to rename a media file: its present name stands to be changed. A file that is
/// not in the project has none.
pub fn begin_rename(project: &ProjectState, ui: &mut BrowserUiState, id: ClipId)
    ensures
        final(ui).renaming_clip == Some(id),
        final(ui).rename_buffer@ == if project.clips@.contains_key(id.0) {
            project.clips@[id.0].shown_name()
        } else {
            Seq::empty()
        },
        *final(ui) == (BrowserUiState {
            renaming_clip: Some(id),
            rename_buffer: final(ui).rename_buffer,
            ..*old(ui)
        }),
{
    let name: String = match project.clips.get(&id.0) {
        Some(clip) => clip.display_name().to_string(),
        None => String::new(),
    };
    ui.renaming_clip = Some(id);
    ui.rename_buffer = name;
}

/// Where the identifiers differ, deleting a clip from its menu takes it off, and with it
/// the clip it is linked to exactly where both are wanted; all other clips stand as they
/// were, and undo gives the timeline back.
pub proof fn law_menu_deletes_one_or_both(
    a: Edited,
    b: Edited,
    end: Edited,
    d: TimelineClip,
    both: bool,
)
    requires
        deleted(a, b, d.id, both),
        unique_clips(a.timeline@),
        on_timeline(a.timeline@, d),
    ensures
        both ==> only_kept(
            a.timeline@,
            b.timeline@,
            |c: TimelineClip| c.id != d.id && d.linked_to != Some(c.id),
        ),
        !both ==> only_kept(a.timeline@, b.timeline@, |c: TimelineClip| c.id != d.id),
        stepped_back(b, end) ==> end.timeline@ == a.timeline@,
{
    let m = choose|m: Edited| #[trigger]
        kept_for_undo(a, m) && b.history == m.history && b.timeline@ == if both {
            removed(a.timeline@, d.id)
        } else {
            removed_single(a.timeline@, d.id)
        };
    law_removed_with_its_link(a.timeline@, d);
    law_removing_one_leaves_the_rest(a.timeline@, d.id);
    if stepped_back(b, end) {
        law_undo_takes_back_edit(a, m, b, end);
    }
}

/// Muting and hiding change the one track and the one thing: whether it is heard, or
/// whether it is seen.
pub proof fn law_flip_changes_one_track(t: TimelineView, k: int, m: int)
    requires
        t.track_first_at(t.tracks()[k].id, k),
        0 <= m < t.tracks().len(),
    ensures
        ({
            let muted = mute_flipped(t, t.tracks()[k].id);
            let shown = show_flipped(t, t.tracks()[k].id);
            &&& muted.tracks().len() == t.tracks().len() == shown.tracks().len()
            &&& muted.video.len() == t.video.len() == shown.video.len()
            &&& muted.tracks()[k].muted != t.tracks()[k].muted
            &&& muted.tracks()[k].visible == t.tracks()[k].visible
            &&& shown.tracks()[k].visible != t.tracks()[k].visible
            &&& shown.tracks()[k].muted == t.tracks()[k].muted
            &&& muted.tracks()[k].clips == t.tracks()[k].clips
            &&& shown.tracks()[k].clips == t.tracks()[k].clips
            &&& muted.tracks()[k].id == t.tracks()[k].id
            &&& shown.tracks()[k].id == t.tracks()[k].id
            &&& m != k ==> muted.tracks()[m] == t.tracks()[m]
            &&& m != k ==> shown.tracks()[m] == t.tracks()[m]
        }),
{
    lemma_track_index(t, t.tracks()[k].id, k);
    lemma_with_track(t, k, TrackView { muted: !t.tracks()[k].muted, ..t.tracks()[k] });
    lemma_with_track(t, k, TrackView { visible: !t.tracks()[k].visible, ..t.tracks()[k] });
}

/// A pair that is added stands last, both its tracks empty, seen and heard, and called by
/// its number; a pair that is
/// removed leaves, both its tracks, and the others close up. Either way the other tracks
/// keep their clips and their order, and undo gives the timeline back.
pub proof fn law_pairs_come_and_go(a: Edited, b: Edited, end: Edited, idx: int, i: int)
    requires
        0 <= i < a.timeline@.video.len(),
        a.timeline@.audio.len() == a.timeline@.video.len(),
        0 <= idx < a.timeline@.video.len(),
        a.timeline@.video.len() > 1,
    ensures
        pair_put(a, b) ==> {
            let n = a.timeline@.video.len() as int;
            &&& b.timeline@.video.len() == n + 1 && b.timeline@.audio.len() == n + 1
            &&& b.timeline@.video[i] == a.timeline@.video[i]
            &&& b.timeline@.audio[i] == a.timeline@.audio[i]
            &&& b.timeline@.video[n].clips.len() == 0 && b.timeline@.audio[n].clips.len() == 0
            &&& b.timeline@.video[n].visible && !b.timeline@.audio[n].muted
            &&& b.timeline@.video[n].kind == TrackKind::Video
            &&& b.timeline@.audio[n].kind == TrackKind::Audio
            &&& b.timeline@.video[n].name == seq!['V'] + decimal((n + 1) as nat)
            &&& b.timeline@.audio[n].name == seq!['A'] + decimal((n + 1) as nat)
            &&& stepped_back(b, end) ==> end.timeline@ == a.timeline@
        },
        pair_gone(a, b, idx) ==> {
            &&& b.timeline@.video.len() == a.timeline@.video.len() - 1
            &&& b.timeline@.audio.len() == a.timeline@.audio.len() - 1
            &&& i < idx ==> b.timeline@.video[i] == a.timeline@.video[i] && b.timeline@.audio[i]
                == a.timeline@.audio[i]
            &&& i > idx ==> b.timeline@.video[i - 1] == a.timeline@.video[i]
                && b.timeline@.audio[i - 1] == a.timeline@.audio[i]
            &&& stepped_back(b, end) ==> end.timeline@ == a.timeline@
        },
{
    if pair_put(a, b) {
        let m = choose|m: Edited| #[trigger]
            kept_for_undo(a, m) && b.history == m.history && pair_added(a.timeline@, b.timeline@);
        assert(b.timeline@.video.drop_last()[i] == b.timeline@.video[i]);
        assert(b.timeline@.audio.drop_last()[i] == b.timeline@.audio[i]);
        if stepped_back(b, end) {
            law_undo_takes_back_edit(a, m, b, end);
        }
    }
    if pair_gone(a, b, idx) {
        let m = choose|m: Edited| #[trigger]
            kept_for_undo(a, m) && b.history == m.history && b.timeline@ == pair_removed(
                a.timeline@,
                idx,
            );
        if stepped_back(b, end) {
            law_undo_takes_back_edit(a, m, b, end);
        }
    }
}

/// A pair that is moved up or down changes places with its neighbour, picture and sound
/// together; all other tracks stay where they are.
pub proof fn law_moved_pair_changes_places(t: TimelineView, idx: int, i: int)
    requires
        0 <= idx,
        idx + 1 < t.video.len(),
        idx + 1 < t.audio.len(),
        0 <= i,
    ensures
        ({
            let r = pair_moved(t, idx, idx + 1);
            &&& r == pair_moved(t, idx + 1, idx)
            &&& r.video.len() == t.video.len() && r.audio.len() == t.audio.len()
            &&& r.video[idx] == t.video[idx + 1] && r.video[idx + 1] == t.video[idx]
            &&& r.audio[idx] == t.audio[idx + 1] && r.audio[idx + 1] == t.audio[idx]
            &&& i != idx && i != idx + 1 && i < t.video.len() ==> r.video[i] == t.video[i]
            &&& i != idx && i != idx + 1 && i < t.audio.len() ==> r.audio[i] == t.audio[i]
        }),
{
    let r = pair_moved(t, idx, idx + 1);
    let q = pair_moved(t, idx + 1, idx);
    assert(r.video =~= q.video);
    assert(r.audio =~= q.audio);
}

} // verus!
