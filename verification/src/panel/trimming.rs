//! Trimming clips with the pointer.

use vstd::prelude::*;

use crate::browse::TimelineUiState;
use crate::ids::TimelineClipId;
use crate::panel::drag::PanelGeometry;
use crate::panel::pixels::in_pixels;
use crate::project::{
    kept_for_undo, law_undo_takes_back_edit, stepped_back, Edited, ProjectState, TrimEdge,
};
use crate::time::max_time;
use crate::timeline::trim::{all_modest, can_trim_left, drawn, modest, modest_trim, source_limit, trim_finalized};

verus! {

broadcast use vstd::std_specs::hash::group_hash_axioms;

/// How long the source of a clip on the timeline is, where that is known.
pub open spec fn source_duration(project: ProjectState, id: TimelineClipId) -> Option<i64> {
    match project.timeline@.clip_place(id) {
        Some(p) => project.known_duration(project.timeline@.clip_at(p).source_id),
        None => None,
    }
}

/// The timeline and what can be undone, before and after a trim is finished.
pub open spec fn trim_ended(a: Edited, b: Edited, id: TimelineClipId) -> bool {
    exists|m: Edited| #[trigger]
        kept_for_undo(a, m) && b.history == m.history && trim_finalized(
            a.timeline@,
            b.timeline@,
            id,
        )
}

fn known_source_duration(project: &ProjectState, id: TimelineClipId) -> (r: Option<i64>)
    ensures
        r == source_duration(*project, id),
{
    match project.timeline.find_clip(id) {
        Some((_, _, c)) => {
            match project.clips.get(&c.source_id.0) {
                Some(clip) => clip.duration,
                None => None,
            }
        },
        None => {
            proof {
                crate::timeline::lanes::lemma_clip_place_first(project.timeline@, id);
            }
            None
        },
    }
}

/// Follows the pointer with the end that is trimmed while the pointer is held, and ends
/// the trim when it is released.
pub fn handle_clip_trim(
    project: &mut ProjectState,
    ui: &mut TimelineUiState,
    pointer_down: bool,
    pointer_x: Option<i64>,
    g: PanelGeometry,
)
    requires
        old(project).timeline@.fits(),
        all_modest(old(project).timeline@),
        g.wf(),
        pointer_x matches Some(x) ==> in_pixels(x as int),
        old(ui).trimming_clip matches Some(trim) ==> pointer_down && trim.edge == TrimEdge::Left
            ==> can_trim_left(trim),
        old(ui).trimming_clip matches Some(trim) ==> modest_trim(trim) && (
        source_duration(*old(project), trim.clip_id) matches Some(d) ==> modest(d as int)),
        old(ui).trimming_clip matches Some(trim) ==> modest(
            trim.original_in_point + trim.original_duration,
        ),
    ensures
        match old(ui).trimming_clip {
            None => *final(ui) == *old(ui) && final(project).edited() == old(project).edited(),
            Some(trim) => if !pointer_down {
                &&& *final(ui) == (TimelineUiState { trimming_clip: None, ..*old(ui) })
                &&& trim_ended(
                    old(project).edited(),
                    final(project).edited(),
                    trim.clip_id,
                )
            } else {
                &&& *final(ui) == *old(ui)
                &&& final(project).history == old(project).history
                &&& final(project).timeline@ == match pointer_x {
                    Some(x) => drawn(
                        old(project).timeline@,
                        trim,
                        g.time_under(x as int),
                        source_limit(trim, source_duration(*old(project), trim.clip_id)),
                    ),
                    None => old(project).timeline@,
                }
            },
        },
        final(project).timeline@.fits(),
        final(project).same_but_edited(*old(project)),
{
    let trim = match ui.trimming_clip {
        Some(trim) => trim,
        None => {
            return;
        },
    };
    if !pointer_down {
        let ghost before = project.edited();
        ui.trimming_clip = None;
        project.snapshot_for_undo();
        let ghost kept = project.edited();
        project.timeline.finalize_trim(trim.clip_id);
        assert(kept_for_undo(before, kept));
        assert(trim_ended(before, project.edited(), trim.clip_id));
        return;
    }
    let x: i64 = match pointer_x {
        Some(x) => x,
        None => {
            return;
        },
    };
    let pointer: i64 = g.time_at(x);
    let limit: i64 = match known_source_duration(project, trim.clip_id) {
        Some(d) => d,
        None => max_time(
            trim.original_out_point,
            trim.original_in_point + trim.original_duration,
        ),
    };
    project.timeline.draw_trim(trim, pointer, limit);
}

/// A trim that has ended can be undone: the timeline comes back as it was before the end
/// of the trim.
pub proof fn law_ended_trim_is_undone(a: Edited, b: Edited, end: Edited, id: TimelineClipId)
    requires
        trim_ended(a, b, id),
        stepped_back(b, end),
    ensures
        end.timeline@ == a.timeline@,
{
    let m = choose|m: Edited| #[trigger]
        kept_for_undo(a, m) && b.history == m.history && trim_finalized(
            a.timeline@,
            b.timeline@,
            id,
        );
    law_undo_takes_back_edit(a, m, b, end);
}

} // verus!
