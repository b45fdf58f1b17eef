//! Clips that are about to be put down: what is drawn of them, and what becomes of them.

use vstd::prelude::*;

use crate::browse::TimelineUiState;
use crate::ids::{ClipId, TimelineClipId, TrackId};
use crate::panel::drag::{drop_of, row, row_from, row_of, row_track, PanelGeometry, Point};
use crate::panel::layout::{find_row, row_at};
use crate::panel::snap::{snap_time_to_clip_boundaries, snapped};
use crate::project::{
    clip_length, dropped, kept_for_undo, law_undo_takes_back_edit, stepped_back, Edited,
    ProjectState, DEFAULT_CLIP_DURATION, SHORTEST_CLIP,
};
use crate::time::{in_time, later, max_time};
use crate::timeline::lanes::{Timeline, TimelineView};
use crate::timeline::laws::{all_sound, law_drop_keeps_sound, unique_clips};
use crate::timeline::placing::{
    is_new, law_dropped_file_stands_twice, law_pairing_is_mutual, tracks_differ,
};
use crate::timeline::track::TrackKind;
use crate::timeline::trim::modest;

verus! {

broadcast use vstd::std_specs::hash::group_hash_axioms;

/// A clip as it is about to be: what it shows, when and in which row. It does not fit
/// where its kind is not that of the row.
#[derive(Debug, Clone, Copy, PartialEq, Eq, Structural)]
pub struct ClipGhost {
    pub source: ClipId,
    pub duration: i64,
    pub time: i64,
    pub row: usize,
    pub kind: TrackKind,
    pub mismatch: bool,
}

/// The time at which clips under the pointer would be put down.
pub open spec fn drop_time(
    t: TimelineView,
    ui: TimelineUiState,
    x: int,
    g: PanelGeometry,
) -> int {
    let raw = g.time_under(x);
    let grab = match ui.drag_grab_offset {
        Some(o) => o as int,
        None => 0,
    };
    let wanted = if ui.dragging_clip is Some {
        later(raw - grab, 0)
    } else {
        raw
    };
    snapped(t, wanted, g.zoom as int, ui.dragging_clip).0
}

/// How long a media file lasts on the timeline.
pub open spec fn length_in(project: ProjectState, id: ClipId) -> int {
    clip_length(project.known_duration(id))
}

/// How long some media files last together.
pub open spec fn length_of_all(project: ProjectState, ids: Seq<ClipId>) -> int
    decreases ids.len(),
{
    if ids.len() == 0 {
        0
    } else {
        length_of_all(project, ids.drop_last()) + length_in(project, ids.last())
    }
}

/// The ghosts of one media file: in the row, and in the row of the track paired with it.
pub open spec fn file_ghosts(
    project: ProjectState,
    id: ClipId,
    time: int,
    row: int,
    paired: Option<int>,
) -> Seq<ClipGhost> {
    let t = project.timeline@;
    let first = ClipGhost {
        source: id,
        duration: length_in(project, id) as i64,
        time: time as i64,
        row: row as usize,
        kind: row_track(t, row).kind,
        mismatch: false,
    };
    match paired {
        Some(p) => seq![
            first,
            ClipGhost { row: p as usize, kind: row_track(t, p).kind, ..first },
        ],
        None => seq![first],
    }
}

/// The ghosts of media files that are dragged onto the timeline: one after the other.
pub open spec fn payload_ghosts(
    project: ProjectState,
    ids: Seq<ClipId>,
    time: int,
    row: int,
    paired: Option<int>,
) -> Seq<ClipGhost>
    decreases ids.len(),
{
    if ids.len() == 0 {
        Seq::empty()
    } else {
        payload_ghosts(project, ids.drop_last(), time, row, paired) + file_ghosts(
            project,
            ids.last(),
            time + length_of_all(project, ids.drop_last()),
            row,
            paired,
        )
    }
}

/// The ghosts of a clip that is dragged along the timeline: in the row under the
/// pointer, and that of the clip linked to it in its own row.
pub open spec fn clip_ghosts(t: TimelineView, id: TimelineClipId, time: int, row: int) -> Seq<
    ClipGhost,
> {
    match t.clip_place(id) {
        None => Seq::empty(),
        Some(p) => {
            let c = t.clip_at(p);
            let first = ClipGhost {
                source: c.source_id,
                duration: c.duration,
                time: time as i64,
                row: row as usize,
                kind: row_track(t, row).kind,
                mismatch: t.tracks()[p.0].kind != row_track(t, row).kind,
            };
            match linked_row(t, c.linked_to) {
                Some((kind, l)) => seq![
                    first,
                    ClipGhost { row: l as usize, kind, mismatch: false, ..first },
                ],
                None => seq![first],
            }
        },
    }
}

/// The row and the kind of the track that holds the linked clip.
pub open spec fn linked_row(t: TimelineView, linked: Option<TimelineClipId>) -> Option<
    (TrackKind, int),
> {
    match linked {
        Some(other) => match t.clip_place(other) {
            Some(q) => match row_from(t, t.tracks()[q.0].id, 0) {
                Some(l) => Some((t.tracks()[q.0].kind, l)),
                None => None,
            },
            None => None,
        },
        None => None,
    }
}

/// The row of the track that is paired with that of a row.
pub open spec fn paired_row(t: TimelineView, row: int) -> Option<int> {
    match t.paired(row_track(t, row).id) {
        Some(other) => row_from(t, other, 0),
        None => None,
    }
}

/// What is drawn of the clips that are about to be put down.
pub open spec fn ghosts(
    project: ProjectState,
    ui: TimelineUiState,
    payload: Seq<ClipId>,
    pointer_down: bool,
    p: Point,
    g: PanelGeometry,
) -> Seq<ClipGhost> {
    let t = project.timeline@;
    let row = row_at(p.y as int, g.tracks_top as int);
    if row >= t.tracks().len() {
        Seq::empty()
    } else {
        let time = drop_time(t, ui, p.x as int, g);
        match ui.dragging_clip {
            None => payload_ghosts(project, payload, time, row, paired_row(t, row)),
            Some(id) => if pointer_down {
                clip_ghosts(t, id, time, row)
            } else {
                Seq::empty()
            },
        }
    }
}

fn file_length(project: &ProjectState, id: ClipId) -> (r: i64)
    ensures
        r == length_in(*project, id),
{
    let duration: i64 = match project.clips.get(&id.0) {
        Some(clip) => {
            match clip.duration {
                Some(d) => d,
                None => DEFAULT_CLIP_DURATION,
            }
        },
        None => DEFAULT_CLIP_DURATION,
    };
    max_time(duration, SHORTEST_CLIP)
}

proof fn lemma_lengths_grow(project: ProjectState, ids: Seq<ClipId>, n: int)
    requires
        0 <= n <= ids.len(),
    ensures
        0 <= length_of_all(project, ids.take(n)) <= length_of_all(project, ids),
    decreases ids.len() - n, n,
{
    if n < ids.len() {
        lemma_lengths_grow(project, ids, n + 1);
        assert(ids.take(n + 1).drop_last() =~= ids.take(n));
        lemma_lengths_nonneg(project, ids.take(n));
    } else {
        assert(ids.take(n) =~= ids);
        lemma_lengths_nonneg(project, ids);
    }
}

proof fn lemma_lengths_nonneg(project: ProjectState, ids: Seq<ClipId>)
    ensures
        length_of_all(project, ids) >= 0,
    decreases ids.len(),
{
    if ids.len() > 0 {
        lemma_lengths_nonneg(project, ids.drop_last());
    }
}

fn draw_payload(
    project: &ProjectState,
    ids: &Vec<ClipId>,
    time: i64,
    at_row: usize,
    kind: TrackKind,
    paired: Option<(usize, TrackKind)>,
) -> (r: Vec<ClipGhost>)
    requires
        in_time(time as int),
        in_time(time + length_of_all(*project, ids@)),
        kind == row_track(project.timeline@, at_row as int).kind,
        paired matches Some((p, k)) ==> k == row_track(project.timeline@, p as int).kind,
    ensures
        r@ == payload_ghosts(
            *project,
            ids@,
            time as int,
            at_row as int,
            match paired {
                Some((p, _)) => Some(p as int),
                None => None,
            },
        ),
{
    let ghost pr = match paired {
        Some((p, _)) => Some(p as int),
        None => None,
    };
    let mut out: Vec<ClipGhost> = Vec::new();
    let mut cursor: i64 = time;
    let mut i: usize = 0;
    while i < ids.len()
        invariant
            i <= ids@.len(),
            in_time(time as int),
            in_time(time + length_of_all(*project, ids@)),
            kind == row_track(project.timeline@, at_row as int).kind,
            paired matches Some((p, k)) ==> k == row_track(project.timeline@, p as int).kind,
            pr == (match paired {
                Some((p, _)) => Some(p as int),
                None => None,
            }),
            cursor == time + length_of_all(*project, ids@.take(i as int)),
            out@ == payload_ghosts(
                *project,
                ids@.take(i as int),
                time as int,
                at_row as int,
                pr,
            ),
        decreases ids@.len() - i,
    {
        let id = ids[i];
        let duration: i64 = file_length(project, id);
        let ghost before = out@;
        proof {
            assert(ids@.take(i + 1).drop_last() =~= ids@.take(i as int));
            assert(ids@.take(i + 1).last() == id);
            lemma_lengths_grow(*project, ids@, i + 1);
        }
        let first = ClipGhost {
            source: id,
            duration,
            time: cursor,
            row: at_row,
            kind,
            mismatch: false,
        };
        out.push(first);
        if let Some((p, k)) = paired {
            let mut second = first;
            second.row = p;
            second.kind = k;
            out.push(second);
        }
        assert(out@ =~= before + file_ghosts(*project, id, cursor as int, at_row as int, pr));
        cursor = cursor + duration;
        i += 1;
    }
    assert(ids@.take(i as int) =~= ids@);
    out
}

fn draw_dragged(timeline: &Timeline, id: TimelineClipId, time: i64, at_row: usize, kind: TrackKind) -> (r:
    Vec<ClipGhost>)
    requires
        timeline@.tracks().len() <= usize::MAX,
        kind == row_track(timeline@, at_row as int).kind,
    ensures
        r@ == clip_ghosts(timeline@, id, time as int, at_row as int),
{
    let mut out: Vec<ClipGhost> = Vec::new();
    match timeline.find_clip(id) {
        None => {
            proof {
                crate::timeline::lanes::lemma_clip_place_first(timeline@, id);
            }
        },
        Some((track, _, c)) => {
            let first = ClipGhost {
                source: c.source_id,
                duration: c.duration,
                time,
                row: at_row,
                kind,
                mismatch: !(track.kind == kind),
            };
            out.push(first);
            if let Some(other) = c.linked_to {
                match timeline.find_clip(other) {
                    Some((linked_track, _, _)) => {
                        if let Some(l) = row_of(timeline, linked_track.id) {
                            let mut second = first;
                            second.row = l;
                            second.kind = linked_track.kind;
                            second.mismatch = false;
                            out.push(second);
                        }
                    },
                    None => {
                        proof {
                            crate::timeline::lanes::lemma_clip_place_first(timeline@, other);
                        }
                    },
                }
            }
        },
    }
    assert(out@ =~= clip_ghosts(timeline@, id, time as int, at_row as int));
    out
}

/// What is drawn of the clips that are about to be put down.
pub fn drag_ghosts(
    project: &ProjectState,
    ui: &TimelineUiState,
    payload: &Vec<ClipId>,
    pointer_down: bool,
    p: Point,
    g: PanelGeometry,
) -> (r: Vec<ClipGhost>)
    requires
        project.timeline@.fits(),
        project.timeline@.tracks().len() <= usize::MAX,
        g.wf(),
        p.wf(),
        ui.drag_grab_offset matches Some(o) ==> modest(o as int),
        length_of_all(*project, payload@) <= 0x0400_0000_0000_0000,
    ensures
        r@ == ghosts(*project, *ui, payload@, pointer_down, p, g),
{
    let at_row: usize = find_row(p.y, g.tracks_top);
    let (track_id, kind) = match row(&project.timeline, at_row) {
        Some(track) => track,
        None => {
            return Vec::new();
        },
    };
    let raw: i64 = g.time_at(p.x);
    let wanted: i64 = match ui.dragging_clip {
        Some(_) => {
            let grab: i64 = match ui.drag_grab_offset {
                Some(o) => o,
                None => 0,
            };
            max_time(raw - grab, 0)
        },
        None => raw,
    };
    let (time, _) = snap_time_to_clip_boundaries(
        &project.timeline,
        wanted,
        g.zoom,
        ui.dragging_clip,
    );
    match ui.dragging_clip {
        None => {
            let paired = match project.timeline.paired_track_id(track_id) {
                Some(other) => match row_of(&project.timeline, other) {
                    Some(i) => match row(&project.timeline, i) {
                        Some((_, k)) => Some((i, k)),
                        None => None,
                    },
                    None => None,
                },
                None => None,
            };
            proof {
                lemma_lengths_nonneg(*project, payload@);
            }
            draw_payload(project, payload, time, at_row, kind, paired)
        },
        Some(id) => {
            if pointer_down {
                draw_dragged(&project.timeline, id, time, at_row, kind)
            } else {
                Vec::new()
            }
        },
    }
}

/// The timeline goes from the first to the last of `steps` as the media files are put on
/// it, one after the other, from `time` on.
pub open spec fn dropped_in_steps(
    project: ProjectState,
    steps: Seq<TimelineView>,
    ids: Seq<ClipId>,
    track_id: TrackId,
    time: int,
) -> bool {
    &&& steps.len() == ids.len() + 1
    &&& forall|i: int|
        0 <= i < ids.len() ==> dropped(
            #[trigger] steps[i],
            steps[i + 1],
            ids[i],
            track_id,
            time + length_of_all(project, ids.take(i)),
            length_in(project, ids[i]),
            project.known_audio_only(ids[i]),
        )
}

/// The timeline and what can be undone, before and after media files are put on it.
pub open spec fn files_dropped(
    project: ProjectState,
    a: Edited,
    b: Edited,
    ids: Seq<ClipId>,
    track_id: TrackId,
    time: int,
) -> bool {
    exists|m: Edited, steps: Seq<TimelineView>| #[trigger]
        kept_for_undo(a, m) && b.history == m.history && #[trigger] dropped_in_steps(
            project,
            steps,
            ids,
            track_id,
            time,
        ) && steps[0] == a.timeline@ && steps.last() == b.timeline@
}

/// Puts media files on the timeline, one after the other, from `time` on.
pub fn drop_files(project: &mut ProjectState, ids: &Vec<ClipId>, track_id: TrackId, time: i64)
    requires
        old(project).timeline@.fits(),
        0 <= time,
        in_time(time + length_of_all(*old(project), ids@)),
    ensures
        files_dropped(
            *old(project),
            old(project).edited(),
            final(project).edited(),
            ids@,
            track_id,
            time as int,
        ),
        final(project).timeline@.fits(),
        final(project).same_but_edited(*old(project)),
{
    let ghost start = *project;
    project.snapshot_for_undo();
    let ghost kept = project.edited();
    let ghost mut steps: Seq<TimelineView> = seq![project.timeline@];
    let mut cursor: i64 = time;
    let mut i: usize = 0;
    while i < ids.len()
        invariant
            i <= ids@.len(),
            0 <= time,
            in_time(time + length_of_all(start, ids@)),
            project.same_but_edited(start),
            project.history == kept.history,
            project.timeline@.fits(),
            cursor == time + length_of_all(start, ids@.take(i as int)),
            steps.len() == i + 1,
            steps[0] == start.timeline@,
            steps.last() == project.timeline@,
            forall|k: int|
                0 <= k < i ==> dropped(
                    #[trigger] steps[k],
                    steps[k + 1],
                    ids@[k],
                    track_id,
                    time + length_of_all(start, ids@.take(k)),
                    length_in(start, ids@[k]),
                    start.known_audio_only(ids@[k]),
                ),
        decreases ids@.len() - i,
    {
        let id = ids[i];
        let ghost before = project.timeline@;
        proof {
            assert(ids@.take(i + 1).drop_last() =~= ids@.take(i as int));
            assert(ids@.take(i + 1).last() == id);
            lemma_lengths_grow(start, ids@, i + 1);
            lemma_lengths_nonneg(start, ids@.take(i as int));
            assert(project.known_duration(id) == start.known_duration(id));
            assert(project.known_audio_only(id) == start.known_audio_only(id));
        }
        project.add_clip_to_track(id, track_id, cursor);
        let length: i64 = file_length(project, id);
        cursor = cursor + length;
        proof {
            steps = steps.push(project.timeline@);
            assert(steps[i as int] == before);
            assert forall|k: int| 0 <= k < i + 1 implies dropped(
                #[trigger] steps[k],
                steps[k + 1],
                ids@[k],
                track_id,
                time + length_of_all(start, ids@.take(k)),
                length_in(start, ids@[k]),
                start.known_audio_only(ids@[k]),
            ) by {
            }
        }
        i += 1;
    }
    proof {
        assert(kept_for_undo(start.edited(), kept));
        assert(dropped_in_steps(start, steps, ids@, track_id, time as int));
    }
}

/// Putting media files on the timeline keeps every track sound at each step.
pub proof fn law_dropped_files_keep_sound(
    project: ProjectState,
    steps: Seq<TimelineView>,
    ids: Seq<ClipId>,
    track_id: TrackId,
    time: int,
    n: int,
)
    requires
        0 <= time,
        in_time(time + length_of_all(project, ids)),
        dropped_in_steps(project, steps, ids, track_id, time),
        all_sound(steps[0]),
        0 <= n < steps.len(),
    ensures
        all_sound(steps[n]),
    decreases n,
{
    if n > 0 {
        let i = n - 1;
        law_dropped_files_keep_sound(project, steps, ids, track_id, time, i);
        lemma_lengths_grow(project, ids, n);
        lemma_lengths_nonneg(project, ids.take(i));
        assert(ids.take(n).drop_last() =~= ids.take(i));
        law_drop_keeps_sound(
            steps[i],
            steps[i + 1],
            ids[i],
            track_id,
            time + length_of_all(project, ids.take(i)),
            length_in(project, ids[i]),
            project.known_audio_only(ids[i]),
        );
    }
}

/// How long a media file lasts on the timeline: as long as it is known to, but no less
/// than a tenth of a second, and three seconds where its length is not known. Files one
/// after the other last as long as all of them together.
pub proof fn law_lengths_add_up(project: ProjectState, ids: Seq<ClipId>, id: ClipId)
    ensures
        length_of_all(project, Seq::<ClipId>::empty()) == 0,
        length_of_all(project, ids.push(id)) == length_of_all(project, ids) + length_in(project, id),
        !project.clips@.contains_key(id.0) ==> length_in(project, id) == 3_000_000_000,
        project.clips@.contains_key(id.0) ==> match project.clips@[id.0].duration {
            Some(d) => (d >= 100_000_000 ==> length_in(project, id) == d) && (d < 100_000_000
                ==> length_in(project, id) == 100_000_000),
            None => length_in(project, id) == 3_000_000_000,
        },
{
    assert(ids.push(id).drop_last() =~= ids);
}

/// Files with picture and sound that are dropped together stand in a row: each stands on
/// both tracks of the pair, begins where those before it end, lasts as long as it is, and
/// its two clips are linked.
pub proof fn law_dropped_files_stand_in_a_row(
    project: ProjectState,
    steps: Seq<TimelineView>,
    ids: Seq<ClipId>,
    track_id: TrackId,
    time: i64,
    n: int,
    i: int,
)
    requires
        dropped_in_steps(project, steps, ids, track_id, time as int),
        0 <= i < ids.len(),
        steps[i].fits(),
        tracks_differ(steps[i]),
        unique_clips(steps[i + 1]),
        0 <= n < steps[i].video.len(),
        n < steps[i].audio.len(),
        track_id == steps[i].video[n].id || track_id == steps[i].audio[n].id,
        project.clips@.contains_key(ids[i].0) && !project.clips@[ids[i].0].audio_only,
        in_time(time + length_of_all(project, ids.take(i))),
        in_time(time + length_of_all(project, ids.take(i + 1))),
        in_time(length_in(project, ids[i])),
    ensures
        length_of_all(project, ids.take(i + 1)) == length_of_all(project, ids.take(i)) + length_in(
            project,
            ids[i],
        ),
        exists|x: int, y: int|
            0 <= x < steps[i + 1].video[n].clips.len() && 0 <= y < steps[i + 1].audio[n].clips.len()
                && is_new(
                #[trigger] steps[i + 1].video[n].clips[x],
                steps[i + 1].video[n].clips[x].id,
                ids[i],
                steps[i].video[n].id,
                (time + length_of_all(project, ids.take(i))) as i64,
                length_in(project, ids[i]) as i64,
            ) && is_new(
                #[trigger] steps[i + 1].audio[n].clips[y],
                steps[i + 1].audio[n].clips[y].id,
                ids[i],
                steps[i].audio[n].id,
                (time + length_of_all(project, ids.take(i))) as i64,
                length_in(project, ids[i]) as i64,
            ) && steps[i + 1].video[n].clips[x].linked_to == Some(
                steps[i + 1].audio[n].clips[y].id,
            ) && steps[i + 1].audio[n].clips[y].linked_to == Some(
                steps[i + 1].video[n].clips[x].id,
            ),
{
    assert(ids.take(i + 1) =~= ids.take(i).push(ids[i]));
    law_lengths_add_up(project, ids.take(i), ids[i]);
    assert(steps[i] == steps[i]);
    law_dropped_file_stands_twice(
        steps[i],
        steps[i + 1],
        n,
        track_id,
        ids[i],
        (time + length_of_all(project, ids.take(i))) as i64,
        length_in(project, ids[i]) as i64,
    );
}

/// Files that are about to be dropped are drawn where they will stand: in their order,
/// each as long as it lasts, and beginning where those before it end; on the row, and on
/// the row of the paired track where there is one.
pub proof fn law_ghosts_stand_in_a_row(
    project: ProjectState,
    ids: Seq<ClipId>,
    time: int,
    row: int,
    paired: Option<int>,
    i: int,
)
    requires
        0 <= i < ids.len(),
    ensures
        ({
            let all = payload_ghosts(project, ids, time, row, paired);
            let start = (time + length_of_all(project, ids.take(i))) as i64;
            let length = length_in(project, ids[i]) as i64;
            &&& paired is None ==> all.len() == ids.len() && all[i].source == ids[i] && all[i].time
                == start && all[i].duration == length && all[i].row == row as usize
                && !all[i].mismatch
            &&& paired matches Some(p) ==> all.len() == 2 * ids.len() && all[2 * i].source == ids[i]
                && all[2 * i].time == start && all[2 * i].duration == length && all[2 * i].row
                == row as usize && all[2 * i + 1].source == ids[i] && all[2 * i + 1].time == start
                && all[2 * i + 1].duration == length && all[2 * i + 1].row == p as usize
        }),
    decreases ids.len(),
{
    let init = ids.drop_last();
    lemma_ghost_count(project, init, time, row, paired);
    if i < init.len() {
        law_ghosts_stand_in_a_row(project, init, time, row, paired, i);
        assert(init.take(i) =~= ids.take(i));
    } else {
        assert(ids.take(i) =~= init);
    }
}

proof fn lemma_ghost_count(
    project: ProjectState,
    ids: Seq<ClipId>,
    time: int,
    row: int,
    paired: Option<int>,
)
    ensures
        payload_ghosts(project, ids, time, row, paired).len() == if paired is Some {
            2 * ids.len()
        } else {
            ids.len()
        },
    decreases ids.len(),
{
    if ids.len() > 0 {
        lemma_ghost_count(project, ids.drop_last(), time, row, paired);
    }
}

/// A clip that is dragged is drawn at the moment at which it would be put down.
pub proof fn law_ghost_is_where_the_clip_drops(
    t: TimelineView,
    ui: TimelineUiState,
    id: TimelineClipId,
    grab: i64,
    p: Point,
    g: PanelGeometry,
)
    requires
        ui.dragging_clip == Some(id),
        ui.drag_grab_offset == Some(grab),
    ensures
        drop_of(t, id, grab as int, p, g) matches Some(place) ==> drop_time(t, ui, p.x as int, g)
            == place.1,
{
}

/// A clip that is dragged is drawn as long as it is and with what it shows, on the row
/// under the pointer; it is marked as a mismatch exactly where that row holds the other
/// kind of track.
pub proof fn law_ghost_looks_like_the_clip(
    t: TimelineView,
    id: TimelineClipId,
    time: i64,
    row: usize,
    k: int,
    i: int,
)
    requires
        t.clip_place(id) == Some((k, i)),
    ensures
        ({
            let all = clip_ghosts(t, id, time as int, row as int);
            let c = t.tracks()[k].clips[i];
            &&& 1 <= all.len() <= 2
            &&& all[0].source == c.source_id && all[0].duration == c.duration && all[0].time == time
                && all[0].row == row
            &&& all[0].mismatch == (t.tracks()[k].kind != row_track(t, row as int).kind)
            &&& c.linked_to is None ==> all.len() == 1
            &&& all.len() == 2 ==> all[1].source == c.source_id && all[1].duration == c.duration
                && all[1].time == time && !all[1].mismatch
        }),
{
}

proof fn lemma_row_from(t: TimelineView, id: TrackId, from: int, at: int)
    requires
        0 <= from <= at < t.tracks().len(),
        row_track(t, at).id == id,
        forall|r: int|
            0 <= r < t.tracks().len() && r != at ==> (#[trigger] row_track(t, r)).id != id,
    ensures
        row_from(t, id, from) == Some(at),
    decreases at - from,
{
    if from < at {
        assert(row_track(t, from).id != id);
        lemma_row_from(t, id, from + 1, at);
    }
}

/// The rows of a pair lie on either side of the middle, as far from it: each is the row
/// paired with the other.
pub proof fn law_paired_rows_mirror(t: TimelineView, i: int)
    requires
        tracks_differ(t),
        0 <= i < t.video.len(),
        i < t.audio.len(),
    ensures
        paired_row(t, t.video.len() - 1 - i) == Some(t.video.len() + i),
        paired_row(t, t.video.len() + i) == Some(t.video.len() - 1 - i),
{
    let n = t.video.len() as int;
    law_pairing_is_mutual(t, i);
    assert(row_track(t, n - 1 - i) == t.video[i]);
    assert(row_track(t, n + i) == t.audio[i]);
    assert(t.tracks()[i] == t.video[i] && t.tracks()[n + i] == t.audio[i]);
    assert forall|r: int|
        0 <= r < t.tracks().len() && r != n - 1 - i implies (#[trigger] row_track(t, r)).id
        != t.video[i].id by {
        let x = if r < n {
            n - 1 - r
        } else {
            r
        };
        assert(row_track(t, r) == t.tracks()[x]);
        if x < i {
            assert(t.tracks()[x].id != t.tracks()[i].id);
        } else {
            assert(t.tracks()[i].id != t.tracks()[x].id);
        }
    }
    assert forall|r: int|
        0 <= r < t.tracks().len() && r != n + i implies (#[trigger] row_track(t, r)).id
        != t.audio[i].id by {
        let x = if r < n {
            n - 1 - r
        } else {
            r
        };
        assert(row_track(t, r) == t.tracks()[x]);
        if x < n + i {
            assert(t.tracks()[x].id != t.tracks()[n + i].id);
        } else {
            assert(t.tracks()[n + i].id != t.tracks()[x].id);
        }
    }
    lemma_row_from(t, t.video[i].id, 0, n - 1 - i);
    lemma_row_from(t, t.audio[i].id, 0, n + i);
}

/// Files that were dropped together are undone together.
pub proof fn law_dropped_files_are_undone(
    project: ProjectState,
    a: Edited,
    b: Edited,
    end: Edited,
    ids: Seq<ClipId>,
    track_id: TrackId,
    time: int,
)
    requires
        files_dropped(project, a, b, ids, track_id, time),
        stepped_back(b, end),
    ensures
        end.timeline@ == a.timeline@,
        ids.len() == 0 ==> b.timeline@ == a.timeline@,
{
    let (m, steps) = choose|m: Edited, steps: Seq<TimelineView>| #[trigger]
        kept_for_undo(a, m) && b.history == m.history && #[trigger] dropped_in_steps(
            project,
            steps,
            ids,
            track_id,
            time,
        ) && steps[0] == a.timeline@ && steps.last() == b.timeline@;
    law_undo_takes_back_edit(a, m, b, end);
}

} // verus!
