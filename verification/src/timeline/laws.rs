//! What holds of the timeline whatever is done to it.

use vstd::prelude::*;

use crate::ids::{ClipId, TimelineClipId, TrackId};
use crate::project::{added_fresh, added_pair, audio_target, dropped, TrimState};
use crate::time::{in_time, later};
use crate::timeline::clip::TimelineClip;
use crate::timeline::edit::{
    added, lemma_placed_keeps_room, link_followed, link_of, linked_one_way, moved_across,
    moved_across_with_link, moved_on_track, moved_on_track_with_link, new_clip, placed_on, roomy,
    roomy_all, started_at, synced_after_trim, taken_out, timed_like,
};
use crate::timeline::lanes::{
    lemma_clip_place_first, lemma_track_index, lemma_track_index_first, lemma_with_track,
    TimelineView,
};
use crate::timeline::overlap::{all_fit, kept, kept_all, meets, resolved, split_all, split_off};
use crate::timeline::query::{lemma_moved_among, pair_added, pair_moved, pair_removed};
use crate::timeline::remove::{removed, removed_all, removed_single};
use crate::timeline::track::{index_in, lacks, lemma_index_in_first, placed, TrackView};
use crate::timeline::trim::{drawn, settled, trimmed};

verus! {

/// The clips are never on at the same time.
pub open spec fn apart(c: TimelineClip, d: TimelineClip) -> bool {
    c.end_at() <= d.timeline_start || d.end_at() <= c.timeline_start
}

/// No two clips are on at the same time.
pub open spec fn disjoint(clips: Seq<TimelineClip>) -> bool {
    forall|i: int, j: int|
        0 <= i < j < clips.len() ==> apart(#[trigger] clips[i], #[trigger] clips[j])
}

/// A clip that lasts, with a source window of its length.
pub open spec fn sound_clip(c: TimelineClip) -> bool {
    c.duration >= 0 && c.window_matches()
}

/// What every editing operation keeps of a track: the clips lie within the time
/// limits, do not overlap, last, and show as much of their source as they last.
pub open spec fn sound(clips: Seq<TimelineClip>) -> bool {
    &&& all_fit(clips)
    &&& disjoint(clips)
    &&& forall|i: int| 0 <= i < clips.len() ==> sound_clip(#[trigger] clips[i])
}

/// All tracks are sound.
pub open spec fn all_sound(t: TimelineView) -> bool {
    forall|k: int| 0 <= k < t.tracks().len() ==> sound((#[trigger] t.tracks()[k]).clips)
}

/// Some clip shows, at `t`, the position `x` of the source.
pub open spec fn shows(clips: Seq<TimelineClip>, t: int, source: ClipId, x: int) -> bool {
    exists|i: int|
        0 <= i < clips.len() && #[trigger] clips[i].covers(t) && clips[i].source_id == source
            && clips[i].source_at(t) == x
}

/// `p` is a part of `c`: on at no other time, and showing the same.
pub open spec fn part_of(p: TimelineClip, c: TimelineClip) -> bool {
    &&& c.timeline_start <= p.timeline_start
    &&& p.end_at() <= c.end_at()
    &&& p.source_id == c.source_id
    &&& p.source_in - p.timeline_start == c.source_in - c.timeline_start
}

proof fn lemma_pieces(c: TimelineClip, a: int, b: int)
    requires
        c.fits(),
        in_time(a),
        in_time(b),
    ensures
        kept(c, a, b) matches Some(k) ==> part_of(k, c) && !meets(k, a, b) && k.fits() && (
        sound_clip(c) ==> sound_clip(k)),
        split_off(c, a, b) matches Some(s) ==> part_of(s, c) && !meets(s, a, b) && s.fits() && (
        sound_clip(c) ==> sound_clip(s)) && (a <= b ==> apart(kept(c, a, b)->0, s)),
        split_off(c, a, b) is Some ==> kept(c, a, b) is Some,
        forall|t: int|
            #![trigger c.covers(t)]
            (t < a || b <= t) && c.covers(t) ==> (kept(c, a, b) matches Some(k) && k.covers(t)) || (
            split_off(c, a, b) matches Some(s) && s.covers(t)),
{
}

/// Each clip of `after` is a part of some clip of `before` and stays out of the
/// range.
spec fn parts_outside(
    before: Seq<TimelineClip>,
    after: Seq<TimelineClip>,
    a: int,
    b: int,
) -> bool {
    forall|j: int|
        0 <= j < after.len() ==> !meets(#[trigger] after[j], a, b) && after[j].fits() && exists|
            i: int,
        |
            0 <= i < before.len() && part_of(after[j], #[trigger] before[i]) && (sound_clip(
                before[i],
            ) ==> sound_clip(after[j]))
}

proof fn lemma_parts(clips: Seq<TimelineClip>, a: int, b: int)
    requires
        all_fit(clips),
        in_time(a),
        in_time(b),
    ensures
        parts_outside(clips, kept_all(clips, a, b), a, b),
        parts_outside(clips, split_all(clips, a, b), a, b),
    decreases clips.len(),
{
    if clips.len() > 0 {
        let init = clips.drop_last();
        let n = init.len() as int;
        lemma_parts(init, a, b);
        lemma_pieces(clips.last(), a, b);
        let k = kept_all(clips, a, b);
        let k0 = kept_all(init, a, b);
        assert forall|j: int| 0 <= j < k.len() implies !meets(#[trigger] k[j], a, b)
            && k[j].fits() && exists|i: int|
            0 <= i < clips.len() && part_of(k[j], #[trigger] clips[i]) && (sound_clip(clips[i])
                ==> sound_clip(k[j])) by {
            if j < k0.len() {
                assert(k[j] == k0[j]);
                let i = choose|i: int|
                    0 <= i < n && part_of(k0[j], #[trigger] init[i]) && (sound_clip(init[i])
                        ==> sound_clip(k0[j]));
                assert(init[i] == clips[i]);
            } else {
                assert(part_of(k[j], clips[n]));
            }
        }
        let s = split_all(clips, a, b);
        let s0 = split_all(init, a, b);
        assert forall|j: int| 0 <= j < s.len() implies !meets(#[trigger] s[j], a, b)
            && s[j].fits() && exists|i: int|
            0 <= i < clips.len() && part_of(s[j], #[trigger] clips[i]) && (sound_clip(clips[i])
                ==> sound_clip(s[j])) by {
            if j < s0.len() {
                assert(s[j] == s0[j]);
                let i = choose|i: int|
                    0 <= i < n && part_of(s0[j], #[trigger] init[i]) && (sound_clip(init[i])
                        ==> sound_clip(s0[j]));
                assert(init[i] == clips[i]);
            } else {
                assert(part_of(s[j], clips[n]));
            }
        }
    }
}

/// The pieces that taking a range leaves do not overlap where the clips did not.
proof fn lemma_pieces_disjoint(clips: Seq<TimelineClip>, a: int, b: int)
    requires
        all_fit(clips),
        disjoint(clips),
        in_time(a),
        in_time(b),
        a <= b,
    ensures
        disjoint(kept_all(clips, a, b)),
        disjoint(split_all(clips, a, b)),
        forall|i: int, j: int|
            0 <= i < kept_all(clips, a, b).len() && 0 <= j < split_all(clips, a, b).len()
                ==> apart(
                #[trigger] kept_all(clips, a, b)[i],
                #[trigger] split_all(clips, a, b)[j],
            ),
    decreases clips.len(),
{
    if clips.len() > 0 {
        let init = clips.drop_last();
        let last = clips.last();
        let n = init.len() as int;
        lemma_pieces_disjoint(init, a, b);
        lemma_parts(init, a, b);
        lemma_pieces(last, a, b);
        let k0 = kept_all(init, a, b);
        let s0 = split_all(init, a, b);
        assert forall|p: TimelineClip, j: int|
            part_of(p, last) && 0 <= j < k0.len() implies #[trigger] apart(k0[j], p) by {
            let i = choose|i: int| 0 <= i < n && part_of(k0[j], #[trigger] init[i]);
            assert(apart(clips[i], clips[n]));
        }
        assert forall|p: TimelineClip, j: int|
            part_of(p, last) && 0 <= j < s0.len() implies #[trigger] apart(s0[j], p) by {
            let i = choose|i: int| 0 <= i < n && part_of(s0[j], #[trigger] init[i]);
            assert(apart(clips[i], clips[n]));
        }
        let k = kept_all(clips, a, b);
        let s = split_all(clips, a, b);
        assert forall|i: int, j: int| 0 <= i < k.len() && 0 <= j < s.len() implies apart(
            #[trigger] k[i],
            #[trigger] s[j],
        ) by {
            if i < k0.len() && j < s0.len() {
                assert(apart(k0[i], s0[j]));
            } else if i < k0.len() {
                assert(apart(k0[i], s[j]));
            } else if j < s0.len() {
                assert(apart(s0[j], k[i]));
            }
        }
        assert forall|i: int, j: int| 0 <= i < j < k.len() implies apart(
            #[trigger] k[i],
            #[trigger] k[j],
        ) by {
            if j < k0.len() {
                assert(apart(k0[i], k0[j]));
            } else {
                assert(apart(k0[i], k[j]));
            }
        }
        assert forall|i: int, j: int| 0 <= i < j < s.len() implies apart(
            #[trigger] s[i],
            #[trigger] s[j],
        ) by {
            if j < s0.len() {
                assert(apart(s0[i], s0[j]));
            } else {
                assert(apart(s0[i], s[j]));
            }
        }
    }
}

/// Once a range is taken, no clip reaches into it.
pub proof fn law_range_is_free(
    before: Seq<TimelineClip>,
    after: Seq<TimelineClip>,
    a: int,
    b: int,
)
    requires
        all_fit(before),
        in_time(a),
        in_time(b),
        resolved(before, after, a, b),
    ensures
        forall|j: int| 0 <= j < after.len() ==> !meets(#[trigger] after[j], a, b),
{
    lemma_resolved_parts(before, after, a, b);
}

proof fn lemma_resolved_parts(
    before: Seq<TimelineClip>,
    after: Seq<TimelineClip>,
    a: int,
    b: int,
)
    requires
        all_fit(before),
        in_time(a),
        in_time(b),
        resolved(before, after, a, b),
    ensures
        parts_outside(before, after, a, b),
{
    lemma_parts(before, a, b);
    let k = kept_all(before, a, b);
    let s = split_all(before, a, b);
    assert forall|j: int| 0 <= j < after.len() implies !meets(#[trigger] after[j], a, b)
        && after[j].fits() && exists|i: int|
        0 <= i < before.len() && part_of(after[j], #[trigger] before[i]) && (sound_clip(before[i])
            ==> sound_clip(after[j])) by {
        if j < k.len() {
            assert(after[j] == after.take(k.len() as int)[j]);
            let i = choose|i: int|
                0 <= i < before.len() && part_of(k[j], #[trigger] before[i]) && (sound_clip(
                    before[i],
                ) ==> sound_clip(k[j]));
            assert(part_of(after[j], before[i]));
        } else {
            let m = j - k.len();
            assert(after[k.len() + m].same_but_id(s[m]));
            let i = choose|i: int|
                0 <= i < before.len() && part_of(s[m], #[trigger] before[i]) && (sound_clip(
                    before[i],
                ) ==> sound_clip(s[m]));
            assert(part_of(after[j], before[i]));
        }
    }
}

proof fn lemma_shown_by_pieces(
    clips: Seq<TimelineClip>,
    a: int,
    b: int,
    i: int,
    t: int,
)
    requires
        all_fit(clips),
        in_time(a),
        in_time(b),
        t < a || b <= t,
        0 <= i < clips.len(),
        clips[i].covers(t),
    ensures
        (exists|j: int|
            0 <= j < kept_all(clips, a, b).len() && #[trigger] kept_all(clips, a, b)[j].covers(t)
                && part_of(kept_all(clips, a, b)[j], clips[i])) || (exists|j: int|
            0 <= j < split_all(clips, a, b).len() && #[trigger] split_all(clips, a, b)[j].covers(t)
                && part_of(split_all(clips, a, b)[j], clips[i])),
    decreases clips.len(),
{
    let init = clips.drop_last();
    let k = kept_all(clips, a, b);
    let s = split_all(clips, a, b);
    let k0 = kept_all(init, a, b);
    let s0 = split_all(init, a, b);
    if i == clips.len() - 1 {
        lemma_pieces(clips[i], a, b);
        if kept(clips[i], a, b) is Some && kept(clips[i], a, b)->0.covers(t) {
            assert(k[k.len() - 1].covers(t));
        } else {
            assert(s[s.len() - 1].covers(t));
        }
    } else {
        lemma_shown_by_pieces(init, a, b, i, t);
        if exists|j: int|
            0 <= j < k0.len() && #[trigger] k0[j].covers(t) && part_of(k0[j], init[i]) {
            let j = choose|j: int|
                0 <= j < k0.len() && #[trigger] k0[j].covers(t) && part_of(k0[j], init[i]);
            assert(k[j] == k0[j]);
            assert(k[j].covers(t));
        } else {
            let j = choose|j: int|
                0 <= j < s0.len() && #[trigger] s0[j].covers(t) && part_of(s0[j], init[i]);
            assert(s[j] == s0[j]);
            assert(s[j].covers(t));
        }
    }
}

/// Outside the range that is taken, the track shows at every moment exactly what
/// it showed before.
pub proof fn law_outside_is_unchanged(
    before: Seq<TimelineClip>,
    after: Seq<TimelineClip>,
    a: int,
    b: int,
    t: int,
    source: ClipId,
    x: int,
)
    requires
        all_fit(before),
        in_time(a),
        in_time(b),
        resolved(before, after, a, b),
        t < a || b <= t,
    ensures
        shows(before, t, source, x) == shows(after, t, source, x),
{
    let k = kept_all(before, a, b);
    let s = split_all(before, a, b);
    if shows(after, t, source, x) {
        lemma_resolved_parts(before, after, a, b);
        let j = choose|j: int|
            0 <= j < after.len() && #[trigger] after[j].covers(t) && after[j].source_id == source
                && after[j].source_at(t) == x;
        assert(!meets(after[j], a, b));
        let i = choose|i: int| 0 <= i < before.len() && part_of(after[j], #[trigger] before[i]);
        assert(before[i].covers(t));
    }
    if shows(before, t, source, x) {
        let i = choose|i: int|
            0 <= i < before.len() && #[trigger] before[i].covers(t) && before[i].source_id
                == source && before[i].source_at(t) == x;
        lemma_shown_by_pieces(before, a, b, i, t);
        if exists|j: int|
            0 <= j < k.len() && #[trigger] k[j].covers(t) && part_of(k[j], before[i]) {
            let j = choose|j: int|
                0 <= j < k.len() && #[trigger] k[j].covers(t) && part_of(k[j], before[i]);
            assert(after.take(k.len() as int)[j] == after[j]);
            assert(after[j].covers(t));
        } else {
            let j = choose|j: int|
                0 <= j < s.len() && #[trigger] s[j].covers(t) && part_of(s[j], before[i]);
            assert(after[k.len() + j].same_but_id(s[j]));
            assert(after[k.len() + j].covers(t));
        }
    }
}

/// Taking a range keeps a track sound.
pub proof fn law_take_range_keeps_sound(
    before: Seq<TimelineClip>,
    after: Seq<TimelineClip>,
    a: int,
    b: int,
)
    requires
        sound(before),
        in_time(a),
        in_time(b),
        a <= b,
        resolved(before, after, a, b),
    ensures
        sound(after),
{
    lemma_resolved_parts(before, after, a, b);
    lemma_pieces_disjoint(before, a, b);
    let k = kept_all(before, a, b);
    let s = split_all(before, a, b);
    assert forall|i: int, j: int| 0 <= i < j < after.len() implies apart(
        #[trigger] after[i],
        #[trigger] after[j],
    ) by {
        if i < k.len() {
            assert(after.take(k.len() as int)[i] == after[i]);
        } else {
            assert(after[k.len() + (i - k.len())].same_but_id(s[i - k.len()]));
        }
        if j < k.len() {
            assert(after.take(k.len() as int)[j] == after[j]);
            assert(apart(k[i], k[j]));
        } else {
            assert(after[k.len() + (j - k.len())].same_but_id(s[j - k.len()]));
            if i < k.len() {
                assert(apart(k[i], s[j - k.len()]));
            } else {
                assert(apart(s[i - k.len()], s[j - k.len()]));
            }
        }
    }
}

/// Placing a clip keeps a track sound.
pub proof fn law_place_keeps_sound(
    before: Seq<TimelineClip>,
    after: Seq<TimelineClip>,
    c: TimelineClip,
)
    requires
        sound(before),
        c.fits(),
        sound_clip(c),
        placed(before, after, c),
    ensures
        sound(after),
{
    let rest = after.drop_last();
    let a = c.timeline_start as int;
    let b = c.end_at();
    law_take_range_keeps_sound(before, rest, a, b);
    law_range_is_free(before, rest, a, b);
    assert forall|i: int, j: int| 0 <= i < j < after.len() implies apart(
        #[trigger] after[i],
        #[trigger] after[j],
    ) by {
        assert(rest[i] == after[i]);
        if j < rest.len() {
            assert(rest[j] == after[j]);
        } else {
            assert(!meets(rest[i], a, b));
        }
    }
    assert forall|i: int| 0 <= i < after.len() implies sound_clip(#[trigger] after[i])
        && after[i].fits() by {
        if i < rest.len() {
            assert(rest[i] == after[i]);
        }
    }
}

proof fn lemma_remove_keeps_sound(clips: Seq<TimelineClip>, i: int)
    requires
        sound(clips),
        0 <= i < clips.len(),
    ensures
        sound(clips.remove(i)),
{
    let r = clips.remove(i);
    assert forall|m: int, n: int| 0 <= m < n < r.len() implies apart(
        #[trigger] r[m],
        #[trigger] r[n],
    ) by {
        let m0 = if m < i {
            m
        } else {
            m + 1
        };
        let n0 = if n < i {
            n
        } else {
            n + 1
        };
        assert(r[m] == clips[m0]);
        assert(r[n] == clips[n0]);
        assert(apart(clips[m0], clips[n0]));
    }
}

proof fn lemma_placed_on_keeps_sound(
    before: TimelineView,
    after: TimelineView,
    k: int,
    rest: Seq<TimelineClip>,
    c: TimelineClip,
)
    requires
        all_sound(before),
        0 <= k < before.tracks().len(),
        sound(rest),
        c.fits(),
        sound_clip(c),
        placed_on(before, after, k, rest, c),
    ensures
        all_sound(after),
{
    law_place_keeps_sound(rest, after.tracks()[k].clips, c);
    lemma_with_track(
        before,
        k,
        TrackView {
            clips: after.tracks()[k].clips,
            ..before.tracks()[k]
        },
    );
    assert forall|j: int| 0 <= j < after.tracks().len() implies sound(
        (#[trigger] after.tracks()[j]).clips,
    ) by {
        if j != k {
            assert(after.tracks()[j] == before.tracks()[j]);
        }
    }
}

/// Moving a clip along its track keeps every track sound.
pub proof fn law_move_keeps_sound(
    before: TimelineView,
    after: TimelineView,
    track_id: TrackId,
    clip_id: TimelineClipId,
    pos: int,
)
    requires
        all_sound(before),
        0 <= pos,
        in_time(pos),
        roomy_all(before, pos),
        moved_on_track(before, after, track_id, clip_id, pos),
    ensures
        all_sound(after),
{
    lemma_track_index_first(before, track_id);
    if let Some(k) = before.track_index(track_id) {
        let clips = before.tracks()[k].clips;
        assert(sound(clips));
        assert(roomy(clips, pos));
        lemma_index_in_first(clips, clip_id);
        if let Some(i) = index_in(clips, clip_id) {
            lemma_remove_keeps_sound(clips, i);
            lemma_placed_on_keeps_sound(
                before,
                after,
                k,
                clips.remove(i),
                started_at(clips[i], pos),
            );
        }
    }
}

proof fn lemma_taken_out_sound(t: TimelineView, p: (int, int))
    requires
        all_sound(t),
        0 <= p.0 < t.tracks().len(),
        0 <= p.1 < t.tracks()[p.0].clips.len(),
    ensures
        all_sound(taken_out(t, p)),
        taken_out(t, p).tracks().len() == t.tracks().len(),
{
    let clips = t.tracks()[p.0].clips;
    lemma_remove_keeps_sound(clips, p.1);
    lemma_with_track(
        t,
        p.0,
        TrackView { clips: clips.remove(p.1), ..t.tracks()[p.0] },
    );
    let after = taken_out(t, p);
    assert forall|j: int| 0 <= j < after.tracks().len() implies sound(
        (#[trigger] after.tracks()[j]).clips,
    ) by {
        if j != p.0 {
            assert(after.tracks()[j] == t.tracks()[j]);
        }
    }
}

/// Moving a clip to another track keeps every track sound.
pub proof fn law_move_across_keeps_sound(
    before: TimelineView,
    after: TimelineView,
    clip_id: TimelineClipId,
    dst: TrackId,
    pos: int,
)
    requires
        all_sound(before),
        0 <= pos,
        in_time(pos),
        roomy_all(before, pos),
        moved_across(before, after, clip_id, dst, pos),
    ensures
        all_sound(after),
{
    lemma_clip_place_first(before, clip_id);
    if let Some(p) = before.clip_place(clip_id) {
        let clips = before.tracks()[p.0].clips;
        assert(sound(clips));
        assert(roomy(clips, pos));
        lemma_taken_out_sound(before, p);
        let mid = taken_out(before, p);
        lemma_track_index_first(mid, dst);
        if let Some(k) = mid.track_index(dst) {
            let c = before.clip_at(p);
            assert(sound_clip(clips[p.1]));
            lemma_placed_on_keeps_sound(
                mid,
                after,
                k,
                mid.tracks()[k].clips,
                TimelineClip { timeline_start: pos as i64, track_id: dst, ..c },
            );
        }
    }
}

/// Adding a clip keeps every track sound.
pub proof fn law_add_keeps_sound(before: TimelineView, after: TimelineView, c: TimelineClip)
    requires
        all_sound(before),
        c.fits(),
        sound_clip(c),
        added(before, after, c),
    ensures
        all_sound(after),
{
    lemma_track_index_first(before, c.track_id);
    if let Some(k) = before.track_index(c.track_id) {
        lemma_placed_on_keeps_sound(before, after, k, before.tracks()[k].clips, c);
    }
}

/// Bringing the linked clip in line after a trim keeps every track sound.
pub proof fn law_sync_after_trim_keeps_sound(
    before: TimelineView,
    after: TimelineView,
    id: TimelineClipId,
)
    requires
        all_sound(before),
        synced_after_trim(before, after, id),
    ensures
        all_sound(after),
{
    lemma_clip_place_first(before, id);
    if let Some(other) = link_of(before, id) {
        lemma_clip_place_first(before, other);
        if let Some(q) = before.clip_place(other) {
            let p = before.clip_place(id)->0;
            assert(sound(before.tracks()[p.0].clips));
            assert(sound_clip(before.tracks()[p.0].clips[p.1]));
            lemma_taken_out_sound(before, q);
            let mid = taken_out(before, q);
            lemma_track_index_first(mid, before.tracks()[q.0].id);
            if let Some(k) = mid.track_index(before.tracks()[q.0].id) {
                lemma_placed_on_keeps_sound(
                    mid,
                    after,
                    k,
                    mid.tracks()[k].clips,
                    timed_like(before.clip_at(q), before.clip_at(p)),
                );
            }
        }
    }
}

proof fn lemma_move_keeps_room(
    before: TimelineView,
    after: TimelineView,
    track_id: TrackId,
    clip_id: TimelineClipId,
    pos: int,
)
    requires
        all_sound(before),
        0 <= pos,
        in_time(pos),
        roomy_all(before, pos),
        moved_on_track(before, after, track_id, clip_id, pos),
    ensures
        roomy_all(after, pos),
{
    lemma_track_index_first(before, track_id);
    if let Some(k) = before.track_index(track_id) {
        let clips = before.tracks()[k].clips;
        assert(sound(clips));
        assert(roomy(clips, pos));
        lemma_index_in_first(clips, clip_id);
        if let Some(i) = index_in(clips, clip_id) {
            lemma_room_on(before, after, k, clips.remove(i), started_at(clips[i], pos), pos);
        }
    }
}

proof fn lemma_room_on(
    before: TimelineView,
    after: TimelineView,
    k: int,
    rest: Seq<TimelineClip>,
    c: TimelineClip,
    pos: int,
)
    requires
        0 <= k < before.tracks().len(),
        0 <= pos,
        in_time(pos),
        in_time(pos + c.duration),
        roomy_all(before, pos),
        roomy(rest, pos),
        all_fit(rest),
        c.fits(),
        placed_on(before, after, k, rest, c),
    ensures
        roomy_all(after, pos),
{
    lemma_placed_keeps_room(rest, after.tracks()[k].clips, c, pos);
    lemma_with_track(
        before,
        k,
        TrackView { clips: after.tracks()[k].clips, ..before.tracks()[k] },
    );
    assert forall|j: int| 0 <= j < after.tracks().len() implies roomy(
        (#[trigger] after.tracks()[j]).clips,
        pos,
    ) by {
        if j != k {
            assert(after.tracks()[j] == before.tracks()[j]);
        }
    }
}

proof fn lemma_follow_keeps_sound(
    before: TimelineView,
    after: TimelineView,
    clip_id: TimelineClipId,
    pos: int,
)
    requires
        all_sound(before),
        0 <= pos,
        in_time(pos),
        roomy_all(before, pos),
        link_followed(before, after, clip_id, pos),
    ensures
        all_sound(after),
{
    if let Some(other) = link_of(before, clip_id) {
        if let Some(p) = before.clip_place(other) {
            law_move_keeps_sound(before, after, before.tracks()[p.0].id, other, pos);
        }
    }
}

/// Moving a clip together with the clip linked to it keeps every track sound.
pub proof fn law_linked_move_keeps_sound(
    before: TimelineView,
    after: TimelineView,
    track_id: TrackId,
    clip_id: TimelineClipId,
    pos: int,
)
    requires
        all_sound(before),
        0 <= pos,
        in_time(pos),
        roomy_all(before, pos),
        moved_on_track_with_link(before, after, track_id, clip_id, pos),
    ensures
        all_sound(after),
{
    let mid = choose|mid: TimelineView| #[trigger]
        moved_on_track(before, mid, track_id, clip_id, pos) && link_followed(
            mid,
            after,
            clip_id,
            pos,
        );
    law_move_keeps_sound(before, mid, track_id, clip_id, pos);
    lemma_move_keeps_room(before, mid, track_id, clip_id, pos);
    lemma_follow_keeps_sound(mid, after, clip_id, pos);
}

/// Moving a clip to another track, with the clip linked to it, keeps every track
/// sound.
pub proof fn law_linked_move_across_keeps_sound(
    before: TimelineView,
    after: TimelineView,
    clip_id: TimelineClipId,
    dst: TrackId,
    pos: int,
)
    requires
        all_sound(before),
        0 <= pos,
        in_time(pos),
        roomy_all(before, pos),
        moved_across_with_link(before, after, clip_id, dst, pos),
    ensures
        all_sound(after),
{
    let mid = choose|mid: TimelineView| #[trigger]
        moved_across(before, mid, clip_id, dst, pos) && link_followed(mid, after, clip_id, pos);
    law_move_across_keeps_sound(before, mid, clip_id, dst, pos);
    lemma_clip_place_first(before, clip_id);
    if let Some(p) = before.clip_place(clip_id) {
        let clips = before.tracks()[p.0].clips;
        assert(sound(clips));
        assert(roomy(clips, pos));
        lemma_taken_out_sound(before, p);
        let out = taken_out(before, p);
        lemma_with_track(before, p.0, TrackView { clips: clips.remove(p.1), ..before.tracks()[p.0] });
        assert forall|j: int| 0 <= j < out.tracks().len() implies roomy(
            (#[trigger] out.tracks()[j]).clips,
            pos,
        ) by {
            assert(roomy(before.tracks()[j].clips, pos));
        }
        lemma_track_index_first(out, dst);
        if let Some(k) = out.track_index(dst) {
            let c = before.clip_at(p);
            assert(sound(out.tracks()[k].clips));
            lemma_room_on(
                out,
                mid,
                k,
                out.tracks()[k].clips,
                TimelineClip { timeline_start: pos as i64, track_id: dst, ..c },
                pos,
            );
        }
    }
    lemma_follow_keeps_sound(mid, after, clip_id, pos);
}

/// No two clips of the timeline have the same identifier.
pub open spec fn unique_clips(t: TimelineView) -> bool {
    forall|k: int, i: int, m: int, j: int|
        #![trigger t.tracks()[k].clips[i], t.tracks()[m].clips[j]]
        0 <= k < t.tracks().len() && 0 <= i < t.tracks()[k].clips.len() && 0 <= m
            < t.tracks().len() && 0 <= j < t.tracks()[m].clips.len() && t.tracks()[k].clips[i].id
            == t.tracks()[m].clips[j].id ==> k == m && i == j
}

proof fn lemma_unique_place(t: TimelineView, k: int, i: int)
    requires
        unique_clips(t),
        0 <= k < t.tracks().len(),
        0 <= i < t.tracks()[k].clips.len(),
    ensures
        t.clip_place(t.tracks()[k].clips[i].id) == Some((k, i)),
        index_in(t.tracks()[k].clips, t.tracks()[k].clips[i].id) == Some(i),
{
    let id = t.tracks()[k].clips[i].id;
    lemma_clip_place_first(t, id);
    assert(!lacks(t.tracks()[k].clips, id));
    assert(!t.lacks_clip(id));
    let p = t.clip_place(id)->0;
    assert(t.tracks()[p.0].clips[p.1].id == t.tracks()[k].clips[i].id);
    lemma_index_in_first(t.tracks()[k].clips, id);
    let j = index_in(t.tracks()[k].clips, id)->0;
    assert(t.tracks()[k].clips[j].id == t.tracks()[k].clips[i].id);
}

/// Linked clips move together: once a clip has been moved along its track, and
/// provided the identifiers on the timeline differ, both it and the clip linked to
/// it on another track start at the new position, and are otherwise what they were.
pub proof fn law_linked_clips_move_together(
    before: TimelineView,
    mid: TimelineView,
    after: TimelineView,
    k: int,
    i: int,
    m: int,
    j: int,
    pos: int,
)
    requires
        0 <= k < before.tracks().len(),
        0 <= i < before.tracks()[k].clips.len(),
        0 <= m < before.tracks().len(),
        0 <= j < before.tracks()[m].clips.len(),
        k != m,
        unique_clips(before),
        unique_clips(mid),
        before.track_first_at(before.tracks()[k].id, k),
        before.track_first_at(before.tracks()[m].id, m),
        before.tracks()[k].clips[i].linked_to == Some(before.tracks()[m].clips[j].id),
        moved_on_track(
            before,
            mid,
            before.tracks()[k].id,
            before.tracks()[k].clips[i].id,
            pos,
        ),
        link_followed(mid, after, before.tracks()[k].clips[i].id, pos),
    ensures
        after.tracks()[k].clips.last() == started_at(before.tracks()[k].clips[i], pos),
        after.tracks()[m].clips.last() == started_at(before.tracks()[m].clips[j], pos),
{
    let c = before.tracks()[k].clips[i];
    let d = before.tracks()[m].clips[j];
    lemma_track_index(before, before.tracks()[k].id, k);
    lemma_unique_place(before, k, i);
    lemma_with_track(
        before,
        k,
        TrackView { clips: mid.tracks()[k].clips, ..before.tracks()[k] },
    );
    assert(mid.tracks()[m] == before.tracks()[m]);
    let last = mid.tracks()[k].clips.len() - 1;
    assert(mid.tracks()[k].clips[last] == started_at(c, pos));
    lemma_unique_place(mid, k, last);
    lemma_unique_place(mid, m, j);
    assert(link_of(mid, c.id) == Some(d.id));
    assert(mid.track_first_at(mid.tracks()[m].id, m)) by {
        assert forall|n: int| 0 <= n < m implies (#[trigger] mid.tracks()[n]).id
            != mid.tracks()[m].id by {
            assert(before.tracks()[n].id != before.tracks()[m].id);
        }
    }
    lemma_track_index(mid, mid.tracks()[m].id, m);
    lemma_with_track(mid, m, TrackView { clips: after.tracks()[m].clips, ..mid.tracks()[m] });
    assert(after.tracks()[k] == mid.tracks()[k]);
}

/// Taking a clip off the timeline keeps every track sound.
pub proof fn law_remove_keeps_sound(t: TimelineView, id: TimelineClipId)
    requires
        all_sound(t),
    ensures
        all_sound(removed_single(t, id)),
        all_sound(removed(t, id)),
{
    lemma_remove_single_keeps_sound(t, id);
    if let Some(other) = link_of(t, id) {
        lemma_remove_single_keeps_sound(removed_single(t, id), other);
    }
}

proof fn lemma_remove_single_keeps_sound(t: TimelineView, id: TimelineClipId)
    requires
        all_sound(t),
    ensures
        all_sound(removed_single(t, id)),
{
    lemma_clip_place_first(t, id);
    if let Some(p) = t.clip_place(id) {
        lemma_taken_out_sound(t, p);
    }
}

/// Taking several clips off the timeline keeps every track sound.
pub proof fn law_remove_all_keeps_sound(t: TimelineView, ids: Seq<TimelineClipId>)
    requires
        all_sound(t),
    ensures
        all_sound(removed_all(t, ids)),
    decreases ids.len(),
{
    if ids.len() > 0 {
        law_remove_all_keeps_sound(t, ids.drop_last());
        law_remove_keeps_sound(removed_all(t, ids.drop_last()), ids.last());
    }
}

proof fn lemma_all_sound(t: TimelineView)
    requires
        forall|i: int| 0 <= i < t.video.len() ==> sound((#[trigger] t.video[i]).clips),
        forall|i: int| 0 <= i < t.audio.len() ==> sound((#[trigger] t.audio[i]).clips),
    ensures
        all_sound(t),
{
    assert forall|k: int| 0 <= k < t.tracks().len() implies sound(
        (#[trigger] t.tracks()[k]).clips,
    ) by {
        if k < t.video.len() {
            assert(t.tracks()[k] == t.video[k]);
        } else {
            assert(t.tracks()[k] == t.audio[k - t.video.len()]);
        }
    }
}

proof fn lemma_lanes_sound(t: TimelineView)
    requires
        all_sound(t),
    ensures
        forall|i: int| 0 <= i < t.video.len() ==> sound((#[trigger] t.video[i]).clips),
        forall|i: int| 0 <= i < t.audio.len() ==> sound((#[trigger] t.audio[i]).clips),
{
    assert forall|i: int| 0 <= i < t.video.len() implies sound((#[trigger] t.video[i]).clips) by {
        assert(t.tracks()[i] == t.video[i]);
    }
    assert forall|i: int| 0 <= i < t.audio.len() implies sound((#[trigger] t.audio[i]).clips) by {
        assert(t.tracks()[t.video.len() + i] == t.audio[i]);
    }
}

/// Adding a pair of tracks keeps every track sound.
pub proof fn law_add_pair_keeps_sound(before: TimelineView, after: TimelineView)
    requires
        all_sound(before),
        pair_added(before, after),
    ensures
        all_sound(after),
{
    lemma_lanes_sound(before);
    assert forall|i: int| 0 <= i < after.video.len() implies sound(
        (#[trigger] after.video[i]).clips,
    ) by {
        if i < before.video.len() {
            assert(after.video.drop_last()[i] == before.video[i]);
        }
    }
    assert forall|i: int| 0 <= i < after.audio.len() implies sound(
        (#[trigger] after.audio[i]).clips,
    ) by {
        if i < before.audio.len() {
            assert(after.audio.drop_last()[i] == before.audio[i]);
        }
    }
    lemma_all_sound(after);
}

/// Removing a pair of tracks, or moving it, keeps every track sound.
pub proof fn law_pairs_keep_sound(t: TimelineView, idx: int, to: int)
    requires
        all_sound(t),
        0 <= idx,
        0 <= to,
    ensures
        all_sound(pair_removed(t, idx)),
        all_sound(pair_moved(t, idx, to)),
{
    lemma_lanes_sound(t);
    lemma_all_sound(pair_removed(t, idx));
    let after = pair_moved(t, idx, to);
    if after != t {
        assert forall|i: int| 0 <= i < after.video.len() implies sound(
            (#[trigger] after.video[i]).clips,
        ) by {
            lemma_moved_among(t.video, idx, to, i);
        }
        assert forall|i: int| 0 <= i < after.audio.len() implies sound(
            (#[trigger] after.audio[i]).clips,
        ) by {
            lemma_moved_among(t.audio, idx, to, i);
        }
        lemma_all_sound(after);
    }
}

/// While an end of a clip is drawn, and provided the identifiers on the timeline differ,
/// no other clip changes than that one and the clip linked to it on another track, which
/// takes over its times.
pub proof fn law_drawing_changes_no_other_clip(
    t: TimelineView,
    trim: TrimState,
    pointer: int,
    limit: int,
    k: int,
    i: int,
    m: int,
    j: int,
)
    requires
        0 <= k < t.tracks().len(),
        0 <= i < t.tracks()[k].clips.len(),
        0 <= m < t.tracks().len(),
        0 <= j < t.tracks()[m].clips.len(),
        k != m,
        unique_clips(t),
        t.tracks()[k].clips[i].id == trim.clip_id,
        t.tracks()[k].clips[i].linked_to == Some(t.tracks()[m].clips[j].id),
    ensures
        ({
            let after = drawn(t, trim, pointer, limit).tracks();
            let c = trimmed(t.tracks()[k].clips[i], trim, pointer, limit);
            &&& after.len() == t.tracks().len()
            &&& after[k].clips == t.tracks()[k].clips.update(i, c)
            &&& after[m].clips == t.tracks()[m].clips.update(
                j,
                timed_like(t.tracks()[m].clips[j], c),
            )
            &&& forall|n: int|
                0 <= n < after.len() && n != k && n != m ==> #[trigger] after[n] == t.tracks()[n]
        }),
{
    let b = t.tracks()[k].clips[i];
    let d = t.tracks()[m].clips[j];
    let c = trimmed(b, trim, pointer, limit);
    lemma_unique_place(t, k, i);
    let changed = t.tracks()[k].clips.update(i, c);
    lemma_with_track(t, k, TrackView { clips: changed, ..t.tracks()[k] });
    let mid = t.with_clips(k, changed);
    assert(unique_clips(mid)) by {
        assert forall|x: int, y: int, z: int, w: int|
            #![trigger mid.tracks()[x].clips[y], mid.tracks()[z].clips[w]]
            0 <= x < mid.tracks().len() && 0 <= y < mid.tracks()[x].clips.len() && 0 <= z
                < mid.tracks().len() && 0 <= w < mid.tracks()[z].clips.len()
                && mid.tracks()[x].clips[y].id == mid.tracks()[z].clips[w].id implies x == z && y
            == w by {
            assert(mid.tracks()[x].clips[y].id == t.tracks()[x].clips[y].id);
            assert(mid.tracks()[z].clips[w].id == t.tracks()[z].clips[w].id);
        }
    }
    assert(mid.tracks()[k].clips[i] == c);
    assert(mid.tracks()[m].clips[j] == d);
    lemma_unique_place(mid, k, i);
    lemma_unique_place(mid, m, j);
    assert(link_of(mid, trim.clip_id) == Some(d.id));
    let followed = mid.tracks()[m].clips.update(j, timed_like(d, c));
    lemma_with_track(mid, m, TrackView { clips: followed, ..mid.tracks()[m] });
}

/// A finished trim leaves no overlap: where all was sound but for the trimmed clip and
/// the clip linked to it on another track, and the identifiers on the timeline differ,
/// every track is sound again, the trimmed clip is as it was drawn, and the linked clip
/// has its times.
pub proof fn law_finished_trim_is_sound(
    before: TimelineView,
    mid: TimelineView,
    after: TimelineView,
    k: int,
    i: int,
    m: int,
    j: int,
)
    requires
        0 <= k < before.tracks().len(),
        0 <= i < before.tracks()[k].clips.len(),
        0 <= m < before.tracks().len(),
        0 <= j < before.tracks()[m].clips.len(),
        k != m,
        unique_clips(before),
        unique_clips(mid),
        before.track_first_at(before.tracks()[k].id, k),
        before.track_first_at(before.tracks()[m].id, m),
        before.tracks()[k].clips[i].linked_to == Some(before.tracks()[m].clips[j].id),
        before.tracks()[k].clips[i].fits(),
        sound_clip(before.tracks()[k].clips[i]),
        sound(before.tracks()[k].clips.remove(i)),
        sound(before.tracks()[m].clips.remove(j)),
        forall|n: int|
            0 <= n < before.tracks().len() && n != k && n != m ==> sound(
                (#[trigger] before.tracks()[n]).clips,
            ),
        settled(before, mid, before.tracks()[k].clips[i].id),
        synced_after_trim(mid, after, before.tracks()[k].clips[i].id),
    ensures
        all_sound(after),
        after.tracks()[k].clips.last() == before.tracks()[k].clips[i],
        after.tracks()[m].clips.last() == timed_like(
            before.tracks()[m].clips[j],
            before.tracks()[k].clips[i],
        ),
{
    let c = before.tracks()[k].clips[i];
    let d = before.tracks()[m].clips[j];
    lemma_unique_place(before, k, i);
    lemma_out_and_back(before, mid, k, i, c);
    assert(mid.tracks()[m] == before.tracks()[m]);
    let last = mid.tracks()[k].clips.len() - 1;
    lemma_unique_place(mid, k, last);
    lemma_unique_place(mid, m, j);
    assert(link_of(mid, c.id) == Some(d.id));
    assert(mid.track_first_at(mid.tracks()[m].id, m)) by {
        assert forall|n: int| 0 <= n < m implies (#[trigger] mid.tracks()[n]).id
            != mid.tracks()[m].id by {
            assert(before.tracks()[n].id != before.tracks()[m].id);
        }
    }
    lemma_out_and_back(mid, after, m, j, timed_like(d, c));
    law_place_keeps_sound(before.tracks()[k].clips.remove(i), mid.tracks()[k].clips, c);
    law_place_keeps_sound(
        mid.tracks()[m].clips.remove(j),
        after.tracks()[m].clips,
        timed_like(d, c),
    );
    assert forall|n: int| 0 <= n < after.tracks().len() implies sound(
        (#[trigger] after.tracks()[n]).clips,
    ) by {
        if n != m {
            assert(after.tracks()[n] == mid.tracks()[n]);
            if n != k {
                assert(mid.tracks()[n] == before.tracks()[n]);
            }
        }
    }
}

/// A finished trim leaves no overlap, either, where the clip is linked to none.
pub proof fn law_finished_trim_alone_is_sound(
    before: TimelineView,
    mid: TimelineView,
    after: TimelineView,
    k: int,
    i: int,
)
    requires
        0 <= k < before.tracks().len(),
        0 <= i < before.tracks()[k].clips.len(),
        unique_clips(before),
        unique_clips(mid),
        before.track_first_at(before.tracks()[k].id, k),
        before.tracks()[k].clips[i].linked_to is None,
        before.tracks()[k].clips[i].fits(),
        sound_clip(before.tracks()[k].clips[i]),
        sound(before.tracks()[k].clips.remove(i)),
        forall|n: int|
            0 <= n < before.tracks().len() && n != k ==> sound(
                (#[trigger] before.tracks()[n]).clips,
            ),
        settled(before, mid, before.tracks()[k].clips[i].id),
        synced_after_trim(mid, after, before.tracks()[k].clips[i].id),
    ensures
        all_sound(after),
        after.tracks()[k].clips.last() == before.tracks()[k].clips[i],
{
    let c = before.tracks()[k].clips[i];
    lemma_unique_place(before, k, i);
    lemma_out_and_back(before, mid, k, i, c);
    lemma_unique_place(mid, k, mid.tracks()[k].clips.len() - 1);
    law_place_keeps_sound(before.tracks()[k].clips.remove(i), mid.tracks()[k].clips, c);
    assert forall|n: int| 0 <= n < after.tracks().len() implies sound(
        (#[trigger] after.tracks()[n]).clips,
    ) by {
        if n != k {
            assert(mid.tracks()[n] == before.tracks()[n]);
        }
    }
}

proof fn lemma_out_and_back(
    before: TimelineView,
    after: TimelineView,
    k: int,
    i: int,
    c: TimelineClip,
)
    requires
        0 <= k < before.tracks().len(),
        0 <= i < before.tracks()[k].clips.len(),
        before.track_first_at(before.tracks()[k].id, k),
        match taken_out(before, (k, i)).track_index(before.tracks()[k].id) {
            None => after == taken_out(before, (k, i)),
            Some(n) => placed_on(
                taken_out(before, (k, i)),
                after,
                n,
                taken_out(before, (k, i)).tracks()[n].clips,
                c,
            ),
        },
    ensures
        after.tracks().len() == before.tracks().len(),
        placed(before.tracks()[k].clips.remove(i), after.tracks()[k].clips, c),
        after.tracks()[k].id == before.tracks()[k].id,
        forall|n: int|
            0 <= n < after.tracks().len() && n != k ==> #[trigger] after.tracks()[n]
                == before.tracks()[n],
{
    let rest = before.tracks()[k].clips.remove(i);
    let out = taken_out(before, (k, i));
    lemma_with_track(before, k, TrackView { clips: rest, ..before.tracks()[k] });
    assert(out.track_first_at(before.tracks()[k].id, k)) by {
        assert forall|n: int| 0 <= n < k implies (#[trigger] out.tracks()[n]).id
            != before.tracks()[k].id by {
            assert(before.tracks()[n].id != before.tracks()[k].id);
        }
    }
    lemma_track_index(out, before.tracks()[k].id, k);
    lemma_with_track(out, k, TrackView { clips: after.tracks()[k].clips, ..out.tracks()[k] });
}

/// Linking two clips keeps every track sound.
pub proof fn law_linking_keeps_sound(t: TimelineView, a: TimelineClipId, b: TimelineClipId)
    requires
        all_sound(t),
    ensures
        all_sound(linked_one_way(t, a, b)),
{
    lemma_clip_place_first(t, a);
    if let Some(p) = t.clip_place(a) {
        let clips = t.tracks()[p.0].clips;
        let changed = clips.update(p.1, TimelineClip { linked_to: Some(b), ..t.clip_at(p) });
        assert(sound(clips));
        assert forall|i: int, j: int| 0 <= i < j < changed.len() implies apart(
            #[trigger] changed[i],
            #[trigger] changed[j],
        ) by {
            assert(apart(clips[i], clips[j]));
        }
        assert forall|i: int| 0 <= i < changed.len() implies sound_clip(#[trigger] changed[i])
            && changed[i].fits() by {
            assert(sound_clip(clips[i]) && clips[i].fits());
        }
        lemma_with_track(t, p.0, TrackView { clips: changed, ..t.tracks()[p.0] });
        let after = linked_one_way(t, a, b);
        assert forall|j: int| 0 <= j < after.tracks().len() implies sound(
            (#[trigger] after.tracks()[j]).clips,
        ) by {
            if j != p.0 {
                assert(after.tracks()[j] == t.tracks()[j]);
            }
        }
    }
}

proof fn lemma_fresh_keeps_sound(
    before: TimelineView,
    after: TimelineView,
    id: TimelineClipId,
    source_id: ClipId,
    track_id: TrackId,
    position: int,
    duration: int,
)
    requires
        all_sound(before),
        in_time(position),
        0 <= duration,
        in_time(later(position, 0) + duration),
        added_fresh(before, after, id, source_id, track_id, position, duration),
    ensures
        all_sound(after),
{
    law_add_keeps_sound(before, after, new_clip(id, source_id, track_id, position, duration));
}

/// Putting a media file on the timeline keeps every track sound.
pub proof fn law_drop_keeps_sound(
    before: TimelineView,
    after: TimelineView,
    source_id: ClipId,
    track_id: TrackId,
    position: int,
    duration: int,
    audio_only: bool,
)
    requires
        all_sound(before),
        in_time(position),
        0 <= duration,
        in_time(later(position, 0) + duration),
        dropped(before, after, source_id, track_id, position, duration, audio_only),
    ensures
        all_sound(after),
{
    let alone = if audio_only {
        audio_target(before, track_id)
    } else {
        track_id
    };
    if audio_only || before.paired(track_id) is None {
        let id = choose|id: TimelineClipId| #[trigger]
            added_fresh(before, after, id, source_id, alone, position, duration);
        lemma_fresh_keeps_sound(before, after, id, source_id, alone, position, duration);
    } else {
        let paired = before.paired(track_id)->0;
        let (a, b) = choose|a: TimelineClipId, b: TimelineClipId| #[trigger]
            added_pair(before, after, a, b, source_id, track_id, paired, position, duration);
        let (m, n) = choose|m: TimelineView, n: TimelineView| #[trigger]
            added_fresh(before, m, a, source_id, track_id, position, duration)
                && #[trigger] added_fresh(m, n, b, source_id, paired, position, duration)
                && after == linked_one_way(linked_one_way(n, a, b), b, a);
        lemma_fresh_keeps_sound(before, m, a, source_id, track_id, position, duration);
        lemma_fresh_keeps_sound(m, n, b, source_id, paired, position, duration);
        law_linking_keeps_sound(n, a, b);
        law_linking_keeps_sound(linked_one_way(n, a, b), b, a);
    }
}

/// Every clip lasts, and shows as much of its source as it lasts.
pub open spec fn all_last(clips: Seq<TimelineClip>) -> bool {
    forall|i: int|
        0 <= i < clips.len() ==> (#[trigger] clips[i]).duration > 0 && clips[i].window_matches()
}

/// No two clips of a track have the same identifier.
pub open spec fn ids_differ(clips: Seq<TimelineClip>) -> bool {
    forall|i: int, j: int|
        0 <= i < j < clips.len() ==> (#[trigger] clips[i]).id != (#[trigger] clips[j]).id
}

/// The identifiers that were drawn for the last clips, from the `n`-th on, are new: they
/// differ from one another, and from all of `before`.
pub open spec fn drawn_ids_are_new(
    before: Seq<TimelineClip>,
    after: Seq<TimelineClip>,
    n: int,
) -> bool {
    &&& ids_differ(after.skip(n))
    &&& forall|i: int, j: int|
        0 <= i < before.len() && n <= j < after.len() ==> (#[trigger] before[i]).id
            != (#[trigger] after[j]).id
}

/// The places of the clips of which something stays where it was, in order.
pub open spec fn survivors(clips: Seq<TimelineClip>, a: int, b: int) -> Seq<int>
    decreases clips.len(),
{
    if clips.len() == 0 {
        Seq::empty()
    } else if kept(clips.last(), a, b) is Some {
        survivors(clips.drop_last(), a, b).push(clips.len() - 1)
    } else {
        survivors(clips.drop_last(), a, b)
    }
}

/// Clips that survive keep their order and their identifiers.
proof fn lemma_survivors(clips: Seq<TimelineClip>, a: int, b: int)
    ensures
        survivors(clips, a, b).len() == kept_all(clips, a, b).len(),
        forall|j: int|
            0 <= j < survivors(clips, a, b).len() ==> {
                let p = #[trigger] survivors(clips, a, b)[j];
                &&& 0 <= p < clips.len()
                &&& kept(clips[p], a, b) == Some(kept_all(clips, a, b)[j])
                &&& kept_all(clips, a, b)[j].id == clips[p].id
            },
        forall|i: int, j: int|
            0 <= i < j < survivors(clips, a, b).len() ==> #[trigger] survivors(clips, a, b)[i]
                < #[trigger] survivors(clips, a, b)[j],
    decreases clips.len(),
{
    if clips.len() > 0 {
        lemma_survivors(clips.drop_last(), a, b);
    }
}

proof fn lemma_split_lasts(clips: Seq<TimelineClip>, a: int, b: int)
    requires
        all_fit(clips),
        all_last(clips),
        in_time(a),
        in_time(b),
    ensures
        all_last(split_all(clips, a, b)),
    decreases clips.len(),
{
    if clips.len() > 0 {
        assert(clips.last() == clips[clips.len() - 1]);
        assert forall|i: int| 0 <= i < clips.drop_last().len() implies (
        #[trigger] clips.drop_last()[i]).duration > 0 && clips.drop_last()[i].window_matches()
            && clips.drop_last()[i].fits() by {
            assert(clips.drop_last()[i] == clips[i]);
        }
        lemma_split_lasts(clips.drop_last(), a, b);
    }
}

/// Clearing a range leaves whole clips: every clip that stays, cut or split pieces
/// included, lasts and shows as much of its source as it lasts; those that survive keep
/// their order, with the pieces made by a split behind all of them; and where the
/// identifiers drawn for those are new, all identifiers still differ.
pub proof fn law_cleared_range_leaves_whole_clips(
    before: Seq<TimelineClip>,
    after: Seq<TimelineClip>,
    a: int,
    b: int,
)
    requires
        all_fit(before),
        all_last(before),
        ids_differ(before),
        in_time(a),
        in_time(b),
        a < b,
        resolved(before, after, a, b),
    ensures
        all_last(after),
        ({
            let places = survivors(before, a, b);
            let n = places.len() as int;
            &&& n <= after.len()
            &&& forall|j: int|
                0 <= j < n ==> {
                    &&& 0 <= #[trigger] places[j] < before.len()
                    &&& after[j].id == before[places[j]].id
                }
            &&& forall|i: int, j: int|
                0 <= i < j < n ==> #[trigger] places[i] < #[trigger] places[j]
            &&& n + split_all(before, a, b).len() == after.len()
            &&& drawn_ids_are_new(before, after, n) ==> ids_differ(after)
        }),
{
    let k = kept_all(before, a, b);
    let s = split_all(before, a, b);
    let places = survivors(before, a, b);
    let n = k.len() as int;
    lemma_survivors(before, a, b);
    lemma_split_lasts(before, a, b);
    assert forall|i: int| 0 <= i < n implies #[trigger] after[i] == k[i] by {
        assert(after.take(n)[i] == after[i]);
    }
    assert forall|i: int| 0 <= i < after.len() implies (#[trigger] after[i]).duration > 0
        && after[i].window_matches() by {
        if i < n {
            let p = places[i];
            assert(kept(before[p], a, b) == Some(k[i]));
            assert(before[p].fits());
        } else {
            assert(after[n + (i - n)].same_but_id(s[i - n]));
            assert(s[i - n].duration > 0);
        }
    }
    if drawn_ids_are_new(before, after, n) {
        assert forall|i: int, j: int| 0 <= i < j < after.len() implies (#[trigger] after[i]).id != (
        #[trigger] after[j]).id by {
            if j < n {
                assert(places[i] < places[j]);
                assert(before[places[i]].id != before[places[j]].id);
            } else if i < n {
                assert(before[places[i]].id != after[j].id);
            } else {
                assert(after.skip(n)[i - n] == after[i]);
                assert(after.skip(n)[j - n] == after[j]);
            }
        }
    }
}

} // verus!
