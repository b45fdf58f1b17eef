//! What putting a clip somewhere does to the timeline.

use vstd::prelude::*;

use crate::ids::{ClipId, TimelineClipId, TrackId};
use crate::project::{added_fresh, added_pair, audio_target, dropped, TrimEdge, TrimState};
use crate::time::in_time;
use crate::timeline::clip::TimelineClip;
use crate::timeline::edit::{
    added, linked_one_way, moved_across, moved_on_track, new_clip, placed_on, synced, taken_out,
};
use crate::timeline::lanes::{lemma_clip_place_first, lemma_track_index, lemma_with_track, TimelineView};
use crate::timeline::laws::{law_outside_is_unchanged, law_range_is_free, shows, unique_clips};
use crate::timeline::overlap::{all_fit, kept, kept_all, resolved};
use crate::timeline::query::is_duration;
use crate::timeline::seen::on_at;
use crate::timeline::track::{first_at, lacks, lemma_index_in, placed, TrackView};
use crate::timeline::trim::trimmed;

verus! {

/// Some clip is on at `time`, and shows the position `x` of the media file then.
pub open spec fn shows_then(clips: Seq<TimelineClip>, time: int, source: ClipId, x: int) -> bool {
    exists|i: int|
        0 <= i < clips.len() && on_at(#[trigger] clips[i], time) && clips[i].source_id == source
            && clips[i].source_in + (time - clips[i].timeline_start) == x
}

proof fn lemma_shows(clips: Seq<TimelineClip>, time: int, source: ClipId, x: int)
    ensures
        shows_then(clips, time, source, x) == shows(clips, time, source, x),
{
    if shows(clips, time, source, x) {
        let i = choose|i: int|
            0 <= i < clips.len() && #[trigger] clips[i].covers(time) && clips[i].source_id == source
                && clips[i].source_at(time) == x;
        assert(on_at(clips[i], time));
    }
    if shows_then(clips, time, source, x) {
        let i = choose|i: int|
            0 <= i < clips.len() && on_at(#[trigger] clips[i], time) && clips[i].source_id == source
                && clips[i].source_in + (time - clips[i].timeline_start) == x;
        assert(clips[i].covers(time));
    }
}

/// What a range of a track is cleared of: nothing is on within it afterwards, at every
/// other moment the track shows what it showed, and every clip that lay outside stands
/// as it was.
pub open spec fn cleared(
    before: Seq<TimelineClip>,
    after: Seq<TimelineClip>,
    a: int,
    b: int,
) -> bool {
    &&& forall|j: int|
        0 <= j < after.len() ==> (#[trigger] after[j]).timeline_start + after[j].duration <= a || b
            <= after[j].timeline_start
    &&& forall|time: int, source: ClipId, x: int|
        time < a || b <= time ==> #[trigger] shows_then(after, time, source, x) == shows_then(
            before,
            time,
            source,
            x,
        )
    &&& forall|i: int|
        0 <= i < before.len() && ((#[trigger] before[i]).timeline_start + before[i].duration <= a
            || b <= before[i].timeline_start) ==> after.contains(before[i])
}

proof fn lemma_untouched_kept(clips: Seq<TimelineClip>, a: int, b: int, i: int)
    requires
        0 <= i < clips.len(),
        clips[i].timeline_start + clips[i].duration <= a || b <= clips[i].timeline_start,
    ensures
        kept_all(clips, a, b).contains(clips[i]),
    decreases clips.len(),
{
    let init = clips.drop_last();
    let all = kept_all(clips, a, b);
    if i < init.len() {
        lemma_untouched_kept(init, a, b, i);
        let k = kept_all(init, a, b);
        let j = choose|j: int| 0 <= j < k.len() && k[j] == init[i];
        assert(all[j] == clips[i]);
    } else {
        assert(kept(clips[i], a, b) == Some(clips[i]));
        assert(all[all.len() - 1] == clips[i]);
    }
}

/// Clearing a range of a track takes away what is on within it and nothing else: clips
/// that lie outside stand as they were, and of those that reach in the part outside is
/// shown as before.
pub proof fn law_cleared_range(
    before: Seq<TimelineClip>,
    after: Seq<TimelineClip>,
    a: int,
    b: int,
)
    requires
        all_fit(before),
        in_time(a),
        in_time(b),
        resolved(before, after, a, b),
    ensures
        cleared(before, after, a, b),
{
    law_range_is_free(before, after, a, b);
    assert forall|time: int, source: ClipId, x: int|
        time < a || b <= time implies #[trigger] shows_then(after, time, source, x) == shows_then(
        before,
        time,
        source,
        x,
    ) by {
        law_outside_is_unchanged(before, after, a, b, time, source, x);
        lemma_shows(after, time, source, x);
        lemma_shows(before, time, source, x);
    }
    assert forall|i: int|
        0 <= i < before.len() && ((#[trigger] before[i]).timeline_start + before[i].duration <= a
            || b <= before[i].timeline_start) implies after.contains(before[i]) by {
        lemma_untouched_kept(before, a, b, i);
        let k = kept_all(before, a, b);
        let j = choose|j: int| 0 <= j < k.len() && k[j] == before[i];
        assert(after.take(k.len() as int)[j] == after[j]);
        assert(after[j] == before[i]);
    }
}

/// The clip is on the track, and of the rest of the track all is left that is not on
/// while it is.
pub open spec fn put_among(
    rest: Seq<TimelineClip>,
    after: Seq<TimelineClip>,
    c: TimelineClip,
) -> bool {
    exists|others: Seq<TimelineClip>|
        after == others.push(c) && #[trigger] cleared(
            rest,
            others,
            c.timeline_start as int,
            c.timeline_start + c.duration,
        )
}

proof fn lemma_put(rest: Seq<TimelineClip>, after: Seq<TimelineClip>, c: TimelineClip)
    requires
        all_fit(rest),
        c.fits(),
        placed(rest, after, c),
    ensures
        put_among(rest, after, c),
{
    let others = after.drop_last();
    law_cleared_range(rest, others, c.timeline_start as int, c.end_at());
    assert(after =~= others.push(c));
    assert(cleared(rest, others, c.timeline_start as int, c.timeline_start + c.duration));
}

/// While a clip that was put on a track is on, the track shows what the clip shows, and
/// nothing else.
pub proof fn law_put_clip_is_shown(
    rest: Seq<TimelineClip>,
    after: Seq<TimelineClip>,
    c: TimelineClip,
    time: int,
    source: ClipId,
    x: int,
)
    requires
        put_among(rest, after, c),
    ensures
        c.timeline_start <= time < c.timeline_start + c.duration ==> (shows_then(
            after,
            time,
            source,
            x,
        ) <==> source == c.source_id && x == c.source_in + (time - c.timeline_start)),
        time < c.timeline_start || c.timeline_start + c.duration <= time ==> (shows_then(
            after,
            time,
            source,
            x,
        ) <==> shows_then(rest, time, source, x)),
{
    let others = choose|others: Seq<TimelineClip>|
        after == others.push(c) && #[trigger] cleared(
            rest,
            others,
            c.timeline_start as int,
            c.timeline_start + c.duration,
        );
    let n = others.len() as int;
    assert(after[n] == c);
    assert(shows_then(others, time, source, x) == shows_then(others, time, source, x));
    if shows_then(after, time, source, x) {
        let i = choose|i: int|
            0 <= i < after.len() && on_at(#[trigger] after[i], time) && after[i].source_id == source
                && after[i].source_in + (time - after[i].timeline_start) == x;
        if i < n {
            assert(others[i] == after[i]);
            assert(on_at(others[i], time));
        }
    }
    if shows_then(others, time, source, x) {
        let i = choose|i: int|
            0 <= i < others.len() && on_at(#[trigger] others[i], time) && others[i].source_id
                == source && others[i].source_in + (time - others[i].timeline_start) == x;
        assert(after[i] == others[i]);
    }
}

/// Of all tracks only the `k`-th differs, and that in its clips alone.
pub open spec fn only_track_changed(before: TimelineView, after: TimelineView, k: int) -> bool {
    &&& after.video.len() == before.video.len()
    &&& after.audio.len() == before.audio.len()
    &&& after.tracks().len() == before.tracks().len()
    &&& forall|m: int|
        0 <= m < before.tracks().len() && m != k ==> #[trigger] after.tracks()[m]
            == before.tracks()[m]
    &&& after.tracks()[k] == (TrackView {
        clips: after.tracks()[k].clips,
        ..before.tracks()[k]
    })
}

proof fn lemma_placed_on(
    before: TimelineView,
    after: TimelineView,
    k: int,
    rest: Seq<TimelineClip>,
    c: TimelineClip,
)
    requires
        0 <= k < before.tracks().len(),
        all_fit(rest),
        c.fits(),
        placed_on(before, after, k, rest, c),
    ensures
        only_track_changed(before, after, k),
        put_among(rest, after.tracks()[k].clips, c),
{
    let clips = after.tracks()[k].clips;
    lemma_with_track(before, k, TrackView { clips, ..before.tracks()[k] });
    lemma_put(rest, clips, c);
}

/// A clip that is moved along its track starts where it was moved to and is otherwise
/// what it was; of the rest of the track all is left that is not on while it is, and the
/// other tracks are as they were.
pub proof fn law_moved_clip_starts_there(
    before: TimelineView,
    after: TimelineView,
    k: int,
    i: int,
    pos: i64,
)
    requires
        all_fit(before.tracks()[k].clips),
        before.track_first_at(before.tracks()[k].id, k),
        first_at(before.tracks()[k].clips, before.tracks()[k].clips[i].id, i),
        in_time(pos as int),
        in_time(pos + before.tracks()[k].clips[i].duration),
        moved_on_track(
            before,
            after,
            before.tracks()[k].id,
            before.tracks()[k].clips[i].id,
            pos as int,
        ),
    ensures
        only_track_changed(before, after, k),
        ({
            let clips = before.tracks()[k].clips;
            let c = clips[i];
            exists|d: TimelineClip| #[trigger]
                put_among(clips.remove(i), after.tracks()[k].clips, d) && d.id == c.id && d.source_id
                    == c.source_id && d.track_id == c.track_id && d.timeline_start == pos
                    && d.duration == c.duration && d.source_in == c.source_in && d.source_out
                    == c.source_out && d.linked_to == c.linked_to
        }),
{
    let clips = before.tracks()[k].clips;
    let c = clips[i];
    lemma_track_index(before, before.tracks()[k].id, k);
    lemma_index_in(clips, c.id, i);
    assert forall|j: int| 0 <= j < clips.remove(i).len() implies (
    #[trigger] clips.remove(i)[j]).fits() by {
        assert(clips.remove(i)[j] == clips[if j < i {
            j
        } else {
            j + 1
        }]);
    }
    let d = TimelineClip { timeline_start: pos, ..c };
    lemma_placed_on(before, after, k, clips.remove(i), d);
}

/// A clip that is moved to another track leaves its own, starts where it was moved to,
/// belongs to the new track, and is otherwise what it was; of the clips on the new track
/// all is left that is not on while it is, and the other tracks are as they were.
pub proof fn law_clip_changes_tracks(
    before: TimelineView,
    after: TimelineView,
    id: TimelineClipId,
    m: int,
    pos: i64,
)
    requires
        before.fits(),
        !before.lacks_clip(id),
        before.track_first_at(before.tracks()[m].id, m),
        before.clip_place(id) matches Some(p) && p.0 != m && in_time(
            pos + before.tracks()[p.0].clips[p.1].duration,
        ),
        in_time(pos as int),
        moved_across(before, after, id, before.tracks()[m].id, pos as int),
    ensures
        ({
            let p = before.clip_place(id)->0;
            let k = p.0;
            let i = p.1;
            let c = before.tracks()[k].clips[i];
            &&& c.id == id
            &&& after.tracks().len() == before.tracks().len()
            &&& after.tracks()[k].clips == before.tracks()[k].clips.remove(i)
            &&& forall|n: int|
                0 <= n < before.tracks().len() && n != k && n != m ==> #[trigger] after.tracks()[n]
                    == before.tracks()[n]
            &&& exists|d: TimelineClip| #[trigger]
                put_among(before.tracks()[m].clips, after.tracks()[m].clips, d) && d.id == c.id
                    && d.source_id == c.source_id && d.track_id == before.tracks()[m].id
                    && d.timeline_start == pos && d.duration == c.duration && d.source_in
                    == c.source_in && d.source_out == c.source_out && d.linked_to == c.linked_to
        }),
{
    lemma_clip_place_first(before, id);
    let p = before.clip_place(id)->0;
    let k = p.0;
    let i = p.1;
    let c = before.tracks()[k].clips[i];
    let dst = before.tracks()[m].id;
    let mid = taken_out(before, p);
    lemma_with_track(
        before,
        k,
        TrackView { clips: before.tracks()[k].clips.remove(i), ..before.tracks()[k] },
    );
    assert(mid.track_first_at(dst, m)) by {
        assert forall|n: int| 0 <= n < m implies (#[trigger] mid.tracks()[n]).id != dst by {
            assert(before.tracks()[n].id != dst);
        }
    }
    lemma_track_index(mid, dst, m);
    assert(all_fit(before.tracks()[m].clips));
    assert(all_fit(before.tracks()[k].clips));
    let d = TimelineClip { timeline_start: pos, track_id: dst, ..c };
    lemma_placed_on(mid, after, m, mid.tracks()[m].clips, d);
}

/// A new clip begins where it was put, or at the beginning of the timeline where that is
/// earlier, and shows its media file from the beginning for as long as it lasts; of the
/// clips on its track all is left that is not on while it is, and the other tracks are as
/// they were.
pub proof fn law_new_clip_shows_its_file(
    before: TimelineView,
    after: TimelineView,
    k: int,
    id: TimelineClipId,
    source_id: ClipId,
    position: i64,
    duration: i64,
)
    requires
        before.fits(),
        before.track_first_at(before.tracks()[k].id, k),
        in_time(position as int),
        in_time(duration as int),
        in_time(position + duration),
        added(
            before,
            after,
            new_clip(id, source_id, before.tracks()[k].id, position as int, duration as int),
        ),
    ensures
        only_track_changed(before, after, k),
        exists|d: TimelineClip| #[trigger]
            put_among(before.tracks()[k].clips, after.tracks()[k].clips, d) && is_new(
                d,
                id,
                source_id,
                before.tracks()[k].id,
                position,
                duration,
            ) && d.linked_to is None,
{
    let c = new_clip(id, source_id, before.tracks()[k].id, position as int, duration as int);
    lemma_track_index(before, before.tracks()[k].id, k);
    assert(all_fit(before.tracks()[k].clips));
    lemma_placed_on(before, after, k, before.tracks()[k].clips, c);
}

/// The clip lies at the position, or at the beginning where that is earlier, and shows
/// as much of the media file as it lasts, from the beginning.
pub open spec fn is_new(
    d: TimelineClip,
    id: TimelineClipId,
    source_id: ClipId,
    track: TrackId,
    position: i64,
    duration: i64,
) -> bool {
    &&& d.id == id
    &&& d.source_id == source_id
    &&& d.track_id == track
    &&& position >= 0 ==> d.timeline_start == position
    &&& position < 0 ==> d.timeline_start == 0
    &&& d.duration == duration
    &&& d.source_in == 0
    &&& d.source_out == duration
}

proof fn lemma_linked(t: TimelineView, a: TimelineClipId, b: TimelineClipId)
    requires
        unique_clips(t),
    ensures
        ({
            let r = linked_one_way(t, a, b);
            &&& unique_clips(r)
            &&& r.tracks().len() == t.tracks().len()
            &&& forall|k: int|
                0 <= k < t.tracks().len() ==> {
                    &&& (#[trigger] r.tracks()[k]).clips.len() == t.tracks()[k].clips.len()
                    &&& r.tracks()[k].id == t.tracks()[k].id
                }
            &&& forall|k: int, i: int|
                0 <= k < t.tracks().len() && 0 <= i < t.tracks()[k].clips.len()
                    ==> #[trigger] r.tracks()[k].clips[i] == (TimelineClip {
                    linked_to: if t.tracks()[k].clips[i].id == a {
                        Some(b)
                    } else {
                        t.tracks()[k].clips[i].linked_to
                    },
                    ..t.tracks()[k].clips[i]
                })
        }),
{
    lemma_clip_place_first(t, a);
    let r = linked_one_way(t, a, b);
    if let Some(p) = t.clip_place(a) {
        let c = TimelineClip { linked_to: Some(b), ..t.clip_at(p) };
        lemma_with_track(
            t,
            p.0,
            TrackView { clips: t.tracks()[p.0].clips.update(p.1, c), ..t.tracks()[p.0] },
        );
        assert forall|k: int, i: int|
            0 <= k < t.tracks().len() && 0 <= i < t.tracks()[k].clips.len() implies #[trigger] r.tracks()[k].clips[i]
            == (TimelineClip {
            linked_to: if t.tracks()[k].clips[i].id == a {
                Some(b)
            } else {
                t.tracks()[k].clips[i].linked_to
            },
            ..t.tracks()[k].clips[i]
        }) by {
            if t.tracks()[k].clips[i].id == a {
                assert(t.tracks()[p.0].clips[p.1].id == a);
            }
        }
        assert forall|k: int, i: int, m: int, j: int|
            #![trigger r.tracks()[k].clips[i], r.tracks()[m].clips[j]]
            0 <= k < r.tracks().len() && 0 <= i < r.tracks()[k].clips.len() && 0 <= m
                < r.tracks().len() && 0 <= j < r.tracks()[m].clips.len()
                && r.tracks()[k].clips[i].id == r.tracks()[m].clips[j].id implies k == m && i
            == j by {
            assert(t.tracks()[k].clips[i].id == r.tracks()[k].clips[i].id);
            assert(t.tracks()[m].clips[j].id == r.tracks()[m].clips[j].id);
        }
    } else {
        assert forall|k: int, i: int|
            0 <= k < t.tracks().len() && 0 <= i < t.tracks()[k].clips.len() implies (
        #[trigger] t.tracks()[k].clips[i]).id != a by {
            assert(lacks(t.tracks()[k].clips, a));
        }
    }
}

proof fn lemma_link_keeps_ids(t: TimelineView, a: TimelineClipId, b: TimelineClipId)
    requires
        unique_clips(linked_one_way(t, a, b)),
    ensures
        unique_clips(t),
{
    let r = linked_one_way(t, a, b);
    lemma_clip_place_first(t, a);
    if let Some(p) = t.clip_place(a) {
        let c = TimelineClip { linked_to: Some(b), ..t.clip_at(p) };
        lemma_with_track(
            t,
            p.0,
            TrackView { clips: t.tracks()[p.0].clips.update(p.1, c), ..t.tracks()[p.0] },
        );
        assert forall|k: int, i: int, m: int, j: int|
            #![trigger t.tracks()[k].clips[i], t.tracks()[m].clips[j]]
            0 <= k < t.tracks().len() && 0 <= i < t.tracks()[k].clips.len() && 0 <= m
                < t.tracks().len() && 0 <= j < t.tracks()[m].clips.len()
                && t.tracks()[k].clips[i].id == t.tracks()[m].clips[j].id implies k == m && i
            == j by {
            assert(r.tracks()[k].clips[i].id == t.tracks()[k].clips[i].id);
            assert(r.tracks()[m].clips[j].id == t.tracks()[m].clips[j].id);
        }
    }
}

proof fn lemma_pair_stands(
    before: TimelineView,
    after: TimelineView,
    k: int,
    m: int,
    a: TimelineClipId,
    b: TimelineClipId,
    source_id: ClipId,
    position: i64,
    duration: i64,
)
    requires
        before.fits(),
        k != m,
        before.track_first_at(before.tracks()[k].id, k),
        before.track_first_at(before.tracks()[m].id, m),
        in_time(position as int),
        in_time(duration as int),
        in_time(position + duration),
        added_pair(
            before,
            after,
            a,
            b,
            source_id,
            before.tracks()[k].id,
            before.tracks()[m].id,
            position as int,
            duration as int,
        ),
        unique_clips(after),
    ensures
        after.tracks().len() == before.tracks().len(),
        after.video.len() == before.video.len(),
        exists|i: int, j: int|
            0 <= i < after.tracks()[k].clips.len() && 0 <= j < after.tracks()[m].clips.len()
                && is_new(
                #[trigger] after.tracks()[k].clips[i],
                a,
                source_id,
                before.tracks()[k].id,
                position,
                duration,
            ) && is_new(
                #[trigger] after.tracks()[m].clips[j],
                b,
                source_id,
                before.tracks()[m].id,
                position,
                duration,
            ) && after.tracks()[k].clips[i].linked_to == Some(b)
                && after.tracks()[m].clips[j].linked_to == Some(a),
{
    let (mid, full) = choose|mid: TimelineView, full: TimelineView| #[trigger]
        added_fresh(
            before,
            mid,
            a,
            source_id,
            before.tracks()[k].id,
            position as int,
            duration as int,
        ) && #[trigger] added_fresh(
            mid,
            full,
            b,
            source_id,
            before.tracks()[m].id,
            position as int,
            duration as int,
        ) && after == linked_one_way(linked_one_way(full, a, b), b, a);
    let half = linked_one_way(full, a, b);
    lemma_link_keeps_ids(half, b, a);
    lemma_link_keeps_ids(full, a, b);
    let c = new_clip(a, source_id, before.tracks()[k].id, position as int, duration as int);
    let d = new_clip(b, source_id, before.tracks()[m].id, position as int, duration as int);
    assert(all_fit(before.tracks()[k].clips) && all_fit(before.tracks()[m].clips));
    lemma_track_index(before, before.tracks()[k].id, k);
    lemma_placed_on(before, mid, k, before.tracks()[k].clips, c);
    assert(mid.tracks()[m] == before.tracks()[m]);
    assert(mid.track_first_at(mid.tracks()[m].id, m)) by {
        assert forall|n: int| 0 <= n < m implies (#[trigger] mid.tracks()[n]).id
            != mid.tracks()[m].id by {
            assert(before.tracks()[n].id != before.tracks()[m].id);
        }
    }
    lemma_track_index(mid, mid.tracks()[m].id, m);
    lemma_placed_on(mid, full, m, mid.tracks()[m].clips, d);
    assert(full.tracks()[k] == mid.tracks()[k]);
    let i = full.tracks()[k].clips.len() - 1;
    let j = full.tracks()[m].clips.len() - 1;
    assert(full.tracks()[k].clips[i] == c);
    assert(full.tracks()[m].clips[j] == d);
    lemma_linked(full, a, b);
    lemma_linked(half, b, a);
    assert(a != b);
    assert(half.tracks()[k].clips.len() == full.tracks()[k].clips.len());
    assert(half.tracks()[m].clips.len() == full.tracks()[m].clips.len());
    assert(half.tracks()[k].clips[i] == (TimelineClip { linked_to: Some(b), ..c }));
    assert(half.tracks()[m].clips[j] == d);
    assert(after.tracks()[k].clips[i] == (TimelineClip { linked_to: Some(b), ..c }));
    assert(after.tracks()[m].clips[j] == (TimelineClip { linked_to: Some(a), ..d }));
}

/// No two tracks have the same identifier.
pub open spec fn tracks_differ(t: TimelineView) -> bool {
    forall|k: int, m: int|
        0 <= k < m < t.tracks().len() ==> (#[trigger] t.tracks()[k]).id != (
        #[trigger] t.tracks()[m]).id
}

/// Where the identifiers differ, a media file with picture and sound that is put on
/// either track of a pair stands on both: each holds a clip that begins at the position,
/// lasts as long, and shows the file from its beginning; and each of the two is linked to
/// the other.
pub proof fn law_dropped_file_stands_twice(
    before: TimelineView,
    after: TimelineView,
    n: int,
    track_id: TrackId,
    source_id: ClipId,
    position: i64,
    duration: i64,
)
    requires
        before.fits(),
        tracks_differ(before),
        0 <= n < before.video.len(),
        n < before.audio.len(),
        track_id == before.video[n].id || track_id == before.audio[n].id,
        in_time(position as int),
        in_time(duration as int),
        in_time(position + duration),
        dropped(
            before,
            after,
            source_id,
            track_id,
            position as int,
            duration as int,
            false,
        ),
        unique_clips(after),
    ensures
        exists|i: int, j: int|
            0 <= i < after.video[n].clips.len() && 0 <= j < after.audio[n].clips.len() && is_new(
                #[trigger] after.video[n].clips[i],
                after.video[n].clips[i].id,
                source_id,
                before.video[n].id,
                position,
                duration,
            ) && is_new(
                #[trigger] after.audio[n].clips[j],
                after.audio[n].clips[j].id,
                source_id,
                before.audio[n].id,
                position,
                duration,
            ) && after.video[n].clips[i].linked_to == Some(after.audio[n].clips[j].id)
                && after.audio[n].clips[j].linked_to == Some(after.video[n].clips[i].id),
{
    let v = n;
    let w = before.video.len() + n;
    assert(before.tracks()[v] == before.video[n]);
    assert(before.tracks()[w] == before.audio[n]);
    assert(before.track_first_at(before.tracks()[v].id, v));
    assert(before.track_first_at(before.tracks()[w].id, w));
    lemma_track_index(before, before.tracks()[v].id, v);
    lemma_track_index(before, before.tracks()[w].id, w);
    let (k, m) = if track_id == before.video[n].id {
        (v, w)
    } else {
        (w, v)
    };
    let other = before.tracks()[m].id;
    assert(before.paired(track_id) == Some(other));
    let (a, b) = choose|a: TimelineClipId, b: TimelineClipId| #[trigger]
        added_pair(
            before,
            after,
            a,
            b,
            source_id,
            track_id,
            other,
            position as int,
            duration as int,
        );
    lemma_pair_stands(before, after, k, m, a, b, source_id, position, duration);
    let (i, j) = choose|i: int, j: int|
        0 <= i < after.tracks()[k].clips.len() && 0 <= j < after.tracks()[m].clips.len() && is_new(
            #[trigger] after.tracks()[k].clips[i],
            a,
            source_id,
            before.tracks()[k].id,
            position,
            duration,
        ) && is_new(
            #[trigger] after.tracks()[m].clips[j],
            b,
            source_id,
            before.tracks()[m].id,
            position,
            duration,
        ) && after.tracks()[k].clips[i].linked_to == Some(b)
            && after.tracks()[m].clips[j].linked_to == Some(a);
    assert(after.tracks()[v] == after.video[n]);
    assert(after.tracks()[w] == after.audio[n]);
    if k == v {
        assert(after.video[n].clips[i].id == a && after.audio[n].clips[j].id == b);
    } else {
        assert(after.video[n].clips[j].id == b && after.audio[n].clips[i].id == a);
    }
}

/// A media file with sound alone that is put on either track of a pair stands on the audio
/// track alone, linked to nothing: it begins at the position and is heard from its
/// beginning.
pub proof fn law_dropped_sound_stands_once(
    before: TimelineView,
    after: TimelineView,
    n: int,
    track_id: TrackId,
    source_id: ClipId,
    position: i64,
    duration: i64,
)
    requires
        before.fits(),
        tracks_differ(before),
        0 <= n < before.video.len(),
        n < before.audio.len(),
        track_id == before.video[n].id || track_id == before.audio[n].id,
        in_time(position as int),
        in_time(duration as int),
        in_time(position + duration),
        dropped(
            before,
            after,
            source_id,
            track_id,
            position as int,
            duration as int,
            true,
        ),
    ensures
        only_track_changed(before, after, before.video.len() + n),
        exists|d: TimelineClip| #[trigger]
            put_among(before.audio[n].clips, after.audio[n].clips, d) && is_new(
                d,
                d.id,
                source_id,
                before.audio[n].id,
                position,
                duration,
            ) && d.linked_to is None,
{
    let v = n;
    let w = before.video.len() + n;
    assert(before.tracks()[v] == before.video[n]);
    assert(before.tracks()[w] == before.audio[n]);
    assert(before.track_first_at(before.tracks()[v].id, v));
    assert(before.track_first_at(before.tracks()[w].id, w));
    lemma_track_index(before, before.tracks()[v].id, v);
    lemma_track_index(before, before.tracks()[w].id, w);
    let target = before.audio[n].id;
    assert(audio_target(before, track_id) == target);
    let id = choose|id: TimelineClipId| #[trigger]
        added_fresh(before, after, id, source_id, target, position as int, duration as int);
    law_new_clip_shows_its_file(before, after, w, id, source_id, position, duration);
    assert(after.tracks()[w] == after.audio[n]);
}

/// The end that is trimmed follows the pointer as far as it can: a right end stands at the
/// pointer where the clip stays long enough and its source lasts, a left end where the
/// clip stays long enough and its source has begun. At every moment at which the clip is
/// still on it shows what it showed before.
pub proof fn law_trimmed_end_follows_pointer(
    c: TimelineClip,
    trim: TrimState,
    pointer: int,
    limit: int,
)
    requires
        crate::timeline::trim::modest_clip(c),
        c.timeline_start == trim.original_position,
        c.duration == trim.original_duration,
        c.source_in == trim.original_in_point,
        c.source_out == trim.original_out_point,
        c.source_out - c.source_in == c.duration,
        c.duration >= 100_000_000,
        0 <= c.source_in,
        c.source_out <= limit,
        in_time(pointer),
        crate::timeline::trim::modest(limit),
    ensures
        ({
            let r = trimmed(c, trim, pointer, limit);
            &&& r.id == c.id && r.source_id == c.source_id && r.track_id == c.track_id
                && r.linked_to == c.linked_to
            &&& r.source_in - r.timeline_start == c.source_in - c.timeline_start
            &&& r.source_out - r.source_in == r.duration
            &&& r.duration >= 100_000_000
            &&& 0 <= r.source_in && r.source_out <= limit
            &&& trim.edge == TrimEdge::Right && c.timeline_start + 100_000_000 <= pointer
                <= c.timeline_start + (limit - c.source_in) ==> r.timeline_start + r.duration
                == pointer
            &&& trim.edge == TrimEdge::Right && pointer < c.timeline_start + 100_000_000
                ==> r.duration == 100_000_000
            &&& trim.edge == TrimEdge::Right && pointer > c.timeline_start + (limit - c.source_in)
                ==> r.source_out == limit
            &&& trim.edge == TrimEdge::Right ==> r.timeline_start == c.timeline_start
            &&& trim.edge == TrimEdge::Left && c.timeline_start - c.source_in <= pointer
                <= c.timeline_start + c.duration - 100_000_000 ==> r.timeline_start == pointer
            &&& trim.edge == TrimEdge::Left && pointer < c.timeline_start - c.source_in
                ==> r.source_in == 0
            &&& trim.edge == TrimEdge::Left && pointer > c.timeline_start + c.duration - 100_000_000
                ==> r.duration == 100_000_000
            &&& trim.edge == TrimEdge::Left ==> r.timeline_start + r.duration == c.timeline_start
                + c.duration
        }),
{
}

/// Where the identifiers differ, the clip that a trimmed clip is linked to takes over its
/// place and its source window, keeps all else, and no other clip changes.
pub proof fn law_linked_clip_follows_trim(
    t: TimelineView,
    k: int,
    i: int,
    m: int,
    j: int,
)
    requires
        unique_clips(t),
        0 <= k < t.tracks().len(),
        0 <= i < t.tracks()[k].clips.len(),
        0 <= m < t.tracks().len(),
        0 <= j < t.tracks()[m].clips.len(),
        t.tracks()[k].clips[i].linked_to == Some(t.tracks()[m].clips[j].id),
    ensures
        ({
            let c = t.tracks()[k].clips[i];
            let d = t.tracks()[m].clips[j];
            let after = synced(t, c.id);
            let e = after.tracks()[m].clips[j];
            &&& only_track_changed(t, after, m)
            &&& after.tracks()[m].clips.len() == t.tracks()[m].clips.len()
            &&& forall|n: int|
                0 <= n < t.tracks()[m].clips.len() && n != j
                    ==> #[trigger] after.tracks()[m].clips[n] == t.tracks()[m].clips[n]
            &&& e.timeline_start == c.timeline_start && e.duration == c.duration && e.source_in
                == c.source_in && e.source_out == c.source_out
            &&& e.id == d.id && e.source_id == d.source_id && e.track_id == d.track_id
                && e.linked_to == d.linked_to
        }),
{
    let c = t.tracks()[k].clips[i];
    let d = t.tracks()[m].clips[j];
    lemma_clip_place_first(t, c.id);
    lemma_clip_place_first(t, d.id);
    assert(!lacks(t.tracks()[k].clips, c.id));
    assert(!lacks(t.tracks()[m].clips, d.id));
    let p = t.clip_place(c.id)->0;
    let q = t.clip_place(d.id)->0;
    assert(t.tracks()[p.0].clips[p.1].id == t.tracks()[k].clips[i].id);
    assert(t.tracks()[q.0].clips[q.1].id == t.tracks()[m].clips[j].id);
    let e = crate::timeline::edit::timed_like(d, c);
    lemma_with_track(t, m, TrackView { clips: t.tracks()[m].clips.update(j, e), ..t.tracks()[m] });
}

/// The two tracks of a pair are each other's.
pub proof fn law_pairing_is_mutual(t: TimelineView, n: int)
    requires
        tracks_differ(t),
        0 <= n < t.video.len(),
        n < t.audio.len(),
    ensures
        t.paired(t.video[n].id) == Some(t.audio[n].id),
        t.paired(t.audio[n].id) == Some(t.video[n].id),
{
    let w = t.video.len() + n;
    assert(t.tracks()[n] == t.video[n]);
    assert(t.tracks()[w] == t.audio[n]);
    assert(t.track_first_at(t.video[n].id, n));
    assert(t.track_first_at(t.audio[n].id, w));
    lemma_track_index(t, t.video[n].id, n);
    lemma_track_index(t, t.audio[n].id, w);
}

/// A timeline lasts until its last clip ends: no clip ends later, and where it lasts at
/// all one ends just then.
pub proof fn law_timeline_lasts_to_its_last_clip(t: TimelineView, end: int)
    requires
        is_duration(t.tracks(), end),
    ensures
        0 <= end,
        forall|k: int, i: int|
            0 <= k < t.tracks().len() && 0 <= i < t.tracks()[k].clips.len() ==> (
            #[trigger] t.tracks()[k].clips[i]).timeline_start + t.tracks()[k].clips[i].duration
                <= end,
        end > 0 ==> exists|k: int, i: int|
            0 <= k < t.tracks().len() && 0 <= i < t.tracks()[k].clips.len() && (
            #[trigger] t.tracks()[k].clips[i]).timeline_start + t.tracks()[k].clips[i].duration
                == end,
{
}

} // verus!
