//! What is seen and heard at a moment of the timeline.

use vstd::prelude::*;

use crate::ids::{TimelineClipId, TrackId};
use crate::text::decimal;
use crate::timeline::clip::TimelineClip;
use crate::timeline::edit::PlayheadHit;
use crate::timeline::lanes::{lemma_clip_place_first, TimelineView};
use crate::timeline::overlap::all_fit;
use crate::timeline::query::{
    hit, hit_on, hits, is_fresh_timeline, is_fresh_track, next_hit, previous_hit, unmuted_of,
    visible_of,
};
use crate::timeline::track::{TrackKind, TrackView};

verus! {

/// The clip begins at `time` or before, and ends after it.
pub open spec fn on_at(c: TimelineClip, time: int) -> bool {
    c.timeline_start <= time && time < c.timeline_start + c.duration
}

/// The hit is the clip at a place of the tracks, on at `time`, with the source position
/// that lies as far into its source window as `time` lies into the clip.
pub open spec fn hit_at(
    tracks: Seq<TrackView>,
    k: int,
    i: int,
    time: int,
    h: PlayheadHit,
) -> bool {
    &&& 0 <= k < tracks.len()
    &&& 0 <= i < tracks[k].clips.len()
    &&& h.clip == tracks[k].clips[i]
    &&& h.track_id == tracks[k].id
    &&& on_at(tracks[k].clips[i], time)
    &&& h.source_time - h.clip.source_in == time - h.clip.timeline_start
}

/// No clip of the track is on at `time`.
pub open spec fn empty_at(track: TrackView, time: int) -> bool {
    forall|i: int| 0 <= i < track.clips.len() ==> !on_at(#[trigger] track.clips[i], time)
}

proof fn lemma_hit_on(clips: Seq<TimelineClip>, id: TrackId, time: int)
    requires
        all_fit(clips),
    ensures
        match hit_on(clips, id, time) {
            Some(h) => h.track_id == id && h.source_time - h.clip.source_in == time
                - h.clip.timeline_start && exists|i: int|
                0 <= i < clips.len() && #[trigger] clips[i] == h.clip && on_at(clips[i], time) && (
                forall|j: int| 0 <= j < i ==> !on_at(#[trigger] clips[j], time)),
            None => forall|i: int| 0 <= i < clips.len() ==> !on_at(#[trigger] clips[i], time),
        },
    decreases clips.len(),
{
    if clips.len() > 0 {
        let rest = clips.drop_first();
        if clips[0].covers(time) {
            assert(clips[0] == hit_on(clips, id, time)->0.clip);
        } else {
            assert forall|i: int| 0 <= i < rest.len() implies (#[trigger] rest[i]).fits() by {
                assert(rest[i] == clips[i + 1]);
            }
            lemma_hit_on(rest, id, time);
            assert forall|i: int| 1 <= i < clips.len() implies #[trigger] clips[i] == rest[i - 1] by {}
            match hit_on(rest, id, time) {
                Some(h) => {
                    let i = choose|i: int|
                        0 <= i < rest.len() && #[trigger] rest[i] == h.clip && on_at(rest[i], time)
                            && (forall|j: int| 0 <= j < i ==> !on_at(#[trigger] rest[j], time));
                    assert(clips[i + 1] == h.clip);
                },
                None => {},
            }
        }
    }
}

/// Where anything is seen at a moment it is the first clip that is on, on the first of
/// the visible tracks that has one, with the source position as far into its window as
/// the moment is into the clip. Where nothing is seen, no visible track has a clip that
/// is on.
pub proof fn law_seen_is_what_is_on_first(tracks: Seq<TrackView>, time: int)
    requires
        forall|k: int| 0 <= k < tracks.len() ==> all_fit((#[trigger] tracks[k]).clips),
    ensures
        match hit(visible_of(tracks), time) {
            Some(h) => exists|k: int, i: int| #[trigger]
                hit_at(tracks, k, i, time, h) && tracks[k].visible && (forall|m: int|
                    0 <= m < k && (#[trigger] tracks[m]).visible ==> empty_at(tracks[m], time)) && (
                forall|j: int| 0 <= j < i ==> !on_at(#[trigger] tracks[k].clips[j], time)),
            None => forall|k: int|
                0 <= k < tracks.len() && (#[trigger] tracks[k]).visible ==> empty_at(
                    tracks[k],
                    time,
                ),
        },
    decreases tracks.len(),
{
    if tracks.len() > 0 {
        let before = tracks.drop_last();
        let last = tracks.last();
        let n = before.len() as int;
        let seen = visible_of(before);
        assert forall|k: int| 0 <= k < before.len() implies all_fit((#[trigger] before[k]).clips) by {
            assert(before[k] == tracks[k]);
        }
        law_seen_is_what_is_on_first(before, time);
        assert(all_fit(tracks[n].clips));
        lemma_hit_on(last.clips, last.id, time);
        if last.visible {
            crate::timeline::query::lemma_hit_split(seen, seq![last], time);
            assert(seen.push(last) =~= seen + seq![last]);
            reveal_with_fuel(hit, 2);
            assert(seq![last].drop_first() =~= Seq::<TrackView>::empty());
        }
        match hit(seen, time) {
            Some(h) => {
                let (k, i) = choose|k: int, i: int| #[trigger]
                    hit_at(before, k, i, time, h) && before[k].visible && (forall|m: int|
                        0 <= m < k && (#[trigger] before[m]).visible ==> empty_at(before[m], time))
                        && (forall|j: int|
                        0 <= j < i ==> !on_at(#[trigger] before[k].clips[j], time));
                assert(tracks[k] == before[k]);
                assert forall|m: int| 0 <= m < k && (#[trigger] tracks[m]).visible implies empty_at(
                    tracks[m],
                    time,
                ) by {
                    assert(before[m] == tracks[m]);
                }
                assert(hit_at(tracks, k, i, time, h));
            },
            None => {
                assert forall|m: int| 0 <= m < n && (#[trigger] tracks[m]).visible implies empty_at(
                    tracks[m],
                    time,
                ) by {
                    assert(before[m] == tracks[m]);
                }
                if last.visible && hit_on(last.clips, last.id, time) is Some {
                    let h = hit_on(last.clips, last.id, time)->0;
                    let i = choose|i: int|
                        0 <= i < last.clips.len() && #[trigger] last.clips[i] == h.clip && on_at(
                            last.clips[i],
                            time,
                        ) && (forall|j: int|
                            0 <= j < i ==> !on_at(#[trigger] last.clips[j], time));
                    assert(hit_at(tracks, n, i, time, h));
                }
            },
        }
    }
}

/// The hit is on a track that is not muted.
pub open spec fn on_unmuted(tracks: Seq<TrackView>, time: int, h: PlayheadHit) -> bool {
    exists|k: int, i: int| #[trigger] hit_at(tracks, k, i, time, h) && !tracks[k].muted
}

/// All that is heard at a moment is on then, on a track that is not muted, at the source
/// position as far into its window as the moment is into the clip; and of every track
/// that is not muted and has a clip that is on, one is heard.
pub proof fn law_heard_is_what_is_on(tracks: Seq<TrackView>, time: int)
    requires
        forall|k: int| 0 <= k < tracks.len() ==> all_fit((#[trigger] tracks[k]).clips),
    ensures
        forall|n: int|
            #![trigger hits(unmuted_of(tracks), time)[n]]
            0 <= n < hits(unmuted_of(tracks), time).len() ==> on_unmuted(
                tracks,
                time,
                hits(unmuted_of(tracks), time)[n],
            ),
        forall|k: int|
            0 <= k < tracks.len() && !(#[trigger] tracks[k]).muted && !empty_at(tracks[k], time)
                ==> exists|n: int, i: int|
                0 <= n < hits(unmuted_of(tracks), time).len() && #[trigger] hit_at(
                    tracks,
                    k,
                    i,
                    time,
                    hits(unmuted_of(tracks), time)[n],
                ),
        hits(unmuted_of(tracks), time).len() <= tracks.len(),
    decreases tracks.len(),
{
    if tracks.len() > 0 {
        let before = tracks.drop_last();
        let last = tracks.last();
        let end = before.len() as int;
        let heard = unmuted_of(before);
        let first = hits(heard, time);
        let all = hits(unmuted_of(tracks), time);
        assert forall|k: int| 0 <= k < before.len() implies all_fit((#[trigger] before[k]).clips) by {
            assert(before[k] == tracks[k]);
        }
        law_heard_is_what_is_on(before, time);
        assert(all_fit(tracks[end].clips));
        lemma_hit_on(last.clips, last.id, time);
        if !last.muted {
            assert(heard.push(last).drop_last() =~= heard);
        }
        let own = hit_on(last.clips, last.id, time);
        if !last.muted && own is Some {
            let h = own->0;
            let i = choose|i: int|
                0 <= i < last.clips.len() && #[trigger] last.clips[i] == h.clip && on_at(
                    last.clips[i],
                    time,
                ) && (forall|j: int| 0 <= j < i ==> !on_at(#[trigger] last.clips[j], time));
            assert(hit_at(tracks, end, i, time, h));
            assert(all[first.len() as int] == h);
        }
        assert forall|n: int|
            #![trigger all[n]]
            0 <= n < all.len() implies on_unmuted(tracks, time, all[n]) by {
            if n < first.len() {
                assert(all[n] == first[n]);
                let (k, i) = choose|k: int, i: int| #[trigger]
                    hit_at(before, k, i, time, first[n]) && !before[k].muted;
                assert(tracks[k] == before[k]);
                assert(hit_at(tracks, k, i, time, all[n]));
            } else {
                assert(!tracks[end].muted);
            }
        }
        assert forall|k: int|
            0 <= k < tracks.len() && !(#[trigger] tracks[k]).muted && !empty_at(
                tracks[k],
                time,
            ) implies exists|n: int, i: int|
            0 <= n < all.len() && #[trigger] hit_at(tracks, k, i, time, all[n]) by {
            if k < end {
                assert(before[k] == tracks[k]);
                let (n, i) = choose|n: int, i: int|
                    0 <= n < first.len() && #[trigger] hit_at(before, k, i, time, first[n]);
                assert(all[n] == first[n]);
                assert(hit_at(tracks, k, i, time, all[n]));
            }
        }
    }
}

/// What follows a clip is what is seen at the moment it ends, and what precedes it is
/// what is seen at the last moment before it begins.
pub proof fn law_neighbours_are_seen_at_the_ends(t: TimelineView, id: TimelineClipId)
    ensures
        match t.clip_place(id) {
            Some(p) => {
                let c = t.tracks()[p.0].clips[p.1];
                &&& c.id == id
                &&& next_hit(t, id) == hit(visible_of(t.video), c.timeline_start + c.duration)
                &&& previous_hit(t, id) == hit(visible_of(t.video), c.timeline_start - 1)
            },
            None => next_hit(t, id) is None && previous_hit(t, id) is None,
        },
{
    lemma_clip_place_first(t, id);
}

/// On a new timeline nothing is seen and nothing heard, whenever: it has three pairs of
/// tracks, called by their numbers, with no clip on them.
pub proof fn law_new_timeline_shows_nothing(t: TimelineView, time: int, i: int)
    requires
        is_fresh_timeline(t),
        0 <= i < 3,
    ensures
        t.video.len() == 3 && t.audio.len() == 3,
        hit(visible_of(t.video), time) is None,
        hits(unmuted_of(t.audio), time).len() == 0,
        t.video[i].name == seq!['V'] + decimal((i + 1) as nat),
        t.audio[i].name == seq!['A'] + decimal((i + 1) as nat),
        t.video[i].visible && !t.audio[i].muted,
{
    assert forall|k: int| 0 <= k < t.video.len() implies all_fit((#[trigger] t.video[k]).clips) by {
        assert(is_fresh_track(t.video[k], TrackKind::Video, (k + 1) as nat));
    }
    assert forall|k: int| 0 <= k < t.audio.len() implies all_fit((#[trigger] t.audio[k]).clips) by {
        assert(is_fresh_track(t.audio[k], TrackKind::Audio, (k + 1) as nat));
    }
    assert(is_fresh_track(t.video[i], TrackKind::Video, (i + 1) as nat));
    assert(is_fresh_track(t.audio[i], TrackKind::Audio, (i + 1) as nat));
    law_seen_is_what_is_on_first(t.video, time);
    law_heard_is_what_is_on(t.audio, time);
    if let Some(h) = hit(visible_of(t.video), time) {
        let (k, j) = choose|k: int, j: int| #[trigger]
            hit_at(t.video, k, j, time, h) && t.video[k].visible;
        assert(is_fresh_track(t.video[k], TrackKind::Video, (k + 1) as nat));
    }
    let all = hits(unmuted_of(t.audio), time);
    if all.len() > 0 {
        let h = all[0];
        assert(on_unmuted(t.audio, time, h));
        let (k, j) = choose|k: int, j: int| #[trigger]
            hit_at(t.audio, k, j, time, h) && !t.audio[k].muted;
        assert(is_fresh_track(t.audio[k], TrackKind::Audio, (k + 1) as nat));
    }
}

} // verus!
