//! Which pictures and sounds are shown, asked for and kept.

use vstd::prelude::*;

use crate::engine::forward::{clip_of, NextClip};
use crate::engine::frames::{
    bucket_of, HoverNeed, PictureNeed, PictureOrder, ScrubNeed, SoundOrder,
};
use crate::engine::laws::{
    is_seen_at, lemma_hit_is_shown, only_starts_with_what_is_seen, shown_then,
};
use crate::engine::lookahead::{is_best_forward, is_best_reverse, places};
use crate::engine::poll::{best_forward, PollContext};
use crate::engine::promises::given;
use crate::engine::rewind_cache::{best_for, bytes_of, newest_within, trimmed, CacheLimits, RewindCacheEntry};
use crate::engine::slots::{Command, FrameRef, PlaybackEngine, Scene};
use crate::ids::TimelineClipId;
use crate::playback::{Playback, PlaybackState};
use crate::timeline::clip::TimelineClip;
use crate::timeline::lanes::TimelineView;

verus! {

/// A frame belongs as far into its clip as its source position is into the clip's source
/// window.
pub proof fn law_frame_belongs_where_it_is_seen(
    frames: Seq<FrameRef>,
    offset: i64,
    c: TimelineClip,
    i: int,
)
    requires
        0 <= i < frames.len(),
    ensures
        places(frames, Some(offset), Some(c))[i] - c.timeline_start == frames[i].pts - offset
            - c.source_in,
{
}

/// Of frames in their order the latest is picked that is no more than a twentieth of a
/// second ahead of the playhead; where all are further ahead, the first.
pub proof fn law_latest_due_frame_is_picked(all: Seq<int>, playhead: int, i: int, j: int)
    requires
        is_best_forward(all, playhead, i),
        0 <= j < all.len(),
        forall|a: int, b: int| 0 <= a <= b < all.len() ==> #[trigger] all[a] <= #[trigger] all[b],
    ensures
        all[j] <= playhead + 50_000_000 ==> all[i] <= playhead + 50_000_000 && all[j] <= all[i],
        all[0] > playhead + 50_000_000 ==> i == 0,
{
    if i + 1 < all.len() && j > i {
        assert(all[i + 1] <= all[j]);
    }
    if j <= i {
        assert(all[j] <= all[i]);
    }
    assert(all[0] <= all[j]);
    if all[0] <= playhead + 50_000_000 {
        assert(all[i] <= playhead + 50_000_000);
    }
}

/// Of frames that come in reverse the earliest is picked that is no more than a twentieth
/// of a second behind the playhead; where all are further behind, the last.
pub proof fn law_earliest_due_frame_is_picked(all: Seq<int>, playhead: int, i: int, j: int)
    requires
        is_best_reverse(all, playhead, i),
        0 <= j < all.len(),
        forall|a: int, b: int| 0 <= a <= b < all.len() ==> #[trigger] all[a] >= #[trigger] all[b],
    ensures
        all[j] >= playhead - 50_000_000 ==> all[i] >= playhead - 50_000_000 && all[j] >= all[i],
        all[0] < playhead - 50_000_000 ==> i == all.len() - 1,
{
    if i + 1 < all.len() && j > i {
        assert(all[i + 1] >= all[j]);
    }
    if j <= i {
        assert(all[j] >= all[i]);
    }
    assert(all[0] >= all[j]);
    if all[0] >= playhead - 50_000_000 {
        assert(all[i] >= playhead - 50_000_000);
    }
}

/// Frames of the forward pipeline that have come are not lost: one of them is shown.
pub proof fn law_forward_frames_are_shown(
    x: Scene,
    frames: Seq<FrameRef>,
    t: TimelineView,
    ctx: PollContext,
)
    requires
        x.engine.forward is Some,
        frames.len() > 0,
    ensures
        ({
            let f = x.engine.forward->0;
            let best = best_forward(
                frames,
                f.pts_offset,
                clip_of(t, f.timeline_clip),
                x.playback.playhead as int,
            );
            x.forward_taken(frames, t, ctx) == x.forward_frame_applied(
                best,
                t,
                ctx.next,
                ctx.now as int,
                ctx.polled_shadow,
            )
        }),
        exists|i: int|
            0 <= i < frames.len() && is_best_forward(
                places(
                    frames,
                    x.engine.forward->0.pts_offset,
                    clip_of(t, x.engine.forward->0.timeline_clip),
                ),
                x.playback.playhead as int,
                i,
            ) && #[trigger] frames[i] == best_forward(
                frames,
                x.engine.forward->0.pts_offset,
                clip_of(t, x.engine.forward->0.timeline_clip),
                x.playback.playhead as int,
            ),
{
    let f = x.engine.forward->0;
    let all = places(frames, f.pts_offset, clip_of(t, f.timeline_clip));
    let playhead = x.playback.playhead as int;
    lemma_some_forward(all, playhead, all.len() as int);
    let i = choose|i: int| is_best_forward(all, playhead, i);
    assert(is_best_forward(all, playhead, i));
    assert(frames[i] == frames[i]);
}

proof fn lemma_some_forward(all: Seq<int>, playhead: int, n: int)
    requires
        0 < n <= all.len(),
        n < all.len() ==> all[n] > playhead + 50_000_000,
    ensures
        exists|i: int| is_best_forward(all, playhead, i),
    decreases n,
{
    if all[0] > playhead + 50_000_000 {
        assert(is_best_forward(all, playhead, 0));
    } else if exists|k: int| 0 <= k < n && #[trigger] all[k] > playhead + 50_000_000 {
        let k = choose|k: int| 0 <= k < n && #[trigger] all[k] > playhead + 50_000_000;
        lemma_some_forward(all, playhead, k);
    } else {
        assert(is_best_forward(all, playhead, n - 1));
    }
}

/// Once the pipeline delivers, the kept frames are given up, and a pipeline is started
/// for what is seen at the playhead, with the source position that is seen there.
pub proof fn law_cache_gives_way_to_what_is_seen(
    x: Scene,
    here: NextClip,
    t: TimelineView,
    now: i64,
)
    requires
        t.fits(),
        is_seen_at(here, t, x.playback.playhead as int),
    ensures
        ({
            let after = x.cache_given_up(here, now as int);
            &&& only_starts_with_what_is_seen(
                x.out,
                after.out,
                t,
                x.playback.playhead as int,
                x.playback.speed,
                now as int,
            )
            &&& after.engine.reverse is None
            &&& here.hit is Some && here.source is Some ==> {
                &&& after.engine.pending_reverse matches Some(p) && p.timeline_clip
                    == here.hit->0.clip.id && given(
                    x,
                    after,
                    Command::SpawnReverse { pending: p, source_time: here.hit->0.source_time },
                )
            }
        }),
{
    let after = x.cache_given_up(here, now as int);
    if here.hit is Some {
        lemma_hit_is_shown(here, t, x.playback.playhead as int);
        if here.source is Some {
            assert(after.out[x.out.len() as int] == Command::SpawnReverse {
                pending: after.engine.pending_reverse->0,
                source_time: here.hit->0.source_time,
            });
        }
    }
}

/// Of the frames that were kept, the one shown is the last that is not ahead of the
/// playhead by more than a thousandth of a second; and where there is such a frame, one is
/// shown.
pub proof fn law_cache_shows_the_last_due(
    entries: Seq<RewindCacheEntry>,
    playhead: int,
    j: int,
)
    requires
        0 <= j < entries.len(),
        entries[j].timeline_pos <= playhead + 1_000_000,
    ensures
        best_for(entries, playhead) matches Some(e) && exists|i: int|
            j <= i < entries.len() && #[trigger] entries[i] == e && e.timeline_pos <= playhead
                + 1_000_000 && forall|k: int|
                i < k < entries.len() ==> (#[trigger] entries[k]).timeline_pos > playhead
                    + 1_000_000,
    decreases entries.len(),
{
    let init = entries.drop_last();
    let n = entries.len() - 1;
    if entries.last().timeline_pos <= playhead + 1_000_000 {
        assert(entries[n] == entries.last());
    } else {
        law_cache_shows_the_last_due(init, playhead, j);
        let e = best_for(init, playhead)->0;
        let i = choose|i: int|
            j <= i < init.len() && #[trigger] init[i] == e && e.timeline_pos <= playhead + 1_000_000
                && forall|k: int|
                i < k < init.len() ==> (#[trigger] init[k]).timeline_pos > playhead + 1_000_000;
        assert(entries[i] == e);
        assert forall|k: int| i < k < entries.len() implies (#[trigger] entries[k]).timeline_pos
            > playhead + 1_000_000 by {
            if k < n {
                assert(init[k] == entries[k]);
            }
        }
    }
}

/// Trimming the kept frames drops no more than those at the end that are ahead of the
/// playhead by more than two thousandths of a second, and all of those.
pub proof fn law_trimming_drops_what_is_ahead(entries: Seq<RewindCacheEntry>, playhead: int)
    ensures
        ({
            let kept = trimmed(entries, playhead);
            &&& kept.is_prefix_of(entries)
            &&& kept.len() > 0 ==> kept.last().timeline_pos <= playhead + 2_000_000
            &&& forall|k: int|
                kept.len() <= k < entries.len() ==> (#[trigger] entries[k]).timeline_pos > playhead
                    + 2_000_000
        }),
    decreases entries.len(),
{
    if entries.len() > 0 && entries.last().timeline_pos > playhead + 2_000_000 {
        let init = entries.drop_last();
        law_trimming_drops_what_is_ahead(init, playhead);
        let kept = trimmed(entries, playhead);
        assert(kept =~= entries.take(kept.len() as int)) by {
            assert(kept =~= init.take(kept.len() as int));
        }
        assert forall|k: int| kept.len() <= k < entries.len() implies (
        #[trigger] entries[k]).timeline_pos > playhead + 2_000_000 by {
            if k < init.len() {
                assert(init[k] == entries[k]);
            }
        }
    }
}

/// The cache drops no more of the oldest frames than it has to: with one frame more it
/// would be over a limit.
pub proof fn law_cache_drops_no_more_than_needed(
    entries: Seq<RewindCacheEntry>,
    limits: CacheLimits,
)
    ensures
        ({
            let kept = newest_within(entries, limits);
            kept.len() < entries.len() ==> {
                let more = entries.skip(entries.len() - kept.len() - 1);
                more.len() > limits.max_frames || bytes_of(more) > limits.max_bytes
            }
        }),
        entries.len() <= limits.max_frames && bytes_of(entries) <= limits.max_bytes
            ==> newest_within(entries, limits) == entries,
    decreases entries.len(),
{
    let kept = newest_within(entries, limits);
    if !crate::engine::rewind_cache::within(entries, limits) && entries.len() > 0 {
        let rest = entries.drop_first();
        law_cache_drops_no_more_than_needed(rest, limits);
        if kept.len() < rest.len() {
            assert(rest.skip(rest.len() - kept.len() - 1) =~= entries.skip(
                entries.len() - kept.len() - 1,
            ));
        } else {
            crate::engine::rewind_cache::law_cache_keeps_newest(rest, limits);
            assert(entries.skip(entries.len() - kept.len() - 1) =~= entries);
        }
    }
}

/// The bytes that some frames take are those of each of them.
pub proof fn law_bytes_add_up(entries: Seq<RewindCacheEntry>, e: RewindCacheEntry)
    ensures
        bytes_of(Seq::<RewindCacheEntry>::empty()) == 0,
        bytes_of(entries.push(e)) == bytes_of(entries) + e.bytes,
{
    assert(entries.push(e).drop_last() =~= entries);
}

/// A picture that is asked for is the one that is seen: the media file of the clip that is
/// on, at the source position that is seen then; and it is decoded small exactly where
/// the pointer drags the playhead.
pub proof fn law_picture_asked_for_is_seen(
    e: PlaybackEngine,
    p: Playback,
    n: PictureNeed,
    t: TimelineView,
    time: int,
)
    requires
        t.fits(),
        is_seen_at(n.here, t, time),
    ensures
        match e.picture_order(p, n).0 {
            PictureOrder::Nothing => true,
            PictureOrder::ShowCached { clip, source_time } => n.scrubbing && n.cached && exists|
                id: TimelineClipId,
            | #[trigger] shown_then(t, time, id, clip, source_time),
            PictureOrder::Decode { clip, source_time, scrubbing } => scrubbing == n.scrubbing
                && exists|id: TimelineClipId| #[trigger]
                shown_then(t, time, id, clip, source_time),
        },
{
    if n.here.hit is Some {
        lemma_hit_is_shown(n.here, t, time);
        let h = n.here.hit->0;
        assert(shown_then(t, time, h.clip.id, h.clip.source_id, h.source_time));
        match e.picture_order(p, n).0 {
            PictureOrder::Nothing => {},
            PictureOrder::ShowCached { clip, source_time } => {
                assert(shown_then(t, time, h.clip.id, clip, source_time));
            },
            PictureOrder::Decode { clip, source_time, scrubbing } => {
                assert(shown_then(t, time, h.clip.id, clip, source_time));
            },
        }
    }
}

/// While the playhead is dragged and no pipeline stands, the picture under it is shown
/// from the cache where it is there, and decoded where it is not and was not asked for
/// last.
pub proof fn law_dragged_playhead_asks_for_its_picture(
    e: PlaybackEngine,
    p: Playback,
    n: PictureNeed,
)
    requires
        n.scrubbing,
        n.here.hit is Some,
        n.here.source is Some,
        e.forward is None,
        e.reverse is None,
        e.last_video_decode_request is None,
    ensures
        n.cached ==> e.picture_order(p, n).0 is ShowCached,
        !n.cached ==> e.picture_order(p, n).0 is Decode && e.picture_order(p, n).1 is Some,
{
}

/// The bucket that a moment falls into is the nearest.
pub proof fn law_bucket_is_nearest(time: int, rate: int)
    requires
        0 < rate,
    ensures
        -1_000_000_000 <= 2 * (bucket_of(time, rate) * 1_000_000_000 - time * rate) <= 1_000_000_000,
{
    let x = time * rate;
    let s: int = 2_000_000_000;
    assert(2 * time * rate == 2 * x) by (nonlinear_arith)
        requires
            x == time * rate,
    ;
    assert(-2 * time * rate == -2 * x) by (nonlinear_arith)
        requires
            x == time * rate,
    ;
    if time >= 0 {
        let q = (2 * x + 1_000_000_000) / s;
        assert(s * q <= 2 * x + 1_000_000_000 < s * q + s);
        assert(bucket_of(time, rate) == q);
    } else {
        let q = (-2 * x + 1_000_000_000) / s;
        assert(s * q <= -2 * x + 1_000_000_000 < s * q + s);
        assert(bucket_of(time, rate) == -q);
    }
}

/// The sound that is previewed is that of the thumbnail under the pointer, as far into the
/// file as the pointer is along the thumbnail.
pub proof fn law_hover_sounds_where_it_points(e: PlaybackEngine, n: HoverNeed)
    ensures
        e.hover_order(n).0 matches SoundOrder::Preview { clip, time } ==> n.hovered == Some(clip)
            && n.has_output && (n.sounding matches Some(duration) && (n.place matches Some(place)
            && (0 <= place <= 1_000_000 && 0 <= duration ==> time * 1_000_000 <= place * duration < (
        time + 1) * 1_000_000))),
        n.has_output && n.hovered is Some && n.place is Some && n.sounding is Some && n.has_preview
            && e.last_hover_audio_request is None ==> e.hover_order(n).0 is Preview,
{
    if n.place is Some && n.sounding is Some {
        let place = n.place->0;
        let duration = n.sounding->0;
        if 0 <= place <= 1_000_000 && 0 <= duration {
            assert(0 <= place * duration <= 1_000_000 * duration) by (nonlinear_arith)
                requires
                    0 <= place <= 1_000_000,
                    0 <= duration,
            ;
        }
    }
}

/// The sound under a playhead that is dragged is that of the clip that is heard there, at
/// the source position that is heard.
pub proof fn law_dragged_playhead_sounds_there(e: PlaybackEngine, n: ScrubNeed)
    ensures
        e.scrub_order(n).0 matches SoundOrder::Preview { clip, time } ==> n.scrubbing && !n.hovering
            && n.sounds && (n.hit matches Some(h) && clip == h.clip.source_id && time
            == h.source_time),
        n.has_output && n.scrubbing && !n.hovering && n.sounds && n.hit is Some
            && e.last_scrub_audio_request is None ==> e.scrub_order(n).0 is Preview,
{
}

/// The clock waits for the pipeline: while its first frame is due within the grace, and
/// while a frame is overdue by more than eighty thousandths of a second; and in reverse
/// until the first frame, however long that takes.
pub proof fn law_clock_waits_for_frames(
    e: PlaybackEngine,
    state: PlaybackState,
    now: int,
    grace: int,
)
    ensures
        state == PlaybackState::Playing && (e.forward matches Some(f) && !f.frame_delivered && now
            - f.started_at <= grace) ==> e.clock_held(state, now, grace),
        state == PlaybackState::Playing && (e.forward matches Some(f) && f.frame_delivered && (
        f.last_frame_time matches Some(l) && now - l > 80_000_000)) ==> e.clock_held(
            state,
            now,
            grace,
        ),
        state == PlaybackState::PlayingReverse && (e.reverse matches Some(r) && r.last_frame_time
            is None) ==> e.clock_held(state, now, grace),
        state == PlaybackState::PlayingReverse && (e.reverse matches Some(r) && (
        r.last_frame_time matches Some(l) && now - l > 80_000_000)) ==> e.clock_held(
            state,
            now,
            grace,
        ),
        state == PlaybackState::Stopped ==> !e.clock_held(state, now, grace),
        e.forward is None && e.reverse is None ==> !e.clock_held(state, now, grace),
{
}

/// A picture decoded on demand is shown while playback rests or the playhead is dragged
/// and nothing that came from a pipeline is on screen.
pub proof fn law_resting_picture_is_shown(
    e: PlaybackEngine,
    state: PlaybackState,
    scrubbing: bool,
    cache_is_empty: bool,
    now: int,
)
    requires
        state == PlaybackState::Stopped || scrubbing,
        e.last_decoded_frame is None,
    ensures
        e.fallback_shown(state, scrubbing, cache_is_empty, now),
{
}

/// A kept frame that is due is shown, and is the picture on screen from then on; where none
/// is due nothing changes.
pub proof fn law_kept_frame_is_shown(x: Scene, e: RewindCacheEntry)
    ensures
        given(x, x.cache_served(Some(e)), Command::ShowFrame(e.frame)),
        x.cache_served(Some(e)).engine.last_decoded_frame matches Some(s) && s.pts == e.source_pts,
        x.cache_served(Some(e)).playback == x.playback,
        x.cache_served(None) == x,
{
    assert(x.cache_served(Some(e)).out[x.out.len() as int] == Command::ShowFrame(e.frame));
}

/// A picture decoded on demand is shown exactly where it is called for.
pub proof fn law_fallback_is_shown_where_called_for(
    x: Scene,
    picture: u64,
    scrubbing: bool,
    cache_is_empty: bool,
    now: int,
)
    ensures
        x.engine.fallback_shown(x.playback.state, scrubbing, cache_is_empty, now) ==> given(
            x,
            x.fallback_taken(Some(picture), scrubbing, cache_is_empty, now),
            Command::ShowFrame(picture),
        ),
        !x.engine.fallback_shown(x.playback.state, scrubbing, cache_is_empty, now)
            ==> x.fallback_taken(Some(picture), scrubbing, cache_is_empty, now) == x,
        x.fallback_taken(None, scrubbing, cache_is_empty, now) == x,
{
    if x.engine.fallback_shown(x.playback.state, scrubbing, cache_is_empty, now) {
        let after = x.fallback_taken(Some(picture), scrubbing, cache_is_empty, now);
        assert(after.out[x.out.len() as int] == Command::ShowFrame(picture));
    }
}

/// While frames that were kept are left, reverse playback shows the last of them that is
/// due; once the pipeline delivers it gives way, and without kept frames the frames of
/// the pipeline are taken.
pub proof fn law_kept_frames_come_first(
    x: Scene,
    frames: Seq<FrameRef>,
    kept: Seq<RewindCacheEntry>,
    t: TimelineView,
    ctx: PollContext,
)
    ensures
        x.playback.state == PlaybackState::PlayingReverse && kept.len() > 0 && frames.len() == 0
            ==> (best_for(
            trimmed(kept, x.playback.playhead as int),
            x.playback.playhead as int,
        ) matches Some(e) ==> given(
            x,
            x.reverse_side_taken(frames, kept, t, ctx),
            Command::ShowFrame(e.frame),
        )),
        x.playback.state == PlaybackState::PlayingReverse && kept.len() > 0 && frames.len() > 0
            ==> x.reverse_side_taken(frames, kept, t, ctx).engine.reverse is None,
        kept.len() == 0 ==> x.reverse_side_taken(frames, kept, t, ctx) == x.reverse_taken(
            frames,
            t,
            ctx,
        ),
        frames.len() == 0 ==> x.reverse_taken(frames, t, ctx) == x,
{
    match best_for(trimmed(kept, x.playback.playhead as int), x.playback.playhead as int) {
        Some(e) => {
            law_kept_frame_is_shown(x, e);
        },
        None => {},
    }
}

/// Frames of the reverse pipeline that have come are not lost: the one that is picked is
/// shown first of all.
pub proof fn law_reverse_frames_are_shown(
    x: Scene,
    frames: Seq<FrameRef>,
    t: TimelineView,
    ctx: PollContext,
)
    requires
        x.engine.reverse is Some,
        frames.len() > 0,
    ensures
        exists|i: int|
            0 <= i < frames.len() && is_best_reverse(
                places(
                    frames,
                    x.engine.reverse->0.pts_offset,
                    clip_of(t, x.engine.reverse->0.timeline_clip),
                ),
                x.playback.playhead as int,
                i,
            ) && x.reverse_taken(frames, t, ctx) == x.reverse_frame_applied(
                #[trigger] frames[i],
                t,
                ctx.previous,
                ctx.boundary as int,
                ctx.ready,
                ctx.now as int,
            ),
{
    let r = x.engine.reverse->0;
    let all = places(frames, r.pts_offset, clip_of(t, r.timeline_clip));
    let playhead = x.playback.playhead as int;
    lemma_some_reverse(all, playhead, all.len() as int);
    let i = choose|i: int| is_best_reverse(all, playhead, i);
    assert(is_best_reverse(all, playhead, i));
    assert(frames[i] == frames[i]);
}

proof fn lemma_some_reverse(all: Seq<int>, playhead: int, n: int)
    requires
        0 < n <= all.len(),
        n < all.len() ==> all[n] < playhead - 50_000_000,
    ensures
        exists|i: int| is_best_reverse(all, playhead, i),
    decreases n,
{
    if all[0] < playhead - 50_000_000 {
        assert(is_best_reverse(all, playhead, all.len() - 1));
    } else if exists|k: int| 0 <= k < n && #[trigger] all[k] < playhead - 50_000_000 {
        let k = choose|k: int| 0 <= k < n && #[trigger] all[k] < playhead - 50_000_000;
        lemma_some_reverse(all, playhead, k);
    } else {
        assert(is_best_reverse(all, playhead, n - 1));
    }
}

/// A sound preview that has come is played while playback rests, in place of what sounded.
pub proof fn law_preview_is_played_at_rest(x: Scene)
    requires
        x.playback.state == PlaybackState::Stopped,
    ensures
        given(x, x.snippet_taken(true), Command::PlaySnippet),
        given(x, x.snippet_taken(true), Command::ResetAudio),
        x.snippet_taken(false) == x,
{
    let after = x.snippet_taken(true);
    assert(after.out[x.out.len() as int] == Command::ResetAudio);
    assert(after.out[(x.out.len() + 1) as int] == Command::PlaySnippet);
}

/// At the end of a pass the engine remembers where the playhead was and how playback went.
pub proof fn law_pass_is_remembered(e: PlaybackEngine, p: Playback)
    ensures
        e.noted(p).last_playhead_observed == p.playhead,
        e.noted(p).last_playback_state == p.state,
        e.noted(p).last_is_playing <==> p.state != PlaybackState::Stopped,
        e.noted(p).forward == e.forward && e.noted(p).reverse == e.reverse,
        p.state != PlaybackState::Stopped ==> e.noted(p).shadow == e.shadow
            && e.noted(p).pending_forward == e.pending_forward,
        e.last_is_playing && p.state == PlaybackState::Stopped ==> e.noted(p).shadow is None
            && e.noted(p).pending_forward is None && e.noted(p).last_decoded_frame is None,
{
}

} // verus!
