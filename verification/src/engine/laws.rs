//! What every pipeline that the engine starts begins with.

use vstd::prelude::*;

use crate::engine::forward::{clip_of, NextClip, Polled, Readiness};
use crate::engine::lookahead::Ahead;
use crate::engine::manage::Surroundings;
use crate::engine::slots::{Command, FrameRef, PendingPipeline, Scene, Source};
use crate::ids::{ClipId, TimelineClipId};
use crate::playback::PlaybackState;
use crate::timeline::clip::TimelineClip;
use crate::timeline::edit::PlayheadHit;
use crate::timeline::lanes::{lemma_clip_place_first, TimelineView};
use crate::timeline::overlap::all_fit;
use crate::timeline::query::{hit, visible_of};
use crate::timeline::seen::{hit_at, law_seen_is_what_is_on_first, on_at};

verus! {

/// A clip with the identifier is seen at `time`, and of the media file `source` it shows
/// `source_time` then: as far into its source window as `time` is into the clip.
pub open spec fn shown_then(
    t: TimelineView,
    time: int,
    id: TimelineClipId,
    source: ClipId,
    source_time: i64,
) -> bool {
    exists|c: TimelineClip| #[trigger]
        seen_then(t, time, c) && c.id == id && c.source_id == source && source_time - c.source_in
            == time - c.timeline_start
}

/// The clip is on a visible track, and on at `time`.
pub open spec fn seen_then(t: TimelineView, time: int, c: TimelineClip) -> bool {
    exists|k: int, i: int|
        0 <= k < t.video.len() && 0 <= i < t.video[k].clips.len() && t.video[k].visible
            && #[trigger] t.video[k].clips[i] == c && on_at(c, time)
}

/// A pipeline that is started at `now` is started for what is seen at `time`, with the
/// source position that is seen then and the speed of playback; and a picture that stands
/// in until the pipeline delivers is that very one.
pub open spec fn starts_with_what_is_seen(
    cmd: Command,
    t: TimelineView,
    time: int,
    speed: i64,
    now: int,
) -> bool {
    match cmd {
        Command::SpawnForward { pending, source_time } => begins_with(
            pending,
            source_time,
            t,
            time,
            speed,
            now,
        ),
        Command::SpawnShadow { pending, source_time, audio_time } => begins_with(
            pending,
            source_time,
            t,
            time,
            speed,
            now,
        ) && audio_time == time,
        Command::SpawnReverse { pending, source_time } => begins_with(
            pending,
            source_time,
            t,
            time,
            speed,
            now,
        ),
        Command::SpawnReverseShadow { pending, source_time } => begins_with(
            pending,
            source_time,
            t,
            time,
            speed,
            now,
        ),
        Command::ShowBridgeFrame { clip, source_time } => exists|id: TimelineClipId| #[trigger]
            shown_then(t, time, id, clip, source_time),
        _ => true,
    }
}

/// The pipeline is for what is seen at `time`.
pub open spec fn begins_with(
    pending: PendingPipeline,
    source_time: i64,
    t: TimelineView,
    time: int,
    speed: i64,
    now: int,
) -> bool {
    &&& shown_then(t, time, pending.timeline_clip, pending.clip.clip, source_time)
    &&& pending.speed == speed
    &&& pending.started_at == now
}

/// What was commanded before stands, and all that is added starts with what is seen.
pub open spec fn only_starts_with_what_is_seen(
    before: Seq<Command>,
    after: Seq<Command>,
    t: TimelineView,
    time: int,
    speed: i64,
    now: int,
) -> bool {
    &&& before.is_prefix_of(after)
    &&& forall|n: int|
        before.len() <= n < after.len() ==> starts_with_what_is_seen(
            #[trigger] after[n],
            t,
            time,
            speed,
            now,
        )
}

/// The next clip is what is seen at `time`, with the media file it comes from.
pub open spec fn is_seen_at(next: NextClip, t: TimelineView, time: int) -> bool {
    &&& next.hit == hit(visible_of(t.video), time)
    &&& next.source matches Some(s) ==> next.hit matches Some(h) ==> s.clip == h.clip.source_id
}

/// The command says of a pipeline what was found.
spec fn says_found(cmd: Command, h: PlayheadHit, source: Option<Source>, speed: i64, now: int) -> bool {
    match cmd {
        Command::SpawnForward { pending, source_time } => found(
            pending,
            source_time,
            h,
            source,
            speed,
            now,
        ),
        Command::SpawnShadow { pending, source_time, audio_time } => false,
        Command::SpawnReverse { pending, source_time } => found(
            pending,
            source_time,
            h,
            source,
            speed,
            now,
        ),
        Command::SpawnReverseShadow { pending, source_time } => found(
            pending,
            source_time,
            h,
            source,
            speed,
            now,
        ),
        Command::ShowBridgeFrame { clip, source_time } => source_time == h.source_time && (clip
            == h.clip.source_id || (source matches Some(s) && clip == s.clip)),
        _ => true,
    }
}

spec fn found(
    pending: PendingPipeline,
    source_time: i64,
    h: PlayheadHit,
    source: Option<Source>,
    speed: i64,
    now: int,
) -> bool {
    &&& pending.timeline_clip == h.clip.id
    &&& source == Some(pending.clip)
    &&& source_time == h.source_time
    &&& pending.speed == speed
    &&& pending.started_at == now
}

spec fn adds_found(
    before: Seq<Command>,
    after: Seq<Command>,
    h: PlayheadHit,
    source: Option<Source>,
    speed: i64,
    now: int,
) -> bool {
    &&& before.is_prefix_of(after)
    &&& forall|n: int|
        before.len() <= n < after.len() ==> says_found(#[trigger] after[n], h, source, speed, now)
}

spec fn adds_quietly(before: Seq<Command>, after: Seq<Command>) -> bool {
    &&& before.is_prefix_of(after)
    &&& forall|n: int| before.len() <= n < after.len() ==> quiet(#[trigger] after[n])
}

/// The command starts no pipeline and shows no picture that stands in for one.
spec fn quiet(cmd: Command) -> bool {
    !(cmd is SpawnForward || cmd is SpawnShadow || cmd is SpawnReverse || cmd is SpawnReverseShadow
        || cmd is ShowBridgeFrame)
}

proof fn lemma_quiet_chain(a: Seq<Command>, b: Seq<Command>, c: Seq<Command>)
    requires
        adds_quietly(a, b),
    ensures
        forall|h: PlayheadHit, source: Option<Source>, speed: i64, now: int| #[trigger]
            adds_found(b, c, h, source, speed, now) ==> adds_found(a, c, h, source, speed, now),
        adds_quietly(b, c) ==> adds_quietly(a, c),
        forall|h: PlayheadHit, source: Option<Source>, speed: i64, now: int| #[trigger]
            adds_found(a, c, h, source, speed, now) <== adds_quietly(a, c),
        b.is_prefix_of(c) && a.len() < b.len() ==> c[a.len() as int] == b[a.len() as int],
{
    if b.is_prefix_of(c) {
        assert(a =~= c.take(a.len() as int));
        assert forall|n: int| 0 <= n < b.len() implies c[n] == #[trigger] b[n] by {
            assert(b == c.take(b.len() as int));
            assert(c.take(b.len() as int)[n] == c[n]);
        }
    }
    assert forall|h: PlayheadHit, source: Option<Source>, speed: i64, now: int| #[trigger]
        adds_found(b, c, h, source, speed, now) implies adds_found(
        a,
        c,
        h,
        source,
        speed,
        now,
    ) by {
        assert forall|n: int| a.len() <= n < c.len() implies says_found(
            #[trigger] c[n],
            h,
            source,
            speed,
            now,
        ) by {
            if n < b.len() {
                assert(quiet(b[n]));
            }
        }
    }
    if adds_quietly(b, c) {
        assert forall|n: int| a.len() <= n < c.len() implies quiet(#[trigger] c[n]) by {
            if n < b.len() {
                assert(quiet(b[n]));
            }
        }
    }
}

proof fn lemma_found_is_seen(
    before: Seq<Command>,
    after: Seq<Command>,
    next: NextClip,
    t: TimelineView,
    time: int,
    speed: i64,
    now: int,
)
    requires
        t.fits(),
        is_seen_at(next, t, time),
        next.hit matches Some(h) ==> adds_found(before, after, h, next.source, speed, now),
        next.hit is None ==> adds_quietly(before, after),
    ensures
        only_starts_with_what_is_seen(before, after, t, time, speed, now),
{
    if let Some(h) = next.hit {
        lemma_hit_is_shown(next, t, time);
        let c = h.clip;
        assert(shown_then(t, time, c.id, c.source_id, h.source_time));
    }
}

/// What is found at a moment is shown then.
pub proof fn lemma_hit_is_shown(next: NextClip, t: TimelineView, time: int)
    requires
        t.fits(),
        is_seen_at(next, t, time),
        next.hit is Some,
    ensures
        seen_then(t, time, next.hit->0.clip),
        next.hit->0.source_time - next.hit->0.clip.source_in == time
            - next.hit->0.clip.timeline_start,
        shown_then(
            t,
            time,
            next.hit->0.clip.id,
            next.hit->0.clip.source_id,
            next.hit->0.source_time,
        ),
{
    let h = next.hit->0;
    assert forall|k: int| 0 <= k < t.video.len() implies all_fit((#[trigger] t.video[k]).clips) by {
        assert(t.tracks()[k] == t.video[k]);
    }
    law_seen_is_what_is_on_first(t.video, time);
    let (k, i) = choose|k: int, i: int| #[trigger]
        hit_at(t.video, k, i, time, h) && t.video[k].visible;
    assert(t.video[k].clips[i] == h.clip);
    assert(seen_then(t, time, h.clip));
}

/// A clip that plays is prepared for: every pipeline that is started ahead of the end of
/// the clip is for what is seen when the clip ends, begins with the source position that
/// is seen then, and has the sound of that moment. Nothing else is commanded.
pub proof fn law_prepared_for_what_comes_next(
    s: Scene,
    ahead: Ahead,
    t: TimelineView,
    now: i64,
    polled: Polled,
    playing: TimelineClip,
)
    requires
        t.fits(),
        s.engine.forward matches Some(f) && clip_of(t, f.timeline_clip) == Some(playing),
        is_seen_at(ahead.next, t, playing.timeline_start + playing.duration),
    ensures
        ({
            let after = s.shadow_polled(polled).shadow_prepared(ahead, t, now as int);
            &&& only_starts_with_what_is_seen(
                s.out,
                after.out,
                t,
                playing.timeline_start + playing.duration,
                s.playback.speed,
                now as int,
            )
            &&& forall|n: int|
                s.out.len() <= n < after.out.len() ==> (#[trigger] after.out[n]) is SpawnShadow
            &&& after.playback == s.playback
        }),
{
    if ahead.next.hit is Some {
        lemma_hit_is_shown(ahead.next, t, playing.timeline_start + playing.duration);
        let f = s.engine.forward->0;
        lemma_clip_place_first(t, f.timeline_clip);
        let p = t.clip_place(f.timeline_clip)->0;
        assert(all_fit(t.tracks()[p.0].clips));
        assert(t.tracks()[p.0].clips[p.1] == playing);
    }
}

/// While a clip plays and no more than two seconds of it are left at the speed of
/// playback, a pipeline for what comes next is started, unless one stands or is being
/// started; while more is left none is.
pub proof fn law_next_is_prepared_in_time(
    s: Scene,
    ahead: Ahead,
    t: TimelineView,
    now: i64,
    left: i64,
)
    requires
        s.playback.state == PlaybackState::Playing,
        s.playback.speed > 0,
        s.engine.forward is Some,
        ahead.next.hit is Some,
        ahead.next.source is Some,
        ahead.remaining == Some(left),
        s.engine.shadow matches Some(x) ==> x.timeline_clip != ahead.next.hit->0.clip.id,
        s.engine.pending_shadow matches Some(x) ==> x.timeline_clip != ahead.next.hit->0.clip.id,
    ensures
        ({
            let after = s.shadow_prepared(ahead, t, now as int);
            &&& left * s.playback.speed <= 2_000_000_000_000 ==> {
                &&& after.out.len() == s.out.len() + 1
                &&& after.out.last() matches Command::SpawnShadow {
                    pending,
                    source_time,
                    audio_time,
                } && pending.timeline_clip == ahead.next.hit->0.clip.id && pending.clip
                    == ahead.next.source->0 && after.engine.pending_shadow == Some(pending)
            }
            &&& left * s.playback.speed > 2_000_000_000_000 ==> after == s
        }),
{
}

proof fn lemma_started(
    s: Scene,
    h: PlayheadHit,
    source: Source,
    now: i64,
    end: Option<i64>,
    polled: Polled,
)
    ensures
        adds_found(
            s.out,
            s.pipeline_started(
                h.clip.id,
                source,
                h.source_time as int,
                now as int,
                end,
                polled,
            ).out,
            h,
            Some(source),
            s.playback.speed,
            now as int,
        ),
{
    reveal(Scene::pipeline_started);
}

proof fn lemma_promoted(s: Scene, h: PlayheadHit, source: Option<Source>, time: int, now: i64)
    ensures
        adds_found(
            s.out,
            s.shadow_promoted(time, h, now as int).out,
            h,
            source,
            s.playback.speed,
            now as int,
        ),
{
    reveal(Scene::shadow_promoted);
}

proof fn lemma_reverse_promoted(s: Scene, ready: Readiness, now: i64)
    ensures
        adds_quietly(s.out, s.reverse_shadow_promoted(now as int).activated(ready, now as int).out),
{
    reveal(Scene::reverse_shadow_promoted);
}

proof fn lemma_forward_kept(
    x: Scene,
    h: PlayheadHit,
    source: Source,
    t: TimelineView,
    s: Surroundings,
)
    ensures
        adds_found(
            x.out,
            x.forward_kept(h, source, t, s).out,
            h,
            Some(source),
            x.playback.speed,
            s.now as int,
        ),
{
    reveal(Scene::forward_kept);
    let a = x.aged();
    let b = if a.needs_forward(h.clip.id, source) {
        a
    } else {
        a.forward_speed_kept()
    };
    assert(adds_quietly(x.out, b.out));
    let end = match clip_of(t, h.clip.id) {
        Some(c) => Some(c.end_at() as i64),
        None => None,
    };
    lemma_started(b.forward_dropped(), h, source, s.now, end, s.polled_shadow);
    lemma_started(
        b.forward_dropped().say(Command::ResetAudio),
        h,
        source,
        s.now,
        end,
        s.polled_shadow,
    );
    lemma_promoted(b, h, Some(source), x.playback.playhead as int, s.now);
    let reset = b.forward_dropped().say(Command::ResetAudio);
    let after = x.forward_kept(h, source, t, s).out;
    assert(adds_quietly(x.out, reset.out));
    lemma_quiet_chain(x.out, b.out, after);
    lemma_quiet_chain(x.out, reset.out, after);
}

proof fn lemma_reverse_kept(
    x: Scene,
    h: PlayheadHit,
    source: Source,
    t: TimelineView,
    s: Surroundings,
)
    ensures
        adds_found(
            x.out,
            x.reverse_kept_or_promoted(h, source, t, s).out,
            h,
            Some(source),
            x.playback.speed,
            s.now as int,
        ),
{
    reveal(Scene::reverse_kept_or_promoted);
    reveal(Scene::reverse_kept);
    lemma_reverse_promoted(x, s.ready, s.now);
}

proof fn lemma_at_rest(x: Scene, s: Surroundings)
    ensures
        s.here.hit matches Some(h) ==> adds_found(
            x.out,
            x.at_rest(s).out,
            h,
            s.here.source,
            x.playback.speed,
            s.now as int,
        ),
        s.here.hit is None || s.scrubbing is Some ==> x.at_rest(s).out == x.out,
{
    reveal(Scene::at_rest);
}

proof fn lemma_in_gap(x: Scene, s: Surroundings)
    ensures
        adds_quietly(x.out, x.in_gap(s).out),
{
    reveal(Scene::in_gap);
}

/// Every pipeline that a look at the pipelines starts, either way, is for what is seen at
/// the playhead, and begins with the source position that is seen there; and so is every
/// picture that stands in for one. While the pointer drags the playhead none is started.
pub proof fn law_started_for_what_is_seen(x: Scene, s: Surroundings, t: TimelineView)
    requires
        t.fits(),
        s.scrubbing is None ==> is_seen_at(s.here, t, x.playback.playhead as int),
    ensures
        only_starts_with_what_is_seen(
            x.out,
            x.managed(s, t).out,
            t,
            x.playback.playhead as int,
            x.playback.speed,
            s.now as int,
        ),
        s.scrubbing is Some ==> forall|n: int|
            x.out.len() <= n < x.managed(s, t).out.len() ==> !((
            #[trigger] x.managed(s, t).out[n]) is SpawnForward || x.managed(s, t).out[n] is SpawnReverse
                || x.managed(s, t).out[n] is SpawnReverseShadow || x.managed(s, t).out[n] is SpawnShadow),
{
    let d = x.activated(s.ready, s.now as int).off_direction_dropped();
    let after = x.managed(s, t);
    assert(adds_quietly(x.out, d.out));
    assert(d.playback == x.playback);
    lemma_quiet_chain(x.out, d.out, after.out);
    lemma_at_rest(d, s);
    lemma_in_gap(d, s);
    if s.scrubbing is None {
        if let Some(h) = s.here.hit {
            if let Some(source) = s.here.source {
                lemma_forward_kept(d, h, source, t, s);
                lemma_reverse_kept(d, h, source, t, s);
            }
            assert(adds_found(x.out, after.out, h, s.here.source, x.playback.speed, s.now as int));
        } else {
            assert(adds_quietly(x.out, after.out));
        }
        lemma_found_is_seen(
            x.out,
            after.out,
            s.here,
            t,
            x.playback.playhead as int,
            x.playback.speed,
            s.now as int,
        );
    } else {
        assert(adds_quietly(x.out, after.out));
    }
}

/// A frame of the forward pipeline is shown first of all. Where its clip is over, what
/// is started is for what is seen when the clip ends, and begins with the source position
/// that is seen then.
pub proof fn law_forward_frame_is_shown(
    x: Scene,
    frame: FrameRef,
    t: TimelineView,
    next: NextClip,
    now: i64,
    polled: Polled,
    playing: TimelineClip,
)
    requires
        t.fits(),
        x.engine.forward matches Some(f) && clip_of(t, f.timeline_clip) == Some(playing),
        is_seen_at(next, t, playing.timeline_start + playing.duration),
    ensures
        ({
            let after = x.forward_frame_applied(frame, t, next, now as int, polled);
            &&& only_starts_with_what_is_seen(
                x.out,
                after.out,
                t,
                playing.timeline_start + playing.duration,
                x.playback.speed,
                now as int,
            )
            &&& after.out.len() > x.out.len()
            &&& after.out[x.out.len() as int] == Command::ShowFrame(frame.frame)
        }),
{
    let c = playing;
    let after = x.forward_frame_applied(frame, t, next, now as int, polled);
    let over = x.forward_shown(frame).at(c.end_at()).with(
        crate::engine::slots::PlaybackEngine { forward: None, ..x.forward_shown(frame).engine },
    );
    assert(adds_quietly(x.out, over.out));
    lemma_quiet_chain(x.out, over.out, after.out);
    if let Some(h) = next.hit {
        lemma_promoted(over, h, next.source, c.end_at(), now);
        if let Some(source) = next.source {
            lemma_started(
                over,
                h,
                source,
                now,
                crate::engine::forward::next_end_of(t, next),
                polled,
            );
        }
        assert(adds_found(x.out, after.out, h, next.source, x.playback.speed, now as int));
    } else {
        assert(adds_quietly(x.out, after.out));
    }
    lemma_found_is_seen(
        x.out,
        after.out,
        next,
        t,
        c.timeline_start + c.duration,
        x.playback.speed,
        now as int,
    );
}

/// A frame of the reverse pipeline is shown first of all. Where its clip has come to its
/// start, what is started is for what is seen just before the clip begins, and begins
/// with the source position that is seen then.
pub proof fn law_reverse_frame_is_shown(
    x: Scene,
    frame: FrameRef,
    t: TimelineView,
    previous: NextClip,
    boundary: int,
    ready: Readiness,
    now: i64,
    playing: TimelineClip,
)
    requires
        t.fits(),
        x.engine.reverse matches Some(r) && clip_of(t, r.timeline_clip) == Some(playing),
        is_seen_at(previous, t, playing.timeline_start - 1),
    ensures
        ({
            let after = x.reverse_frame_applied(frame, t, previous, boundary, ready, now as int);
            &&& only_starts_with_what_is_seen(
                x.out,
                after.out,
                t,
                playing.timeline_start - 1,
                x.playback.speed,
                now as int,
            )
            &&& after.out.len() > x.out.len()
            &&& after.out[x.out.len() as int] == Command::ShowFrame(frame.frame)
        }),
{
    let c = playing;
    let after = x.reverse_frame_applied(frame, t, previous, boundary, ready, now as int);
    reveal(Scene::reverse_shadow_promoted);
    if let Some(h) = previous.hit {
        assert(adds_found(x.out, after.out, h, previous.source, x.playback.speed, now as int));
    } else {
        assert(adds_quietly(x.out, after.out));
    }
    lemma_found_is_seen(
        x.out,
        after.out,
        previous,
        t,
        c.timeline_start - 1,
        x.playback.speed,
        now as int,
    );
}

/// Every pipeline that is started ahead of the start of a clip that plays in reverse is
/// for what is seen just before the clip begins, and begins with the source position that
/// is seen then.
pub proof fn law_prepared_for_what_comes_before(
    s: Scene,
    previous: NextClip,
    t: TimelineView,
    now: i64,
    polled: Polled,
    playing: TimelineClip,
)
    requires
        t.fits(),
        s.engine.reverse matches Some(r) && clip_of(t, r.timeline_clip) == Some(playing),
        is_seen_at(previous, t, playing.timeline_start - 1),
    ensures
        ({
            let after = s.reverse_shadow_polled(polled).reverse_shadow_prepared(
                previous,
                t,
                now as int,
            );
            &&& only_starts_with_what_is_seen(
                s.out,
                after.out,
                t,
                playing.timeline_start - 1,
                s.playback.speed,
                now as int,
            )
            &&& forall|n: int|
                s.out.len() <= n < after.out.len() ==> (
                #[trigger] after.out[n]) is SpawnReverseShadow
            &&& after.playback == s.playback
        }),
{
    if previous.hit is Some {
        lemma_hit_is_shown(previous, t, playing.timeline_start - 1);
    }
}

/// What comes next is prepared once: where a shadow pipeline for it stands or is being
/// started, or playback does not go forward, nothing is started.
pub proof fn law_next_is_prepared_once(s: Scene, ahead: Ahead, t: TimelineView, now: i64)
    ensures
        (ahead.next.hit matches Some(h) && (s.engine.shadow matches Some(x) && x.timeline_clip
            == h.clip.id)) ==> s.shadow_prepared(ahead, t, now as int) == s,
        (ahead.next.hit matches Some(h) && (s.engine.pending_shadow matches Some(x)
            && x.timeline_clip == h.clip.id)) ==> s.shadow_prepared(ahead, t, now as int) == s,
        s.playback.state != PlaybackState::Playing ==> s.shadow_prepared(ahead, t, now as int) == s,
        s.engine.forward is None || ahead.next.hit is None ==> s.shadow_prepared(
            ahead,
            t,
            now as int,
        ) == s,
{
}

/// While a clip plays in reverse and no more than two seconds of it are left at the speed
/// of playback, a pipeline for what comes before is started, unless one stands or is being
/// started; while more is left none is.
pub proof fn law_previous_is_prepared_in_time(
    s: Scene,
    previous: NextClip,
    t: TimelineView,
    now: i64,
    playing: TimelineClip,
)
    requires
        s.playback.state == PlaybackState::PlayingReverse,
        s.playback.speed > 0,
        s.engine.reverse matches Some(r) && clip_of(t, r.timeline_clip) == Some(playing),
        previous.hit is Some,
        previous.source is Some,
        playing.timeline_start <= s.playback.playhead,
    ensures
        ({
            let after = s.reverse_shadow_prepared(previous, t, now as int);
            let left = s.playback.playhead - playing.timeline_start;
            let covered = (s.engine.reverse_shadow matches Some(x) && x.timeline_clip
                == previous.hit->0.clip.id) || (s.engine.pending_reverse_shadow matches Some(x)
                && x.timeline_clip == previous.hit->0.clip.id);
            &&& covered ==> after == s
            &&& left * s.playback.speed > 2_000_000_000_000 ==> after == s
            &&& !covered && left * s.playback.speed <= 2_000_000_000_000 ==> {
                &&& after.out.len() == s.out.len() + 1
                &&& after.out.last() matches Command::SpawnReverseShadow { pending, source_time }
                    && pending.timeline_clip == previous.hit->0.clip.id && pending.clip
                    == previous.source->0 && after.engine.pending_reverse_shadow == Some(pending)
            }
        }),
{
}

} // verus!
