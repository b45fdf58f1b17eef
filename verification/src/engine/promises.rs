//! What the engine does not fail to do.

use vstd::prelude::*;

use crate::engine::forward::{clip_of, NextClip, Polled, Readiness};
use crate::engine::manage::Surroundings;
use crate::engine::slots::{Command, FrameRef, PendingPipeline, Scene, Source};
use crate::playback::PlaybackState;
use crate::timeline::clip::TimelineClip;
use crate::timeline::edit::PlayheadHit;
use crate::timeline::lanes::TimelineView;

verus! {

/// The command has been given since.
pub open spec fn given(before: Scene, after: Scene, cmd: Command) -> bool {
    exists|n: int| before.out.len() <= n < after.out.len() && #[trigger] after.out[n] == cmd
}

/// A pipeline for what was found is being started forwards: it is awaited, it begins with
/// the source position that was found, the picture of that position stands in, and the
/// sound begins anew.
pub open spec fn forward_begun(
    before: Scene,
    after: Scene,
    h: PlayheadHit,
    source: Source,
    now: i64,
) -> bool {
    let pending = PendingPipeline {
        clip: source,
        timeline_clip: h.clip.id,
        speed: before.playback.speed,
        started_at: now,
    };
    &&& after.engine.forward is None
    &&& after.engine.pending_forward == Some(pending)
    &&& given(before, after, Command::SpawnForward { pending, source_time: h.source_time })
    &&& given(
        before,
        after,
        Command::ShowBridgeFrame { clip: source.clip, source_time: h.source_time },
    )
    &&& given(before, after, Command::ResetAudio)
    &&& given(before, after, Command::StartAudioSources)
}

proof fn lemma_begun(
    x: Scene,
    b: Scene,
    h: PlayheadHit,
    source: Source,
    now: i64,
    end: Option<i64>,
    polled: Polled,
    after: Scene,
)
    requires
        x.out.len() <= b.out.len(),
        b.engine.forward is None,
        b.playback == x.playback,
        after == b.pipeline_started(
            h.clip.id,
            source,
            h.source_time as int,
            now as int,
            end,
            polled,
        ),
    ensures
        forward_begun(x, after, h, source, now),
{
    reveal(Scene::pipeline_started);
    let n = b.out.len() as int;
    let pending = after.engine.pending_forward->0;
    assert(after.out[n] == Command::ResetAudio);
    assert(after.out[n + 1] == (Command::SpawnForward { pending, source_time: h.source_time }));
    assert(after.out[n + 2] == (Command::ShowBridgeFrame {
        clip: source.clip,
        source_time: h.source_time,
    }));
    assert(after.out[n + 3] == Command::StartAudioSources);
}

proof fn lemma_noted(x: Scene, a: Scene, h: PlayheadHit, source: Source, now: i64, scrubbing: bool)
    requires
        forward_begun(x, a, h, source, now),
    ensures
        forward_begun(x, a.scrubbing_noted(scrubbing), h, source, now),
{
    let b = a.scrubbing_noted(scrubbing);
    assert forall|cmd: Command| #[trigger] given(x, a, cmd) implies given(x, b, cmd) by {
        let n = choose|n: int| x.out.len() <= n < a.out.len() && #[trigger] a.out[n] == cmd;
        assert(b.out[n] == cmd);
    }
}

/// Forward playback of what is seen begins where no pipeline stands or is awaited, and
/// begins anew where the one that stands is for something else or has delivered nothing
/// for three quarters of a second.
pub proof fn law_forward_playback_begins(
    x: Scene,
    s: Surroundings,
    t: TimelineView,
    h: PlayheadHit,
    source: Source,
)
    requires
        x.playback.state == PlaybackState::Playing,
        s.scrubbing is None,
        s.here.hit == Some(h),
        s.here.source == Some(source),
        !x.engine.was_scrubbing,
        (x.engine.forward is None && x.engine.pending_forward is None && x.engine.shadow is None)
            || (x.engine.forward matches Some(f) && f.timeline_clip == h.clip.id && f.clip == source
            && (f.last_frame_time matches Some(l) && s.now - l > 750_000_000)) || (
        x.engine.forward matches Some(f) && f.age >= 2 && (f.timeline_clip != h.clip.id || f.clip
            != source)),
    ensures
        forward_begun(x, x.managed(s, t), h, source, s.now),
{
    reveal(Scene::forward_kept);
    let d = x.activated(s.ready, s.now as int).off_direction_dropped();
    let a = d.aged();
    let needs = a.needs_forward(h.clip.id, source);
    let b = if needs {
        a
    } else {
        a.forward_speed_kept()
    };
    let end = match clip_of(t, h.clip.id) {
        Some(c) => Some(c.end_at() as i64),
        None => None,
    };
    let kept = d.forward_kept(h, source, t, s);
    if needs {
        lemma_begun(x, b.forward_dropped(), h, source, s.now, end, s.polled_shadow, kept);
    } else {
        lemma_begun(
            x,
            b.forward_dropped().say(Command::ResetAudio),
            h,
            source,
            s.now,
            end,
            s.polled_shadow,
            kept,
        );
    }
    lemma_noted(x, kept, h, source, s.now, false);
}

/// A forward pipeline that delivers what is seen stands, and runs at the speed of
/// playback: one that runs at another is told, and the sound begins anew with it.
pub proof fn law_forward_pipeline_keeps_speed(
    x: Scene,
    s: Surroundings,
    t: TimelineView,
    h: PlayheadHit,
    source: Source,
)
    requires
        x.playback.state == PlaybackState::Playing,
        s.scrubbing is None,
        s.here.hit == Some(h),
        s.here.source == Some(source),
        !x.engine.was_scrubbing,
        x.engine.forward matches Some(f) && f.timeline_clip == h.clip.id && f.clip == source && (
        f.last_frame_time matches Some(l) ==> s.now - l <= 750_000_000),
    ensures
        x.managed(s, t).engine.forward matches Some(g) && g.handle == x.engine.forward->0.handle
            && g.timeline_clip == h.clip.id && -10 <= g.speed - x.playback.speed <= 10,
        x.engine.forward->0.speed - x.playback.speed > 10 || x.playback.speed
            - x.engine.forward->0.speed > 10 ==> given(
            x,
            x.managed(s, t),
            Command::UpdateSpeed {
                handle: x.engine.forward->0.handle,
                speed: x.playback.speed,
            },
        ) && x.managed(s, t).engine.forward->0.speed == x.playback.speed && given(
            x,
            x.managed(s, t),
            Command::StartAudioSources,
        ),
{
    reveal(Scene::forward_kept);
    let d = x.activated(s.ready, s.now as int).off_direction_dropped();
    let n = d.out.len() as int;
    let after = x.managed(s, t);
    if x.engine.forward->0.speed - x.playback.speed > 10 || x.playback.speed
        - x.engine.forward->0.speed > 10 {
        assert(after.out[n] == (Command::UpdateSpeed {
            handle: x.engine.forward->0.handle,
            speed: x.playback.speed,
        }));
        assert(after.out[n + 2] == Command::StartAudioSources);
    }
}

/// Reverse playback of what is seen begins where no pipeline stands, is prepared or
/// awaited, unless what is seen is too near the start of its clip: a pipeline is awaited
/// that begins with the source position that was found, and the picture of that very
/// position stands in.
pub proof fn law_reverse_playback_begins(
    x: Scene,
    s: Surroundings,
    t: TimelineView,
    h: PlayheadHit,
    source: Source,
)
    requires
        x.playback.state == PlaybackState::PlayingReverse,
        s.scrubbing is None,
        s.here.hit == Some(h),
        s.here.source == Some(source),
        x.engine.reverse is None,
        x.engine.pending_reverse is None,
        x.engine.reverse_shadow is None,
        clip_of(t, h.clip.id) == Some(h.clip),
    ensures
        ({
            let after = x.managed(s, t);
            let pending = PendingPipeline {
                clip: source,
                timeline_clip: h.clip.id,
                speed: x.playback.speed,
                started_at: s.now,
            };
            &&& h.source_time - h.clip.source_in >= s.tuning.boundary ==> {
                &&& after.engine.pending_reverse == Some(pending)
                &&& given(
                    x,
                    after,
                    Command::SpawnReverse { pending, source_time: h.source_time },
                )
                &&& given(
                    x,
                    after,
                    Command::ShowBridgeFrame { clip: source.clip, source_time: h.source_time },
                )
            }
            &&& h.source_time - h.clip.source_in < s.tuning.boundary
                ==> after.engine.pending_reverse is None && after.engine.reverse is None
        }),
{
    reveal(Scene::reverse_kept_or_promoted);
    reveal(Scene::reverse_kept);
    let d = x.activated(s.ready, s.now as int).off_direction_dropped();
    let n = d.out.len() as int;
    let after = x.managed(s, t);
    if h.source_time - h.clip.source_in >= s.tuning.boundary {
        let pending = after.engine.pending_reverse->0;
        assert(after.out[n] == (Command::SpawnReverse { pending, source_time: h.source_time }));
        assert(after.out[n + 1] == (Command::ShowBridgeFrame {
            clip: source.clip,
            source_time: h.source_time,
        }));
    }
}

/// While nothing is seen during playback the screen is cleared and no pipeline stands;
/// sound that is on is started, and sound that is over is ended.
pub proof fn law_gap_is_dark(x: Scene, s: Surroundings, t: TimelineView)
    requires
        x.playback.state == PlaybackState::Playing || x.playback.state
            == PlaybackState::PlayingReverse,
        s.here.hit is None,
    ensures
        ({
            let after = x.managed(s, t);
            &&& given(x, after, Command::ClearTexture)
            &&& after.engine.forward is None
            &&& after.engine.pending_forward is None
            &&& after.engine.reverse is None
            &&& after.engine.last_decoded_frame is None
            &&& x.playback.state == PlaybackState::Playing && s.scrubbing is None && s.has_audio && (
            s.source_count == 0 || x.engine.forward is Some) ==> given(
                x,
                after,
                Command::StartAudioSources,
            )
            &&& x.playback.state == PlaybackState::Playing && s.scrubbing is None && !s.has_audio
                && s.source_count > 0 ==> given(x, after, Command::ResetAudio)
        }),
{
    reveal(Scene::in_gap);
    let d = x.activated(s.ready, s.now as int).off_direction_dropped();
    let n = d.out.len() as int;
    let after = x.managed(s, t);
    assert(after.out[n] == Command::ClearTexture);
    let had = d.engine.forward is Some || d.engine.reverse is Some;
    if x.playback.state == PlaybackState::Playing && s.scrubbing is None {
        if had {
            assert(after.out[n + 1] == Command::ResetAudio);
            if s.has_audio {
                assert(after.out[n + 2] == Command::StartAudioSources);
            }
        } else if s.has_audio && s.source_count == 0 {
            assert(after.out[n + 1] == Command::StartAudioSources);
        } else if !s.has_audio && s.source_count > 0 {
            assert(after.out[n + 2] == Command::ResetAudio);
        }
    }
}

/// A forward pipeline that was awaited and now stands is the one that was asked for; it
/// begins to play at once where its first frame is ready. One that failed is awaited no
/// longer.
pub proof fn law_awaited_forward_stands(
    x: Scene,
    p: PendingPipeline,
    handle: u64,
    has_audio: bool,
    ready: Readiness,
    now: i64,
)
    requires
        x.engine.pending_forward == Some(p),
    ensures
        ({
            let after = x.forward_polled(Polled::Built { handle, has_audio }, ready, now as int);
            &&& after.engine.pending_forward is None
            &&& after.engine.forward matches Some(f) && f.handle == handle && f.clip == p.clip
                && f.timeline_clip == p.timeline_clip && f.speed == p.speed && f.pts_offset is None
                && !f.frame_delivered && f.activated == ready.forward
            &&& ready.forward ==> given(x, after, Command::BeginPlaying(handle))
        }),
        x.forward_polled(Polled::Failed, ready, now as int).engine.pending_forward is None,
        x.forward_polled(Polled::Failed, ready, now as int).engine.forward == x.engine.forward,
        x.forward_polled(Polled::Nothing, ready, now as int) == x,
{
    let after = x.forward_polled(Polled::Built { handle, has_audio }, ready, now as int);
    if ready.forward {
        assert(after.out[x.out.len() as int] == Command::BeginPlaying(handle));
    }
}

/// A reverse pipeline that was awaited and now stands is the one that was asked for; it
/// begins to play at once where its first frame is ready. One that failed is awaited no
/// longer.
pub proof fn law_awaited_reverse_stands(
    x: Scene,
    p: PendingPipeline,
    handle: u64,
    has_audio: bool,
    ready: Readiness,
    now: i64,
)
    requires
        x.engine.pending_reverse == Some(p),
        x.engine.forward is None,
    ensures
        ({
            let after = x.reverse_polled(Polled::Built { handle, has_audio }, ready, now as int);
            &&& after.engine.pending_reverse is None
            &&& after.engine.reverse matches Some(r) && r.handle == handle && r.clip == p.clip
                && r.timeline_clip == p.timeline_clip && r.speed == p.speed && r.pts_offset is None
                && r.started_at == p.started_at
            &&& ready.reverse ==> given(x, after, Command::BeginPlaying(handle))
        }),
        x.reverse_polled(Polled::Failed, ready, now as int).engine.pending_reverse is None,
        x.reverse_polled(Polled::Failed, ready, now as int).engine.reverse == x.engine.reverse,
        x.reverse_polled(Polled::Nothing, ready, now as int) == x,
{
    let after = x.reverse_polled(Polled::Built { handle, has_audio }, ready, now as int);
    if ready.reverse {
        assert(after.out[x.out.len() as int] == Command::BeginPlaying(handle));
    }
}

/// A shadow pipeline that was awaited and now stands is the one that was asked for,
/// either way.
pub proof fn law_awaited_shadow_stands(
    x: Scene,
    p: PendingPipeline,
    handle: u64,
    has_audio: bool,
)
    ensures
        x.engine.pending_shadow == Some(p) ==> {
            let after = x.shadow_polled(Polled::Built { handle, has_audio });
            &&& after.engine.pending_shadow is None
            &&& after.engine.shadow matches Some(s) && s.handle == handle && s.clip == p.clip
                && s.timeline_clip == p.timeline_clip && s.has_audio == has_audio
                && !s.first_frame_ready && s.buffered_frame is None
        },
        x.engine.pending_reverse_shadow == Some(p) ==> {
            let after = x.reverse_shadow_polled(Polled::Built { handle, has_audio });
            &&& after.engine.pending_reverse_shadow is None
            &&& after.engine.reverse_shadow matches Some(s) && s.handle == handle && s.clip
                == p.clip && s.timeline_clip == p.timeline_clip && !s.first_frame_ready
                && s.buffered_frame is None
        },
        x.shadow_polled(Polled::Failed).engine.pending_shadow is None,
        x.shadow_polled(Polled::Failed).engine.shadow == x.engine.shadow,
        x.reverse_shadow_polled(Polled::Failed).engine.pending_reverse_shadow is None,
        x.reverse_shadow_polled(Polled::Failed).engine.reverse_shadow == x.engine.reverse_shadow,
{
}

/// A shadow pipeline that takes over is the forward pipeline from then on, plays, and
/// shows the frame that it kept, or else the picture that stands in for it; its own sound
/// is heard where it has any, and otherwise sound begins anew.
pub proof fn law_shadow_takes_over(x: Scene, time: i64, h: PlayheadHit, now: i64)
    requires
        x.engine.shadow is Some,
    ensures
        ({
            let after = x.shadow_promoted(time as int, h, now as int);
            let s = x.engine.shadow->0;
            &&& after.engine.shadow is None
            &&& after.engine.forward matches Some(f) && f.handle == s.handle && f.clip == s.clip
                && f.timeline_clip == s.timeline_clip && f.speed == x.playback.speed && f.activated
                && f.pts_offset is None
            &&& after.playback.playhead == time
            &&& given(x, after, Command::BeginPlaying(s.handle))
            &&& s.buffered_frame matches Some(frame) ==> given(
                x,
                after,
                Command::ShowFrame(frame.frame),
            )
            &&& s.buffered_frame is None ==> given(
                x,
                after,
                Command::ShowBridgeFrame { clip: h.clip.source_id, source_time: h.source_time },
            )
            &&& s.has_audio ==> given(x, after, Command::PromoteShadowAudio(s.handle)) && !given(
                x,
                after,
                Command::StartAudioSources,
            )
            &&& !s.has_audio ==> given(x, after, Command::StartAudioSources) && given(
                x,
                after,
                Command::ResetAudio,
            )
        }),
{
    reveal(Scene::shadow_promoted);
    let after = x.shadow_promoted(time as int, h, now as int);
    let s = x.engine.shadow->0;
    let n = x.out.len() as int;
    assert(after.out[n] == Command::BeginPlaying(s.handle));
    match s.buffered_frame {
        Some(frame) => {
            assert(after.out[n + 1] == Command::ShowFrame(frame.frame));
        },
        None => {
            assert(after.out[n + 1] == (Command::ShowBridgeFrame {
                clip: h.clip.source_id,
                source_time: h.source_time,
            }));
        },
    }
    if s.has_audio {
        assert(after.out[n + 2] == Command::PromoteShadowAudio(s.handle));
    } else {
        assert(after.out[n + 2] == Command::ResetAudio);
        assert(after.out[n + 3] == Command::StartAudioSources);
    }
}

/// A reverse shadow pipeline that takes over is the reverse pipeline from then on, and
/// shows the frame that it kept.
pub proof fn law_reverse_shadow_takes_over(x: Scene, now: i64)
    requires
        x.engine.reverse_shadow is Some,
    ensures
        ({
            let after = x.reverse_shadow_promoted(now as int);
            let s = x.engine.reverse_shadow->0;
            &&& after.engine.reverse_shadow is None
            &&& after.engine.reverse matches Some(r) && r.handle == s.handle && r.clip == s.clip
                && r.timeline_clip == s.timeline_clip && r.speed == x.playback.speed && r.activated
                == (s.buffered_frame is Some)
            &&& after.playback == x.playback
            &&& s.buffered_frame matches Some(frame) ==> given(
                x,
                after,
                Command::ShowFrame(frame.frame),
            )
        }),
{
    reveal(Scene::reverse_shadow_promoted);
    let after = x.reverse_shadow_promoted(now as int);
    if let Some(frame) = x.engine.reverse_shadow->0.buffered_frame {
        assert(after.out[x.out.len() as int] == Command::ShowFrame(frame.frame));
    }
}

/// The playhead follows the picture. The first frame of a forward pipeline whose offset
/// is known puts it as far into the clip as the frame's source position is into the
/// clip's source window; later ones leave it to the clock.
pub proof fn law_playhead_follows_first_frame(
    x: Scene,
    frame: FrameRef,
    t: TimelineView,
    next: NextClip,
    now: i64,
    polled: Polled,
    c: TimelineClip,
    offset: i64,
)
    requires
        c.fits(),
        x.engine.forward matches Some(f) && clip_of(t, f.timeline_clip) == Some(c) && f.pts_offset
            == Some(offset),
        c.source_in <= frame.pts - offset < c.source_out,
        c.source_out - c.source_in == c.duration,
    ensures
        ({
            let after = x.forward_frame_applied(frame, t, next, now as int, polled);
            &&& !x.engine.forward->0.frame_delivered ==> after.playback.playhead - c.timeline_start
                == frame.pts - offset - c.source_in
            &&& x.engine.forward->0.frame_delivered ==> after.playback == x.playback
            &&& after.engine.forward matches Some(f) && f.frame_delivered && f.last_frame_time
                == Some(now) && f.handle == x.engine.forward->0.handle
            &&& given(x, after, Command::CountFrame)
        }),
{
    let after = x.forward_frame_applied(frame, t, next, now as int, polled);
    assert(after.out[(x.out.len() + 1) as int] == Command::CountFrame);
}

/// The playhead follows the picture in reverse: a frame within the clip's source window
/// and away from its start puts it as far into the clip as the frame's source position
/// is into the window, unless that were forwards.
pub proof fn law_playhead_follows_reverse_frames(
    x: Scene,
    frame: FrameRef,
    t: TimelineView,
    previous: NextClip,
    boundary: int,
    ready: Readiness,
    now: i64,
    c: TimelineClip,
    offset: i64,
)
    requires
        c.fits(),
        x.engine.reverse matches Some(r) && clip_of(t, r.timeline_clip) == Some(c) && r.pts_offset
            == Some(offset),
        c.source_in <= frame.pts - offset < c.source_out,
        frame.pts - offset - c.source_in > boundary,
        c.source_out - c.source_in == c.duration,
    ensures
        ({
            let after = x.reverse_frame_applied(frame, t, previous, boundary, ready, now as int);
            let place = c.timeline_start + (frame.pts - offset - c.source_in);
            &&& place <= x.playback.playhead ==> after.playback.playhead == place
            &&& place > x.playback.playhead && x.reverse_was_shown() ==> after.playback
                == x.playback
            &&& after.engine.reverse matches Some(r) && r.last_frame_time == Some(now) && r.handle
                == x.engine.reverse->0.handle
            &&& given(x, after, Command::CountFrame)
        }),
{
    let after = x.reverse_frame_applied(frame, t, previous, boundary, ready, now as int);
    assert(after.out[(x.out.len() + 1) as int] == Command::CountFrame);
}

/// A pipeline whose first frame is ready begins to play, and only once; one that is not
/// ready waits, though in reverse no longer than the limit.
pub proof fn law_ready_pipeline_plays(x: Scene, ready: Readiness, now: i64)
    ensures
        ({
            let after = x.activated(ready, now as int);
            &&& after.playback == x.playback
            &&& x.engine.forward matches Some(f) ==> {
                &&& !f.activated && ready.forward ==> given(
                    x,
                    after,
                    Command::BeginPlaying(f.handle),
                ) && after.engine.forward->0.activated
                &&& (f.activated || !ready.forward) ==> after.engine.forward == Some(f)
            }
            &&& x.engine.reverse matches Some(r) ==> {
                &&& !r.activated && (ready.reverse || now - r.started_at
                    >= ready.force_reverse_after) ==> given(
                    x,
                    after,
                    Command::BeginPlaying(r.handle),
                ) && after.engine.reverse->0.activated
                &&& (r.activated || (!ready.reverse && now - r.started_at
                    < ready.force_reverse_after)) ==> after.engine.reverse == Some(r)
            }
            &&& after.activated(ready, now as int) == after
        }),
{
    let mid = x.forward_activated(ready);
    let after = x.activated(ready, now as int);
    let n = x.out.len() as int;
    if let Some(f) = x.engine.forward {
        if !f.activated && ready.forward {
            assert(mid.out[n] == Command::BeginPlaying(f.handle));
            assert(after.out[n] == Command::BeginPlaying(f.handle));
        }
    }
    if let Some(r) = x.engine.reverse {
        if !r.activated && (ready.reverse || now - r.started_at >= ready.force_reverse_after) {
            assert(after.out[mid.out.len() as int] == Command::BeginPlaying(r.handle));
        }
    }
}

/// A cut puts the playhead where the clip ends. What comes next is begun there unless it
/// was prepared; where nothing comes next the sound ends, and nothing is begun.
pub proof fn law_cut_goes_on_with_what_comes_next(
    x: Scene,
    end: i64,
    next: NextClip,
    next_end: Option<i64>,
    now: i64,
    polled: Polled,
)
    ensures
        ({
            let after = x.cut_to_next(end as int, next, next_end, now as int, polled);
            &&& after.playback.playhead == end
            &&& after.playback.state == x.playback.state && after.playback.speed
                == x.playback.speed
            &&& next.hit is None ==> after.engine.forward is None && given(
                x,
                after,
                Command::ResetAudio,
            )
            &&& next.hit matches Some(h) ==> next.source matches Some(source) ==> !(
            x.engine.shadow matches Some(s) && s.timeline_clip == h.clip.id) ==> forward_begun(
                x,
                after,
                h,
                source,
                now,
            )
            &&& next.hit matches Some(h) ==> (x.engine.shadow matches Some(s) && s.timeline_clip
                == h.clip.id) ==> after.engine.forward is Some && after.engine.forward->0.handle
                == x.engine.shadow->0.handle && after.engine.shadow is None
        }),
{
    reveal(Scene::pipeline_started);
    reveal(Scene::shadow_promoted);
    let after = x.cut_to_next(end as int, next, next_end, now as int, polled);
    let n = x.out.len() as int;
    match next.hit {
        None => {
            assert(after.out[n] == Command::ResetAudio);
        },
        Some(h) => {
            if let Some(source) = next.source {
                if !(x.engine.shadow matches Some(s) && s.timeline_clip == h.clip.id) {
                    let pending = after.engine.pending_forward->0;
                    assert(after.out[n] == Command::ResetAudio);
                    assert(after.out[n + 1] == (Command::SpawnForward {
                        pending,
                        source_time: h.source_time,
                    }));
                    assert(after.out[n + 2] == (Command::ShowBridgeFrame {
                        clip: source.clip,
                        source_time: h.source_time,
                    }));
                    assert(after.out[n + 3] == Command::StartAudioSources);
                }
            }
        },
    }
}

/// Reverse playback that has come to the start of a clip goes on a thousandth of a second
/// before it with what is seen there, prepared or begun anew; at the beginning of the
/// timeline it stops.
pub proof fn law_reverse_cut_goes_on_with_what_comes_before(
    x: Scene,
    start: i64,
    previous: NextClip,
    ready: Readiness,
    now: i64,
)
    requires
        x.engine.forward is None,
    ensures
        ({
            let after = x.cut_to_previous(start as int, previous, ready, now as int);
            &&& start <= 1_000_000 ==> after.playback.playhead == 0 && after.playback.state
                == PlaybackState::Stopped && after.engine.reverse is None
            &&& start > 1_000_000 ==> after.playback.playhead == start - 1_000_000
                && after.playback.state == x.playback.state
            &&& given(x, after, Command::ResetAudio)
            &&& start > 1_000_000 ==> (previous.hit matches Some(h) ==> previous.source matches Some(
                source,
            ) ==> !(x.engine.reverse_shadow matches Some(s) && s.timeline_clip == h.clip.id) ==> {
                let pending = PendingPipeline {
                    clip: source,
                    timeline_clip: h.clip.id,
                    speed: x.playback.speed,
                    started_at: now,
                };
                &&& after.engine.pending_reverse == Some(pending)
                &&& given(
                    x,
                    after,
                    Command::SpawnReverse { pending, source_time: h.source_time },
                )
            })
            &&& start > 1_000_000 ==> (previous.hit matches Some(h) ==> (
            x.engine.reverse_shadow matches Some(s) && s.timeline_clip == h.clip.id)
                ==> after.engine.reverse is Some && after.engine.reverse->0.handle
                == x.engine.reverse_shadow->0.handle)
        }),
{
    reveal(Scene::reverse_shadow_promoted);
    let after = x.cut_to_previous(start as int, previous, ready, now as int);
    let n = x.out.len() as int;
    assert(after.out[n] == Command::ResetAudio);
    if start > 1_000_000 {
        if let Some(h) = previous.hit {
            if let Some(source) = previous.source {
                if !(x.engine.reverse_shadow matches Some(s) && s.timeline_clip == h.clip.id) {
                    let pending = after.engine.pending_reverse->0;
                    assert(after.out[n + 1] == (Command::SpawnReverse {
                        pending,
                        source_time: h.source_time,
                    }));
                }
            }
        }
    }
}

/// A clip that plays in reverse is over where the frame lies before its source window, or,
/// once a frame has been shown, near the window's start; until it is over the pipeline
/// stays.
pub proof fn law_reverse_clip_is_over_at_its_start(
    x: Scene,
    frame: FrameRef,
    t: TimelineView,
    previous: NextClip,
    boundary: int,
    ready: Readiness,
    now: i64,
    c: TimelineClip,
    offset: i64,
)
    requires
        x.engine.forward is None,
        x.engine.reverse matches Some(r) && clip_of(t, r.timeline_clip) == Some(c) && r.pts_offset
            == Some(offset),
        x.engine.reverse_shadow is None,
    ensures
        ({
            let after = x.reverse_frame_applied(frame, t, previous, boundary, ready, now as int);
            let mapped = frame.pts - offset;
            let was = x.engine.last_decoded_frame matches Some(s) && s.origin
                == crate::engine::slots::FrameOrigin::Reverse;
            &&& mapped < c.source_in ==> after.engine.reverse is None
            &&& c.source_in <= mapped < c.source_out && mapped - c.source_in <= boundary && was
                ==> after.engine.reverse is None
            &&& c.source_in <= mapped && (mapped - c.source_in > boundary || !was)
                ==> after.engine.reverse is Some
        }),
{
}

/// A forward pipeline that is young is given time, though it is for something else.
pub proof fn law_young_pipeline_is_given_time(
    x: Scene,
    s: Surroundings,
    t: TimelineView,
    h: PlayheadHit,
    source: Source,
)
    requires
        x.playback.state == PlaybackState::Playing,
        s.scrubbing is None,
        s.here.hit == Some(h),
        s.here.source == Some(source),
        !x.engine.was_scrubbing,
        x.engine.forward matches Some(f) && f.age == 0 && f.last_frame_time is None,
    ensures
        x.managed(s, t).engine.forward matches Some(g) && g.handle == x.engine.forward->0.handle
            && g.age == 1,
        x.managed(s, t).engine.pending_forward == x.engine.pending_forward,
{
    reveal(Scene::forward_kept);
}

/// While the pointer drags the playhead during playback, the kept frames and the sound are
/// dropped, and that it does is remembered; once it lets go, forward playback begins anew
/// from what is seen then.
pub proof fn law_dragging_drops_and_letting_go_begins_anew(
    x: Scene,
    s: Surroundings,
    t: TimelineView,
    h: PlayheadHit,
    source: Source,
)
    requires
        x.playback.state == PlaybackState::Playing,
        s.here.hit == Some(h),
        s.here.source == Some(source),
    ensures
        s.scrubbing is Some ==> {
            let after = x.managed(s, t);
            &&& given(x, after, Command::ClearRewindCache)
            &&& given(x, after, Command::ResetAudio)
            &&& after.engine.was_scrubbing
            &&& after.engine.forward is None && after.engine.pending_forward is None
        },
        s.scrubbing is None && x.engine.was_scrubbing ==> {
            let after = x.managed(s, t);
            &&& forward_begun(x, after, h, source, s.now)
            &&& !after.engine.was_scrubbing
        },
{
    let d = x.activated(s.ready, s.now as int).off_direction_dropped();
    let after = x.managed(s, t);
    let n = d.out.len() as int;
    if s.scrubbing is Some {
        assert(after.out[n] == Command::ClearRewindCache);
        assert(after.out[n + 1] == Command::ResetAudio);
    } else if x.engine.was_scrubbing {
        reveal(Scene::forward_kept);
        let a = d.aged();
        let b = if a.needs_forward(h.clip.id, source) {
            a
        } else {
            a.forward_speed_kept()
        };
        let end = match clip_of(t, h.clip.id) {
            Some(c) => Some(c.end_at() as i64),
            None => None,
        };
        let kept = d.forward_kept(h, source, t, s);
        lemma_begun(
            x,
            b.forward_dropped().say(Command::ResetAudio),
            h,
            source,
            s.now,
            end,
            s.polled_shadow,
            kept,
        );
        lemma_noted(x, kept, h, source, s.now, false);
    }
}

/// While playback rests, a reverse pipeline for what is seen is prepared, unless one is.
pub proof fn law_reverse_is_prepared_at_rest(
    x: Scene,
    s: Surroundings,
    t: TimelineView,
    h: PlayheadHit,
    source: Source,
)
    requires
        x.playback.state == PlaybackState::Stopped,
        s.scrubbing is None,
        s.here.hit == Some(h),
        s.here.source == Some(source),
    ensures
        ({
            let after = x.managed(s, t);
            let pending = PendingPipeline {
                clip: source,
                timeline_clip: h.clip.id,
                speed: x.playback.speed,
                started_at: s.now,
            };
            &&& after.engine.pending_reverse_shadow == Some(pending)
            &&& given(
                x,
                after,
                Command::SpawnReverseShadow { pending, source_time: h.source_time },
            )
            &&& after.playback == x.playback
        }),
{
    reveal(Scene::at_rest);
    let after = x.managed(s, t);
    let pending = after.engine.pending_reverse_shadow->0;
    assert(after.out[after.out.len() - 1] == (Command::SpawnReverseShadow {
        pending,
        source_time: h.source_time,
    }));
}

/// A reverse pipeline that delivers what is seen stands, and runs at the speed of
/// playback; one that has delivered nothing for a quarter of a second gives way to a new
/// one that begins with what is seen.
pub proof fn law_reverse_pipeline_stands_or_gives_way(
    x: Scene,
    s: Surroundings,
    t: TimelineView,
    h: PlayheadHit,
    source: Source,
    last: i64,
)
    requires
        x.playback.state == PlaybackState::PlayingReverse,
        s.scrubbing is None,
        s.here.hit == Some(h),
        s.here.source == Some(source),
        x.engine.pending_reverse is None,
        x.engine.reverse matches Some(r) && r.timeline_clip == h.clip.id && r.clip == source
            && r.last_frame_time == Some(last),
    ensures
        ({
            let after = x.managed(s, t);
            let r = x.engine.reverse->0;
            &&& s.now - last <= 250_000_000 ==> {
                &&& after.engine.reverse matches Some(g) && g.handle == r.handle && -10 <= g.speed
                    - x.playback.speed <= 10
                &&& r.speed - x.playback.speed > 10 || x.playback.speed - r.speed > 10 ==> given(
                    x,
                    after,
                    Command::UpdateSpeed { handle: r.handle, speed: x.playback.speed },
                )
            }
            &&& s.now - last > 250_000_000 ==> {
                &&& after.engine.reverse is None
                &&& after.engine.pending_reverse matches Some(p) && p.timeline_clip == h.clip.id
                    && p.clip == source && given(
                    x,
                    after,
                    Command::SpawnReverse { pending: p, source_time: h.source_time },
                )
            }
        }),
{
    reveal(Scene::reverse_kept_or_promoted);
    reveal(Scene::reverse_kept);
    let d = x.activated(s.ready, s.now as int).off_direction_dropped();
    let kept = d.reverse_speed_kept();
    let after = x.managed(s, t);
    let r = x.engine.reverse->0;
    let n = d.out.len() as int;
    if s.now - last <= 250_000_000 {
        if r.speed - x.playback.speed > 10 || x.playback.speed - r.speed > 10 {
            assert(after.out[n] == (Command::UpdateSpeed {
                handle: r.handle,
                speed: x.playback.speed,
            }));
        }
    } else {
        let p = after.engine.pending_reverse->0;
        assert(after.out[kept.out.len() as int] == (Command::SpawnReverse {
            pending: p,
            source_time: h.source_time,
        }));
    }
}

/// The first frame of a shadow pipeline is kept, and no later one in its place, either
/// way.
pub proof fn law_shadow_keeps_its_first_frame(x: Scene, frame: FrameRef)
    ensures
        x.engine.shadow matches Some(s) ==> {
            let after = x.shadow_framed(Some(frame));
            &&& after.engine.shadow matches Some(g) && g.handle == s.handle && (
            !s.first_frame_ready ==> g.buffered_frame == Some(frame) && g.first_frame_ready) && (
            s.first_frame_ready ==> g == s)
        },
        x.engine.reverse_shadow matches Some(s) ==> {
            let after = x.reverse_shadow_framed(Some(frame));
            &&& after.engine.reverse_shadow matches Some(g) && g.handle == s.handle && (
            !s.first_frame_ready ==> g.buffered_frame == Some(frame) && g.first_frame_ready) && (
            s.first_frame_ready ==> g == s)
        },
        x.shadow_framed(None) == x,
        x.reverse_shadow_framed(None) == x,
{
}

/// A clip that plays forward is over once a frame lies behind its source window and the
/// playhead is at its end, to within sixteen thousandths of a second: then the playhead is
/// put at its end. Until then the pipeline stays, and so does the playhead.
pub proof fn law_forward_clip_is_over_at_its_end(
    x: Scene,
    frame: FrameRef,
    t: TimelineView,
    next: NextClip,
    now: i64,
    polled: Polled,
    c: TimelineClip,
    offset: i64,
)
    requires
        c.fits(),
        x.engine.forward matches Some(f) && clip_of(t, f.timeline_clip) == Some(c) && f.pts_offset
            == Some(offset),
        frame.pts - offset >= c.source_out,
    ensures
        ({
            let after = x.forward_frame_applied(frame, t, next, now as int, polled);
            let end = c.timeline_start + c.duration;
            let over = x.playback.playhead >= end - 16_000_000 && x.engine.forward->0.age >= 2;
            &&& over ==> after.playback.playhead == end
            &&& over && next.hit is None ==> after.engine.forward is None
            &&& !over ==> after.playback == x.playback && (after.engine.forward matches Some(g)
                && g.handle == x.engine.forward->0.handle && g.last_frame_time == Some(now))
        }),
{
    reveal(Scene::pipeline_started);
    reveal(Scene::shadow_promoted);
}

} // verus!
