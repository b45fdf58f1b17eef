//! The worker that previews sound, and which sounds are started with playback.

use std::collections::HashSet;

use vstd::prelude::*;

use crate::ids::ClipId;
use crate::project::ProjectState;
use crate::time::{later, max_time};
use crate::timeline::edit::PlayheadHit;

verus! {

broadcast use vstd::std_specs::hash::group_hash_axioms;

/// A request to the worker. Paths are known by numbers.
#[derive(Debug, Clone, Copy, PartialEq, Eq, Structural)]
pub enum AudioPreviewRequest {
    /// Forget what has been asked for.
    Stop,
    /// Play the sound of a file from a moment on.
    Preview { path: u64, time: i64, sample_rate_hz: u32 },
}

/// What the worker does next.
#[derive(Debug, Clone, Copy, PartialEq, Eq, Structural)]
pub enum SoundStep {
    /// Nothing.
    Skip,
    /// Open a decoder for the path.
    Open,
    /// Decode from the moment on.
    Decode(i64),
}

/// The worker: the path that its decoder is open for, and the paths that are known to
/// have no sound.
#[derive(Debug)]
pub struct SoundWorker {
    cached: Option<u64>,
    silent: HashSet<u64>,
}

impl SoundWorker {
    /// The path that a decoder is open for.
    pub closed spec fn open_for(self) -> Option<u64> {
        self.cached
    }

    /// The paths that are known to have no sound.
    pub closed spec fn silent_paths(self) -> Set<u64> {
        self.silent@
    }

    /// No decoder is open and nothing is known.
    pub fn new() -> (r: Self)
        ensures
            r.open_for() is None,
            r.silent_paths() == Set::<u64>::empty(),
    {
        SoundWorker { cached: None, silent: HashSet::new() }
    }

    /// Whether a path is known to have no sound.
    pub fn path_has_no_audio(&self, path: u64) -> (r: bool)
        ensures
            r == self.silent_paths().contains(path),
    {
        self.silent.contains(&path)
    }

    /// What is done for a request: nothing for a path without sound, and otherwise its
    /// decoder is used, or opened first.
    pub fn begin(&self, req: AudioPreviewRequest) -> (r: SoundStep)
        ensures
            r == match req {
                AudioPreviewRequest::Stop => SoundStep::Skip,
                AudioPreviewRequest::Preview { path, time, sample_rate_hz } =>
                if self.silent_paths().contains(path) {
                    SoundStep::Skip
                } else if self.open_for() == Some(path) {
                    SoundStep::Decode(later(time as int, 0) as i64)
                } else {
                    SoundStep::Open
                },
            },
    {
        match req {
            AudioPreviewRequest::Stop => SoundStep::Skip,
            AudioPreviewRequest::Preview { path, time, sample_rate_hz: _ } => {
                if self.silent.contains(&path) {
                    return SoundStep::Skip;
                }
                match self.cached {
                    Some(p) => {
                        if p == path {
                            return SoundStep::Decode(max_time(time, 0));
                        }
                    },
                    None => {},
                }
                SoundStep::Open
            },
        }
    }

    /// A decoder for the path has been opened, or could not be. A file that has no sound
    /// at all is not tried again.
    pub fn opened(&mut self, path: u64, time: i64, ok: bool, has_audio_stream: bool) -> (r:
        SoundStep)
        ensures
            r == if ok {
                SoundStep::Decode(later(time as int, 0) as i64)
            } else {
                SoundStep::Skip
            },
            final(self).open_for() == if ok {
                Some(path)
            } else {
                None
            },
            final(self).silent_paths() == if !ok && !has_audio_stream {
                old(self).silent_paths().insert(path)
            } else {
                old(self).silent_paths()
            },
    {
        if ok {
            self.cached = Some(path);
            return SoundStep::Decode(max_time(time, 0));
        }
        self.cached = None;
        if !has_audio_stream {
            self.silent.insert(path);
        }
        SoundStep::Skip
    }
}

/// A sound that is started: of which file, and from where in it.
#[derive(Debug, Clone, Copy, PartialEq, Eq, Structural)]
pub struct ShadowAudioSourceRequest {
    pub clip: ClipId,
    pub source_time: i64,
}

/// The sounds that are started for the clips at the playhead: those of files that are
/// known and not known to be silent.
pub open spec fn sounds_of(
    known: Set<u128>,
    silent: Set<u128>,
    hits: Seq<PlayheadHit>,
) -> Seq<ShadowAudioSourceRequest>
    decreases hits.len(),
{
    if hits.len() == 0 {
        Seq::empty()
    } else {
        let rest = sounds_of(known, silent, hits.drop_last());
        let hit = hits.last();
        let n = hit.clip.source_id.0;
        if known.contains(n) && !silent.contains(n) {
            rest.push(
                ShadowAudioSourceRequest {
                    clip: hit.clip.source_id,
                    source_time: hit.source_time,
                },
            )
        } else {
            rest
        }
    }
}

/// The sounds that are started for the clips at the playhead, in their order.
pub fn start_audio_sources(
    project: &ProjectState,
    silent: &HashSet<u128>,
    hits: &Vec<PlayheadHit>,
) -> (r: Vec<ShadowAudioSourceRequest>)
    ensures
        r@ == sounds_of(project.clips@.dom(), silent@, hits@),
{
    let mut out: Vec<ShadowAudioSourceRequest> = Vec::new();
    let mut i: usize = 0;
    while i < hits.len()
        invariant
            i <= hits@.len(),
            out@ == sounds_of(project.clips@.dom(), silent@, hits@.take(i as int)),
        decreases hits@.len() - i,
    {
        let hit: PlayheadHit = hits[i];
        assert(hits@.take(i + 1).drop_last() =~= hits@.take(i as int));
        assert(hits@.take(i + 1).last() == hit);
        let n: u128 = hit.clip.source_id.0;
        if project.clips.contains_key(&n) && !silent.contains(&n) {
            out.push(
                ShadowAudioSourceRequest {
                    clip: hit.clip.source_id,
                    source_time: hit.source_time,
                },
            );
        }
        i += 1;
    }
    assert(hits@.take(i as int) =~= hits@);
    out
}

/// No silent file is started.
pub proof fn law_silent_is_not_started(
    known: Set<u128>,
    silent: Set<u128>,
    hits: Seq<PlayheadHit>,
    i: int,
)
    requires
        0 <= i < sounds_of(known, silent, hits).len(),
    ensures
        known.contains(sounds_of(known, silent, hits)[i].clip.0),
        !silent.contains(sounds_of(known, silent, hits)[i].clip.0),
    decreases hits.len(),
{
    let init = hits.drop_last();
    if i < sounds_of(known, silent, init).len() {
        law_silent_is_not_started(known, silent, init, i);
    }
}

/// Sound is started for every clip that is heard and sounds, and for no other: each from
/// the source position that is heard.
pub proof fn law_every_sounding_clip_is_started(
    known: Set<u128>,
    silent: Set<u128>,
    hits: Seq<PlayheadHit>,
)
    ensures
        forall|k: int|
            0 <= k < hits.len() && known.contains((#[trigger] hits[k]).clip.source_id.0)
                && !silent.contains(hits[k].clip.source_id.0) ==> exists|i: int|
                0 <= i < sounds_of(known, silent, hits).len() && (#[trigger] sounds_of(
                    known,
                    silent,
                    hits,
                )[i]).clip == hits[k].clip.source_id && sounds_of(known, silent, hits)[i].source_time
                    == hits[k].source_time,
        forall|i: int|
            0 <= i < sounds_of(known, silent, hits).len() ==> exists|k: int|
                0 <= k < hits.len() && (#[trigger] hits[k]).clip.source_id == (
                #[trigger] sounds_of(known, silent, hits)[i]).clip && hits[k].source_time
                    == sounds_of(known, silent, hits)[i].source_time,
        sounds_of(known, silent, hits).len() <= hits.len(),
    decreases hits.len(),
{
    if hits.len() > 0 {
        let init = hits.drop_last();
        let rest = sounds_of(known, silent, init);
        let all = sounds_of(known, silent, hits);
        law_every_sounding_clip_is_started(known, silent, init);
        assert forall|k: int|
            0 <= k < hits.len() && known.contains((#[trigger] hits[k]).clip.source_id.0)
                && !silent.contains(hits[k].clip.source_id.0) implies exists|i: int|
            0 <= i < all.len() && (#[trigger] all[i]).clip == hits[k].clip.source_id
                && all[i].source_time == hits[k].source_time by {
            if k < init.len() {
                assert(init[k] == hits[k]);
                let i = choose|i: int|
                    0 <= i < rest.len() && (#[trigger] rest[i]).clip == init[k].clip.source_id
                        && rest[i].source_time == init[k].source_time;
                assert(all[i] == rest[i]);
            } else {
                assert(all[all.len() - 1].source_time == hits[k].source_time);
            }
        }
        assert forall|i: int| 0 <= i < all.len() implies exists|k: int|
            0 <= k < hits.len() && (#[trigger] hits[k]).clip.source_id == (#[trigger] all[i]).clip
                && hits[k].source_time == all[i].source_time by {
            if i < rest.len() {
                assert(all[i] == rest[i]);
                let k = choose|k: int|
                    0 <= k < init.len() && (#[trigger] init[k]).clip.source_id == rest[i].clip
                        && init[k].source_time == rest[i].source_time;
                assert(hits[k] == init[k]);
            } else {
                assert(hits[hits.len() - 1].clip.source_id == all[i].clip);
            }
        }
    }
}

} // verus!
