//! The pictures and peaks that are at hand for each media file, and what is asked of the
//! workers for those that are not. Files are known by the numbers of their identifiers,
//! pictures by numbers that stand for them.

use std::collections::{HashMap, HashSet};

use vstd::prelude::*;

use crate::ids::ClipId;
use crate::project::ProjectState;
use crate::selection::members;
use crate::timeline::lanes::{Timeline, TimelineView};
use crate::workers::queue::{PreviewRequest, ScrubCacheRequest};

verus! {

broadcast use vstd::std_specs::hash::group_hash_axioms;

/// How many previews of files that are only visible are asked for at a time.
pub const PREFETCH_PER_FRAME: usize = 2;

/// What is at hand, what is on its way, and what has been asked for.
#[derive(Debug)]
pub struct TextureCache {
    pub thumbnails: HashMap<u128, u64>,
    pub preview_frames: HashMap<u128, Vec<u64>>,
    pub pending_thumbnails: HashSet<u128>,
    pub preview_requested: HashSet<u128>,
    /// The files that the scrub cache has frames of.
    pub scrub_frames: HashSet<u128>,
    pub scrub_requested: HashSet<u128>,
    pub waveform_peaks: HashMap<u128, Vec<(i32, i32)>>,
    /// The playback picture and its size.
    pub playback_texture: Option<(u64, usize, usize)>,
}

impl Default for TextureCache {
    fn default() -> (r: Self)
        ensures
            r.thumbnails@ == Map::<u128, u64>::empty(),
            r.preview_frames@ == Map::<u128, Vec<u64>>::empty(),
            r.pending_thumbnails@ == Set::<u128>::empty(),
            r.preview_requested@ == Set::<u128>::empty(),
            r.scrub_frames@ == Set::<u128>::empty(),
            r.scrub_requested@ == Set::<u128>::empty(),
            r.waveform_peaks@ == Map::<u128, Vec<(i32, i32)>>::empty(),
            r.playback_texture is None,
    {
        TextureCache {
            thumbnails: HashMap::new(),
            preview_frames: HashMap::new(),
            pending_thumbnails: HashSet::new(),
            preview_requested: HashSet::new(),
            scrub_frames: HashSet::new(),
            scrub_requested: HashSet::new(),
            waveform_peaks: HashMap::new(),
            playback_texture: None,
        }
    }
}

/// The previews that have been asked for, and the requests that were made.
#[verifier::ext_equal]
pub struct Asked {
    pub requested: Set<u128>,
    pub out: Seq<PreviewRequest>,
}

/// A preview is worth asking for: the file is known, and its preview is neither at hand
/// nor asked for.
pub open spec fn worth_asking(a: Asked, at_hand: Set<u128>, known: Set<u128>, id: ClipId) -> bool {
    !at_hand.contains(id.0) && !a.requested.contains(id.0) && known.contains(id.0)
}

/// A preview is asked for, where that is worth it.
pub open spec fn asked(
    a: Asked,
    at_hand: Set<u128>,
    known: Set<u128>,
    id: ClipId,
    priority: bool,
) -> Asked {
    if worth_asking(a, at_hand, known, id) {
        Asked {
            requested: a.requested.insert(id.0),
            out: a.out.push(PreviewRequest::Enqueue { clip_id: id, priority }),
        }
    } else {
        a
    }
}

/// A preview is asked for before all others, where a file is given.
pub open spec fn asked_first(
    a: Asked,
    at_hand: Set<u128>,
    known: Set<u128>,
    id: Option<ClipId>,
) -> Asked {
    match id {
        Some(id) => asked(a, at_hand, known, id, true),
        None => a,
    }
}

/// At most `n` previews of the visible files are asked for, in their order.
pub open spec fn asked_visible(
    a: Asked,
    at_hand: Set<u128>,
    known: Set<u128>,
    visible: Seq<ClipId>,
    n: int,
) -> Asked
    decreases visible.len(),
{
    if visible.len() == 0 || n <= 0 {
        a
    } else if worth_asking(a, at_hand, known, visible[0]) {
        asked_visible(
            asked(a, at_hand, known, visible[0], false),
            at_hand,
            known,
            visible.drop_first(),
            n - 1,
        )
    } else {
        asked_visible(a, at_hand, known, visible.drop_first(), n)
    }
}

/// The media file is shown by some clip of a video track.
pub open spec fn on_video(t: TimelineView, n: u128) -> bool {
    exists|k: int, i: int|
        0 <= k < t.video.len() && 0 <= i < t.video[k].clips.len()
            && #[trigger] t.video[k].clips[i].source_id.0 == n
}

/// The requests name the files of a set, each once, for extraction.
pub open spec fn extracts(out: Seq<ScrubCacheRequest>, set: Set<u128>) -> bool {
    &&& forall|i: int|
        0 <= i < out.len() ==> (#[trigger] out[i] matches ScrubCacheRequest::Extract { clip_id }
            && set.contains(clip_id.0))
    &&& forall|n: u128| #[trigger]
        set.contains(n) ==> exists|i: int|
            0 <= i < out.len() && #[trigger] out[i] == (ScrubCacheRequest::Extract {
                clip_id: ClipId(n),
            })
    &&& forall|i: int, j: int| 0 <= i < j < out.len() ==> #[trigger] out[i] != #[trigger] out[j]
}

/// The requests name the files of a set, each once, as wanted no longer.
pub open spec fn invalidates(out: Seq<ScrubCacheRequest>, set: Set<u128>) -> bool {
    &&& forall|i: int|
        0 <= i < out.len() ==> (#[trigger] out[i] matches ScrubCacheRequest::Invalidate { clip_id }
            && set.contains(clip_id.0))
    &&& forall|n: u128| #[trigger]
        set.contains(n) ==> exists|i: int|
            0 <= i < out.len() && #[trigger] out[i] == (ScrubCacheRequest::Invalidate {
                clip_id: ClipId(n),
            })
    &&& forall|i: int, j: int| 0 <= i < j < out.len() ==> #[trigger] out[i] != #[trigger] out[j]
}

impl TextureCache {
    /// The previews that have been asked for, with some requests.
    pub open spec fn asking(self, out: Seq<PreviewRequest>) -> Asked {
        Asked { requested: self.preview_requested@, out }
    }

    /// All but the previews that have been asked for is the same.
    pub open spec fn same_but_asked(self, other: TextureCache) -> bool {
        &&& self.thumbnails@ == other.thumbnails@
        &&& self.preview_frames@ == other.preview_frames@
        &&& self.pending_thumbnails@ == other.pending_thumbnails@
        &&& self.scrub_frames@ == other.scrub_frames@
        &&& self.scrub_requested@ == other.scrub_requested@
        &&& self.waveform_peaks@ == other.waveform_peaks@
        &&& self.playback_texture == other.playback_texture
    }

    /// Asks for a preview, where that is worth it. Says whether it did.
    pub fn enqueue_preview_request(
        &mut self,
        project: &ProjectState,
        clip_id: ClipId,
        priority: bool,
        out: &mut Vec<PreviewRequest>,
    ) -> (r: bool)
        ensures
            r == worth_asking(
                old(self).asking(old(out)@),
                old(self).preview_frames@.dom(),
                project.clips@.dom(),
                clip_id,
            ),
            final(self).asking(final(out)@) == asked(
                old(self).asking(old(out)@),
                old(self).preview_frames@.dom(),
                project.clips@.dom(),
                clip_id,
                priority,
            ),
            final(self).same_but_asked(*old(self)),
    {
        if self.preview_frames.contains_key(&clip_id.0) {
            return false;
        }
        if self.preview_requested.contains(&clip_id.0) {
            return false;
        }
        if !project.clips.contains_key(&clip_id.0) {
            return false;
        }
        self.preview_requested.insert(clip_id.0);
        out.push(PreviewRequest::Enqueue { clip_id, priority });
        true
    }

    /// Asks for the previews of the file under the pointer and of the selected one, and
    /// for a few of the visible ones.
    pub fn enqueue_visible_previews(
        &mut self,
        project: &ProjectState,
        hovered: Option<ClipId>,
        primary: Option<ClipId>,
        visible: &Vec<ClipId>,
        out: &mut Vec<PreviewRequest>,
    )
        ensures
            final(self).asking(final(out)@) == ({
                let at_hand = old(self).preview_frames@.dom();
                let known = project.clips@.dom();
                asked_visible(
                    asked_first(
                        asked_first(old(self).asking(old(out)@), at_hand, known, hovered),
                        at_hand,
                        known,
                        primary,
                    ),
                    at_hand,
                    known,
                    visible@,
                    PREFETCH_PER_FRAME as int,
                )
            }),
            final(self).same_but_asked(*old(self)),
    {
        let ghost at_hand = self.preview_frames@.dom();
        let ghost known = project.clips@.dom();
        if let Some(id) = hovered {
            let _ = self.enqueue_preview_request(project, id, true, out);
        }
        if let Some(id) = primary {
            let _ = self.enqueue_preview_request(project, id, true, out);
        }
        let ghost start = self.asking(out@);
        let mut remaining: usize = PREFETCH_PER_FRAME;
        let mut i: usize = 0;
        assert(visible@.skip(0) =~= visible@);
        while i < visible.len() && remaining > 0
            invariant
                i <= visible.len(),
                at_hand == old(self).preview_frames@.dom(),
                known == project.clips@.dom(),
                self.same_but_asked(*old(self)),
                asked_visible(
                    start,
                    at_hand,
                    known,
                    visible@,
                    PREFETCH_PER_FRAME as int,
                ) == asked_visible(
                    self.asking(out@),
                    at_hand,
                    known,
                    visible@.skip(i as int),
                    remaining as int,
                ),
            decreases visible.len() - i,
        {
            assert(visible@.skip(i as int)[0] == visible@[i as int]);
            assert(visible@.skip(i as int).drop_first() =~= visible@.skip(i + 1));
            if self.enqueue_preview_request(project, visible[i], false, out) {
                remaining -= 1;
            }
            i += 1;
        }
    }

    /// The frames of the file are worth asking for.
    pub open spec fn scrub_worth_asking(self, project: ProjectState, n: u128) -> bool {
        &&& on_video(project.timeline@, n)
        &&& !self.scrub_frames@.contains(n)
        &&& !self.scrub_requested@.contains(n)
        &&& project.clips@.contains_key(n)
        &&& !project.clips@[n].audio_only
    }

    /// The files whose frames are worth asking for.
    pub open spec fn scrub_wanted(self, project: ProjectState) -> Set<u128> {
        Set::new(|n: u128| self.scrub_worth_asking(project, n))
    }

    /// The files whose frames are at hand and wanted no longer.
    pub open spec fn scrub_stale(self, project: ProjectState) -> Set<u128> {
        self.scrub_frames@.filter(|n: u128| !on_video(project.timeline@, n))
    }

    fn ask_scrub_frames(&mut self, project: &ProjectState, id: ClipId) -> (r: Option<
        ScrubCacheRequest,
    >)
        ensures
            ({
                let worth = !old(self).scrub_frames@.contains(id.0)
                    && !old(self).scrub_requested@.contains(id.0) && project.clips@.contains_key(
                    id.0,
                ) && !project.clips@[id.0].audio_only;
                &&& r == if worth {
                    Some(ScrubCacheRequest::Extract { clip_id: id })
                } else {
                    None
                }
                &&& final(self).scrub_requested@ == if worth {
                    old(self).scrub_requested@.insert(id.0)
                } else {
                    old(self).scrub_requested@
                }
            }),
            final(self).scrub_frames@ == old(self).scrub_frames@,
            final(self).same_but_scrub(*old(self)),
    {
        if self.scrub_frames.contains(&id.0) {
            return None;
        }
        if self.scrub_requested.contains(&id.0) {
            return None;
        }
        match project.clips.get(&id.0) {
            None => None,
            Some(clip) => {
                if clip.audio_only {
                    return None;
                }
                self.scrub_requested.insert(id.0);
                Some(ScrubCacheRequest::Extract { clip_id: id })
            },
        }
    }

    /// All but what concerns the scrub cache is the same.
    pub open spec fn same_but_scrub(self, other: TextureCache) -> bool {
        &&& self.thumbnails@ == other.thumbnails@
        &&& self.preview_frames@ == other.preview_frames@
        &&& self.pending_thumbnails@ == other.pending_thumbnails@
        &&& self.preview_requested@ == other.preview_requested@
        &&& self.waveform_peaks@ == other.waveform_peaks@
        &&& self.playback_texture == other.playback_texture
    }
}

/// The media files that the clips of the video tracks show, with repetitions.
fn video_sources(timeline: &Timeline) -> (r: Vec<ClipId>)
    ensures
        forall|n: u128|
            (exists|i: int| 0 <= i < r@.len() && #[trigger] r@[i].0 == n) <==> #[trigger] on_video(
                timeline@,
                n,
            ),
{
    let mut out: Vec<ClipId> = Vec::new();
    let ghost t = timeline@;
    let mut k: usize = 0;
    while k < timeline.video_tracks.len()
        invariant
            t == timeline@,
            k <= t.video.len(),
            t.video.len() == timeline.video_tracks@.len(),
            forall|i: int| 0 <= i < out@.len() ==> on_video(t, (#[trigger] out@[i]).0),
            forall|a: int, b: int|
                0 <= a < k && 0 <= b < t.video[a].clips.len() ==> out@.contains(
                    #[trigger] t.video[a].clips[b].source_id,
                ),
        decreases t.video.len() - k,
    {
        let clips = &timeline.video_tracks[k].clips;
        assert(clips@ == t.video[k as int].clips);
        let mut j: usize = 0;
        while j < clips.len()
            invariant
                t == timeline@,
                k < t.video.len(),
                clips@ == t.video[k as int].clips,
                j <= clips@.len(),
                forall|i: int| 0 <= i < out@.len() ==> on_video(t, (#[trigger] out@[i]).0),
                forall|a: int, b: int|
                    0 <= a < k && 0 <= b < t.video[a].clips.len() ==> out@.contains(
                        #[trigger] t.video[a].clips[b].source_id,
                    ),
                forall|b: int|
                    0 <= b < j ==> out@.contains(
                        #[trigger] t.video[k as int].clips[b].source_id,
                    ),
            decreases clips@.len() - j,
        {
            let ghost before = out@;
            let id = clips[j].source_id;
            out.push(id);
            proof {
                assert(t.video[k as int].clips[j as int].source_id.0 == id.0);
                assert(on_video(t, id.0));
                assert(out@[before.len() as int] == id);
                assert forall|c: ClipId| #[trigger] before.contains(c) implies out@.contains(c) by {
                    let i = choose|i: int| 0 <= i < before.len() && before[i] == c;
                    assert(out@[i] == c);
                }
            }
            j += 1;
        }
        k += 1;
    }
    proof {
        assert forall|n: u128|
            (exists|i: int| 0 <= i < out@.len() && #[trigger] out@[i].0 == n)
                <==> #[trigger] on_video(timeline@, n) by {
            if on_video(t, n) {
                let (a, b) = choose|a: int, b: int|
                    0 <= a < t.video.len() && 0 <= b < t.video[a].clips.len()
                        && #[trigger] t.video[a].clips[b].source_id.0 == n;
                let c = t.video[a].clips[b].source_id;
                assert(out@.contains(c));
                let i = choose|i: int| 0 <= i < out@.len() && out@[i] == c;
                assert(out@[i].0 == n);
            }
        }
    }
    out
}

impl TextureCache {
    /// Asks for the frames of the files on the timeline that are worth it.
    fn ask_for_timeline(&mut self, project: &ProjectState, sources: &Vec<ClipId>) -> (r: Vec<
        ScrubCacheRequest,
    >)
        requires
            forall|n: u128|
                (exists|i: int| 0 <= i < sources@.len() && #[trigger] sources@[i].0 == n)
                    <==> #[trigger] on_video(project.timeline@, n),
        ensures
            extracts(r@, old(self).scrub_wanted(*project)),
            final(self).scrub_requested@ == old(self).scrub_requested@.union(
                old(self).scrub_wanted(*project),
            ),
            final(self).scrub_frames@ == old(self).scrub_frames@,
            final(self).same_but_scrub(*old(self)),
    {
        let ghost wanted = self.scrub_wanted(*project);
        let ghost asked_before = self.scrub_requested@;
        let mut out: Vec<ScrubCacheRequest> = Vec::new();
        let mut i: usize = 0;
        while i < sources.len()
            invariant
                i <= sources@.len(),
                wanted == old(self).scrub_wanted(*project),
                asked_before == old(self).scrub_requested@,
                self.scrub_frames@ == old(self).scrub_frames@,
                self.same_but_scrub(*old(self)),
                forall|n: u128|
                    (exists|i: int| 0 <= i < sources@.len() && #[trigger] sources@[i].0 == n)
                        <==> #[trigger] on_video(project.timeline@, n),
                forall|n: u128| #[trigger]
                    self.scrub_requested@.contains(n) <==> asked_before.contains(n) || (
                    wanted.contains(n) && exists|j: int|
                        0 <= j < i && #[trigger] sources@[j].0 == n),
                forall|j: int|
                    0 <= j < out@.len() ==> (#[trigger] out@[j] matches ScrubCacheRequest::Extract {
                        clip_id,
                    } && wanted.contains(clip_id.0) && self.scrub_requested@.contains(clip_id.0)),
                forall|n: u128|
                    wanted.contains(n) && #[trigger] self.scrub_requested@.contains(n)
                        ==> exists|j: int|
                        0 <= j < out@.len() && #[trigger] out@[j] == (ScrubCacheRequest::Extract {
                            clip_id: ClipId(n),
                        }),
                forall|a: int, b: int|
                    0 <= a < b < out@.len() ==> #[trigger] out@[a] != #[trigger] out@[b],
            decreases sources@.len() - i,
        {
            let id = sources[i];
            let ghost before = *self;
            let ghost listed = out@;
            assert(on_video(project.timeline@, sources@[i as int].0));
            let asked = self.ask_scrub_frames(project, id);
            if let Some(req) = asked {
                proof {
                    assert(wanted.contains(id.0));
                    assert(!before.scrub_requested@.contains(id.0));
                }
                out.push(req);
                proof {
                    assert(out@[listed.len() as int] == (ScrubCacheRequest::Extract {
                        clip_id: ClipId(id.0),
                    }));
                    assert forall|n: u128|
                        wanted.contains(n) && #[trigger] self.scrub_requested@.contains(
                            n,
                        ) implies exists|j: int|
                        0 <= j < out@.len() && #[trigger] out@[j] == (ScrubCacheRequest::Extract {
                            clip_id: ClipId(n),
                        }) by {
                        if n != id.0 {
                            assert(before.scrub_requested@.contains(n));
                            let j = choose|j: int|
                                0 <= j < listed.len() && #[trigger] listed[j] == (
                                ScrubCacheRequest::Extract { clip_id: ClipId(n) });
                            assert(out@[j] == listed[j]);
                        }
                    }
                }
            }
            proof {
                assert forall|n: u128| #[trigger]
                    self.scrub_requested@.contains(n) <==> asked_before.contains(n) || (
                    wanted.contains(n) && exists|j: int|
                        0 <= j < i + 1 && #[trigger] sources@[j].0 == n) by {
                    if wanted.contains(n) && exists|j: int|
                        0 <= j < i + 1 && #[trigger] sources@[j].0 == n {
                        let j = choose|j: int| 0 <= j < i + 1 && #[trigger] sources@[j].0 == n;
                        if j == i {
                            assert(self.scrub_requested@.contains(n));
                        }
                    }
                    if self.scrub_requested@.contains(n) && n == id.0 {
                        assert(sources@[i as int].0 == n);
                    }
                }
            }
            i += 1;
        }
        proof {
            assert forall|n: u128| #[trigger] wanted.contains(n) implies exists|j: int|
                0 <= j < out@.len() && #[trigger] out@[j] == (ScrubCacheRequest::Extract {
                    clip_id: ClipId(n),
                }) by {
                assert(on_video(project.timeline@, n));
                assert(self.scrub_requested@.contains(n));
            }
            assert(self.scrub_requested@ =~= asked_before.union(wanted)) by {
                assert forall|n: u128| wanted.contains(n) implies
                    self.scrub_requested@.contains(n) by {
                    assert(on_video(project.timeline@, n));
                }
            }
        }
        out
    }

    /// The numbers of the files whose frames are wanted no longer, each once.
    fn stale_files(&self, project: &ProjectState, on_timeline: &HashSet<u128>) -> (r: Vec<u128>)
        requires
            forall|n: u128| #[trigger]
                on_timeline@.contains(n) <==> on_video(project.timeline@, n),
        ensures
            forall|i: int|
                0 <= i < r@.len() ==> self.scrub_stale(*project).contains(#[trigger] r@[i]),
            forall|n: u128| #[trigger] self.scrub_stale(*project).contains(n) ==> r@.contains(n),
            r@.no_duplicates(),
    {
        let all = members(&self.scrub_frames);
        let mut out: Vec<u128> = Vec::new();
        let ghost stale = self.scrub_stale(*project);
        let mut i: usize = 0;
        while i < all.len()
            invariant
                i <= all@.len(),
                all@.to_set() == self.scrub_frames@,
                all@.no_duplicates(),
                stale == self.scrub_stale(*project),
                forall|n: u128| #[trigger]
                    on_timeline@.contains(n) <==> on_video(project.timeline@, n),
                forall|k: int| 0 <= k < out@.len() ==> stale.contains(#[trigger] out@[k]),
                forall|k: int| 0 <= k < out@.len() ==> all@.take(i as int).contains(#[trigger] out@[k]),
                forall|k: int|
                    0 <= k < i && stale.contains(#[trigger] all@[k]) ==> out@.contains(all@[k]),
                out@.no_duplicates(),
            decreases all@.len() - i,
        {
            let ghost before = out@;
            let n: u128 = all[i];
            assert(all@.to_set().contains(n));
            proof {
                assert forall|k: int| 0 <= k < before.len() implies before[k] != n && all@.take(
                    i + 1,
                ).contains(#[trigger] before[k]) by {
                    assert(all@.take(i as int).contains(before[k]));
                    let x = choose|x: int|
                        0 <= x < all@.take(i as int).len() && all@.take(i as int)[x] == before[k];
                    assert(all@[x] == before[k]);
                    assert(all@.take(i + 1)[x] == before[k]);
                }
                assert(all@.take(i + 1)[i as int] == n);
            }
            if !on_timeline.contains(&n) {
                out.push(n);
                proof {
                    assert(out@[before.len() as int] == n);
                    assert forall|c: u128| #[trigger] before.contains(c) implies out@.contains(
                        c,
                    ) by {
                        let k = choose|k: int| 0 <= k < before.len() && before[k] == c;
                        assert(out@[k] == c);
                    }
                }
            }
            i += 1;
        }
        assert forall|n: u128| #[trigger] stale.contains(n) implies out@.contains(n) by {
            assert(all@.to_set().contains(n));
            let k = choose|k: int| 0 <= k < all@.len() && all@[k] == n;
            assert(stale.contains(all@[k]));
        }
        out
    }

    /// Asks for the frames of the files that are on the timeline, and drops those of the
    /// files that are no longer on it.
    pub fn enqueue_scrub_cache_for_timeline_clips(&mut self, project: &ProjectState) -> (r: (
        Vec<ScrubCacheRequest>,
        Vec<ScrubCacheRequest>,
    ))
        ensures
            extracts(r.0@, old(self).scrub_wanted(*project)),
            invalidates(r.1@, old(self).scrub_stale(*project)),
            final(self).scrub_requested@ == old(self).scrub_requested@.union(
                old(self).scrub_wanted(*project),
            ).difference(old(self).scrub_stale(*project)),
            final(self).scrub_frames@ == old(self).scrub_frames@.difference(
                old(self).scrub_stale(*project),
            ),
            final(self).same_but_scrub(*old(self)),
    {
        let sources = video_sources(&project.timeline);
        let mut on_timeline: HashSet<u128> = HashSet::new();
        let mut i: usize = 0;
        while i < sources.len()
            invariant
                i <= sources@.len(),
                forall|n: u128| #[trigger]
                    on_timeline@.contains(n) <==> exists|j: int|
                        0 <= j < i && #[trigger] sources@[j].0 == n,
            decreases sources@.len() - i,
        {
            let ghost before = on_timeline@;
            on_timeline.insert(sources[i].0);
            proof {
                assert forall|n: u128| #[trigger]
                    on_timeline@.contains(n) <==> exists|j: int|
                        0 <= j < i + 1 && #[trigger] sources@[j].0 == n by {
                    if n == sources@[i as int].0 {
                        assert(sources@[i as int].0 == n);
                    } else {
                        assert(on_timeline@.contains(n) <==> before.contains(n));
                    }
                }
            }
            i += 1;
        }
        assert(forall|n: u128| #[trigger]
            on_timeline@.contains(n) <==> on_video(project.timeline@, n));
        let extract = self.ask_for_timeline(project, &sources);
        let ghost mid = *self;
        let stale = self.stale_files(project, &on_timeline);
        assert(mid.scrub_stale(*project) == old(self).scrub_stale(*project));
        let mut invalidate: Vec<ScrubCacheRequest> = Vec::new();
        let mut j: usize = 0;
        while j < stale.len()
            invariant
                j <= stale@.len(),
                stale@.no_duplicates(),
                invalidate@.len() == j,
                forall|a: int|
                    0 <= a < j ==> #[trigger] invalidate@[a] == (ScrubCacheRequest::Invalidate {
                        clip_id: ClipId(stale@[a]),
                    }),
                self.same_but_scrub(mid),
                self.scrub_frames@ == mid.scrub_frames@.difference(stale@.take(j as int).to_set()),
                self.scrub_requested@ == mid.scrub_requested@.difference(
                    stale@.take(j as int).to_set(),
                ),
            decreases stale@.len() - j,
        {
            let n: u128 = stale[j];
            let ghost frames = self.scrub_frames@;
            let ghost requested = self.scrub_requested@;
            self.scrub_frames.remove(&n);
            self.scrub_requested.remove(&n);
            invalidate.push(ScrubCacheRequest::Invalidate { clip_id: ClipId(n) });
            proof {
                let more = stale@.take(j + 1);
                let less = stale@.take(j as int);
                assert(more =~= less.push(n));
                assert(more.to_set() =~= less.to_set().insert(n)) by {
                    assert forall|c: u128| more.to_set().contains(c) <==> less.to_set().insert(
                        n,
                    ).contains(c) by {
                        if less.contains(c) {
                            let x = choose|x: int| 0 <= x < less.len() && less[x] == c;
                            assert(more[x] == c);
                        }
                        if more.contains(c) && c != n {
                            let x = choose|x: int| 0 <= x < more.len() && more[x] == c;
                            assert(less[x] == c);
                        }
                        assert(more[j as int] == n);
                    }
                }
                assert(self.scrub_frames@ =~= mid.scrub_frames@.difference(more.to_set()));
                assert(self.scrub_requested@ =~= mid.scrub_requested@.difference(more.to_set()));
            }
            j += 1;
        }
        proof {
            let gone = old(self).scrub_stale(*project);
            assert(stale@.take(j as int) =~= stale@);
            assert(stale@.to_set() =~= gone);
            assert forall|n: u128| #[trigger] gone.contains(n) implies exists|i: int|
                0 <= i < invalidate@.len() && #[trigger] invalidate@[i] == (
                ScrubCacheRequest::Invalidate { clip_id: ClipId(n) }) by {
                let i = choose|i: int| 0 <= i < stale@.len() && stale@[i] == n;
                assert(invalidate@[i] == (ScrubCacheRequest::Invalidate { clip_id: ClipId(n) }));
            }
        }
        (extract, invalidate)
    }
}

/// Of the files in view previews are asked for in the order in which they stand, so many
/// at a time and no more: only for files that are known, whose preview is neither there
/// nor asked for; and where fewer were asked for, none such is left.
pub proof fn law_previews_are_asked_for(
    a: Asked,
    at_hand: Set<u128>,
    known: Set<u128>,
    visible: Seq<ClipId>,
    n: int,
)
    requires
        0 <= n,
    ensures
        ({
            let b = asked_visible(a, at_hand, known, visible, n);
            &&& a.out.len() <= b.out.len() <= a.out.len() + n
            &&& forall|i: int| 0 <= i < a.out.len() ==> #[trigger] b.out[i] == a.out[i]
            &&& forall|i: int|
                a.out.len() <= i < b.out.len() ==> (
                #[trigger] b.out[i] matches PreviewRequest::Enqueue { clip_id, priority }
                    && !priority && visible.contains(clip_id) && known.contains(clip_id.0)
                    && !at_hand.contains(clip_id.0) && !a.requested.contains(clip_id.0)
                    && b.requested.contains(clip_id.0))
            &&& forall|x: u128| a.requested.contains(x) ==> #[trigger] b.requested.contains(x)
            &&& b.out.len() < a.out.len() + n ==> forall|k: int|
                0 <= k < visible.len() && known.contains((#[trigger] visible[k]).0) ==> at_hand.contains(
                    visible[k].0,
                ) || b.requested.contains(visible[k].0)
        }),
    decreases visible.len(),
{
    if visible.len() > 0 && n > 0 {
        let rest = visible.drop_first();
        let id = visible[0];
        let worth = worth_asking(a, at_hand, known, id);
        let m = if worth {
            asked(a, at_hand, known, id, false)
        } else {
            a
        };
        let left = if worth {
            n - 1
        } else {
            n
        };
        law_previews_are_asked_for(m, at_hand, known, rest, left);
        let b = asked_visible(a, at_hand, known, visible, n);
        assert(b == asked_visible(m, at_hand, known, rest, left));
        assert forall|x: ClipId| rest.contains(x) implies visible.contains(x) by {
            let i = choose|i: int| 0 <= i < rest.len() && rest[i] == x;
            assert(visible[i + 1] == x);
        }
        assert(visible.contains(id));
        assert(m.requested.contains(id.0) || !worth);
        assert forall|i: int| 0 <= i < a.out.len() implies #[trigger] b.out[i] == a.out[i] by {
            assert(m.out[i] == a.out[i]);
        }
        assert forall|i: int| a.out.len() <= i < b.out.len() implies (
        #[trigger] b.out[i] matches PreviewRequest::Enqueue { clip_id, priority } && !priority
            && visible.contains(clip_id) && known.contains(clip_id.0) && !at_hand.contains(
            clip_id.0,
        ) && !a.requested.contains(clip_id.0) && b.requested.contains(clip_id.0)) by {
            if i < m.out.len() {
                assert(b.out[i] == m.out[i]);
                assert(b.requested.contains(id.0));
            }
        }
        if b.out.len() < a.out.len() + n {
            assert forall|k: int|
                0 <= k < visible.len() && known.contains(
                    (#[trigger] visible[k]).0,
                ) implies at_hand.contains(visible[k].0) || b.requested.contains(visible[k].0) by {
                if k > 0 {
                    assert(rest[k - 1] == visible[k]);
                } else {
                    assert(m.requested.contains(id.0) || at_hand.contains(id.0));
                }
            }
        }
    }
}

/// Frames for scrubbing are wanted of exactly the files with a picture that a video track
/// shows and that are neither there nor asked for; they are stale where no video track
/// shows the file any more.
pub proof fn law_scrub_frames_are_wanted(cache: TextureCache, project: ProjectState, n: u128)
    ensures
        ({
            let shown = exists|k: int, i: int|
                0 <= k < project.timeline@.video.len() && 0 <= i
                    < project.timeline@.video[k].clips.len()
                    && #[trigger] project.timeline@.video[k].clips[i].source_id.0 == n;
            &&& cache.scrub_wanted(project).contains(n) <==> shown && project.clips@.contains_key(n)
                && !project.clips@[n].audio_only && !cache.scrub_frames@.contains(n)
                && !cache.scrub_requested@.contains(n)
            &&& cache.scrub_stale(project).contains(n) <==> cache.scrub_frames@.contains(n)
                && !shown
        }),
{
}

/// A preview that is asked for first is asked for with priority, once, and only where it
/// is neither there nor asked for.
pub proof fn law_asked_for_once(a: Asked, at_hand: Set<u128>, known: Set<u128>, id: ClipId)
    ensures
        ({
            let b = asked_first(a, at_hand, known, Some(id));
            let wanted = known.contains(id.0) && !at_hand.contains(id.0) && !a.requested.contains(
                id.0,
            );
            &&& wanted ==> b.out == a.out.push(
                PreviewRequest::Enqueue { clip_id: id, priority: true },
            ) && b.requested == a.requested.insert(id.0)
            &&& !wanted ==> b == a
            &&& asked_first(b, at_hand, known, Some(id)) == b
        }),
        asked_first(a, at_hand, known, None) == a,
{
}

} // verus!
