//! Questions to the timeline, and its tracks.

use vstd::prelude::*;

use crate::ids::{is_random_id, TimelineClipId, TrackId};
use crate::text::{decimal, push_decimal};
use crate::time::in_time;
use crate::timeline::clip::TimelineClip;
use crate::timeline::edit::PlayheadHit;
use crate::timeline::lanes::{lemma_clip_place_first, track_views, Timeline, TimelineView};
use crate::timeline::overlap::all_fit;
use crate::timeline::track::{Track, TrackKind, TrackView};

verus! {

/// The first clip that covers `time`, and what it shows then.
pub open spec fn hit_on(clips: Seq<TimelineClip>, track_id: TrackId, time: int) -> Option<
    PlayheadHit,
>
    decreases clips.len(),
{
    if clips.len() == 0 {
        None
    } else if clips[0].covers(time) {
        Some(
            PlayheadHit {
                track_id,
                clip: clips[0],
                source_time: clips[0].source_at(time) as i64,
            },
        )
    } else {
        hit_on(clips.drop_first(), track_id, time)
    }
}

/// The first clip, track by track, that covers `time`, and what it shows then.
pub open spec fn hit(tracks: Seq<TrackView>, time: int) -> Option<PlayheadHit>
    decreases tracks.len(),
{
    if tracks.len() == 0 {
        None
    } else {
        match hit_on(tracks[0].clips, tracks[0].id, time) {
            Some(h) => Some(h),
            None => hit(tracks.drop_first(), time),
        }
    }
}

/// `end` is where the last clip ends, or 0 where none ends after 0.
pub open spec fn is_duration(tracks: Seq<TrackView>, end: int) -> bool {
    &&& 0 <= end
    &&& forall|k: int, i: int|
        0 <= k < tracks.len() && 0 <= i < tracks[k].clips.len() ==> (
        #[trigger] tracks[k].clips[i]).end_at() <= end
    &&& end == 0 || exists|k: int, i: int|
        0 <= k < tracks.len() && 0 <= i < tracks[k].clips.len() && (
        #[trigger] tracks[k].clips[i]).end_at() == end
}

fn scan_clips_at(clips: &Vec<TimelineClip>, track_id: TrackId, time: i64) -> (r: Option<
    PlayheadHit,
>)
    requires
        all_fit(clips@),
    ensures
        r == hit_on(clips@, track_id, time as int),
{
    let mut i: usize = 0;
    assert(clips@.skip(0) =~= clips@);
    while i < clips.len()
        invariant
            all_fit(clips@),
            i <= clips.len(),
            hit_on(clips@, track_id, time as int) == hit_on(
                clips@.skip(i as int),
                track_id,
                time as int,
            ),
        decreases clips.len() - i,
    {
        let tc = clips[i];
        assert(clips@.skip(i as int)[0] == tc);
        assert(clips@.skip(i as int).drop_first() =~= clips@.skip(i + 1));
        if time >= tc.timeline_start && time < tc.timeline_start + tc.duration {
            return Some(
                PlayheadHit {
                    track_id,
                    clip: tc,
                    source_time: tc.source_in + (time - tc.timeline_start),
                },
            );
        }
        i += 1;
    }
    None
}

/// The first clip, track by track, that covers `time`.
fn scan_tracks_at(tracks: &Vec<Track>, time: i64) -> (r: Option<PlayheadHit>)
    requires
        forall|k: int| 0 <= k < tracks.len() ==> all_fit((#[trigger] tracks[k]).clips@),
    ensures
        r == hit(track_views(tracks@), time as int),
{
    let ghost views = track_views(tracks@);
    let mut k: usize = 0;
    assert(views.skip(0) =~= views);
    while k < tracks.len()
        invariant
            views == track_views(tracks@),
            forall|k: int| 0 <= k < tracks.len() ==> all_fit((#[trigger] tracks[k]).clips@),
            k <= tracks.len(),
            hit(views, time as int) == hit(views.skip(k as int), time as int),
        decreases tracks.len() - k,
    {
        assert(views.skip(k as int)[0] == tracks[k as int]@);
        assert(views.skip(k as int).drop_first() =~= views.skip(k + 1));
        let r = scan_clips_at(&tracks[k].clips, tracks[k].id, time);
        if r.is_some() {
            return r;
        }
        k += 1;
    }
    None
}

/// The clips that are on at `time`, one for each track that has one, and what they show.
pub open spec fn hits(tracks: Seq<TrackView>, time: int) -> Seq<PlayheadHit>
    decreases tracks.len(),
{
    if tracks.len() == 0 {
        Seq::empty()
    } else {
        let before = hits(tracks.drop_last(), time);
        match hit_on(tracks.last().clips, tracks.last().id, time) {
            Some(h) => before.push(h),
            None => before,
        }
    }
}

/// The tracks of which the pictures are shown.
pub open spec fn visible_of(tracks: Seq<TrackView>) -> Seq<TrackView>
    decreases tracks.len(),
{
    if tracks.len() == 0 {
        Seq::empty()
    } else if tracks.last().visible {
        visible_of(tracks.drop_last()).push(tracks.last())
    } else {
        visible_of(tracks.drop_last())
    }
}

/// The tracks of which the sound is heard.
pub open spec fn unmuted_of(tracks: Seq<TrackView>) -> Seq<TrackView>
    decreases tracks.len(),
{
    if tracks.len() == 0 {
        Seq::empty()
    } else if !tracks.last().muted {
        unmuted_of(tracks.drop_last()).push(tracks.last())
    } else {
        unmuted_of(tracks.drop_last())
    }
}

/// A hit on the first tracks, or else on the rest.
pub proof fn lemma_hit_split(a: Seq<TrackView>, b: Seq<TrackView>, time: int)
    ensures
        hit(a + b, time) == (match hit(a, time) {
            Some(h) => Some(h),
            None => hit(b, time),
        }),
    decreases a.len(),
{
    if a.len() == 0 {
        assert(a + b =~= b);
    } else {
        assert((a + b).drop_first() =~= a.drop_first() + b);
        lemma_hit_split(a.drop_first(), b, time);
    }
}

/// What is on at a moment is the first of all that are on.
pub proof fn law_first_of_hits(tracks: Seq<TrackView>, time: int)
    ensures
        hit(tracks, time) == (if hits(tracks, time).len() == 0 {
            None
        } else {
            Some(hits(tracks, time)[0])
        }),
    decreases tracks.len(),
{
    if tracks.len() > 0 {
        let end = seq![tracks.last()];
        law_first_of_hits(tracks.drop_last(), time);
        lemma_hit_split(tracks.drop_last(), end, time);
        assert(tracks.drop_last() + end =~= tracks);
        reveal_with_fuel(hit, 2);
    }
}

/// The latest end of the clips on some tracks, and at least `from`.
fn latest_end(tracks: &Vec<Track>, from: i64) -> (r: i64)
    requires
        forall|k: int| 0 <= k < tracks.len() ==> all_fit((#[trigger] tracks[k]).clips@),
    ensures
        r >= from,
        forall|k: int, i: int|
            0 <= k < tracks.len() && 0 <= i < tracks[k].clips.len() ==> (
            #[trigger] tracks[k].clips[i]).end_at() <= r,
        r == from || exists|k: int, i: int|
            0 <= k < tracks.len() && 0 <= i < tracks[k].clips.len() && (
            #[trigger] tracks[k].clips[i]).end_at() == r,
{
    let mut max_end = from;
    let mut k: usize = 0;
    while k < tracks.len()
        invariant
            forall|k: int| 0 <= k < tracks.len() ==> all_fit((#[trigger] tracks[k]).clips@),
            k <= tracks.len(),
            max_end >= from,
            forall|j: int, i: int|
                0 <= j < k && 0 <= i < tracks[j].clips.len() ==> (
                #[trigger] tracks[j].clips[i]).end_at() <= max_end,
            max_end == from || exists|j: int, i: int|
                0 <= j < k && 0 <= i < tracks[j].clips.len() && (
                #[trigger] tracks[j].clips[i]).end_at() == max_end,
        decreases tracks.len() - k,
    {
        let clips = &tracks[k].clips;
        let ghost before = max_end;
        let mut n: usize = 0;
        while n < clips.len()
            invariant
                k < tracks.len(),
                clips@ == tracks[k as int].clips@,
                all_fit(clips@),
                n <= clips.len(),
                max_end >= before,
                forall|i: int| 0 <= i < n ==> (#[trigger] clips[i]).end_at() <= max_end,
                max_end == before || exists|i: int|
                    0 <= i < n && (#[trigger] clips[i]).end_at() == max_end,
            decreases clips.len() - n,
        {
            let end = clips[n].end();
            if end > max_end {
                max_end = end;
            }
            n += 1;
        }
        proof {
            if max_end != before {
                let i = choose|i: int|
                    0 <= i < clips.len() && (#[trigger] clips[i]).end_at() == max_end;
                assert(tracks[k as int].clips[i].end_at() == max_end);
            }
            assert forall|j: int, i: int|
                0 <= j < k + 1 && 0 <= i < tracks[j].clips.len() implies (
            #[trigger] tracks[j].clips[i]).end_at() <= max_end by {
                if j == k {
                    assert(clips[i].end_at() <= max_end);
                }
            }
        }
        k += 1;
    }
    max_end
}

fn named(letter: char, n: usize) -> (r: String)
    ensures
        r@ == seq![letter] + decimal(n as nat),
{
    let mut name = String::new();
    name.push(letter);
    push_decimal(&mut name, n as u64);
    assert(name@ =~= seq![letter] + decimal(n as nat));
    name
}

/// An empty track of a kind, called by its letter and number, under a fresh
/// identifier.
pub open spec fn is_fresh_track(t: TrackView, kind: TrackKind, n: nat) -> bool {
    &&& is_random_id(t.id.0)
    &&& t.name == seq![if kind == TrackKind::Video { 'V' } else { 'A' }] + decimal(n)
    &&& t.kind == kind
    &&& t.clips == Seq::<TimelineClip>::empty()
    &&& !t.muted
    &&& t.visible
}

/// An empty video track and an empty audio track are added, called by the new number of
/// video tracks.
pub open spec fn pair_added(before: TimelineView, after: TimelineView) -> bool {
    &&& after.video.len() == before.video.len() + 1
    &&& after.audio.len() == before.audio.len() + 1
    &&& after.video.drop_last() == before.video
    &&& after.audio.drop_last() == before.audio
    &&& is_fresh_track(after.video.last(), TrackKind::Video, after.video.len())
    &&& is_fresh_track(after.audio.last(), TrackKind::Audio, after.video.len())
}

proof fn lemma_pair_removed_fits(t: TimelineView, idx: int)
    requires
        t.fits(),
        0 <= idx,
    ensures
        pair_removed(t, idx).fits(),
{
    let after = pair_removed(t, idx);
    assert forall|k: int| 0 <= k < after.tracks().len() implies all_fit(
        (#[trigger] after.tracks()[k]).clips,
    ) by {
        let v = after.video.len();
        if k < v {
            let j = if k < idx || v == t.video.len() {
                k
            } else {
                k + 1
            };
            assert(after.tracks()[k] == t.tracks()[j]);
        } else {
            let i = k - v;
            let j = if i < idx || after.audio.len() == t.audio.len() {
                i
            } else {
                i + 1
            };
            assert(after.tracks()[k] == t.tracks()[t.video.len() + j]);
        }
    }
}

/// What is seen when a clip ends.
pub open spec fn next_hit(t: TimelineView, id: TimelineClipId) -> Option<PlayheadHit> {
    match t.clip_place(id) {
        Some(p) => hit(visible_of(t.video), t.clip_at(p).end_at()),
        None => None,
    }
}

/// What is seen just before a clip begins.
pub open spec fn previous_hit(t: TimelineView, id: TimelineClipId) -> Option<PlayheadHit> {
    match t.clip_place(id) {
        Some(p) => hit(visible_of(t.video), t.clip_at(p).timeline_start - 1),
        None => None,
    }
}

/// Three pairs of empty tracks, each called by its number.
pub open spec fn is_fresh_timeline(t: TimelineView) -> bool {
    &&& t.video.len() == 3
    &&& t.audio.len() == 3
    &&& forall|i: int|
        0 <= i < 3 ==> is_fresh_track(#[trigger] t.video[i], TrackKind::Video, (i + 1) as nat)
    &&& forall|i: int|
        0 <= i < 3 ==> is_fresh_track(#[trigger] t.audio[i], TrackKind::Audio, (i + 1) as nat)
    &&& t.fits()
}

/// The track at `from` is put at `to`.
pub open spec fn track_moved(tracks: Seq<TrackView>, from: int, to: int) -> Seq<TrackView> {
    tracks.remove(from).insert(to, tracks[from])
}

/// The pair at `from` is put at `to`.
pub open spec fn pair_moved(t: TimelineView, from: int, to: int) -> TimelineView {
    let n = if t.video.len() < t.audio.len() {
        t.video.len()
    } else {
        t.audio.len()
    };
    if from < n && to < n {
        TimelineView {
            video: track_moved(t.video, from, to),
            audio: track_moved(t.audio, from, to),
        }
    } else {
        t
    }
}

/// A track that is there after a move was there before.
pub proof fn lemma_moved_among(tracks: Seq<TrackView>, from: int, to: int, i: int)
    requires
        0 <= from < tracks.len(),
        0 <= to < tracks.len(),
        0 <= i < tracks.len(),
    ensures
        track_moved(tracks, from, to).len() == tracks.len(),
        exists|j: int| 0 <= j < tracks.len() && track_moved(tracks, from, to)[i] == tracks[j],
{
    let after = track_moved(tracks, from, to);
    let j = if i == to {
        from
    } else {
        let k = if i < to {
            i
        } else {
            i - 1
        };
        if k < from {
            k
        } else {
            k + 1
        }
    };
    assert(after[i] == tracks[j]);
}

proof fn lemma_pair_moved_fits(t: TimelineView, from: int, to: int)
    requires
        t.fits(),
        0 <= from,
        0 <= to,
    ensures
        pair_moved(t, from, to).fits(),
{
    let after = pair_moved(t, from, to);
    assert forall|k: int| 0 <= k < after.tracks().len() implies all_fit(
        (#[trigger] after.tracks()[k]).clips,
    ) by {
        if after == t {
            assert(all_fit(t.tracks()[k].clips));
        } else {
            let v = t.video.len() as int;
            if k < v {
                lemma_moved_among(t.video, from, to, k);
                let j = choose|j: int|
                    0 <= j < v && track_moved(t.video, from, to)[k] == t.video[j];
                assert(after.tracks()[k] == t.tracks()[j]);
            } else {
                lemma_moved_among(t.video, from, to, 0);
                lemma_moved_among(t.audio, from, to, k - v);
                let j = choose|j: int|
                    0 <= j < t.audio.len() && track_moved(t.audio, from, to)[k - v] == t.audio[j];
                assert(after.tracks()[k] == t.tracks()[v + j]);
            }
        }
    }
}

impl Timeline {
    /// Three pairs of empty tracks.
    pub fn new() -> (r: Self)
        ensures
            is_fresh_timeline(r@),
    {
        let mut t = Timeline { video_tracks: Vec::new(), audio_tracks: Vec::new() };
        t.add_track_pair();
        t.add_track_pair();
        t.add_track_pair();
        t
    }

    /// Adds an empty video track and an empty audio track, called by the new number
    /// of video tracks.
    pub fn add_track_pair(&mut self)
        requires
            old(self)@.video.len() < usize::MAX,
        ensures
            pair_added(old(self)@, final(self)@),
            old(self)@.fits() ==> final(self)@.fits(),
    {
        let ghost before = self@;
        let n: usize = self.video_tracks.len() + 1;
        self.video_tracks.push(Track::new(named('V', n), TrackKind::Video));
        self.audio_tracks.push(Track::new(named('A', n), TrackKind::Audio));
        proof {
            assert(self@.video.drop_last() =~= before.video);
            assert(self@.audio.drop_last() =~= before.audio);
            if before.fits() {
                assert forall|k: int| 0 <= k < self@.tracks().len() implies all_fit(
                    (#[trigger] self@.tracks()[k]).clips,
                ) by {
                    let v = before.video.len();
                    if k < v {
                        assert(self@.tracks()[k] == before.tracks()[k]);
                    } else if v < k < v + 1 + before.audio.len() {
                        assert(self@.tracks()[k] == before.tracks()[k - 1]);
                    }
                }
            }
        }
    }

    /// Removes the tracks at `idx`, unless only one pair is left.
    pub fn remove_track_pair(&mut self, idx: usize)
        ensures
            final(self)@ == pair_removed(old(self)@, idx as int),
            old(self)@.fits() ==> final(self)@.fits(),
    {
        if self.pair_count() <= 1 {
            return;
        }
        let ghost before = self@;
        if idx < self.video_tracks.len() {
            self.video_tracks.remove(idx);
        }
        if idx < self.audio_tracks.len() {
            self.audio_tracks.remove(idx);
        }
        proof {
            assert(self@ =~= pair_removed(before, idx as int));
            if before.fits() {
                lemma_pair_removed_fits(before, idx as int);
            }
        }
    }

    /// The first clip, track by track, that is on at `time`: what it shows then.
    pub fn clip_at_time(&self, time: i64) -> (r: Option<PlayheadHit>)
        requires
            self@.fits(),
        ensures
            r == hit(self@.tracks(), time as int),
    {
        proof {
            lemma_hit_split(self@.video, self@.audio, time as int);
            self.lemma_fits();
        }
        let r = scan_tracks_at(&self.video_tracks, time);
        if r.is_some() {
            return r;
        }
        scan_tracks_at(&self.audio_tracks, time)
    }

    /// The first clip on the audio tracks that is on at `time`.
    pub fn audio_clip_at_time(&self, time: i64) -> (r: Option<PlayheadHit>)
        requires
            self@.fits(),
        ensures
            r == hit(self@.audio, time as int),
    {
        proof {
            self.lemma_fits();
        }
        scan_tracks_at(&self.audio_tracks, time)
    }

    /// What is seen at `time`: what is on on the video tracks that are visible.
    pub fn video_clip_at_time(&self, time: i64) -> (r: Option<PlayheadHit>)
        requires
            self@.fits(),
        ensures
            r == hit(visible_of(self@.video), time as int),
    {
        proof {
            self.lemma_fits();
        }
        let ghost views = self@.video;
        let mut r: Option<PlayheadHit> = None;
        let mut k: usize = 0;
        assert(views.take(0) =~= Seq::<TrackView>::empty());
        while k < self.video_tracks.len()
            invariant
                views == track_views(self.video_tracks@),
                forall|k: int|
                    0 <= k < self.video_tracks.len() ==> all_fit(
                        (#[trigger] self.video_tracks[k]).clips@,
                    ),
                k <= self.video_tracks.len(),
                r == hit(visible_of(views.take(k as int)), time as int),
            decreases self.video_tracks.len() - k,
        {
            proof {
                let seen = visible_of(views.take(k as int));
                let here = seq![views[k as int]];
                assert(views.take(k + 1).drop_last() =~= views.take(k as int));
                assert(seen + here =~= seen.push(views[k as int]));
                lemma_hit_split(seen, here, time as int);
                reveal_with_fuel(hit, 2);
                assert(here.drop_first() =~= Seq::<TrackView>::empty());
            }
            if r.is_none() && self.video_tracks[k].visible {
                r = scan_clips_at(&self.video_tracks[k].clips, self.video_tracks[k].id, time);
            }
            k += 1;
        }
        assert(views.take(k as int) =~= views);
        r
    }

    /// What is heard at `time`: what is on on each audio track that is not muted.
    pub fn audio_clips_at_time(&self, time: i64) -> (r: Vec<PlayheadHit>)
        requires
            self@.fits(),
        ensures
            r@ == hits(unmuted_of(self@.audio), time as int),
    {
        proof {
            self.lemma_fits();
        }
        let ghost views = self@.audio;
        let mut r: Vec<PlayheadHit> = Vec::new();
        let mut k: usize = 0;
        assert(views.take(0) =~= Seq::<TrackView>::empty());
        while k < self.audio_tracks.len()
            invariant
                views == track_views(self.audio_tracks@),
                forall|k: int|
                    0 <= k < self.audio_tracks.len() ==> all_fit(
                        (#[trigger] self.audio_tracks[k]).clips@,
                    ),
                k <= self.audio_tracks.len(),
                r@ == hits(unmuted_of(views.take(k as int)), time as int),
            decreases self.audio_tracks.len() - k,
        {
            assert(views.take(k + 1).drop_last() =~= views.take(k as int));
            assert(views.take(k + 1).last() == self.audio_tracks[k as int]@);
            if !self.audio_tracks[k].muted {
                proof {
                    let heard = unmuted_of(views.take(k as int));
                    assert(heard.push(views[k as int]).drop_last() =~= heard);
                }
                if let Some(h) = scan_clips_at(
                    &self.audio_tracks[k].clips,
                    self.audio_tracks[k].id,
                    time,
                ) {
                    r.push(h);
                }
            }
            k += 1;
        }
        assert(views.take(k as int) =~= views);
        r
    }

    /// Whether anything is heard at `time`.
    pub fn has_unmuted_audio_at_time(&self, time: i64) -> (r: bool)
        requires
            self@.fits(),
        ensures
            r == (hits(unmuted_of(self@.audio), time as int).len() > 0),
    {
        self.audio_clips_at_time(time).len() > 0
    }

    /// The clip that follows a clip: what is seen when it ends.
    pub fn next_clip_after(&self, id: TimelineClipId) -> (r: Option<PlayheadHit>)
        requires
            self@.fits(),
        ensures
            r == next_hit(self@, id),
    {
        proof {
            lemma_clip_place_first(self@, id);
        }
        match self.find_clip(id) {
            Some((_, _, c)) => {
                proof {
                    let p = self@.clip_place(id)->0;
                    assert(all_fit(self@.tracks()[p.0].clips));
                }
                self.video_clip_at_time(c.timeline_start + c.duration)
            },
            None => None,
        }
    }

    /// The clip that comes before a clip: what is seen just before it begins.
    pub fn previous_clip_before(&self, id: TimelineClipId) -> (r: Option<PlayheadHit>)
        requires
            self@.fits(),
        ensures
            r == previous_hit(self@, id),
    {
        proof {
            lemma_clip_place_first(self@, id);
        }
        match self.find_clip(id) {
            Some((_, _, c)) => {
                proof {
                    let p = self@.clip_place(id)->0;
                    assert(all_fit(self@.tracks()[p.0].clips));
                }
                self.video_clip_at_time(c.timeline_start - 1)
            },
            None => None,
        }
    }

    /// How long a clip still lasts after a moment: less than nothing once it is over.
    pub fn time_remaining_in_clip(&self, id: TimelineClipId, time: i64) -> (r: Option<i64>)
        requires
            self@.fits(),
            in_time(time as int),
        ensures
            match r {
                Some(left) => self@.clip_place(id) matches Some(p) && left == self@.clip_at(
                    p,
                ).end_at() - time,
                None => self@.clip_place(id) is None,
            },
    {
        proof {
            lemma_clip_place_first(self@, id);
        }
        match self.find_clip(id) {
            Some((_, _, c)) => {
                proof {
                    let p = self@.clip_place(id)->0;
                    assert(all_fit(self@.tracks()[p.0].clips));
                }
                Some(c.timeline_start + c.duration - time)
            },
            None => None,
        }
    }

    /// Moves the tracks at `from` to `to`; the pairs between give way. Where either is
    /// not the place of a pair, nothing changes.
    pub fn move_track_pair(&mut self, from: usize, to: usize)
        ensures
            final(self)@ == pair_moved(old(self)@, from as int, to as int),
            old(self)@.fits() ==> final(self)@.fits(),
    {
        let videos: usize = self.video_tracks.len();
        let audios: usize = self.audio_tracks.len();
        if from >= videos || to >= videos || from >= audios || to >= audios {
            return;
        }
        let ghost before = self@;
        let video = self.video_tracks.remove(from);
        self.video_tracks.insert(to, video);
        let audio = self.audio_tracks.remove(from);
        self.audio_tracks.insert(to, audio);
        proof {
            assert(self@ =~= pair_moved(before, from as int, to as int));
            if before.fits() {
                lemma_pair_moved_fits(before, from as int, to as int);
            }
        }
    }

    /// Where the last clip ends; 0 for an empty timeline.
    pub fn timeline_duration(&self) -> (r: i64)
        requires
            self@.fits(),
        ensures
            is_duration(self@.tracks(), r as int),
    {
        proof {
            self.lemma_fits();
        }
        let v = latest_end(&self.video_tracks, 0);
        let a = latest_end(&self.audio_tracks, v);
        proof {
            let n = self.video_tracks.len() as int;
            let ts = self@.tracks();
            assert forall|k: int, i: int|
                0 <= k < ts.len() && 0 <= i < ts[k].clips.len() implies (
            #[trigger] ts[k].clips[i]).end_at() <= a by {
                if k < n {
                    assert(self.video_tracks[k].clips[i].end_at() <= v);
                } else {
                    assert(self.audio_tracks[k - n].clips[i].end_at() <= a);
                }
            }
            if a != v {
                let (k, i) = choose|k: int, i: int|
                    0 <= k < self.audio_tracks.len() && 0 <= i < self.audio_tracks[k].clips.len()
                        && (#[trigger] self.audio_tracks[k].clips[i]).end_at() == a;
                assert(ts[n + k].clips[i].end_at() == a);
            } else if v != 0 {
                let (k, i) = choose|k: int, i: int|
                    0 <= k < self.video_tracks.len() && 0 <= i < self.video_tracks[k].clips.len()
                        && (#[trigger] self.video_tracks[k].clips[i]).end_at() == v;
                assert(ts[k].clips[i].end_at() == a);
            }
        }
        a
    }

    proof fn lemma_fits(&self)
        requires
            self@.fits(),
        ensures
            forall|k: int|
                0 <= k < self.video_tracks.len() ==> all_fit(
                    (#[trigger] self.video_tracks[k]).clips@,
                ),
            forall|k: int|
                0 <= k < self.audio_tracks.len() ==> all_fit(
                    (#[trigger] self.audio_tracks[k]).clips@,
                ),
    {
        assert forall|k: int| 0 <= k < self.video_tracks.len() implies all_fit(
            (#[trigger] self.video_tracks[k]).clips@,
        ) by {
            assert(all_fit(self@.tracks()[k].clips));
        }
        assert forall|k: int| 0 <= k < self.audio_tracks.len() implies all_fit(
            (#[trigger] self.audio_tracks[k]).clips@,
        ) by {
            assert(all_fit(self@.tracks()[self.video_tracks.len() + k].clips));
        }
    }
}

/// The tracks at `idx` are gone, unless only one pair is left.
pub open spec fn pair_removed(t: TimelineView, idx: int) -> TimelineView {
    if t.video.len() <= 1 {
        t
    } else {
        TimelineView {
            video: if idx < t.video.len() {
                t.video.remove(idx)
            } else {
                t.video
            },
            audio: if idx < t.audio.len() {
                t.audio.remove(idx)
            } else {
                t.audio
            },
        }
    }
}

impl Default for Timeline {
    fn default() -> (r: Self)
        ensures
            r@.video.len() == 3,
            r@.audio.len() == 3,
            r@.fits(),
            forall|i: int|
                0 <= i < 3 ==> is_fresh_track(
                    #[trigger] r@.video[i],
                    TrackKind::Video,
                    (i + 1) as nat,
                ),
            forall|i: int|
                0 <= i < 3 ==> is_fresh_track(
                    #[trigger] r@.audio[i],
                    TrackKind::Audio,
                    (i + 1) as nat,
                ),
    {
        Timeline::new()
    }
}

/// A pair that is moved one place up and then one place down is where it was.
pub proof fn law_pair_moves_back(t: TimelineView, idx: int)
    requires
        0 <= idx,
        idx + 1 < t.video.len(),
        idx + 1 < t.audio.len(),
    ensures
        pair_moved(pair_moved(t, idx, idx + 1), idx + 1, idx) == t,
{
    let there = pair_moved(t, idx, idx + 1);
    assert(track_moved(there.video, idx + 1, idx) =~= t.video);
    assert(track_moved(there.audio, idx + 1, idx) =~= t.audio);
}

proof fn lemma_hit_names_its_track(clips: Seq<TimelineClip>, id: TrackId, time: int)
    ensures
        hit_on(clips, id, time) matches Some(h) ==> h.track_id == id,
    decreases clips.len(),
{
    if clips.len() > 0 {
        lemma_hit_names_its_track(clips.drop_first(), id, time);
    }
}

/// What is heard is on a track that is not muted.
pub proof fn law_muted_is_not_heard(tracks: Seq<TrackView>, time: int)
    ensures
        forall|i: int| #![trigger hits(unmuted_of(tracks), time)[i]]
            0 <= i < hits(unmuted_of(tracks), time).len() ==> exists|k: int|
                0 <= k < tracks.len() && !(#[trigger] tracks[k]).muted && tracks[k].id == hits(
                    unmuted_of(tracks),
                    time,
                )[i].track_id,
    decreases tracks.len(),
{
    if tracks.len() > 0 {
        let before = tracks.drop_last();
        law_muted_is_not_heard(before, time);
        lemma_hit_names_its_track(tracks.last().clips, tracks.last().id, time);
        let heard = unmuted_of(before);
        if !tracks.last().muted {
            assert(heard.push(tracks.last()).drop_last() =~= heard);
        }
        let all = hits(unmuted_of(tracks), time);
        assert forall|i: int| 0 <= i < all.len() implies exists|k: int|
            0 <= k < tracks.len() && !(#[trigger] tracks[k]).muted && tracks[k].id
                == (#[trigger] all[i]).track_id by {
            if i < hits(heard, time).len() {
                assert(all[i] == hits(heard, time)[i]);
                let k = choose|k: int|
                    0 <= k < before.len() && !(#[trigger] before[k]).muted && before[k].id
                        == all[i].track_id;
                assert(tracks[k] == before[k]);
            } else {
                let k = tracks.len() - 1;
                assert(!tracks[k].muted);
                assert(tracks[k].id == all[i].track_id);
            }
        }
    }
}

/// What is seen is on a track that is visible.
pub proof fn law_hidden_is_not_seen(tracks: Seq<TrackView>, time: int)
    ensures
        hit(visible_of(tracks), time) matches Some(h) ==> exists|k: int|
            0 <= k < tracks.len() && (#[trigger] tracks[k]).visible && tracks[k].id == h.track_id,
    decreases tracks.len(),
{
    if tracks.len() > 0 {
        let before = tracks.drop_last();
        law_hidden_is_not_seen(before, time);
        lemma_hit_names_its_track(tracks.last().clips, tracks.last().id, time);
        let seen = visible_of(before);
        if let Some(h) = hit(visible_of(tracks), time) {
            if tracks.last().visible {
                let here = seq![tracks.last()];
                assert(seen + here =~= seen.push(tracks.last()));
                lemma_hit_split(seen, here, time);
                reveal_with_fuel(hit, 2);
                assert(here.drop_first() =~= Seq::<TrackView>::empty());
            }
            if hit(seen, time) is Some {
                let k = choose|k: int|
                    0 <= k < before.len() && (#[trigger] before[k]).visible && before[k].id
                        == h.track_id;
                assert(tracks[k] == before[k]);
            } else {
                assert(tracks[tracks.len() - 1].visible);
            }
        }
    }
}

} // verus!
