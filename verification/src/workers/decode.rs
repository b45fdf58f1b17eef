//! The worker that decodes single pictures on demand.

use vstd::prelude::*;

use crate::engine::frames::{bucket_of, bucket, VIDEO_DECODE_BUCKET_RATE};
use crate::engine::slots::Request;
use crate::ids::ClipId;
use crate::time::in_time;

verus! {

/// How many pictures are kept.
pub const FRAME_CACHE_CAPACITY: usize = 64;

/// How many decoders are kept open.
pub const DECODER_LRU_CAPACITY: usize = 4;

/// A picture less than this far ahead is decoded without a seek.
pub const SEQUENTIAL_SPAN: i64 = 200_000_000;

/// The size of pictures for playback.
pub const PLAYBACK_DECODE_WIDTH: u32 = 1920;

/// The size of pictures for playback.
pub const PLAYBACK_DECODE_HEIGHT: u32 = 1080;

/// A request for a picture: the file, a number that stands for its path, and the moment.
#[derive(Debug, Clone, Copy, PartialEq, Eq, Structural)]
pub struct VideoDecodeRequest {
    pub clip_id: ClipId,
    pub path: u64,
    pub time: i64,
}

/// A kept picture: what it was decoded for, and a number that stands for it.
#[derive(Debug, Clone, Copy, PartialEq, Eq, Structural)]
pub struct KeptPicture {
    pub key: Request,
    pub picture: u64,
}

/// What the worker does next.
#[derive(Debug, Clone, Copy, PartialEq, Eq, Structural)]
pub enum DecodeStep {
    /// Open a decoder for the path.
    Open,
    /// Nothing: the picture was handed out last.
    Skip,
    /// Hand out a kept picture.
    Emit(u64),
    /// Decode the next frame.
    DecodeNext,
    /// Seek to the moment and decode.
    Seek,
}

/// The worker: the open decoders, the one used last first; the kept pictures, the one
/// handed out last at the end; and what was handed out last.
#[derive(Debug)]
pub struct DecodeWorker {
    decoders: Vec<u64>,
    pictures: Vec<KeptPicture>,
    last_emitted: Option<Request>,
}

/// The place of a decoder.
pub open spec fn decoder_at(decoders: Seq<u64>, path: u64) -> Option<int> {
    if decoders.contains(path) {
        Some(choose|i: int| 0 <= i < decoders.len() && decoders[i] == path)
    } else {
        None
    }
}

/// A decoder has been used: it comes first.
pub open spec fn used(decoders: Seq<u64>, i: int) -> Seq<u64> {
    seq![decoders[i]] + decoders.remove(i)
}

/// A decoder has been opened: it comes first, and where there are too many the one that
/// was not used for longest goes.
pub open spec fn opened(decoders: Seq<u64>, path: u64) -> Seq<u64> {
    if decoders.len() >= DECODER_LRU_CAPACITY {
        seq![path] + decoders.drop_last()
    } else {
        seq![path] + decoders
    }
}

/// Where the picture that is kept for a moment stands.
pub open spec fn place_for(pictures: Seq<KeptPicture>, key: Request) -> Option<int>
    decreases pictures.len(),
{
    if pictures.len() == 0 {
        None
    } else if pictures.last().key == key {
        Some(pictures.len() - 1)
    } else {
        place_for(pictures.drop_last(), key)
    }
}

/// The picture that is kept for a moment.
pub open spec fn kept_for(pictures: Seq<KeptPicture>, key: Request) -> Option<u64> {
    match place_for(pictures, key) {
        Some(i) => Some(pictures[i].picture),
        None => None,
    }
}

/// A picture has been handed out again: it comes last.
pub open spec fn touched(pictures: Seq<KeptPicture>, key: Request) -> Seq<KeptPicture> {
    match place_for(pictures, key) {
        Some(i) => pictures.remove(i).push(pictures[i]),
        None => pictures,
    }
}

/// A picture is kept; where there are too many the one goes that was not handed out for
/// longest.
pub open spec fn kept(pictures: Seq<KeptPicture>, p: KeptPicture) -> Seq<KeptPicture> {
    if pictures.len() >= FRAME_CACHE_CAPACITY {
        pictures.drop_first().push(p)
    } else {
        pictures.push(p)
    }
}

/// No two pictures are kept for the same moment.
pub open spec fn keys_differ(pictures: Seq<KeptPicture>) -> bool {
    forall|i: int, j: int|
        0 <= i < j < pictures.len() ==> (#[trigger] pictures[i]).key != (#[trigger] pictures[j]).key
}

proof fn lemma_touched_keys(pictures: Seq<KeptPicture>, key: Request)
    requires
        keys_differ(pictures),
    ensures
        keys_differ(touched(pictures, key)),
{
    lemma_place(pictures, key);
    if let Some(k) = place_for(pictures, key) {
        let after = touched(pictures, key);
        assert forall|i: int, j: int| 0 <= i < j < after.len() implies (#[trigger] after[i]).key
            != (#[trigger] after[j]).key by {
            let x = if i < k {
                i
            } else {
                i + 1
            };
            let y = if j == after.len() - 1 {
                k
            } else if j < k {
                j
            } else {
                j + 1
            };
            assert(after[i] == pictures[x] && after[j] == pictures[y]);
            if x < y {
                assert(pictures[x].key != pictures[y].key);
            } else {
                assert(pictures[y].key != pictures[x].key);
            }
        }
    }
}

proof fn lemma_absent(pictures: Seq<KeptPicture>, key: Request, i: int)
    requires
        place_for(pictures, key) is None,
        0 <= i < pictures.len(),
    ensures
        pictures[i].key != key,
    decreases pictures.len(),
{
    if i < pictures.len() - 1 {
        lemma_absent(pictures.drop_last(), key, i);
    }
}

proof fn lemma_place(pictures: Seq<KeptPicture>, key: Request)
    ensures
        place_for(pictures, key) matches Some(i) ==> 0 <= i < pictures.len() && pictures[i].key
            == key,
    decreases pictures.len(),
{
    if pictures.len() > 0 && pictures.last().key != key {
        lemma_place(pictures.drop_last(), key);
    }
}

impl VideoDecodeRequest {
    /// What the request asks for, up to moments that show the same frame.
    pub open spec fn key(self) -> Request {
        Request {
            clip: self.clip_id,
            bucket: bucket_of(self.time as int, VIDEO_DECODE_BUCKET_RATE as int) as i64,
        }
    }
}

/// The picture follows closely on the one that was decoded last.
pub open spec fn follows(last: Option<i64>, time: int) -> bool {
    last matches Some(t) && 0 < time - t < SEQUENTIAL_SPAN
}

impl DecodeWorker {
    /// The open decoders, the one used last first.
    pub closed spec fn open_decoders(self) -> Seq<u64> {
        self.decoders@
    }

    /// The kept pictures, the one handed out last at the end.
    pub closed spec fn kept_pictures(self) -> Seq<KeptPicture> {
        self.pictures@
    }

    /// What was handed out last.
    pub closed spec fn emitted(self) -> Option<Request> {
        self.last_emitted
    }

    /// Decoders and pictures are within their limits, each decoder is open once, and at
    /// most one picture is kept for each moment.
    pub open spec fn wf(self) -> bool {
        &&& self.open_decoders().len() <= DECODER_LRU_CAPACITY
        &&& self.kept_pictures().len() <= FRAME_CACHE_CAPACITY
        &&& self.open_decoders().no_duplicates()
        &&& keys_differ(self.kept_pictures())
    }

    /// Nothing open and nothing kept.
    pub fn new() -> (r: Self)
        ensures
            r.open_decoders() == Seq::<u64>::empty(),
            r.kept_pictures() == Seq::<KeptPicture>::empty(),
            r.emitted() is None,
            r.wf(),
    {
        DecodeWorker { decoders: Vec::new(), pictures: Vec::new(), last_emitted: None }
    }

    /// What is done for a request once its decoder is open.
    pub open spec fn step(self, req: VideoDecodeRequest, last_decode: Option<i64>) -> DecodeStep {
        if self.emitted() == Some(req.key()) {
            DecodeStep::Skip
        } else {
            match kept_for(self.kept_pictures(), req.key()) {
                Some(p) => DecodeStep::Emit(p),
                None => if follows(last_decode, req.time as int) {
                    DecodeStep::DecodeNext
                } else {
                    DecodeStep::Seek
                },
            }
        }
    }

    /// What is handed out last once the step is done.
    pub open spec fn emitted_after(
        self,
        req: VideoDecodeRequest,
        last_decode: Option<i64>,
    ) -> Option<Request> {
        if self.step(req, last_decode) is Emit {
            Some(req.key())
        } else {
            self.emitted()
        }
    }

    /// The kept pictures once the step is done: one that is handed out comes last.
    pub open spec fn kept_after(
        self,
        req: VideoDecodeRequest,
        last_decode: Option<i64>,
    ) -> Seq<KeptPicture> {
        if self.step(req, last_decode) is Emit {
            touched(self.kept_pictures(), req.key())
        } else {
            self.kept_pictures()
        }
    }

    fn lookup(&self, key: Request) -> (r: Option<usize>)
        ensures
            match r {
                Some(i) => place_for(self.kept_pictures(), key) == Some(i as int) && i
                    < self.kept_pictures().len(),
                None => place_for(self.kept_pictures(), key) is None,
            },
    {
        let mut i: usize = self.pictures.len();
        assert(self.pictures@.take(i as int) =~= self.pictures@);
        while i > 0
            invariant
                i <= self.pictures@.len(),
                place_for(self.pictures@, key) == place_for(self.pictures@.take(i as int), key),
            decreases i,
        {
            i -= 1;
            let p: KeptPicture = self.pictures[i];
            assert(self.pictures@.take(i + 1).drop_last() =~= self.pictures@.take(i as int));
            assert(self.pictures@.take(i + 1).last() == p);
            if p.key == key {
                return Some(i);
            }
        }
        None
    }

    fn decide(&mut self, req: VideoDecodeRequest, last_decode: Option<i64>) -> (r: DecodeStep)
        requires
            in_time(req.time as int),
            last_decode matches Some(t) ==> in_time(t as int),
            keys_differ(old(self).kept_pictures()),
        ensures
            r == old(self).step(req, last_decode),
            keys_differ(final(self).kept_pictures()),
            final(self).emitted() == old(self).emitted_after(req, last_decode),
            final(self).open_decoders() == old(self).open_decoders(),
            final(self).kept_pictures() == old(self).kept_after(req, last_decode),
            final(self).kept_pictures().len() == old(self).kept_pictures().len(),
    {
        let key = Request {
            clip: req.clip_id,
            bucket: bucket(req.time, VIDEO_DECODE_BUCKET_RATE),
        };
        if self.last_emitted == Some(key) {
            return DecodeStep::Skip;
        }
        proof {
            lemma_touched_keys(self.kept_pictures(), key);
        }
        if let Some(i) = self.lookup(key) {
            let p: KeptPicture = self.pictures.remove(i);
            self.pictures.push(p);
            self.last_emitted = Some(key);
            return DecodeStep::Emit(p.picture);
        }
        let sequential = match last_decode {
            Some(last) => {
                let diff: i64 = req.time - last;
                diff > 0 && diff < SEQUENTIAL_SPAN
            },
            None => false,
        };
        if sequential {
            DecodeStep::DecodeNext
        } else {
            DecodeStep::Seek
        }
    }

    /// Takes a request up. Where a decoder is open for its path, that comes first and
    /// the request goes on; `last_decode` is the moment that it decoded last.
    pub fn begin(&mut self, req: VideoDecodeRequest, last_decode: Option<i64>) -> (r: DecodeStep)
        requires
            old(self).wf(),
            in_time(req.time as int),
            last_decode matches Some(t) ==> in_time(t as int),
        ensures
            final(self).wf(),
            match decoder_at(old(self).open_decoders(), req.path) {
                None => r == DecodeStep::Open && final(self).open_decoders()
                    == old(self).open_decoders() && final(self).kept_pictures()
                    == old(self).kept_pictures() && final(self).emitted() == old(self).emitted(),
                Some(i) => r == old(self).step(req, last_decode) && final(self).open_decoders()
                    == used(old(self).open_decoders(), i) && final(self).kept_pictures()
                    == old(self).kept_after(req, last_decode) && final(self).emitted()
                    == old(self).emitted_after(req, last_decode),
            },
    {
        let ghost before = self.decoders@;
        let mut i: usize = 0;
        while i < self.decoders.len()
            invariant
                i <= self.decoders@.len(),
                *self == *old(self),
                self.decoders@ == before,
                self.wf(),
                in_time(req.time as int),
                last_decode matches Some(t) ==> in_time(t as int),
                forall|j: int| 0 <= j < i ==> before[j] != req.path,
            decreases self.decoders@.len() - i,
        {
            if self.decoders[i] == req.path {
                proof {
                    assert(before.contains(req.path));
                    let c = choose|c: int| 0 <= c < before.len() && before[c] == req.path;
                    assert(c == i);
                }
                if i != 0 {
                    let d: u64 = self.decoders.remove(i);
                    self.decoders.insert(0, d);
                }
                assert(self.decoders@ =~= used(before, i as int));
                proof {
                    let after = self.decoders@;
                    assert forall|a: int, b: int|
                        0 <= a < after.len() && 0 <= b < after.len() && a != b implies after[a]
                        != after[b] by {
                        let x = if a == 0 {
                            i as int
                        } else if a <= i {
                            a - 1
                        } else {
                            a
                        };
                        let y = if b == 0 {
                            i as int
                        } else if b <= i {
                            b - 1
                        } else {
                            b
                        };
                        assert(after[a] == before[x] && after[b] == before[y]);
                    }
                }
                return self.decide(req, last_decode);
            }
            i += 1;
        }
        assert(!before.contains(req.path));
        DecodeStep::Open
    }

    /// A decoder for the path of the request has been opened, or could not be. Says what
    /// is done next, and which decoder is to be closed.
    pub fn opened(&mut self, req: VideoDecodeRequest, ok: bool) -> (r: (DecodeStep, Option<u64>))
        requires
            old(self).wf(),
            in_time(req.time as int),
            !old(self).open_decoders().contains(req.path),
        ensures
            final(self).wf(),
            !ok ==> r == (DecodeStep::Skip, None::<u64>) && final(self).open_decoders()
                == old(self).open_decoders() && final(self).kept_pictures()
                == old(self).kept_pictures() && final(self).emitted() == old(self).emitted(),
            ok ==> r.0 == old(self).step(req, None) && final(self).open_decoders() == opened(
                old(self).open_decoders(),
                req.path,
            ) && final(self).kept_pictures() == old(self).kept_after(req, None)
                && final(self).emitted() == old(self).emitted_after(req, None),
            ok ==> r.1 == if old(self).open_decoders().len() >= DECODER_LRU_CAPACITY {
                Some(old(self).open_decoders().last())
            } else {
                None
            },
    {
        if !ok {
            return (DecodeStep::Skip, None);
        }
        let ghost before = self.decoders@;
        let mut closed: Option<u64> = None;
        if self.decoders.len() >= DECODER_LRU_CAPACITY {
            closed = self.decoders.pop();
        }
        self.decoders.insert(0, req.path);
        assert(self.decoders@ =~= opened(before, req.path));
        proof {
            let after = self.decoders@;
            assert forall|a: int, b: int|
                0 <= a < after.len() && 0 <= b < after.len() && a != b implies after[a]
                != after[b] by {
                if a == 0 {
                    assert(after[b] == before[b - 1]);
                    assert(before.contains(before[b - 1]));
                } else if b == 0 {
                    assert(after[a] == before[a - 1]);
                    assert(before.contains(before[a - 1]));
                } else {
                    assert(after[a] == before[a - 1] && after[b] == before[b - 1]);
                }
            }
        }
        (self.decide(req, None), closed)
    }

    /// Whether a picture is still kept.
    pub fn keeps(&self, picture: u64) -> (r: bool)
        ensures
            r == exists|i: int|
                0 <= i < self.kept_pictures().len() && (#[trigger] self.kept_pictures()[i]).picture
                    == picture,
    {
        let mut i: usize = 0;
        while i < self.pictures.len()
            invariant
                i <= self.pictures@.len(),
                forall|j: int| 0 <= j < i ==> (#[trigger] self.pictures@[j]).picture != picture,
            decreases self.pictures@.len() - i,
        {
            if self.pictures[i].picture == picture {
                assert(self.kept_pictures()[i as int].picture == picture);
                return true;
            }
            i += 1;
        }
        false
    }

    /// A picture has been decoded for the request, or could not be. Says what is handed
    /// out.
    pub fn decoded(&mut self, req: VideoDecodeRequest, picture: Option<u64>) -> (r: Option<u64>)
        requires
            old(self).wf(),
            in_time(req.time as int),
            kept_for(old(self).kept_pictures(), req.key()) is None,
        ensures
            final(self).wf(),
            r == picture,
            final(self).open_decoders() == old(self).open_decoders(),
            final(self).kept_pictures() == match picture {
                Some(p) => kept(
                    old(self).kept_pictures(),
                    (KeptPicture { key: req.key(), picture: p }),
                ),
                None => old(self).kept_pictures(),
            },
            final(self).emitted() == if picture is Some {
                Some(req.key())
            } else {
                old(self).emitted()
            },
    {
        if let Some(p) = picture {
            let key = Request {
                clip: req.clip_id,
                bucket: bucket(req.time, VIDEO_DECODE_BUCKET_RATE),
            };
            let ghost before = self.pictures@;
            if self.pictures.len() >= FRAME_CACHE_CAPACITY {
                let _ = self.pictures.remove(0);
                assert(self.pictures@ =~= before.drop_first());
            }
            self.pictures.push(KeptPicture { key, picture: p });
            self.last_emitted = Some(key);
            proof {
                assert forall|i: int| 0 <= i < before.len() implies (#[trigger] before[i]).key
                    != key by {
                    lemma_absent(before, key, i);
                }
            }
        }
        picture
    }
}

/// A picture that was just decoded is kept, and asked for again it is not decoded again.
pub proof fn law_decoded_is_kept(pictures: Seq<KeptPicture>, p: KeptPicture)
    ensures
        kept_for(kept(pictures, p), p.key) == Some(p.picture),
{
}

/// A picture that was just handed out again is still kept after others have been decoded,
/// as many as the cache holds but one.
pub proof fn law_handed_out_stays(
    pictures: Seq<KeptPicture>,
    key: Request,
    more: Seq<KeptPicture>,
)
    requires
        pictures.len() <= FRAME_CACHE_CAPACITY,
        place_for(pictures, key) is Some,
        more.len() < FRAME_CACHE_CAPACITY,
        forall|i: int| 0 <= i < more.len() ==> (#[trigger] more[i]).key != key,
    ensures
        kept_for(all_kept(touched(pictures, key), more), key) == kept_for(pictures, key),
{
    lemma_place(pictures, key);
    let t = touched(pictures, key);
    lemma_all_kept(t, more);
    let after = all_kept(t, more);
    let place = after.len() - 1 - more.len();
    assert(after[place] == t.last());
    assert forall|i: int| place < i < after.len() implies (#[trigger] after[i]).key != key by {
        assert(more[i - place - 1] == after[after.len() - more.len() + (i - place - 1)]);
    }
    lemma_last_place(after, key, place);
}

/// Some pictures, one after the other, are kept.
pub open spec fn all_kept(pictures: Seq<KeptPicture>, more: Seq<KeptPicture>) -> Seq<KeptPicture>
    decreases more.len(),
{
    if more.len() == 0 {
        pictures
    } else {
        kept(all_kept(pictures, more.drop_last()), more.last())
    }
}

proof fn lemma_all_kept(pictures: Seq<KeptPicture>, more: Seq<KeptPicture>)
    requires
        0 < pictures.len() <= FRAME_CACHE_CAPACITY,
        more.len() < FRAME_CACHE_CAPACITY,
    ensures
        ({
            let after = all_kept(pictures, more);
            &&& more.len() < after.len() <= FRAME_CACHE_CAPACITY
            &&& after[after.len() - 1 - more.len()] == pictures.last()
            &&& forall|i: int|
                0 <= i < more.len() ==> #[trigger] more[i] == after[after.len() - more.len() + i]
        }),
    decreases more.len(),
{
    if more.len() > 0 {
        let less = more.drop_last();
        lemma_all_kept(pictures, less);
        let before = all_kept(pictures, less);
        let after = all_kept(pictures, more);
        assert(after.last() == more.last());
        assert forall|i: int| 0 <= i < more.len() implies #[trigger] more[i] == after[after.len()
            - more.len() + i] by {
            if i < less.len() {
                assert(less[i] == more[i]);
                assert(less[i] == before[before.len() - less.len() + i]);
            }
        }
    }
}

proof fn lemma_last_place(pictures: Seq<KeptPicture>, key: Request, place: int)
    requires
        0 <= place < pictures.len(),
        pictures[place].key == key,
        forall|i: int| place < i < pictures.len() ==> (#[trigger] pictures[i]).key != key,
    ensures
        place_for(pictures, key) == Some(place),
    decreases pictures.len(),
{
    if place < pictures.len() - 1 {
        lemma_last_place(pictures.drop_last(), key, place);
    }
}

/// The decoder that was used last stays open when another is opened.
pub proof fn law_last_used_stays(decoders: Seq<u64>, path: u64)
    requires
        decoders.len() > 0,
    ensures
        opened(decoders, path).contains(decoders[0]),
        opened(decoders, path)[0] == path,
{
    assert(opened(decoders, path)[1] == decoders[0]);
}

proof fn lemma_place_or_none(pictures: Seq<KeptPicture>, key: Request)
    ensures
        match place_for(pictures, key) {
            Some(i) => 0 <= i < pictures.len() && pictures[i].key == key,
            None => forall|i: int| 0 <= i < pictures.len() ==> (#[trigger] pictures[i]).key != key,
        },
    decreases pictures.len(),
{
    if pictures.len() > 0 && pictures.last().key != key {
        let init = pictures.drop_last();
        lemma_place_or_none(init, key);
        assert forall|i: int| 0 <= i < pictures.len() && place_for(pictures, key) is None implies (
        #[trigger] pictures[i]).key != key by {
            if i < init.len() {
                assert(init[i] == pictures[i]);
            }
        }
    }
}

/// A picture that is handed out without decoding is one that was kept for that very file
/// and moment; where none was, the moment is decoded: by the next frame where it lies
/// within a fifth of a second behind the last, and by a seek elsewhere.
pub proof fn law_handed_out_was_kept_for_it(
    w: DecodeWorker,
    req: VideoDecodeRequest,
    last: Option<i64>,
)
    ensures
        match w.step(req, last) {
            DecodeStep::Emit(p) => exists|i: int|
                0 <= i < w.kept_pictures().len() && (#[trigger] w.kept_pictures()[i]).key
                    == req.key() && w.kept_pictures()[i].picture == p,
            DecodeStep::Skip => w.emitted() == Some(req.key()),
            DecodeStep::DecodeNext => (last matches Some(l) && l < req.time < l + 200_000_000) && (
            forall|i: int|
                0 <= i < w.kept_pictures().len() ==> (#[trigger] w.kept_pictures()[i]).key
                    != req.key()),
            DecodeStep::Seek => !(last matches Some(l) && l < req.time < l + 200_000_000) && (
            forall|i: int|
                0 <= i < w.kept_pictures().len() ==> (#[trigger] w.kept_pictures()[i]).key
                    != req.key()),
            DecodeStep::Open => false,
        },
        req.key().clip == req.clip_id,
{
    lemma_place_or_none(w.kept_pictures(), req.key());
}

/// A new picture takes the place of none but the one that was used longest ago, and of
/// that only where the cache is full.
pub proof fn law_only_the_oldest_makes_room(pictures: Seq<KeptPicture>, p: KeptPicture)
    requires
        pictures.len() <= 64,
    ensures
        kept(pictures, p).len() <= 64,
        kept(pictures, p).last() == p,
        pictures.len() < 64 ==> kept(pictures, p).drop_last() == pictures,
        pictures.len() == 64 ==> kept(pictures, p).drop_last() == pictures.drop_first(),
{
    if pictures.len() < 64 {
        assert(kept(pictures, p).drop_last() =~= pictures);
    } else {
        assert(kept(pictures, p).drop_last() =~= pictures.drop_first());
    }
}

/// No more than four decoders are open: a fifth closes the one that was used longest ago,
/// and no other; one that is used again comes first, and none is closed for that.
pub proof fn law_only_the_oldest_decoder_closes(decoders: Seq<u64>, path: u64, i: int)
    requires
        decoders.len() <= 4,
        0 <= i < decoders.len(),
    ensures
        opened(decoders, path).len() <= 4,
        opened(decoders, path)[0] == path,
        decoders.len() < 4 ==> opened(decoders, path).drop_first() == decoders,
        decoders.len() == 4 ==> opened(decoders, path).drop_first() == decoders.drop_last(),
        used(decoders, i)[0] == decoders[i],
        used(decoders, i).drop_first() == decoders.remove(i),
        used(decoders, i).len() == decoders.len(),
{
    if decoders.len() < 4 {
        assert(opened(decoders, path).drop_first() =~= decoders);
    } else {
        assert(opened(decoders, path).drop_first() =~= decoders.drop_last());
    }
    assert(used(decoders, i).drop_first() =~= decoders.remove(i));
}

/// A picture that is handed out is remembered: asked for again it is not handed out again,
/// and it stays kept.
pub proof fn law_handed_out_is_remembered(
    w: DecodeWorker,
    req: VideoDecodeRequest,
    last: Option<i64>,
)
    ensures
        w.step(req, last) is Emit ==> w.emitted_after(req, last) == Some(req.key()) && kept_for(
            w.kept_after(req, last),
            req.key(),
        ) == kept_for(w.kept_pictures(), req.key()) && w.kept_after(req, last).len()
            == w.kept_pictures().len(),
        !(w.step(req, last) is Emit) ==> w.emitted_after(req, last) == w.emitted() && w.kept_after(
            req,
            last,
        ) == w.kept_pictures(),
{
    lemma_place_or_none(w.kept_pictures(), req.key());
    if w.step(req, last) is Emit {
        let all = w.kept_pictures();
        let i = place_for(all, req.key())->0;
        let after = all.remove(i).push(all[i]);
        assert(after.last().key == req.key());
        assert(after.len() == all.len());
    }
}

} // verus!
