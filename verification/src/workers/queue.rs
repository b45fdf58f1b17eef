//! Media files that wait for a worker.

use std::collections::{HashSet, VecDeque};

use vstd::prelude::*;

use crate::ids::ClipId;
use crate::time::SECOND;

verus! {

broadcast use vstd::std_specs::hash::group_hash_axioms;

/// A preview holds so many pictures, spread over the file.
pub const PREVIEW_FRAME_COUNT: usize = 32;

/// So many threads share the queue of previews.
pub const PREVIEW_WORKERS: usize = 3;

/// Pictures for each second of a file that is scrubbed on the timeline.
pub const SCRUB_CACHE_FPS: u32 = 2;

/// No file has more pictures for scrubbing.
pub const SCRUB_CACHE_MAX_FRAMES: usize = 240;

/// A request to the workers that make previews.
#[derive(Debug, Clone, Copy, PartialEq, Eq, Structural)]
pub enum PreviewRequest {
    /// Make the preview of a file, before all others where it has priority.
    Enqueue { clip_id: ClipId, priority: bool },
}

/// A request to the workers that fill the scrub cache.
#[derive(Debug, Clone, Copy, PartialEq, Eq, Structural)]
pub enum ScrubCacheRequest {
    /// Extract the frames of a file.
    Extract { clip_id: ClipId },
    /// The frames of a file are wanted no longer.
    Invalidate { clip_id: ClipId },
}

/// The files that wait, and the numbers of their identifiers.
#[derive(Debug)]
pub struct WorkQueue {
    queue: VecDeque<ClipId>,
    queued: HashSet<u128>,
}

/// The files that wait once `id` has been asked for: a file does not wait twice.
pub open spec fn enqueued(q: Seq<ClipId>, id: ClipId, priority: bool) -> Seq<ClipId> {
    if q.contains(id) {
        q
    } else if priority {
        seq![id] + q
    } else {
        q.push(id)
    }
}

/// The files that wait once `id` is wanted no longer.
pub open spec fn without(q: Seq<ClipId>, id: ClipId) -> Seq<ClipId>
    decreases q.len(),
{
    if q.len() == 0 {
        q
    } else if q.last() == id {
        without(q.drop_last(), id)
    } else {
        without(q.drop_last(), id).push(q.last())
    }
}

/// What a preview request makes of the files that wait.
pub open spec fn preview_asked(q: Seq<ClipId>, req: PreviewRequest) -> Seq<ClipId> {
    match req {
        PreviewRequest::Enqueue { clip_id, priority } => enqueued(q, clip_id, priority),
    }
}

/// What a scrub request makes of the files that wait.
pub open spec fn scrub_asked(q: Seq<ClipId>, req: ScrubCacheRequest) -> Seq<ClipId> {
    match req {
        ScrubCacheRequest::Extract { clip_id } => enqueued(q, clip_id, false),
        ScrubCacheRequest::Invalidate { clip_id } => without(q, clip_id),
    }
}

impl View for WorkQueue {
    type V = Seq<ClipId>;

    closed spec fn view(&self) -> Seq<ClipId> {
        self.queue@
    }
}

/// No file is listed twice.
pub open spec fn each_once(q: Seq<ClipId>) -> bool {
    forall|i: int, j: int| 0 <= i < j < q.len() ==> #[trigger] q[i] != #[trigger] q[j]
}

proof fn lemma_without(q: Seq<ClipId>, id: ClipId)
    ensures
        forall|c: ClipId| #[trigger]
            without(q, id).contains(c) <==> q.contains(c) && c != id,
        each_once(q) ==> each_once(without(q, id)),
    decreases q.len(),
{
    if q.len() > 0 {
        let init = q.drop_last();
        lemma_without(init, id);
        let rest = without(init, id);
        let all = without(q, id);
        assert forall|c: ClipId| #[trigger] all.contains(c) <==> q.contains(c) && c != id by {
            assert(q.contains(c) <==> init.contains(c) || c == q.last()) by {
                if q.contains(c) {
                    let i = choose|i: int| 0 <= i < q.len() && q[i] == c;
                    if i < init.len() {
                        assert(init[i] == c);
                    }
                }
                if init.contains(c) {
                    let i = choose|i: int| 0 <= i < init.len() && init[i] == c;
                    assert(q[i] == c);
                }
                assert(q[q.len() - 1] == q.last());
            }
            if q.last() != id {
                assert(all.contains(c) <==> rest.contains(c) || c == q.last()) by {
                    if rest.contains(c) {
                        let i = choose|i: int| 0 <= i < rest.len() && rest[i] == c;
                        assert(all[i] == c);
                    }
                    if all.contains(c) {
                        let i = choose|i: int| 0 <= i < all.len() && all[i] == c;
                        if i < rest.len() {
                            assert(rest[i] == c);
                        }
                    }
                    assert(all[all.len() - 1] == q.last());
                }
            }
        }
        if each_once(q) {
            assert forall|i: int, j: int| 0 <= i < j < init.len() implies #[trigger] init[i]
                != #[trigger] init[j] by {
                assert(q[i] != q[j]);
            }
            if q.last() != id {
                assert forall|i: int, j: int| 0 <= i < j < all.len() implies #[trigger] all[i]
                    != #[trigger] all[j] by {
                    if j < rest.len() {
                        assert(rest[i] != rest[j]);
                    } else {
                        assert(rest.contains(rest[i]));
                        assert(init.contains(rest[i]));
                        let k = choose|k: int| 0 <= k < init.len() && init[k] == rest[i];
                        assert(q[k] != q[q.len() - 1]);
                    }
                }
            }
        }
    }
}

impl WorkQueue {
    /// Each file waits once, and the set of numbers tells which do.
    pub closed spec fn wf(self) -> bool {
        &&& each_once(self.queue@)
        &&& forall|c: ClipId| #[trigger] self.queue@.contains(c) <==> self.queued@.contains(c.0)
    }

    /// Nothing waits.
    pub fn new() -> (r: Self)
        ensures
            r@ == Seq::<ClipId>::empty(),
            r.wf(),
    {
        WorkQueue { queue: VecDeque::new(), queued: HashSet::new() }
    }

    fn enqueue(&mut self, id: ClipId, priority: bool)
        requires
            old(self).wf(),
        ensures
            final(self)@ == enqueued(old(self)@, id, priority),
            final(self).wf(),
    {
        let ghost before = self.queue@;
        if self.queued.contains(&id.0) {
            assert(before.contains(id));
            return;
        }
        assert(!before.contains(id));
        self.queued.insert(id.0);
        if priority {
            self.queue.push_front(id);
            assert(self.queue@ =~= seq![id] + before);
        } else {
            self.queue.push_back(id);
        }
        proof {
            let after = self.queue@;
            assert forall|c: ClipId| #[trigger] after.contains(c) <==> self.queued@.contains(
                c.0,
            ) by {
                assert(after.contains(c) <==> before.contains(c) || c == id) by {
                    let shift = if priority {
                        1int
                    } else {
                        0int
                    };
                    if before.contains(c) {
                        let i = choose|i: int| 0 <= i < before.len() && before[i] == c;
                        assert(after[i + shift] == c);
                    }
                    if after.contains(c) && c != id {
                        let i = choose|i: int| 0 <= i < after.len() && after[i] == c;
                        assert(before[i - shift] == c);
                    }
                    assert(after[if priority {
                        0
                    } else {
                        before.len() as int
                    }] == id);
                }
                assert(c.0 == id.0 ==> c == id);
            }
            assert forall|i: int, j: int| 0 <= i < j < after.len() implies #[trigger] after[i]
                != #[trigger] after[j] by {
                if priority {
                    if i == 0 {
                        assert(before.contains(before[j - 1]));
                    } else {
                        assert(before[i - 1] != before[j - 1]);
                    }
                } else if j == before.len() {
                    assert(before.contains(before[i]));
                } else {
                    assert(before[i] != before[j]);
                }
            }
        }
    }

    /// Takes in a preview request.
    pub fn apply_preview_req(&mut self, req: PreviewRequest)
        requires
            old(self).wf(),
        ensures
            final(self)@ == preview_asked(old(self)@, req),
            final(self).wf(),
    {
        match req {
            PreviewRequest::Enqueue { clip_id, priority } => {
                self.enqueue(clip_id, priority);
            },
        }
    }

    /// Takes in a scrub request.
    pub fn apply_scrub_req(&mut self, req: ScrubCacheRequest)
        requires
            old(self).wf(),
        ensures
            final(self)@ == scrub_asked(old(self)@, req),
            final(self).wf(),
    {
        match req {
            ScrubCacheRequest::Extract { clip_id } => {
                self.enqueue(clip_id, false);
            },
            ScrubCacheRequest::Invalidate { clip_id } => {
                let ghost before = self.queue@;
                let mut kept: VecDeque<ClipId> = VecDeque::new();
                let mut i: usize = 0;
                while i < self.queue.len()
                    invariant
                        i <= self.queue@.len(),
                        self.queue@ == before,
                        self.queued@ == old(self).queued@,
                        kept@ == without(before.take(i as int), clip_id),
                    decreases self.queue@.len() - i,
                {
                    let id: ClipId = self.queue[i];
                    assert(before.take(i + 1).drop_last() =~= before.take(i as int));
                    assert(before.take(i + 1).last() == id);
                    if !(id == clip_id) {
                        kept.push_back(id);
                    }
                    i += 1;
                }
                assert(before.take(i as int) =~= before);
                self.queue = kept;
                self.queued.remove(&clip_id.0);
                proof {
                    lemma_without(before, clip_id);
                    assert forall|c: ClipId| #[trigger]
                        self.queue@.contains(c) <==> self.queued@.contains(c.0) by {
                        assert(c.0 == clip_id.0 ==> c == clip_id);
                    }
                }
            },
        }
    }

    /// Hands out the file that has waited to the front.
    pub fn next(&mut self) -> (r: Option<ClipId>)
        requires
            old(self).wf(),
        ensures
            r == if old(self)@.len() > 0 {
                Some(old(self)@[0])
            } else {
                None
            },
            final(self)@ == if old(self)@.len() > 0 {
                old(self)@.drop_first()
            } else {
                old(self)@
            },
            final(self).wf(),
    {
        let ghost before = self.queue@;
        match self.queue.pop_front() {
            Some(id) => {
                self.queued.remove(&id.0);
                proof {
                    let after = self.queue@;
                    assert(after =~= before.drop_first());
                    assert forall|c: ClipId| #[trigger]
                        after.contains(c) <==> self.queued@.contains(c.0) by {
                        if after.contains(c) {
                            let i = choose|i: int| 0 <= i < after.len() && after[i] == c;
                            assert(before[i + 1] == c);
                            assert(before.contains(c));
                            assert(before[0] != before[i + 1]);
                        }
                        if self.queued@.contains(c.0) {
                            assert(before.contains(c));
                            let i = choose|i: int| 0 <= i < before.len() && before[i] == c;
                            assert(after[i - 1] == c);
                        }
                    }
                    assert forall|i: int, j: int| 0 <= i < j < after.len() implies
                        #[trigger] after[i] != #[trigger] after[j] by {
                        assert(before[i + 1] != before[j + 1]);
                    }
                }
                Some(id)
            },
            None => {
                assert(before.len() == 0);
                None
            },
        }
    }
}

/// A file waits at most once, whatever is asked for.
pub proof fn law_waits_once(q: Seq<ClipId>, p: PreviewRequest, s: ScrubCacheRequest)
    requires
        each_once(q),
    ensures
        each_once(preview_asked(q, p)),
        each_once(scrub_asked(q, s)),
{
    let PreviewRequest::Enqueue { clip_id, priority } = p;
    lemma_enqueued_once(q, clip_id, priority);
    match s {
        ScrubCacheRequest::Extract { clip_id } => {
            lemma_enqueued_once(q, clip_id, false);
        },
        ScrubCacheRequest::Invalidate { clip_id } => {
            lemma_without(q, clip_id);
        },
    }
}

proof fn lemma_enqueued_once(q: Seq<ClipId>, id: ClipId, priority: bool)
    requires
        each_once(q),
    ensures
        each_once(enqueued(q, id, priority)),
{
    let after = enqueued(q, id, priority);
    if !q.contains(id) {
        assert forall|i: int, j: int| 0 <= i < j < after.len() implies #[trigger] after[i]
            != #[trigger] after[j] by {
            if priority {
                if i == 0 {
                    assert(q.contains(q[j - 1]));
                } else {
                    assert(q[i - 1] != q[j - 1]);
                }
            } else if j == q.len() {
                assert(q.contains(q[i]));
            } else {
                assert(q[i] != q[j]);
            }
        }
    }
}

/// A file that was asked for and is then wanted no longer does not wait.
pub proof fn law_invalidated_is_gone(q: Seq<ClipId>, id: ClipId)
    ensures
        !scrub_asked(q, ScrubCacheRequest::Invalidate { clip_id: id }).contains(id),
{
    lemma_without(q, id);
}

/// A file with priority is the next to be handed out, unless it waits already.
pub proof fn law_priority_is_next(q: Seq<ClipId>, id: ClipId)
    requires
        !q.contains(id),
    ensures
        preview_asked(q, PreviewRequest::Enqueue { clip_id: id, priority: true })[0] == id,
{
}

/// How many frames of a file are kept for scrubbing, at so many per second and no more
/// than `max`.
pub open spec fn scrub_frames(duration: int, fps: int, max: int) -> int {
    let n = (duration * fps + SECOND - 1) / (SECOND as int);
    if n < 1 {
        1
    } else if n > max {
        max
    } else {
        n
    }
}

/// How many frames of a file are kept for scrubbing; none where its duration is not
/// known.
pub fn scrub_frame_count(duration: Option<i64>, fps: u32, max: usize) -> (r: Option<usize>)
    requires
        max >= 1,
    ensures
        r == match duration {
            Some(d) => if d > 0 {
                Some(scrub_frames(d as int, fps as int, max as int) as usize)
            } else {
                None
            },
            None => None,
        },
{
    match duration {
        Some(d) => {
            if d <= 0 {
                return None;
            }
            proof {
                assert(0 <= d * fps <= 0x7fff_ffff_ffff_ffff * 0xffff_ffff) by (nonlinear_arith)
                    requires
                        0 < d <= 0x7fff_ffff_ffff_ffff,
                        0 <= fps <= 0xffff_ffff,
                ;
            }
            let n: u128 = (d as u128 * fps as u128 + 999_999_999) / 1_000_000_000;
            if n < 1 {
                Some(1)
            } else if n > max as u128 {
                Some(max)
            } else {
                Some(n as usize)
            }
        },
        None => None,
    }
}

/// What is asked for waits; what waited before waits still, in its order, and nothing else
/// comes to wait. Without priority it waits last.
pub proof fn law_asked_for_waits(q: Seq<ClipId>, id: ClipId, priority: bool)
    ensures
        ({
            let after = preview_asked(q, PreviewRequest::Enqueue { clip_id: id, priority });
            let extracted = scrub_asked(q, ScrubCacheRequest::Extract { clip_id: id });
            &&& after.contains(id)
            &&& extracted.contains(id)
            &&& q.contains(id) ==> after == q && extracted == q
            &&& !q.contains(id) && !priority ==> after.len() == q.len() + 1 && after.last() == id
                && after.drop_last() == q
            &&& !q.contains(id) && priority ==> after.len() == q.len() + 1 && after.first() == id
                && after.drop_first() == q
            &&& !q.contains(id) ==> extracted.last() == id && extracted.drop_last() == q
        }),
{
    let after = preview_asked(q, PreviewRequest::Enqueue { clip_id: id, priority });
    let extracted = scrub_asked(q, ScrubCacheRequest::Extract { clip_id: id });
    if !q.contains(id) {
        assert(extracted[q.len() as int] == id);
        assert(extracted.drop_last() =~= q);
        if priority {
            assert(after[0] == id);
            assert(after.drop_first() =~= q);
        } else {
            assert(after[q.len() as int] == id);
            assert(after.drop_last() =~= q);
        }
    }
}

/// What is wanted no longer leaves the queue, and all else waits on in its order.
pub proof fn law_others_wait_on(q: Seq<ClipId>, id: ClipId)
    ensures
        scrub_asked(q, ScrubCacheRequest::Invalidate { clip_id: id }) == q.filter(
            |x: ClipId| x != id,
        ),
    decreases q.len(),
{
    reveal(Seq::filter);
    if q.len() > 0 {
        law_others_wait_on(q.drop_last(), id);
    }
}

/// Two frames of every second are kept of a file for scrubbing, counting a second begun
/// as a whole, but at least one and no more than the most.
pub proof fn law_frames_for_scrubbing(duration: int, fps: int, max: int)
    requires
        0 <= duration,
        0 < fps,
        1 <= max,
    ensures
        ({
            let n = scrub_frames(duration, fps, max);
            &&& 1 <= n <= max
            &&& n > 1 ==> (n - 1) * 1_000_000_000 < duration * fps
            &&& n < max ==> duration * fps <= n * 1_000_000_000
        }),
{
}

} // verus!
