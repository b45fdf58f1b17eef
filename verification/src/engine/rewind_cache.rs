//! Frames kept from forward playback, so that playback in reverse can start at once.

use std::collections::VecDeque;

use vstd::prelude::*;

use crate::ids::{ClipId, TimelineClipId};

verus! {

/// A kept frame: where it belongs, a number that stands for its picture, and how many
/// bytes that takes.
#[derive(Debug, Clone, Copy)]
pub struct RewindCacheEntry {
    pub timeline_pos: i64,
    pub source_pts: i64,
    pub clip_id: ClipId,
    pub timeline_clip_id: TimelineClipId,
    pub frame: u64,
    pub bytes: usize,
}

/// How much is kept.
#[derive(Debug, Clone, Copy)]
pub struct CacheLimits {
    pub max_frames: usize,
    pub max_bytes: usize,
}

/// So many frames are kept for going back.
pub const REWIND_CACHE_MAX_FRAMES: usize = 120;

/// So many bytes of frames are kept for going back.
pub const REWIND_CACHE_MAX_BYTES: usize = 536_870_912;

/// The kept frames, in the order in which they came.
#[derive(Debug)]
pub struct RewindCache {
    entries: VecDeque<RewindCacheEntry>,
    total_bytes: usize,
    limits: CacheLimits,
}

/// The bytes of some frames together.
pub open spec fn bytes_of(entries: Seq<RewindCacheEntry>) -> int
    decreases entries.len(),
{
    if entries.len() == 0 {
        0
    } else {
        bytes_of(entries.drop_last()) + entries.last().bytes
    }
}

proof fn lemma_bytes_drop_first(entries: Seq<RewindCacheEntry>)
    requires
        entries.len() > 0,
    ensures
        bytes_of(entries) == entries[0].bytes + bytes_of(entries.drop_first()),
    decreases entries.len(),
{
    if entries.len() == 1 {
        assert(entries.drop_last() =~= Seq::<RewindCacheEntry>::empty());
        assert(entries.drop_first() =~= Seq::<RewindCacheEntry>::empty());
    } else {
        lemma_bytes_drop_first(entries.drop_last());
        assert(entries.drop_last().drop_first() =~= entries.drop_first().drop_last());
    }
}

proof fn lemma_bytes_nonneg(entries: Seq<RewindCacheEntry>)
    ensures
        bytes_of(entries) >= 0,
    decreases entries.len(),
{
    if entries.len() > 0 {
        lemma_bytes_nonneg(entries.drop_last());
    }
}

/// The frames are within the limits.
pub open spec fn within(entries: Seq<RewindCacheEntry>, limits: CacheLimits) -> bool {
    entries.len() <= limits.max_frames && bytes_of(entries) <= limits.max_bytes
}

/// What is kept of `entries`: the newest, as many as are within the limits.
pub open spec fn newest_within(entries: Seq<RewindCacheEntry>, limits: CacheLimits) -> Seq<
    RewindCacheEntry,
>
    decreases entries.len(),
{
    if within(entries, limits) || entries.len() == 0 {
        entries
    } else {
        newest_within(entries.drop_first(), limits)
    }
}

/// A frame at most this far ahead of the playhead is shown.
pub const SHOW_SLACK: i64 = 1_000_000;

/// A frame more than this far ahead of the playhead is behind in reverse.
pub const TRIM_SLACK: i64 = 2_000_000;

/// What is left once the newest frames that lie ahead of the playhead are gone.
pub open spec fn trimmed(entries: Seq<RewindCacheEntry>, playhead: int) -> Seq<RewindCacheEntry>
    decreases entries.len(),
{
    if entries.len() > 0 && entries.last().timeline_pos > playhead + TRIM_SLACK {
        trimmed(entries.drop_last(), playhead)
    } else {
        entries
    }
}

/// The newest frame that does not lie ahead of the playhead.
pub open spec fn best_for(entries: Seq<RewindCacheEntry>, playhead: int) -> Option<
    RewindCacheEntry,
>
    decreases entries.len(),
{
    if entries.len() == 0 {
        None
    } else if entries.last().timeline_pos <= playhead + SHOW_SLACK {
        Some(entries.last())
    } else {
        best_for(entries.drop_last(), playhead)
    }
}

impl View for RewindCache {
    type V = Seq<RewindCacheEntry>;

    closed spec fn view(&self) -> Seq<RewindCacheEntry> {
        self.entries@
    }
}

impl RewindCache {
    /// How much is kept.
    pub closed spec fn limit(self) -> CacheLimits {
        self.limits
    }

    /// The count of bytes is right, and the limits hold.
    pub closed spec fn wf(self) -> bool {
        &&& self.total_bytes == bytes_of(self.entries@)
        &&& within(self.entries@, self.limits)
    }

    /// Nothing kept.
    pub fn new(limits: CacheLimits) -> (r: Self)
        ensures
            r@ == Seq::<RewindCacheEntry>::empty(),
            r.limit() == limits,
            r.wf(),
    {
        RewindCache { entries: VecDeque::new(), total_bytes: 0, limits }
    }

    /// Keeps a frame. The oldest leave until the limits hold again.
    pub fn push(&mut self, entry: RewindCacheEntry)
        requires
            old(self).wf(),
            entry.bytes + old(self).limit().max_bytes <= usize::MAX,
            old(self).limit().max_frames < usize::MAX,
        ensures
            final(self)@ == newest_within(old(self)@.push(entry), old(self).limit()),
            final(self).limit() == old(self).limit(),
            final(self).wf(),
    {
        self.entries.push_back(entry);
        assert(self.entries@.drop_last() =~= old(self).entries@);
        self.total_bytes = self.total_bytes + entry.bytes;
        let ghost all = self.entries@;
        while self.entries.len() > self.limits.max_frames || self.total_bytes
            > self.limits.max_bytes
            invariant
                self.limits == old(self).limits,
                self.total_bytes == bytes_of(self.entries@),
                newest_within(all, self.limits) == newest_within(self.entries@, self.limits),
            decreases self.entries@.len(),
        {
            let ghost before = self.entries@;
            proof {
                if before.len() == 0 {
                    assert(bytes_of(before) == 0);
                }
            }
            match self.entries.pop_front() {
                Some(evicted) => {
                    proof {
                        lemma_bytes_drop_first(before);
                        lemma_bytes_nonneg(before.drop_first());
                        assert(self.entries@ =~= before.drop_first());
                    }
                    self.total_bytes = self.total_bytes - evicted.bytes;
                },
                None => {},
            }
        }
    }

    /// Drops all frames.
    pub fn clear(&mut self)
        ensures
            final(self)@ == Seq::<RewindCacheEntry>::empty(),
            final(self).limit() == old(self).limit(),
            final(self).wf(),
    {
        self.entries.clear();
        self.total_bytes = 0;
    }

    /// Whether nothing is kept.
    pub fn is_empty(&self) -> (r: bool)
        ensures
            r == (self@.len() == 0),
    {
        self.entries.len() == 0
    }

    /// How many frames are kept.
    pub fn len(&self) -> (r: usize)
        ensures
            r == self@.len(),
    {
        self.entries.len()
    }

    /// The frame to show at the playhead: the newest that does not lie ahead of it.
    pub fn best_entry_for_playhead(&self, playhead: i64) -> (r: Option<RewindCacheEntry>)
        requires
            playhead + SHOW_SLACK <= i64::MAX,
        ensures
            r == best_for(self@, playhead as int),
    {
        let mut i: usize = self.entries.len();
        assert(self.entries@.take(i as int) =~= self.entries@);
        while i > 0
            invariant
                playhead + SHOW_SLACK <= i64::MAX,
                i <= self.entries@.len(),
                best_for(self.entries@, playhead as int) == best_for(
                    self.entries@.take(i as int),
                    playhead as int,
                ),
            decreases i,
        {
            i -= 1;
            let entry: RewindCacheEntry = self.entries[i];
            assert(self.entries@.take(i + 1).drop_last() =~= self.entries@.take(i as int));
            assert(self.entries@.take(i + 1).last() == entry);
            if entry.timeline_pos <= playhead + SHOW_SLACK {
                return Some(entry);
            }
        }
        None
    }

    /// Drops the newest frames that lie ahead of the playhead.
    pub fn trim_above(&mut self, playhead: i64)
        requires
            old(self).wf(),
            playhead + TRIM_SLACK <= i64::MAX,
        ensures
            final(self)@ == trimmed(old(self)@, playhead as int),
            final(self).limit() == old(self).limit(),
            final(self).wf(),
    {
        while self.entries.len() > 0
            invariant_except_break
                self.wf(),
                playhead + TRIM_SLACK <= i64::MAX,
                self.limits == old(self).limits,
                trimmed(old(self).entries@, playhead as int) == trimmed(
                    self.entries@,
                    playhead as int,
                ),
            ensures
                self.wf(),
                self.limits == old(self).limits,
                self.entries@ == trimmed(old(self).entries@, playhead as int),
            decreases self.entries@.len(),
        {
            let n: usize = self.entries.len();
            let back: RewindCacheEntry = self.entries[n - 1];
            if back.timeline_pos > playhead + TRIM_SLACK {
                let ghost before = self.entries@;
                let _ = self.entries.pop_back();
                proof {
                    assert(self.entries@ =~= before.drop_last());
                    lemma_bytes_nonneg(before.drop_last());
                }
                self.total_bytes = self.total_bytes - back.bytes;
            } else {
                break;
            }
        }
    }

    /// The clip that the newest frame belongs to.
    pub fn last_timeline_clip_id(&self) -> (r: Option<TimelineClipId>)
        ensures
            r == if self@.len() > 0 {
                Some(self@.last().timeline_clip_id)
            } else {
                None
            },
    {
        let n: usize = self.entries.len();
        if n > 0 {
            Some(self.entries[n - 1].timeline_clip_id)
        } else {
            None
        }
    }
}

/// What is kept are the newest frames, in their order, and no more than the limits
/// allow.
pub proof fn law_cache_keeps_newest(entries: Seq<RewindCacheEntry>, limits: CacheLimits)
    ensures
        newest_within(entries, limits).is_suffix_of(entries),
        within(newest_within(entries, limits), limits),
    decreases entries.len(),
{
    if within(entries, limits) || entries.len() == 0 {
        assert(entries.subrange(0, entries.len() as int) =~= entries);
    } else {
        let rest = entries.drop_first();
        law_cache_keeps_newest(rest, limits);
        let kept = newest_within(rest, limits);
        assert(entries.subrange(entries.len() - kept.len(), entries.len() as int)
            =~= rest.subrange(rest.len() - kept.len(), rest.len() as int));
    }
}

/// The frame that is shown does not lie ahead of the playhead.
pub proof fn law_best_not_ahead(entries: Seq<RewindCacheEntry>, playhead: int)
    ensures
        best_for(entries, playhead) matches Some(e) ==> e.timeline_pos <= playhead + SHOW_SLACK
            && entries.contains(e),
    decreases entries.len(),
{
    if entries.len() > 0 && entries.last().timeline_pos > playhead + SHOW_SLACK {
        law_best_not_ahead(entries.drop_last(), playhead);
        if let Some(e) = best_for(entries.drop_last(), playhead) {
            let i = choose|i: int|
                0 <= i < entries.drop_last().len() && entries.drop_last()[i] == e;
            assert(entries[i] == e);
        }
    } else if entries.len() > 0 {
        assert(entries[entries.len() - 1] == entries.last());
    }
}

} // verus!
