//! What becomes of the clips of a track when a range of it is taken over by
//! another clip.

use vstd::prelude::*;

use crate::ids::{is_random_id, TimelineClipId};
use crate::time::in_time;
use crate::timeline::clip::TimelineClip;

verus! {

/// The clip reaches into the range from `a` to `b`.
pub open spec fn meets(c: TimelineClip, a: int, b: int) -> bool {
    c.end_at() > a && c.timeline_start < b
}

/// The clip lies inside the range from `a` to `b`.
pub open spec fn inside(c: TimelineClip, a: int, b: int) -> bool {
    a <= c.timeline_start && c.end_at() <= b
}

/// The clip sticks out of the range on both sides.
pub open spec fn spans(c: TimelineClip, a: int, b: int) -> bool {
    c.timeline_start < a && b < c.end_at()
}

/// The part of the clip before `a`, with the source window cut to match.
pub open spec fn head(c: TimelineClip, a: int) -> TimelineClip {
    TimelineClip {
        duration: (a - c.timeline_start) as i64,
        source_out: (c.source_in + (a - c.timeline_start)) as i64,
        ..c
    }
}

/// The clip with its end moved back to `a`: as much leaves the end of the source
/// window as leaves the clip.
pub open spec fn cut_end(c: TimelineClip, a: int) -> TimelineClip {
    TimelineClip {
        duration: (a - c.timeline_start) as i64,
        source_out: (c.source_out - (c.end_at() - a)) as i64,
        ..c
    }
}

/// The part of the clip from `b` on.
pub open spec fn cut_start(c: TimelineClip, b: int) -> TimelineClip {
    TimelineClip {
        timeline_start: b as i64,
        duration: (c.end_at() - b) as i64,
        source_in: c.source_at(b) as i64,
        ..c
    }
}

/// What stays in the clip's place once the range from `a` to `b` is taken.
pub open spec fn kept(c: TimelineClip, a: int, b: int) -> Option<TimelineClip> {
    if !meets(c, a, b) {
        Some(c)
    } else if inside(c, a, b) {
        None
    } else if spans(c, a, b) {
        Some(head(c, a))
    } else if c.timeline_start < a {
        Some(cut_end(c, a))
    } else {
        Some(cut_start(c, b))
    }
}

/// The second piece of a clip that the range splits in two: unlinked, under an
/// identifier of its own (here still the clip's).
pub open spec fn split_off(c: TimelineClip, a: int, b: int) -> Option<TimelineClip> {
    if meets(c, a, b) && !inside(c, a, b) && spans(c, a, b) {
        Some(TimelineClip { linked_to: None, ..cut_start(c, b) })
    } else {
        None
    }
}

/// What stays of all clips, in their order.
pub open spec fn kept_all(clips: Seq<TimelineClip>, a: int, b: int) -> Seq<TimelineClip>
    decreases clips.len(),
{
    if clips.len() == 0 {
        Seq::empty()
    } else {
        match kept(clips.last(), a, b) {
            Some(c) => kept_all(clips.drop_last(), a, b).push(c),
            None => kept_all(clips.drop_last(), a, b),
        }
    }
}

/// The second pieces of all clips that are split, in their order.
pub open spec fn split_all(clips: Seq<TimelineClip>, a: int, b: int) -> Seq<TimelineClip>
    decreases clips.len(),
{
    if clips.len() == 0 {
        Seq::empty()
    } else {
        match split_off(clips.last(), a, b) {
            Some(c) => split_all(clips.drop_last(), a, b).push(c),
            None => split_all(clips.drop_last(), a, b),
        }
    }
}

/// `after` holds what stays of `before` once the range from `a` to `b` is taken:
/// the kept pieces in place, then the split-off pieces, each under a fresh
/// identifier.
pub open spec fn resolved(
    before: Seq<TimelineClip>,
    after: Seq<TimelineClip>,
    a: int,
    b: int,
) -> bool {
    let k = kept_all(before, a, b);
    let s = split_all(before, a, b);
    &&& after.len() == k.len() + s.len()
    &&& after.take(k.len() as int) == k
    &&& forall|j: int|
        0 <= j < s.len() ==> {
            let c = #[trigger] after[k.len() + j];
            c.same_but_id(s[j]) && is_random_id(c.id.0)
        }
}

/// Every clip lies within the time limits.
pub open spec fn all_fit(clips: Seq<TimelineClip>) -> bool {
    forall|i: int| 0 <= i < clips.len() ==> (#[trigger] clips[i]).fits()
}

/// Pieces of clips within the limits lie within the limits.
proof fn lemma_pieces_fit(c: TimelineClip, a: int, b: int)
    requires
        c.fits(),
        in_time(a),
        in_time(b),
    ensures
        kept(c, a, b) matches Some(k) ==> k.fits(),
        split_off(c, a, b) matches Some(s) ==> s.fits(),
{
}

/// No clip of `after` is longer than every clip of `before`, and those that were
/// cut are longer than nothing.
pub open spec fn no_longer(before: Seq<TimelineClip>, after: Seq<TimelineClip>) -> bool {
    forall|j: int|
        0 <= j < after.len() ==> exists|i: int|
            0 <= i < before.len() && shrunk(#[trigger] before[i], #[trigger] after[j])
}

/// `c` is `b`'s length, or shorter and not empty.
pub open spec fn shrunk(b: TimelineClip, c: TimelineClip) -> bool {
    c.duration == b.duration || 0 < c.duration < b.duration
}

proof fn lemma_kept_shorter(clips: Seq<TimelineClip>, a: int, b: int)
    requires
        all_fit(clips),
        in_time(a),
        in_time(b),
    ensures
        no_longer(clips, kept_all(clips, a, b)),
        no_longer(clips, split_all(clips, a, b)),
    decreases clips.len(),
{
    if clips.len() > 0 {
        let init = clips.drop_last();
        lemma_kept_shorter(init, a, b);
        let k = kept_all(clips, a, b);
        assert forall|j: int| 0 <= j < k.len() implies exists|i: int|
            0 <= i < clips.len() && shrunk(#[trigger] clips[i], #[trigger] k[j]) by {
            if j < kept_all(init, a, b).len() {
                let i = choose|i: int|
                    0 <= i < init.len() && shrunk(#[trigger] init[i], kept_all(init, a, b)[j]);
                assert(shrunk(clips[i], k[j]));
            } else {
                assert(shrunk(clips[clips.len() - 1], k[j]));
            }
        }
        let s = split_all(clips, a, b);
        assert forall|j: int| 0 <= j < s.len() implies exists|i: int|
            0 <= i < clips.len() && shrunk(#[trigger] clips[i], #[trigger] s[j]) by {
            if j < split_all(init, a, b).len() {
                let i = choose|i: int|
                    0 <= i < init.len() && shrunk(#[trigger] init[i], split_all(init, a, b)[j]);
                assert(shrunk(clips[i], s[j]));
            } else {
                assert(shrunk(clips[clips.len() - 1], s[j]));
            }
        }
    }
}

/// Taking a range never makes a clip longer.
pub proof fn lemma_resolved_shorter(
    before: Seq<TimelineClip>,
    after: Seq<TimelineClip>,
    a: int,
    b: int,
)
    requires
        all_fit(before),
        in_time(a),
        in_time(b),
        resolved(before, after, a, b),
    ensures
        no_longer(before, after),
{
    lemma_kept_shorter(before, a, b);
    let k = kept_all(before, a, b);
    let s = split_all(before, a, b);
    assert forall|j: int| 0 <= j < after.len() implies exists|i: int|
        0 <= i < before.len() && shrunk(#[trigger] before[i], #[trigger] after[j]) by {
        if j < k.len() {
            assert(after[j] == after.take(k.len() as int)[j]);
            let i = choose|i: int| 0 <= i < before.len() && shrunk(#[trigger] before[i], k[j]);
            assert(shrunk(before[i], after[j]));
        } else {
            let m = j - k.len();
            assert(after[k.len() + m].same_but_id(s[m]));
            let i = choose|i: int| 0 <= i < before.len() && shrunk(#[trigger] before[i], s[m]);
            assert(shrunk(before[i], after[j]));
        }
    }
}

/// Takes the range from `a` to `b` out of `clips`. Clips inside the range leave,
/// clips that reach into it are cut back, and a clip that sticks out on both
/// sides is split: its second piece goes to the end, unlinked and under a fresh
/// identifier.
pub fn take_range(clips: &mut Vec<TimelineClip>, a: i64, b: i64)
    requires
        all_fit(old(clips)@),
        in_time(a as int),
        in_time(b as int),
    ensures
        resolved(old(clips)@, final(clips)@, a as int, b as int),
        all_fit(final(clips)@),
{
    let ghost before = clips@;
    let mut i: usize = 0;
    let mut splits: Vec<TimelineClip> = Vec::new();
    let ghost mut done: int = 0;

    assert(before.take(0) =~= Seq::empty());
    assert(before.skip(0) =~= before);
    while i < clips.len()
        invariant
            all_fit(before),
            all_fit(clips@),
            all_fit(splits@),
            in_time(a as int),
            in_time(b as int),
            0 <= done <= before.len(),
            i == kept_all(before.take(done), a as int, b as int).len(),
            clips@ == kept_all(before.take(done), a as int, b as int) + before.skip(done),
            splits@.len() == split_all(before.take(done), a as int, b as int).len(),
            forall|j: int|
                0 <= j < splits@.len() ==> (#[trigger] splits@[j]).same_but_id(
                    split_all(before.take(done), a as int, b as int)[j],
                ) && is_random_id(splits@[j].id.0),
        decreases before.len() - done,
    {
        let clip = clips[i];
        let clip_start = clip.timeline_start;
        let clip_end = clip.timeline_start + clip.duration;
        let ghost prev = clips@;
        let ghost k = kept_all(before.take(done), a as int, b as int);
        proof {
            assert(clip == before[done]);
            assert(before.take(done + 1).drop_last() =~= before.take(done));
            assert(before.take(done + 1).last() == before[done]);
            assert(before.skip(done).drop_first() =~= before.skip(done + 1));
            lemma_pieces_fit(clip, a as int, b as int);
            done = done + 1;
        }

        if clip_end <= a || clip_start >= b {
            i += 1;
            assert(clips@ =~= kept_all(before.take(done), a as int, b as int) + before.skip(done));
            continue;
        }
        if clip_start >= a && clip_end <= b {
            clips.remove(i);
            assert(clips@ =~= kept_all(before.take(done), a as int, b as int) + before.skip(done));
            continue;
        }
        if clip_start < a && clip_end > b {
            let mut right = clip;
            right.id = TimelineClipId::new();
            right.timeline_start = b;
            right.duration = clip_end - b;
            right.source_in = clip.source_in + (b - clip_start);
            right.linked_to = None;
            splits.push(right);

            let mut left = clip;
            left.duration = a - clip_start;
            left.source_out = clip.source_in + (a - clip_start);
            clips.set(i, left);
            i += 1;
            assert(clips@ =~= kept_all(before.take(done), a as int, b as int) + before.skip(done));
            continue;
        }
        if clip_start < a {
            let trimmed = clip_end - a;
            let mut left = clip;
            left.duration = clip.duration - trimmed;
            left.source_out = clip.source_out - trimmed;
            clips.set(i, left);
            i += 1;
            assert(clips@ =~= kept_all(before.take(done), a as int, b as int) + before.skip(done));
            continue;
        }
        let trim_amount = b - clip_start;
        let mut right = clip;
        right.source_in = clip.source_in + trim_amount;
        right.timeline_start = b;
        right.duration = clip.duration - trim_amount;
        clips.set(i, right);
        i += 1;
        assert(clips@ =~= kept_all(before.take(done), a as int, b as int) + before.skip(done));
    }
    proof {
        assert(before.skip(done).len() == 0);
        assert(before.take(done) =~= before);
        assert(clips@ =~= kept_all(before, a as int, b as int));
    }
    let ghost mid = clips@;
    clips.append(&mut splits);
    proof {
        assert(clips@.take(mid.len() as int) =~= mid);
    }
}

} // verus!
