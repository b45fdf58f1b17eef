//! What is left of the timeline once clips are taken off it.

use vstd::prelude::*;

use crate::ids::TimelineClipId;
use crate::timeline::clip::TimelineClip;
use crate::timeline::edit::link_of;
use crate::timeline::lanes::{lemma_clip_place, lemma_clip_place_first, lemma_with_track, TimelineView};
use crate::timeline::laws::unique_clips;
use crate::timeline::remove::{removed, removed_all, removed_single};
use crate::timeline::track::{first_at, lacks, TrackView};

verus! {

/// The clip is on the timeline.
pub open spec fn on_timeline(t: TimelineView, c: TimelineClip) -> bool {
    exists|k: int, i: int|
        0 <= k < t.tracks().len() && 0 <= i < t.tracks()[k].clips.len()
            && #[trigger] t.tracks()[k].clips[i] == c
}

/// Of two clips on the timeline, each is linked to the other or neither is.
pub open spec fn links_are_mutual(t: TimelineView) -> bool {
    forall|c: TimelineClip, d: TimelineClip|
        #![trigger on_timeline(t, c), on_timeline(t, d)]
        on_timeline(t, c) && on_timeline(t, d) && c.linked_to == Some(d.id) ==> d.linked_to
            == Some(c.id)
}

/// The clip is one of those asked for, or one of those is linked to it.
pub open spec fn asked_for(t: TimelineView, ids: Seq<TimelineClipId>, c: TimelineClip) -> bool {
    ids.contains(c.id) || exists|d: TimelineClip| #[trigger]
        on_timeline(t, d) && ids.contains(d.id) && d.linked_to == Some(c.id)
}

/// `after` is `before` without the clips that fail `keep`: the tracks are what they were
/// in all else, and the other clips stand as they were, in their order.
pub open spec fn only_kept(
    before: TimelineView,
    after: TimelineView,
    keep: spec_fn(TimelineClip) -> bool,
) -> bool {
    &&& after.video.len() == before.video.len()
    &&& after.audio.len() == before.audio.len()
    &&& after.tracks().len() == before.tracks().len()
    &&& forall|k: int|
        0 <= k < before.tracks().len() ==> #[trigger] after.tracks()[k] == (TrackView {
            clips: before.tracks()[k].clips.filter(keep),
            ..before.tracks()[k]
        })
}

proof fn lemma_same_filter(
    s: Seq<TimelineClip>,
    p: spec_fn(TimelineClip) -> bool,
    q: spec_fn(TimelineClip) -> bool,
)
    requires
        forall|i: int| 0 <= i < s.len() ==> p(#[trigger] s[i]) == q(s[i]),
    ensures
        s.filter(p) == s.filter(q),
    decreases s.len(),
{
    reveal(Seq::filter);
    if s.len() > 0 {
        assert forall|i: int| 0 <= i < s.drop_last().len() implies p(#[trigger] s.drop_last()[i])
            == q(s.drop_last()[i]) by {
            assert(s.drop_last()[i] == s[i]);
        }
        lemma_same_filter(s.drop_last(), p, q);
        assert(p(s[s.len() - 1]) == q(s[s.len() - 1]));
    }
}

proof fn lemma_filter_all(s: Seq<TimelineClip>, p: spec_fn(TimelineClip) -> bool)
    requires
        forall|i: int| 0 <= i < s.len() ==> p(#[trigger] s[i]),
    ensures
        s.filter(p) == s,
    decreases s.len(),
{
    reveal(Seq::filter);
    if s.len() > 0 {
        assert forall|i: int| 0 <= i < s.drop_last().len() implies p(
            #[trigger] s.drop_last()[i],
        ) by {
            assert(s.drop_last()[i] == s[i]);
        }
        lemma_filter_all(s.drop_last(), p);
        assert(p(s[s.len() - 1]));
    }
    assert(s.filter(p) =~= s);
}

proof fn lemma_filter_twice(
    s: Seq<TimelineClip>,
    p: spec_fn(TimelineClip) -> bool,
    q: spec_fn(TimelineClip) -> bool,
)
    ensures
        s.filter(p).filter(q) == s.filter(|c: TimelineClip| p(c) && q(c)),
    decreases s.len(),
{
    reveal(Seq::filter);
    if s.len() > 0 {
        lemma_filter_twice(s.drop_last(), p, q);
        let rest = s.drop_last().filter(p);
        assert(rest.push(s.last()).drop_last() =~= rest);
    }
}

proof fn lemma_filter_out_one(s: Seq<TimelineClip>, i: int)
    requires
        0 <= i < s.len(),
        forall|j: int| 0 <= j < s.len() && j != i ==> (#[trigger] s[j]).id != s[i].id,
    ensures
        s.filter(|c: TimelineClip| c.id != s[i].id) == s.remove(i),
    decreases s.len(),
{
    reveal(Seq::filter);
    let id = s[i].id;
    let keep = |c: TimelineClip| c.id != id;
    let init = s.drop_last();
    if i == s.len() - 1 {
        assert forall|j: int| 0 <= j < init.len() implies keep(#[trigger] init[j]) by {
            assert(init[j] == s[j]);
        }
        lemma_filter_all(init, keep);
        assert(s.remove(i) =~= init);
    } else {
        assert forall|j: int| 0 <= j < init.len() && j != i implies (#[trigger] init[j]).id
            != init[i].id by {
            assert(init[j] == s[j]);
        }
        lemma_filter_out_one(init, i);
        assert(keep(s[s.len() - 1]));
        assert(s.remove(i) =~= init.remove(i).push(s.last()));
    }
}

proof fn lemma_only_one_gone(t: TimelineView, id: TimelineClipId)
    requires
        unique_clips(t),
    ensures
        only_kept(t, removed_single(t, id), |c: TimelineClip| c.id != id),
        unique_clips(removed_single(t, id)),
{
    let after = removed_single(t, id);
    let keep = |c: TimelineClip| c.id != id;
    lemma_clip_place_first(t, id);
    if let Some(p) = t.clip_place(id) {
        let v = TrackView { clips: t.tracks()[p.0].clips.remove(p.1), ..t.tracks()[p.0] };
        lemma_with_track(t, p.0, v);
        assert(first_at(t.tracks()[p.0].clips, id, p.1));
        assert forall|k: int| 0 <= k < t.tracks().len() implies #[trigger] after.tracks()[k] == (
        TrackView { clips: t.tracks()[k].clips.filter(keep), ..t.tracks()[k] }) by {
            let clips = t.tracks()[k].clips;
            if k == p.0 {
                assert forall|j: int| 0 <= j < clips.len() && j != p.1 implies (
                #[trigger] clips[j]).id != clips[p.1].id by {
                    assert(t.tracks()[k].clips[j].id != t.tracks()[p.0].clips[p.1].id);
                }
                lemma_filter_out_one(clips, p.1);
                lemma_same_filter(clips, keep, |c: TimelineClip| c.id != clips[p.1].id);
            } else {
                assert forall|j: int| 0 <= j < clips.len() implies keep(#[trigger] clips[j]) by {
                    assert(t.tracks()[k].clips[j].id != t.tracks()[p.0].clips[p.1].id);
                }
                lemma_filter_all(clips, keep);
            }
        }
        assert forall|k: int, i: int, m: int, j: int|
            #![trigger after.tracks()[k].clips[i], after.tracks()[m].clips[j]]
            0 <= k < after.tracks().len() && 0 <= i < after.tracks()[k].clips.len() && 0 <= m
                < after.tracks().len() && 0 <= j < after.tracks()[m].clips.len()
                && after.tracks()[k].clips[i].id == after.tracks()[m].clips[j].id implies k == m
            && i == j by {
            let a = if k == p.0 && p.1 <= i {
                i + 1
            } else {
                i
            };
            let b = if m == p.0 && p.1 <= j {
                j + 1
            } else {
                j
            };
            assert(after.tracks()[k].clips[i] == t.tracks()[k].clips[a]);
            assert(after.tracks()[m].clips[j] == t.tracks()[m].clips[b]);
        }
    } else {
        assert forall|k: int| 0 <= k < t.tracks().len() implies #[trigger] after.tracks()[k] == (
        TrackView { clips: t.tracks()[k].clips.filter(keep), ..t.tracks()[k] }) by {
            let clips = t.tracks()[k].clips;
            assert(lacks(clips, id));
            lemma_filter_all(clips, keep);
        }
    }
}

proof fn lemma_kept_twice(
    a: TimelineView,
    b: TimelineView,
    c: TimelineView,
    p: spec_fn(TimelineClip) -> bool,
    q: spec_fn(TimelineClip) -> bool,
    r: spec_fn(TimelineClip) -> bool,
)
    requires
        only_kept(a, b, p),
        only_kept(b, c, q),
        forall|x: TimelineClip| #[trigger] on_timeline(a, x) ==> r(x) == (p(x) && q(x)),
    ensures
        only_kept(a, c, r),
{
    assert forall|k: int| 0 <= k < a.tracks().len() implies #[trigger] c.tracks()[k] == (
    TrackView { clips: a.tracks()[k].clips.filter(r), ..a.tracks()[k] }) by {
        let s = a.tracks()[k].clips;
        let both = |x: TimelineClip| p(x) && q(x);
        assert(b.tracks()[k].clips == s.filter(p));
        assert(c.tracks()[k].clips == b.tracks()[k].clips.filter(q));
        lemma_filter_twice(s, p, q);
        assert forall|i: int| 0 <= i < s.len() implies r(#[trigger] s[i]) == both(s[i]) by {
            assert(a.tracks()[k].clips[i] == s[i]);
            assert(on_timeline(a, s[i]));
        }
        lemma_same_filter(s, r, both);
    }
}

proof fn lemma_kept_is_on(
    a: TimelineView,
    b: TimelineView,
    p: spec_fn(TimelineClip) -> bool,
    c: TimelineClip,
)
    requires
        only_kept(a, b, p),
    ensures
        on_timeline(b, c) <==> on_timeline(a, c) && p(c),
{
    if on_timeline(b, c) {
        let (k, i) = choose|k: int, i: int|
            0 <= k < b.tracks().len() && 0 <= i < b.tracks()[k].clips.len()
                && #[trigger] b.tracks()[k].clips[i] == c;
        let s = a.tracks()[k].clips;
        assert(b.tracks()[k].clips == s.filter(p));
        lemma_filter_within(s, p, i);
        let j = choose|j: int| 0 <= j < s.len() && #[trigger] s[j] == s.filter(p)[i];
        assert(a.tracks()[k].clips[j] == c);
    }
    if on_timeline(a, c) && p(c) {
        let (k, i) = choose|k: int, i: int|
            0 <= k < a.tracks().len() && 0 <= i < a.tracks()[k].clips.len()
                && #[trigger] a.tracks()[k].clips[i] == c;
        let s = a.tracks()[k].clips;
        assert(b.tracks()[k].clips == s.filter(p));
        lemma_filter_keeps(s, p, i);
        let j = choose|j: int| 0 <= j < s.filter(p).len() && #[trigger] s.filter(p)[j] == s[i];
        assert(b.tracks()[k].clips[j] == c);
    }
}

proof fn lemma_filter_within(s: Seq<TimelineClip>, p: spec_fn(TimelineClip) -> bool, i: int)
    requires
        0 <= i < s.filter(p).len(),
    ensures
        p(s.filter(p)[i]),
        exists|j: int| 0 <= j < s.len() && #[trigger] s[j] == s.filter(p)[i],
    decreases s.len(),
{
    reveal(Seq::filter);
    if s.len() > 0 {
        let init = s.drop_last();
        if i < init.filter(p).len() {
            lemma_filter_within(init, p, i);
            let j = choose|j: int| 0 <= j < init.len() && #[trigger] init[j] == init.filter(p)[i];
            assert(s[j] == init[j]);
        } else {
            assert(s[s.len() - 1] == s.filter(p)[i]);
        }
    }
}

proof fn lemma_filter_keeps(s: Seq<TimelineClip>, p: spec_fn(TimelineClip) -> bool, i: int)
    requires
        0 <= i < s.len(),
        p(s[i]),
    ensures
        exists|j: int| 0 <= j < s.filter(p).len() && #[trigger] s.filter(p)[j] == s[i],
    decreases s.len(),
{
    reveal(Seq::filter);
    let init = s.drop_last();
    if i < init.len() {
        lemma_filter_keeps(init, p, i);
        let j = choose|j: int|
            0 <= j < init.filter(p).len() && #[trigger] init.filter(p)[j] == init[i];
        assert(s.filter(p)[j] == s[i]);
    } else {
        assert(s.filter(p)[s.filter(p).len() - 1] == s[i]);
    }
}

/// Where the identifiers differ, a clip taken off alone leaves every other clip as it
/// was, the one linked to it too.
pub proof fn law_removing_one_leaves_the_rest(t: TimelineView, id: TimelineClipId)
    requires
        unique_clips(t),
    ensures
        only_kept(t, removed_single(t, id), |c: TimelineClip| c.id != id),
{
    lemma_only_one_gone(t, id);
}

proof fn lemma_on_place(t: TimelineView, d: TimelineClip)
    requires
        unique_clips(t),
        on_timeline(t, d),
    ensures
        link_of(t, d.id) == d.linked_to,
{
    let (k, i) = choose|k: int, i: int|
        0 <= k < t.tracks().len() && 0 <= i < t.tracks()[k].clips.len()
            && #[trigger] t.tracks()[k].clips[i] == d;
    lemma_clip_place_first(t, d.id);
    assert(!lacks(t.tracks()[k].clips, d.id));
    let p = t.clip_place(d.id)->0;
    assert(t.tracks()[p.0].clips[p.1].id == t.tracks()[k].clips[i].id);
    lemma_clip_place(t, d.id, p.0, p.1);
}

proof fn lemma_no_place(t: TimelineView, id: TimelineClipId)
    requires
        forall|d: TimelineClip| #[trigger] on_timeline(t, d) ==> d.id != id,
    ensures
        link_of(t, id) is None,
{
    lemma_clip_place_first(t, id);
    if let Some(p) = t.clip_place(id) {
        assert(on_timeline(t, t.tracks()[p.0].clips[p.1]));
    }
}

proof fn lemma_two_of_one_id(t: TimelineView, c: TimelineClip, d: TimelineClip)
    requires
        unique_clips(t),
        on_timeline(t, c),
        on_timeline(t, d),
        c.id == d.id,
    ensures
        c == d,
{
    let (k, i) = choose|k: int, i: int|
        0 <= k < t.tracks().len() && 0 <= i < t.tracks()[k].clips.len()
            && #[trigger] t.tracks()[k].clips[i] == c;
    let (m, j) = choose|m: int, j: int|
        0 <= m < t.tracks().len() && 0 <= j < t.tracks()[m].clips.len()
            && #[trigger] t.tracks()[m].clips[j] == d;
    assert(t.tracks()[k].clips[i].id == t.tracks()[m].clips[j].id);
}

proof fn lemma_asked_for_one_more(
    t: TimelineView,
    s: TimelineView,
    ids: Seq<TimelineClipId>,
    c: TimelineClip,
)
    requires
        ids.len() > 0,
        unique_clips(t),
        unique_clips(s),
        links_are_mutual(t),
        only_kept(t, s, |c: TimelineClip| !asked_for(t, ids.drop_last(), c)),
        on_timeline(t, c),
    ensures
        asked_for(t, ids, c) <==> asked_for(t, ids.drop_last(), c) || c.id == ids.last() || link_of(
            s,
            ids.last(),
        ) == Some(c.id),
{
    let init = ids.drop_last();
    let id = ids.last();
    let p = |c: TimelineClip| !asked_for(t, init, c);
    assert forall|x: TimelineClipId| ids.contains(x) <==> init.contains(x) || x == id by {
        if ids.contains(x) {
            let n = choose|n: int| 0 <= n < ids.len() && ids[n] == x;
            if n < init.len() {
                assert(init[n] == x);
            }
        }
        if init.contains(x) {
            let n = choose|n: int| 0 <= n < init.len() && init[n] == x;
            assert(ids[n] == x);
        }
        assert(ids[ids.len() - 1] == id);
    }
    if exists|d: TimelineClip| #[trigger] on_timeline(s, d) && d.id == id {
        let d = choose|d: TimelineClip| #[trigger] on_timeline(s, d) && d.id == id;
        lemma_on_place(s, d);
        lemma_kept_is_on(t, s, p, d);
        assert(on_timeline(t, d));
        if exists|e: TimelineClip| #[trigger]
            on_timeline(t, e) && ids.contains(e.id) && e.linked_to == Some(c.id) {
            let e = choose|e: TimelineClip| #[trigger]
                on_timeline(t, e) && ids.contains(e.id) && e.linked_to == Some(c.id);
            if e.id == id {
                lemma_two_of_one_id(t, e, d);
            }
        }
    } else {
        lemma_no_place(s, id);
        if exists|e: TimelineClip| #[trigger]
            on_timeline(t, e) && ids.contains(e.id) && e.linked_to == Some(c.id) {
            let e = choose|e: TimelineClip| #[trigger]
                on_timeline(t, e) && ids.contains(e.id) && e.linked_to == Some(c.id);
            if !init.contains(e.id) {
                lemma_kept_is_on(t, s, p, e);
                assert(asked_for(t, init, e));
                let f = choose|f: TimelineClip| #[trigger]
                    on_timeline(t, f) && init.contains(f.id) && f.linked_to == Some(e.id);
                assert(e.linked_to == Some(f.id));
            }
        }
    }
}

proof fn lemma_removed_all(t: TimelineView, ids: Seq<TimelineClipId>)
    requires
        unique_clips(t),
        links_are_mutual(t),
    ensures
        only_kept(t, removed_all(t, ids), |c: TimelineClip| !asked_for(t, ids, c)),
        unique_clips(removed_all(t, ids)),
    decreases ids.len(),
{
    let keep = |c: TimelineClip| !asked_for(t, ids, c);
    if ids.len() == 0 {
        assert forall|k: int| 0 <= k < t.tracks().len() implies #[trigger] t.tracks()[k] == (
        TrackView { clips: t.tracks()[k].clips.filter(keep), ..t.tracks()[k] }) by {
            lemma_filter_all(t.tracks()[k].clips, keep);
        }
    } else {
        let init = ids.drop_last();
        let id = ids.last();
        let s = removed_all(t, init);
        let p = |c: TimelineClip| !asked_for(t, init, c);
        lemma_removed_all(t, init);
        lemma_only_one_gone(s, id);
        let mid = removed_single(s, id);
        let one = |c: TimelineClip| c.id != id;
        assert forall|c: TimelineClip| #[trigger] on_timeline(t, c) implies (asked_for(t, ids, c)
            <==> asked_for(t, init, c) || c.id == id || link_of(s, id) == Some(c.id)) by {
            lemma_asked_for_one_more(t, s, ids, c);
        }
        match link_of(s, id) {
            Some(other) => {
                lemma_only_one_gone(mid, other);
                let two = |c: TimelineClip| c.id != other;
                let rest = |c: TimelineClip| c.id != id && c.id != other;
                lemma_kept_twice(s, mid, removed(s, id), one, two, rest);
                lemma_kept_twice(t, s, removed(s, id), p, rest, keep);
            },
            None => {
                lemma_kept_twice(t, s, mid, p, one, keep);
            },
        }
    }
}

/// Where the identifiers differ and links are mutual, once clips are taken off the
/// timeline neither they nor the clips linked to them are left, and every other clip
/// stands as it was, on its track and in its order.
pub proof fn law_removed_with_their_links(t: TimelineView, ids: Seq<TimelineClipId>)
    requires
        unique_clips(t),
        links_are_mutual(t),
    ensures
        only_kept(t, removed_all(t, ids), |c: TimelineClip| !asked_for(t, ids, c)),
        forall|c: TimelineClip| #[trigger]
            on_timeline(removed_all(t, ids), c) <==> on_timeline(t, c) && !ids.contains(c.id) && !(
            exists|d: TimelineClip| #[trigger]
                on_timeline(t, d) && ids.contains(d.id) && d.linked_to == Some(c.id)),
{
    lemma_removed_all(t, ids);
    assert forall|c: TimelineClip| #[trigger]
        on_timeline(removed_all(t, ids), c) <==> on_timeline(t, c) && !ids.contains(c.id) && !(
        exists|d: TimelineClip| #[trigger]
            on_timeline(t, d) && ids.contains(d.id) && d.linked_to == Some(c.id)) by {
        lemma_kept_is_on(t, removed_all(t, ids), |c: TimelineClip| !asked_for(t, ids, c), c);
    }
}

/// Where the identifiers differ, a clip goes with the clip it is linked to, and every
/// other clip stands as it was.
pub proof fn law_removed_with_its_link(t: TimelineView, d: TimelineClip)
    requires
        unique_clips(t),
        on_timeline(t, d),
    ensures
        only_kept(t, removed(t, d.id), |c: TimelineClip| c.id != d.id && d.linked_to != Some(c.id)),
{
    let keep = |c: TimelineClip| c.id != d.id && d.linked_to != Some(c.id);
    let one = |c: TimelineClip| c.id != d.id;
    lemma_on_place(t, d);
    lemma_only_one_gone(t, d.id);
    let mid = removed_single(t, d.id);
    match d.linked_to {
        Some(other) => {
            lemma_only_one_gone(mid, other);
            lemma_kept_twice(t, mid, removed(t, d.id), one, |c: TimelineClip| c.id != other, keep);
        },
        None => {
            assert forall|k: int| 0 <= k < t.tracks().len() implies #[trigger] mid.tracks()[k] == (
            TrackView { clips: t.tracks()[k].clips.filter(keep), ..t.tracks()[k] }) by {
                lemma_same_filter(t.tracks()[k].clips, one, keep);
            }
        },
    }
}

} // verus!
