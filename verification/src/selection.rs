//! What is selected in the browser and on the timeline.

use std::collections::HashSet;

use vstd::prelude::*;

use crate::ids::{ClipId, TimelineClipId};

verus! {

broadcast use vstd::std_specs::hash::group_hash_axioms;

/// The selection. Sets hold the numbers of the identifiers.
#[derive(Debug)]
pub struct Selection {
    pub selected_clips: HashSet<u128>,
    pub last_selected_clip: Option<ClipId>,
    pub hovered_clip: Option<ClipId>,
    /// Where the pointer is along the selected thumbnail, in millionths.
    pub selected_scrub_t: Option<i64>,
    pub selected_timeline_clips: HashSet<u128>,
}

/// `i` is the first place in `order` that holds `id`.
pub open spec fn first_in(order: Seq<ClipId>, id: ClipId, i: int) -> bool {
    &&& 0 <= i < order.len()
    &&& order[i] == id
    &&& forall|j: int| 0 <= j < i ==> order[j] != id
}

/// The identifiers in `order` between the places `a` and `b`, in either order and
/// both included.
pub open spec fn ids_between(order: Seq<ClipId>, a: int, b: int) -> Set<u128> {
    Set::new(
        |n: u128|
            exists|i: int|
                0 <= i < order.len() && (a <= i <= b || b <= i <= a) && #[trigger] order[i].0
                    == n,
    )
}

/// A file that was not selected is selected, and is the one selected last. One that was
/// is not any more; where it was the one selected last, some other selected file is.
pub open spec fn clip_toggled(before: Selection, after: Selection, id: ClipId) -> bool {
    if !before.selected_clips@.contains(id.0) {
        &&& after.selected_clips@ == before.selected_clips@.insert(id.0)
        &&& after.last_selected_clip == Some(id)
    } else {
        &&& after.selected_clips@ == before.selected_clips@.remove(id.0)
        &&& if before.last_selected_clip != Some(id) {
            after.last_selected_clip == before.last_selected_clip
        } else {
            match after.last_selected_clip {
                Some(other) => after.selected_clips@.contains(other.0),
                None => after.selected_clips@ == Set::<u128>::empty(),
            }
        }
    }
}

impl Selection {
    /// Nothing but the selected media files differs.
    pub open spec fn same_but_clips(self, other: Selection) -> bool {
        &&& self.hovered_clip == other.hovered_clip
        &&& self.selected_scrub_t == other.selected_scrub_t
        &&& self.selected_timeline_clips@ == other.selected_timeline_clips@
    }

    /// Nothing but the selected clips of the timeline differs.
    pub open spec fn same_but_timeline(self, other: Selection) -> bool {
        &&& self.selected_clips@ == other.selected_clips@
        &&& self.last_selected_clip == other.last_selected_clip
        &&& self.hovered_clip == other.hovered_clip
        &&& self.selected_scrub_t == other.selected_scrub_t
    }

    /// Only `id` is selected.
    pub open spec fn only(self, id: ClipId) -> bool {
        self.selected_clips@ == set![id.0] && self.last_selected_clip == Some(id)
    }

    /// Nothing selected.
    pub fn new() -> (r: Self)
        ensures
            r.selected_clips@ == Set::<u128>::empty(),
            r.last_selected_clip is None,
            r.hovered_clip is None,
            r.selected_scrub_t is None,
            r.selected_timeline_clips@ == Set::<u128>::empty(),
    {
        Selection {
            selected_clips: HashSet::new(),
            last_selected_clip: None,
            hovered_clip: None,
            selected_scrub_t: None,
            selected_timeline_clips: HashSet::new(),
        }
    }

    /// Whether the media file is selected.
    pub fn is_clip_selected(&self, id: ClipId) -> (r: bool)
        ensures
            r == self.selected_clips@.contains(id.0),
    {
        self.selected_clips.contains(&id.0)
    }

    /// Whether the clip of the timeline is selected.
    pub fn is_timeline_clip_selected(&self, id: TimelineClipId) -> (r: bool)
        ensures
            r == self.selected_timeline_clips@.contains(id.0),
    {
        self.selected_timeline_clips.contains(&id.0)
    }

    /// Selects one clip of the timeline and no other.
    pub fn select_single_timeline_clip(&mut self, id: TimelineClipId)
        ensures
            final(self).selected_timeline_clips@ == set![id.0],
            final(self).same_but_timeline(*old(self)),
    {
        self.selected_timeline_clips.clear();
        self.selected_timeline_clips.insert(id.0);
        assert(self.selected_timeline_clips@ =~= set![id.0]);
    }

    /// Selects the clip of the timeline, or deselects it.
    pub fn toggle_timeline_clip(&mut self, id: TimelineClipId)
        ensures
            final(self).selected_timeline_clips@ == if old(self).selected_timeline_clips@.contains(id.0) {
                old(self).selected_timeline_clips@.remove(id.0)
            } else {
                old(self).selected_timeline_clips@.insert(id.0)
            },
            final(self).same_but_timeline(*old(self)),
    {
        if self.selected_timeline_clips.contains(&id.0) {
            self.selected_timeline_clips.remove(&id.0);
        } else {
            self.selected_timeline_clips.insert(id.0);
        }
    }

    /// Selects the clip of the timeline exactly where `match_id` is selected.
    pub fn toggle_timeline_clip_to_match(&mut self, id: TimelineClipId, match_id: TimelineClipId)
        ensures
            final(self).selected_timeline_clips@ == if old(self).selected_timeline_clips@.contains(match_id.0) {
                old(self).selected_timeline_clips@.insert(id.0)
            } else {
                old(self).selected_timeline_clips@.remove(id.0)
            },
            final(self).same_but_timeline(*old(self)),
    {
        if self.selected_timeline_clips.contains(&match_id.0) {
            self.selected_timeline_clips.insert(id.0);
        } else {
            self.selected_timeline_clips.remove(&id.0);
        }
    }

    /// Deselects all clips of the timeline.
    pub fn clear_timeline_clips(&mut self)
        ensures
            final(self).selected_timeline_clips@ == Set::<u128>::empty(),
            final(self).same_but_timeline(*old(self)),
    {
        self.selected_timeline_clips.clear();
    }

    /// Some selected clip of the timeline, where there is one.
    pub fn primary_timeline_clip(&self) -> (r: Option<TimelineClipId>)
        ensures
            match r {
                Some(id) => self.selected_timeline_clips@.contains(id.0),
                None => self.selected_timeline_clips@ == Set::<u128>::empty(),
            },
    {
        match some_member(&self.selected_timeline_clips) {
            Some(id) => Some(TimelineClipId(id)),
            None => None,
        }
    }

    /// Selects one media file and no other.
    pub fn select_single(&mut self, id: ClipId)
        ensures
            final(self).only(id),
            final(self).same_but_clips(*old(self)),
    {
        self.selected_clips.clear();
        self.selected_clips.insert(id.0);
        self.last_selected_clip = Some(id);
        assert(self.selected_clips@ =~= set![id.0]);
    }

    /// Selects the media file, or deselects it. What was selected last is then the
    /// file, or, where that was deselected, some other selected file.
    pub fn toggle_clip(&mut self, id: ClipId)
        ensures
            final(self).same_but_clips(*old(self)),
            clip_toggled(*old(self), *final(self), id),
    {
        if self.selected_clips.contains(&id.0) {
            self.selected_clips.remove(&id.0);
            if self.last_selected_clip == Some(id) {
                self.last_selected_clip = match some_member(&self.selected_clips) {
                    Some(other) => Some(ClipId(other)),
                    None => None,
                };
            }
        } else {
            self.selected_clips.insert(id.0);
            self.last_selected_clip = Some(id);
        }
    }

    /// Selects the files from the anchor to the target in the order shown. Without an
    /// anchor, or where either is not shown, only the target is selected.
    pub fn select_range(&mut self, anchor: Option<ClipId>, target: ClipId, ordered: &Vec<ClipId>)
        ensures
            final(self).same_but_clips(*old(self)),
            match anchor {
                None => final(self).only(target),
                Some(a) => if ordered@.contains(a) && ordered@.contains(target) {
                    &&& final(self).last_selected_clip == Some(target)
                    &&& forall|i: int, j: int| #[trigger]
                        first_in(ordered@, a, i) && #[trigger] first_in(ordered@, target, j)
                            ==> final(self).selected_clips@ == ids_between(ordered@, i, j)
                } else {
                    final(self).only(target)
                },
            },
    {
        let anchor = match anchor {
            Some(a) => a,
            None => {
                self.select_single(target);
                return;
            },
        };
        match (place_of(ordered, anchor), place_of(ordered, target)) {
            (Some(a), Some(t)) => {
                let start: usize = if a <= t {
                    a
                } else {
                    t
                };
                let end: usize = if a <= t {
                    t
                } else {
                    a
                };
                self.selected_clips.clear();
                let mut i: usize = start;
                while i <= end
                    invariant
                        start <= i <= end + 1,
                        end < ordered.len(),
                        forall|n: u128|
                            self.selected_clips@.contains(n) <==> exists|j: int|
                                start <= j < i && #[trigger] ordered@[j].0 == n,
                        self.same_but_clips(*old(self)),
                    decreases end + 1 - i,
                {
                    self.selected_clips.insert(ordered[i].0);
                    i += 1;
                }
                assert(self.selected_clips@ =~= ids_between(ordered@, a as int, t as int));
                self.last_selected_clip = Some(target);
            },
            _ => {
                self.select_single(target);
            },
        }
    }

    /// Deselects all media files.
    pub fn clear_clips(&mut self)
        ensures
            final(self).selected_clips@ == Set::<u128>::empty(),
            final(self).last_selected_clip is None,
            final(self).same_but_clips(*old(self)),
    {
        self.selected_clips.clear();
        self.last_selected_clip = None;
    }

    /// The media file that was selected last.
    pub fn primary_clip(&self) -> (r: Option<ClipId>)
        ensures
            r == self.last_selected_clip,
    {
        self.last_selected_clip
    }
}

impl Default for Selection {
    fn default() -> (r: Self)
        ensures
            r.selected_clips@ == Set::<u128>::empty(),
            r.last_selected_clip is None,
            r.hovered_clip is None,
            r.selected_scrub_t is None,
            r.selected_timeline_clips@ == Set::<u128>::empty(),
    {
        Selection::new()
    }
}

/// `order` lists the members of a set, each once.
pub open spec fn lists_all(order: Seq<TimelineClipId>, set: Set<u128>) -> bool {
    &&& forall|i: int| 0 <= i < order.len() ==> set.contains((#[trigger] order[i]).0)
    &&& forall|n: u128|
        #[trigger] set.contains(n) ==> exists|i: int| 0 <= i < order.len() && #[trigger] order[i].0 == n
    &&& forall|i: int, j: int|
        0 <= i < j < order.len() ==> #[trigger] order[i] != #[trigger] order[j]
}

impl Selection {
    /// Hands out the selected clips of the timeline, in no particular order, and
    /// deselects them.
    pub fn drain_timeline_clips(&mut self) -> (r: Vec<TimelineClipId>)
        ensures
            lists_all(r@, old(self).selected_timeline_clips@),
            final(self).selected_timeline_clips@ == Set::<u128>::empty(),
            final(self).same_but_timeline(*old(self)),
    {
        let all = members(&self.selected_timeline_clips);
        let mut out: Vec<TimelineClipId> = Vec::new();
        let mut i: usize = 0;
        while i < all.len()
            invariant
                i <= all@.len(),
                out@.len() == i,
                forall|k: int| 0 <= k < i ==> (#[trigger] out@[k]).0 == all@[k],
            decreases all@.len() - i,
        {
            out.push(TimelineClipId(all[i]));
            i += 1;
        }
        proof {
            let set = self.selected_timeline_clips@;
            assert forall|k: int| 0 <= k < out@.len() implies set.contains(
                (#[trigger] out@[k]).0,
            ) by {
                assert(all@.to_set().contains(all@[k]));
            }
            assert forall|m: u128| #[trigger] set.contains(m) implies exists|k: int|
                0 <= k < out@.len() && #[trigger] out@[k].0 == m by {
                assert(all@.to_set().contains(m));
                let k = choose|k: int| 0 <= k < all@.len() && all@[k] == m;
                assert(out@[k].0 == m);
            }
        }
        self.selected_timeline_clips.clear();
        out
    }
}

/// The members of a set, each once, in no particular order.
pub(crate) fn members(set: &HashSet<u128>) -> (r: Vec<u128>)
    ensures
        r@.to_set() == set@,
        r@.no_duplicates(),
{
    let mut out: Vec<u128> = Vec::new();
    let ghost all = set@;
    for n in it: set.iter()
        invariant
            it.seq().unref().to_set() == all,
            it.seq().no_duplicates(),
            out.len() == it.index(),
            forall|i: int|
                #![trigger out@[i]]
                #![trigger it.seq().unref()[i]]
                0 <= i < out.len() ==> out@[i] == it.seq().unref()[i],
            forall|i: int| 0 <= i < out.len() ==> all.contains(#[trigger] out@[i]),
            out@.no_duplicates(),
    {
        assert(it.seq().unref()[it.index()] == *n);
        assert(it.seq().unref().to_set().contains(*n));
        out.push(*n);
    }
    assert forall|m: u128| #[trigger] all.contains(m) implies exists|i: int|
        0 <= i < out.len() && #[trigger] out@[i] == m by {}
    assert(out@.to_set() =~= all);
    out
}

/// Some member of the set; which one is left open.
fn some_member(set: &HashSet<u128>) -> (r: Option<u128>)
    ensures
        match r {
            Some(n) => set@.contains(n),
            None => set@ == Set::<u128>::empty(),
        },
{
    for n in it: set.iter()
        invariant
            it.seq().unref().to_set() == set@,
            it.index() == 0,
    {
        assert(it.seq().unref()[0] == *n);
        assert(it.seq().unref().to_set().contains(*n));
        return Some(*n);
    }
    assert(set@ =~= Set::empty());
    None
}

/// The first place of `id` in `order`.
pub fn place_of(order: &Vec<ClipId>, id: ClipId) -> (r: Option<usize>)
    ensures
        match r {
            Some(i) => first_in(order@, id, i as int) && order@.contains(id),
            None => !order@.contains(id),
        },
{
    let mut i: usize = 0;
    while i < order.len()
        invariant
            i <= order.len(),
            forall|j: int| 0 <= j < i ==> order@[j] != id,
        decreases order.len() - i,
    {
        if order[i] == id {
            return Some(i);
        }
        i += 1;
    }
    None
}

/// A range of files holds those from one end to the other and no others, whichever end
/// comes first.
pub proof fn law_range_holds_both_ends(order: Seq<ClipId>, a: int, b: int, k: int)
    requires
        0 <= a < order.len(),
        0 <= b < order.len(),
        0 <= k < order.len(),
        order.no_duplicates(),
    ensures
        ids_between(order, a, b) == ids_between(order, b, a),
        ids_between(order, a, b).contains(order[a].0),
        ids_between(order, a, b).contains(order[b].0),
        ids_between(order, a, b).contains(order[k].0) <==> !(k < a && k < b) && !(k > a && k > b),
{
    assert(order[a].0 == order[a].0);
    assert(order[b].0 == order[b].0);
    if ids_between(order, a, b).contains(order[k].0) {
        let i = choose|i: int|
            0 <= i < order.len() && (a <= i <= b || b <= i <= a) && #[trigger] order[i].0
                == order[k].0;
        assert(order[i] == order[k]);
    }
    assert(ids_between(order, a, b) =~= ids_between(order, b, a));
}

/// Toggling a file selects what was not and deselects what was, and changes no other;
/// done twice it leaves the selection as it was. What was selected last is selected.
pub proof fn law_toggle_changes_one_file(
    a: Selection,
    b: Selection,
    c: Selection,
    id: ClipId,
    other: ClipId,
)
    requires
        clip_toggled(a, b, id),
        clip_toggled(b, c, id),
        other != id,
        a.last_selected_clip matches Some(x) ==> a.selected_clips@.contains(x.0),
    ensures
        b.selected_clips@.contains(id.0) == !a.selected_clips@.contains(id.0),
        b.selected_clips@.contains(other.0) == a.selected_clips@.contains(other.0),
        c.selected_clips@ == a.selected_clips@,
        b.last_selected_clip matches Some(x) ==> b.selected_clips@.contains(x.0),
        !a.selected_clips@.contains(id.0) ==> b.last_selected_clip == Some(id),
{
    assert(other.0 != id.0);
    assert(c.selected_clips@ =~= a.selected_clips@);
}

} // verus!
