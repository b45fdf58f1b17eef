//! What holds of the list in the browser, whatever is sorted by.

use vstd::prelude::*;

use crate::browse::{arranged, law_listed_pass_filters, AppState, SortMode};
use crate::clip::Clip;
use crate::ids::ClipId;
use crate::order::{in_order, is_stable_order};
use crate::text::{lowercase, occurs, precedes, words};

verus! {

/// The name that the browser shows for a media file: the one it was given, or else that
/// of the file.
pub open spec fn name_on_tile(c: Clip) -> Seq<char> {
    if c.display_name is Some {
        c.display_name->0@
    } else {
        c.filename@
    }
}

/// `x` stands before `y` among the imported files.
pub open spec fn imported_before(order: Seq<ClipId>, x: ClipId, y: ClipId) -> bool {
    exists|p: int, q: int|
        0 <= p < q < order.len() && #[trigger] order[p] == x && #[trigger] order[q] == y
}

proof fn lemma_accepted_in_order(s: AppState, order: Seq<ClipId>, p: int, q: int)
    requires
        0 <= p < q < s.accepted(order).len(),
    ensures
        imported_before(order, s.accepted(order)[p], s.accepted(order)[q]),
    decreases order.len(),
{
    if order.len() > 0 {
        let init = order.drop_last();
        let base = s.accepted(init);
        if q < base.len() {
            lemma_accepted_in_order(s, init, p, q);
            let (a, b) = choose|a: int, b: int|
                0 <= a < b < init.len() && #[trigger] init[a] == base[p] && #[trigger] init[b]
                    == base[q];
            assert(order[a] == base[p] && order[b] == base[q]);
        } else {
            lemma_accepted_known(s, init, p);
            let a = choose|a: int| 0 <= a < init.len() && #[trigger] init[a] == base[p];
            assert(order[a] == base[p]);
            assert(order[order.len() - 1] == s.accepted(order)[q]);
        }
    }
}

proof fn lemma_accepted_known(s: AppState, order: Seq<ClipId>, p: int)
    requires
        0 <= p < s.accepted(order).len(),
    ensures
        exists|a: int| 0 <= a < order.len() && #[trigger] order[a] == s.accepted(order)[p],
    decreases order.len(),
{
    if order.len() > 0 {
        let init = order.drop_last();
        if p < s.accepted(init).len() {
            lemma_accepted_known(s, init, p);
            let a = choose|a: int|
                0 <= a < init.len() && #[trigger] init[a] == s.accepted(init)[p];
            assert(order[a] == s.accepted(order)[p]);
        } else {
            assert(order[order.len() - 1] == s.accepted(order)[p]);
        }
    }
}

proof fn lemma_listed_in_order(s: AppState, listed: Seq<ClipId>, i: int, j: int)
    requires
        s.lists(listed),
        s.ui.browser.sort_mode != SortMode::ImportOrder,
        0 <= i < j < listed.len(),
    ensures
        !crate::order::listed_before(
            s.sort_key(listed[j]),
            s.sort_key(listed[i]),
            s.ui.browser.sort_ascending,
        ),
        crate::order::listed_before(
            s.sort_key(listed[i]),
            s.sort_key(listed[j]),
            s.ui.browser.sort_ascending,
        ) || imported_before(s.project.clip_order@, listed[i], listed[j]),
{
    let base = s.accepted(s.project.clip_order@);
    let ascending = s.ui.browser.sort_ascending;
    let keys = s.sort_keys(base);
    let order = choose|order: Seq<usize>| #[trigger]
        is_stable_order(keys, order, ascending) && listed == arranged(base, order);
    let p = order[i] as int;
    let q = order[j] as int;
    assert(order[i] < base.len() && order[j] < base.len());
    assert(in_order(keys, p, q, ascending));
    assert(keys[p] == s.sort_key(listed[i]));
    assert(keys[q] == s.sort_key(listed[j]));
    crate::order::lemma_listed_antisymmetric(keys[p], keys[q], ascending);
    if p < q {
        lemma_accepted_in_order(s, s.project.clip_order@, p, q);
    }
}

/// Sorted by name, the lower-case names that the browser shows never decrease along the
/// list, or never increase where the order is turned round. Files shown under the same
/// name stand as they were imported.
pub proof fn law_sorted_by_shown_name(
    s: AppState,
    listed: Seq<ClipId>,
    i: int,
    j: int,
    a: Clip,
    b: Clip,
)
    requires
        s.lists(listed),
        s.ui.browser.sort_mode == SortMode::Name,
        0 <= i < j < listed.len(),
        s.project.clips@.contains_key(listed[i].0) && s.project.clips@[listed[i].0] == a,
        s.project.clips@.contains_key(listed[j].0) && s.project.clips@[listed[j].0] == b,
    ensures
        s.ui.browser.sort_ascending ==> !precedes(
            lowercase(name_on_tile(b)),
            lowercase(name_on_tile(a)),
        ),
        !s.ui.browser.sort_ascending ==> !precedes(
            lowercase(name_on_tile(a)),
            lowercase(name_on_tile(b)),
        ),
        lowercase(name_on_tile(a)) == lowercase(name_on_tile(b)) ==> imported_before(
            s.project.clip_order@,
            listed[i],
            listed[j],
        ),
{
    lemma_listed_in_order(s, listed, i, j);
    crate::text::lemma_precedes_antisymmetric(
        lowercase(name_on_tile(a)),
        lowercase(name_on_tile(a)),
    );
}

/// Sorted by type, the lower-case extensions never decrease along the list, or never
/// increase where the order is turned round; a file without an extension counts as one
/// with an empty one. Files of the same type stand as they were imported.
pub proof fn law_sorted_by_extension(
    s: AppState,
    listed: Seq<ClipId>,
    i: int,
    j: int,
    a: Clip,
    b: Clip,
)
    requires
        s.lists(listed),
        s.ui.browser.sort_mode == SortMode::FileType,
        0 <= i < j < listed.len(),
        s.project.clips@.contains_key(listed[i].0) && s.project.clips@[listed[i].0] == a,
        s.project.clips@.contains_key(listed[j].0) && s.project.clips@[listed[j].0] == b,
    ensures
        ({
            let x = if a.path.extension is Some {
                lowercase(a.path.extension->0@)
            } else {
                lowercase(Seq::<char>::empty())
            };
            let y = if b.path.extension is Some {
                lowercase(b.path.extension->0@)
            } else {
                lowercase(Seq::<char>::empty())
            };
            &&& s.ui.browser.sort_ascending ==> !precedes(y, x)
            &&& !s.ui.browser.sort_ascending ==> !precedes(x, y)
            &&& x == y ==> imported_before(s.project.clip_order@, listed[i], listed[j])
        }),
{
    lemma_listed_in_order(s, listed, i, j);
    crate::text::lemma_precedes_antisymmetric(lowercase(a.path.ext()), lowercase(a.path.ext()));
}

/// Sorted by length, the durations never decrease along the list, or never increase
/// where the order is turned round; one that is not known counts as none. Files of the
/// same length stand as they were imported.
pub proof fn law_sorted_by_duration(
    s: AppState,
    listed: Seq<ClipId>,
    i: int,
    j: int,
    a: Clip,
    b: Clip,
)
    requires
        s.lists(listed),
        s.ui.browser.sort_mode == SortMode::Duration,
        0 <= i < j < listed.len(),
        s.project.clips@.contains_key(listed[i].0) && s.project.clips@[listed[i].0] == a,
        s.project.clips@.contains_key(listed[j].0) && s.project.clips@[listed[j].0] == b,
    ensures
        ({
            let x = if a.duration is Some {
                a.duration->0
            } else {
                0
            };
            let y = if b.duration is Some {
                b.duration->0
            } else {
                0
            };
            &&& s.ui.browser.sort_ascending ==> x <= y
            &&& !s.ui.browser.sort_ascending ==> x >= y
            &&& x == y ==> imported_before(s.project.clip_order@, listed[i], listed[j])
        }),
{
    lemma_listed_in_order(s, listed, i, j);
}

/// Sorted by resolution, the numbers of pixels never decrease along the list, or never
/// increase where the order is turned round; one that is not known counts as none. Files
/// with as many pixels stand as they were imported.
pub proof fn law_sorted_by_pixels(
    s: AppState,
    listed: Seq<ClipId>,
    i: int,
    j: int,
    a: Clip,
    b: Clip,
)
    requires
        s.lists(listed),
        s.ui.browser.sort_mode == SortMode::Resolution,
        0 <= i < j < listed.len(),
        s.project.clips@.contains_key(listed[i].0) && s.project.clips@[listed[i].0] == a,
        s.project.clips@.contains_key(listed[j].0) && s.project.clips@[listed[j].0] == b,
    ensures
        ({
            let x = match a.resolution {
                Some((w, h)) => w * h,
                None => 0,
            };
            let y = match b.resolution {
                Some((w, h)) => w * h,
                None => 0,
            };
            &&& s.ui.browser.sort_ascending ==> x <= y
            &&& !s.ui.browser.sort_ascending ==> x >= y
            &&& x == y ==> imported_before(s.project.clip_order@, listed[i], listed[j])
        }),
{
    lemma_listed_in_order(s, listed, i, j);
}

/// Unsorted, the files stand as they were imported, or the other way round.
pub proof fn law_listed_as_imported(s: AppState, listed: Seq<ClipId>, i: int, j: int)
    requires
        s.lists(listed),
        s.ui.browser.sort_mode == SortMode::ImportOrder,
        0 <= i < j < listed.len(),
    ensures
        s.ui.browser.sort_ascending ==> imported_before(
            s.project.clip_order@,
            listed[i],
            listed[j],
        ),
        !s.ui.browser.sort_ascending ==> imported_before(
            s.project.clip_order@,
            listed[j],
            listed[i],
        ),
{
    let order = s.project.clip_order@;
    let base = s.accepted(order);
    if s.ui.browser.sort_ascending {
        lemma_accepted_in_order(s, order, i, j);
    } else {
        lemma_accepted_in_order(s, order, base.len() - 1 - j, base.len() - 1 - i);
    }
}

/// A file is listed exactly where it was imported, is starred if only starred files are
/// wanted, carries one of the wanted labels if any are, and has every word of the search
/// in what is known of it.
pub proof fn law_listed_is_what_was_asked_for(s: AppState, listed: Seq<ClipId>, id: ClipId)
    requires
        s.lists(listed),
    ensures
        ({
            let b = s.ui.browser;
            let sought = words(lowercase(b.search_query@));
            let starred = b.starred_only ==> s.project.starred@.contains(id.0);
            let labelled = b.tag_filter_mask == 0 || (s.project.clip_tags@.contains_key(id.0)
                && s.project.clip_tags@[id.0] & b.tag_filter_mask != 0);
            let found = forall|k: int|
                0 <= k < sought.len() ==> s.project.clips@.contains_key(id.0) && occurs(
                    s.project.clips@[id.0].search_haystack@,
                    #[trigger] sought[k],
                );
            listed.contains(id) <==> s.project.clip_order@.contains(id) && starred && labelled
                && found
        }),
{
    law_listed_pass_filters(s, listed, id);
    let mask = s.ui.browser.tag_filter_mask;
    assert(0u32 & mask == 0) by (bit_vector);
    let sought = s.search_words();
    if sought.len() > 0 {
        assert(sought[0] == sought[0]);
        if forall|k: int|
            0 <= k < sought.len() ==> s.project.clips@.contains_key(id.0) && occurs(
                s.project.clips@[id.0].search_haystack@,
                #[trigger] sought[k],
            ) {
            assert(s.project.clips@.contains_key(id.0));
        }
    }
}

} // verus!
