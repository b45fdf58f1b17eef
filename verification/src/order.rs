//! A stable sort by keys.

use vstd::prelude::*;

use crate::text::{comes_before, lemma_precedes_antisymmetric, lemma_precedes_between, precedes};

verus! {

/// What the browser sorts by: a text or a number.
#[derive(Debug)]
pub enum Key {
    Text(Vec<char>),
    Number(i128),
}

/// The contents of a key.
#[verifier::ext_equal]
pub enum KeyView {
    Text(Seq<char>),
    Number(int),
}

impl View for Key {
    type V = KeyView;

    open spec fn view(&self) -> KeyView {
        match self {
            Key::Text(t) => KeyView::Text(t@),
            Key::Number(n) => KeyView::Number(*n as int),
        }
    }
}

/// `a` is less than `b`. Numbers come before texts.
pub open spec fn less(a: KeyView, b: KeyView) -> bool {
    match (a, b) {
        (KeyView::Text(x), KeyView::Text(y)) => precedes(x, y),
        (KeyView::Number(x), KeyView::Number(y)) => x < y,
        (KeyView::Number(_), KeyView::Text(_)) => true,
        (KeyView::Text(_), KeyView::Number(_)) => false,
    }
}

/// `a` is listed before `b` in the chosen direction.
pub open spec fn listed_before(a: KeyView, b: KeyView, ascending: bool) -> bool {
    if ascending {
        less(a, b)
    } else {
        less(b, a)
    }
}

/// The contents of keys.
pub open spec fn key_views(keys: Seq<Key>) -> Seq<KeyView> {
    Seq::new(keys.len(), |i: int| keys[i]@)
}

/// `order` lists each of the places below `n` once.
pub open spec fn is_permutation(order: Seq<usize>, n: nat) -> bool {
    &&& order.len() == n
    &&& forall|i: int| 0 <= i < n ==> (#[trigger] order[i]) < n
    &&& forall|i: int, j: int| 0 <= i < j < n ==> #[trigger] order[i] != #[trigger] order[j]
}

/// `order` lists the places of `keys` in the chosen direction, and places with equal
/// keys in their own order.
pub open spec fn is_stable_order(keys: Seq<KeyView>, order: Seq<usize>, ascending: bool) -> bool {
    &&& is_permutation(order, keys.len())
    &&& forall|x: int, y: int|
        0 <= x < y < order.len() ==> in_order(
            keys,
            #[trigger] order[x] as int,
            #[trigger] order[y] as int,
            ascending,
        )
}

/// Place `i` is listed before place `j`: by key, and by place where the keys are
/// equal.
pub open spec fn in_order(keys: Seq<KeyView>, i: int, j: int, ascending: bool) -> bool {
    listed_before(keys[i], keys[j], ascending) || (!listed_before(keys[j], keys[i], ascending) && i
        < j)
}

proof fn lemma_less_between(a: KeyView, b: KeyView, c: KeyView)
    requires
        less(a, c),
    ensures
        less(a, b) || less(b, c),
{
    if let (KeyView::Text(x), KeyView::Text(y), KeyView::Text(z)) = (a, b, c) {
        lemma_precedes_between(x, y, z);
    }
}

/// Of two keys at most one is listed before the other.
pub proof fn lemma_listed_antisymmetric(a: KeyView, b: KeyView, ascending: bool)
    ensures
        !(listed_before(a, b, ascending) && listed_before(b, a, ascending)),
{
    if let (KeyView::Text(x), KeyView::Text(y)) = (a, b) {
        lemma_precedes_antisymmetric(x, y);
    }
}

/// Whether `a` is listed before `b`.
fn is_listed_before(a: &Key, b: &Key, ascending: bool) -> (r: bool)
    ensures
        r == listed_before(a@, b@, ascending),
{
    if ascending {
        is_less(a, b)
    } else {
        is_less(b, a)
    }
}

fn is_less(a: &Key, b: &Key) -> (r: bool)
    ensures
        r == less(a@, b@),
{
    match (a, b) {
        (Key::Text(x), Key::Text(y)) => comes_before(x, y),
        (Key::Number(x), Key::Number(y)) => *x < *y,
        (Key::Number(_), Key::Text(_)) => true,
        (Key::Text(_), Key::Number(_)) => false,
    }
}

/// The places of `keys`, sorted by key in the chosen direction. Places with equal
/// keys keep their order.
pub fn stable_order(keys: &Vec<Key>, ascending: bool) -> (order: Vec<usize>)
    ensures
        is_stable_order(key_views(keys@), order@, ascending),
{
    let ghost views = key_views(keys@);
    let mut order: Vec<usize> = Vec::new();
    let mut i: usize = 0;
    while i < keys.len()
        invariant
            views == key_views(keys@),
            i <= keys.len(),
            is_permutation(order@, i as nat),
            forall|x: int, y: int|
                0 <= x < y < order.len() ==> in_order(
                    views,
                    #[trigger] order[x] as int,
                    #[trigger] order[y] as int,
                    ascending,
                ),
        decreases keys.len() - i,
    {
        let mut p: usize = order.len();
        while p > 0 && is_listed_before(&keys[i], &keys[order[p - 1]], ascending)
            invariant
                views == key_views(keys@),
                i < keys.len(),
                p <= order.len(),
                is_permutation(order@, i as nat),
                forall|y: int|
                    p <= y < order.len() ==> listed_before(
                        views[i as int],
                        views[#[trigger] order[y] as int],
                        ascending,
                    ),
            decreases p,
        {
            p -= 1;
        }
        let ghost old_order = order@;
        order.insert(p, i);
        proof {
            assert forall|x: int| 0 <= x < p implies !listed_before(
                views[i as int],
                views[#[trigger] old_order[x] as int],
                ascending,
            ) by {
                let e = views[i as int];
                let last = views[old_order[p - 1] as int];
                let this = views[old_order[x] as int];
                if listed_before(e, this, ascending) && x < p - 1 {
                    assert(in_order(
                        views,
                        old_order[x] as int,
                        old_order[p - 1] as int,
                        ascending,
                    ));
                    if ascending {
                        lemma_less_between(e, last, this);
                    } else {
                        lemma_less_between(this, last, e);
                    }
                    lemma_listed_antisymmetric(this, last, ascending);
                }
            }
            assert forall|x: int, y: int| 0 <= x < y < order.len() implies in_order(
                views,
                #[trigger] order[x] as int,
                #[trigger] order[y] as int,
                ascending,
            ) by {
                if x < p && y > p {
                    assert(in_order(views, old_order[x] as int, old_order[y - 1] as int, ascending));
                } else if y < p {
                    assert(in_order(views, old_order[x] as int, old_order[y] as int, ascending));
                } else if x > p {
                    assert(in_order(
                        views,
                        old_order[x - 1] as int,
                        old_order[y - 1] as int,
                        ascending,
                    ));
                } else if y == p {
                    assert(old_order[x] < i);
                } else {
                    assert(listed_before(
                        views[i as int],
                        views[old_order[y - 1] as int],
                        ascending,
                    ));
                }
            }
            assert forall|x: int, y: int| 0 <= x < y < i + 1 implies #[trigger] order@[x]
                != #[trigger] order@[y] by {
                let x0 = if x < p {
                    x
                } else {
                    x - 1
                };
                let y0 = if y < p {
                    y
                } else {
                    y - 1
                };
                if x == p {
                    assert(old_order[y0] < i);
                } else if y == p {
                    assert(old_order[x0] < i);
                } else {
                    assert(old_order[x0] != old_order[y0]);
                }
            }
        }
        i += 1;
    }
    order
}

} // verus!
