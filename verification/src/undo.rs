//! Undo and redo of timeline edits, by whole snapshots.

use vstd::prelude::*;

use crate::timeline::lanes::Timeline;

verus! {

/// How many snapshots are kept.
pub const MAX_HISTORY: usize = 100;

/// The snapshots to go back to and to go forward to; the nearest one is last.
#[derive(Debug)]
pub struct UndoManager {
    undo_stack: Vec<Timeline>,
    redo_stack: Vec<Timeline>,
}

/// The history before and after an undo: `got` is what was handed out.
pub open spec fn undone(
    before: UndoManager,
    after: UndoManager,
    current: Timeline,
    got: Option<Timeline>,
) -> bool {
    if before.past().len() == 0 {
        got is None && after.past() == before.past() && after.future() == before.future()
    } else {
        &&& got == Some(before.past().last())
        &&& after.past() == before.past().drop_last()
        &&& after.future() == before.future().push(current)
    }
}

/// The history before and after a redo: `got` is what was handed out.
pub open spec fn redone(
    before: UndoManager,
    after: UndoManager,
    current: Timeline,
    got: Option<Timeline>,
) -> bool {
    if before.future().len() == 0 {
        got is None && after.past() == before.past() && after.future() == before.future()
    } else {
        &&& got == Some(before.future().last())
        &&& after.future() == before.future().drop_last()
        &&& after.past() == before.past().push(current)
    }
}

/// The history before and after a snapshot is saved.
pub open spec fn saved(before: UndoManager, after: UndoManager, snapshot: Timeline) -> bool {
    let all = before.past().push(snapshot);
    &&& after.future() == Seq::<Timeline>::empty()
    &&& after.past() == if all.len() > MAX_HISTORY {
        all.drop_first()
    } else {
        all
    }
}

impl UndoManager {
    /// The snapshots to go back to, the nearest one last.
    pub closed spec fn past(self) -> Seq<Timeline> {
        self.undo_stack@
    }

    /// The snapshots to go forward to, the nearest one last.
    pub closed spec fn future(self) -> Seq<Timeline> {
        self.redo_stack@
    }

    /// The history is within its limit.
    pub open spec fn within_limit(self) -> bool {
        self.past().len() + self.future().len() <= MAX_HISTORY
    }

    /// An empty history.
    pub fn new() -> (r: Self)
        ensures
            r.past() == Seq::<Timeline>::empty(),
            r.future() == Seq::<Timeline>::empty(),
    {
        UndoManager { undo_stack: Vec::new(), redo_stack: Vec::new() }
    }

    /// Saves a snapshot and forgets what could be redone. The oldest snapshot leaves
    /// once there are more than the limit.
    pub fn save(&mut self, snapshot: Timeline)
        ensures
            saved(*old(self), *final(self), snapshot),
            old(self).within_limit() ==> final(self).within_limit(),
    {
        self.undo_stack.push(snapshot);
        self.redo_stack.clear();
        if self.undo_stack.len() > MAX_HISTORY {
            let ghost all = self.undo_stack@;
            self.undo_stack.remove(0);
            assert(self.undo_stack@ =~= all.drop_first());
        }
    }

    /// Hands out the nearest earlier snapshot and keeps `current` for redo.
    pub fn undo(&mut self, current: Timeline) -> (r: Option<Timeline>)
        ensures
            undone(*old(self), *final(self), current, r),
            old(self).within_limit() ==> final(self).within_limit(),
    {
        match self.undo_stack.pop() {
            None => None,
            Some(previous) => {
                self.redo_stack.push(current);
                Some(previous)
            },
        }
    }

    /// Hands out the nearest later snapshot and keeps `current` for undo.
    pub fn redo(&mut self, current: Timeline) -> (r: Option<Timeline>)
        ensures
            redone(*old(self), *final(self), current, r),
            old(self).within_limit() ==> final(self).within_limit(),
    {
        match self.redo_stack.pop() {
            None => None,
            Some(next) => {
                self.undo_stack.push(current);
                Some(next)
            },
        }
    }

    /// Whether there is anything to undo.
    pub fn can_undo(&self) -> (r: bool)
        ensures
            r == (self.past().len() > 0),
    {
        !self.undo_stack.is_empty()
    }

    /// Whether there is anything to redo.
    pub fn can_redo(&self) -> (r: bool)
        ensures
            r == (self.future().len() > 0),
    {
        !self.redo_stack.is_empty()
    }
}

impl Default for UndoManager {
    fn default() -> (r: Self)
        ensures
            r.past() == Seq::<Timeline>::empty(),
            r.future() == Seq::<Timeline>::empty(),
    {
        UndoManager::new()
    }
}

/// Redo takes back an undo: the timeline and the history are what they were.
pub proof fn law_redo_takes_back_undo(
    start: UndoManager,
    mid: UndoManager,
    end: UndoManager,
    current: Timeline,
    previous: Timeline,
    got: Option<Timeline>,
)
    requires
        undone(start, mid, current, Some(previous)),
        redone(mid, end, previous, got),
    ensures
        got == Some(current),
        end.past() == start.past(),
        end.future() == start.future(),
{
    assert(start.past().drop_last().push(previous) =~= start.past());
    assert(start.future().push(current).drop_last() =~= start.future());
}

/// Undo takes back a redo: the timeline and the history are what they were.
pub proof fn law_undo_takes_back_redo(
    start: UndoManager,
    mid: UndoManager,
    end: UndoManager,
    current: Timeline,
    next: Timeline,
    got: Option<Timeline>,
)
    requires
        redone(start, mid, current, Some(next)),
        undone(mid, end, next, got),
    ensures
        got == Some(current),
        end.past() == start.past(),
        end.future() == start.future(),
{
    assert(start.future().drop_last().push(next) =~= start.future());
    assert(start.past().push(current).drop_last() =~= start.past());
}

/// Undo after an edit hands out the timeline as it was saved before the edit.
pub proof fn law_undo_restores_saved(
    start: UndoManager,
    mid: UndoManager,
    end: UndoManager,
    snapshot: Timeline,
    edited: Timeline,
    got: Option<Timeline>,
)
    requires
        saved(start, mid, snapshot),
        undone(mid, end, edited, got),
    ensures
        got == Some(snapshot),
        end.future() == seq![edited],
{
    assert(end.future() =~= seq![edited]);
}

/// The newest of some snapshots, as many as are kept.
pub open spec fn newest(all: Seq<Timeline>) -> Seq<Timeline> {
    if all.len() > MAX_HISTORY {
        all.skip(all.len() - MAX_HISTORY)
    } else {
        all
    }
}

/// The history goes from the first to the last of `steps` as the snapshots are saved.
pub open spec fn saved_in_steps(steps: Seq<UndoManager>, snapshots: Seq<Timeline>) -> bool {
    &&& steps.len() == snapshots.len() + 1
    &&& forall|i: int|
        0 <= i < snapshots.len() ==> saved(#[trigger] steps[i], steps[i + 1], snapshots[i])
}

/// The history goes from the first to the last of `steps` as one undo follows the other:
/// each keeps what was current, and hands something out.
pub open spec fn undone_in_steps(
    steps: Seq<UndoManager>,
    current: Seq<Timeline>,
    got: Seq<Option<Timeline>>,
) -> bool {
    &&& steps.len() == got.len() + 1
    &&& current.len() == got.len()
    &&& forall|i: int|
        0 <= i < got.len() ==> undone(#[trigger] steps[i], steps[i + 1], current[i], got[i])
}

/// After any number of saves the history holds the newest snapshots, as many as are kept,
/// in the order in which they were saved: the oldest are forgotten.
pub proof fn law_saves_keep_the_newest(
    steps: Seq<UndoManager>,
    snapshots: Seq<Timeline>,
    n: int,
)
    requires
        saved_in_steps(steps, snapshots),
        steps[0].past().len() <= MAX_HISTORY,
        0 <= n <= snapshots.len(),
    ensures
        steps[n].past() == newest(steps[0].past() + snapshots.take(n)),
        n > 0 ==> steps[n].future() == Seq::<Timeline>::empty(),
    decreases n,
{
    let before = steps[0].past();
    if n == 0 {
        assert(before + snapshots.take(0) =~= before);
    } else {
        law_saves_keep_the_newest(steps, snapshots, n - 1);
        assert(saved(steps[n - 1], steps[n - 1 + 1], snapshots[n - 1]));
        let all = before + snapshots.take(n - 1);
        assert(before + snapshots.take(n) =~= all.push(snapshots[n - 1]));
        assert(steps[n].past() =~= newest(before + snapshots.take(n)));
    }
}

/// Undos hand out the snapshots last in, first out, until none is left.
pub proof fn law_undos_come_last_in_first_out(
    steps: Seq<UndoManager>,
    current: Seq<Timeline>,
    got: Seq<Option<Timeline>>,
    n: int,
)
    requires
        undone_in_steps(steps, current, got),
        0 <= n <= got.len(),
    ensures
        n <= steps[0].past().len() ==> steps[n].past() == steps[0].past().take(
            steps[0].past().len() - n,
        ),
        n > steps[0].past().len() ==> steps[n].past() == Seq::<Timeline>::empty(),
        forall|k: int|
            0 <= k < n ==> #[trigger] got[k] == if k < steps[0].past().len() {
                Some(steps[0].past()[steps[0].past().len() - 1 - k])
            } else {
                None
            },
    decreases n,
{
    let past = steps[0].past();
    if n == 0 {
        assert(past.take(past.len() as int) =~= past);
    } else {
        law_undos_come_last_in_first_out(steps, current, got, n - 1);
        assert(undone(steps[n - 1], steps[n - 1 + 1], current[n - 1], got[n - 1]));
        if n <= past.len() {
            assert(past.take(past.len() - (n - 1)).drop_last() =~= past.take(past.len() - n));
        }
    }
}

/// What was saved comes back: after any number of saves into an empty history, undos give
/// back the snapshots last in first out, as many as are kept, and nothing after that.
pub proof fn law_saved_comes_back(
    saves: Seq<UndoManager>,
    snapshots: Seq<Timeline>,
    undos: Seq<UndoManager>,
    current: Seq<Timeline>,
    got: Seq<Option<Timeline>>,
    k: int,
)
    requires
        saved_in_steps(saves, snapshots),
        saves[0].past() == Seq::<Timeline>::empty(),
        undone_in_steps(undos, current, got),
        undos[0] == saves.last(),
        0 <= k < got.len(),
    ensures
        got[k] == if k < snapshots.len() && k < MAX_HISTORY {
            Some(snapshots[snapshots.len() - 1 - k])
        } else {
            None
        },
{
    let n = snapshots.len() as int;
    law_saves_keep_the_newest(saves, snapshots, n);
    assert(Seq::<Timeline>::empty() + snapshots.take(n) =~= snapshots);
    law_undos_come_last_in_first_out(undos, current, got, got.len() as int);
}

/// An edit forgets what was undone before it: nothing is left to redo, and the timeline
/// as it was before the edit is what undo gives first.
pub proof fn law_edit_forgets_undone(
    before: UndoManager,
    mid: UndoManager,
    after: UndoManager,
    snapshot: Timeline,
    current: Timeline,
    got: Option<Timeline>,
)
    requires
        saved(before, mid, snapshot),
    ensures
        mid.future().len() == 0,
        0 < mid.past().len() && mid.past().last() == snapshot,
        redone(mid, after, current, got) ==> got is None && after.past() == mid.past(),
        undone(mid, after, current, got) ==> got == Some(snapshot),
{
}

} // verus!
