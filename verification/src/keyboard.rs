//! What the keys do.

use vstd::prelude::*;

use crate::ids::TimelineClipId;
use crate::playback::{Playback, PlaybackState, NORMAL_SPEED};
use crate::project::{kept_for_undo, stepped_back, stepped_forward, Edited, ProjectState};
use crate::selection::{lists_all, Selection};
use crate::timeline::clip::TimelineClip;
use crate::timeline::laws::unique_clips;
use crate::timeline::removal::{law_removed_with_their_links, links_are_mutual, on_timeline};
use crate::timeline::remove::removed_all;

verus! {

/// The keys that were pressed, and the modifiers that are held.
#[derive(Debug, Clone, Copy, PartialEq, Eq, Structural)]
pub struct Keys {
    pub l: bool,
    pub j: bool,
    pub k: bool,
    pub space: bool,
    pub delete: bool,
    pub backspace: bool,
    pub z: bool,
    pub command: bool,
    pub shift: bool,
}

/// The highest speed.
pub const TOP_SPEED: i64 = 4000;

/// Twice as fast, up to the highest speed.
pub open spec fn faster(speed: int) -> int {
    if speed * 2 < TOP_SPEED {
        speed * 2
    } else {
        TOP_SPEED as int
    }
}

/// L: forward, or faster forward.
pub open spec fn after_l(p: Playback) -> Playback {
    if p.state == PlaybackState::Playing {
        Playback { speed: faster(p.speed as int) as i64, ..p }
    } else {
        Playback { speed: NORMAL_SPEED, state: PlaybackState::Playing, ..p }
    }
}

/// J: in reverse, or faster in reverse.
pub open spec fn after_j(p: Playback) -> Playback {
    if p.state == PlaybackState::PlayingReverse {
        Playback { speed: faster(p.speed as int) as i64, ..p }
    } else {
        Playback { speed: NORMAL_SPEED, state: PlaybackState::PlayingReverse, ..p }
    }
}

/// K: stop.
pub open spec fn after_k(p: Playback) -> Playback {
    Playback { speed: NORMAL_SPEED, state: PlaybackState::Stopped, ..p }
}

/// Space: start or stop.
pub open spec fn after_space(p: Playback) -> Playback {
    Playback {
        speed: NORMAL_SPEED,
        state: if p.state == PlaybackState::Stopped {
            PlaybackState::Playing
        } else {
            PlaybackState::Stopped
        },
        ..p
    }
}

impl Keys {
    /// What the keys make of the transport.
    pub open spec fn played(self, p: Playback) -> Playback {
        let p = if self.l {
            after_l(p)
        } else {
            p
        };
        let p = if self.j {
            after_j(p)
        } else {
            p
        };
        let p = if self.k {
            after_k(p)
        } else {
            p
        };
        if self.space {
            after_space(p)
        } else {
            p
        }
    }

    /// The selected clips are to go.
    pub open spec fn deletes(self) -> bool {
        self.delete || self.backspace
    }

    /// An edit is to be undone.
    pub open spec fn undoes(self) -> bool {
        self.command && !self.shift && self.z
    }

    /// An edit is to be done again.
    pub open spec fn redoes(self) -> bool {
        self.command && self.shift && self.z
    }
}

fn go_faster(speed: i64) -> (r: i64)
    requires
        speed * 2 >= i64::MIN,
    ensures
        r == faster(speed as int),
{
    if speed < 2000 {
        speed * 2
    } else {
        TOP_SPEED
    }
}

/// Lets the keys work on the transport.
pub fn play_keys(keys: Keys, playback: &mut Playback)
    requires
        old(playback).speed * 2 >= i64::MIN,
    ensures
        *final(playback) == keys.played(*old(playback)),
{
    if keys.l {
        match playback.state {
            PlaybackState::Playing => {
                playback.speed = go_faster(playback.speed);
            },
            _ => {
                playback.speed = NORMAL_SPEED;
                playback.state = PlaybackState::Playing;
            },
        }
    }
    if keys.j {
        match playback.state {
            PlaybackState::PlayingReverse => {
                playback.speed = go_faster(playback.speed);
            },
            _ => {
                playback.speed = NORMAL_SPEED;
                playback.play_reverse();
            },
        }
    }
    if keys.k {
        playback.speed = NORMAL_SPEED;
        playback.stop();
    }
    if keys.space {
        playback.speed = NORMAL_SPEED;
        playback.toggle_play();
    }
}

/// The clips in `order` go off the timeline, which is kept for undo before.
pub open spec fn cleared_in_order(a: Edited, b: Edited, order: Seq<TimelineClipId>) -> bool {
    exists|m: Edited| #[trigger]
        kept_for_undo(a, m) && b.history == m.history && b.timeline@ == removed_all(
            a.timeline@,
            order,
        )
}

/// The selected clips go off the timeline in some order, each with the clip it is linked
/// to.
pub open spec fn cleared(a: Edited, b: Edited, selected: Set<u128>) -> bool {
    exists|order: Seq<TimelineClipId>|
        lists_all(order, selected) && #[trigger] cleared_in_order(a, b, order)
}

/// What the keys make of the timeline and of what can be undone: the selected clips go,
/// then an edit is undone, or done again.
pub open spec fn edited_by_keys(keys: Keys, a: Edited, b: Edited, selected: Set<u128>) -> bool {
    exists|m: Edited| #[trigger]
        key_deleted(keys, a, m, selected) && if keys.undoes() {
            stepped_back(m, b)
        } else if keys.redoes() {
            stepped_forward(m, b)
        } else {
            b == m
        }
}

/// What the delete keys make of the timeline.
pub open spec fn key_deleted(keys: Keys, a: Edited, b: Edited, selected: Set<u128>) -> bool {
    if keys.deletes() && !(selected =~= Set::empty()) {
        cleared(a, b, selected)
    } else {
        b == a
    }
}

/// Lets the keys work on the transport, on the selected clips, and on what can be
/// undone.
pub fn handle_keyboard(keys: Keys, project: &mut ProjectState, selection: &mut Selection)
    requires
        old(project).playback.speed * 2 >= i64::MIN,
    ensures
        final(project).playback == keys.played(old(project).playback),
        final(project).same_but_edited(
            ProjectState { playback: final(project).playback, ..*old(project) },
        ),
        edited_by_keys(
            keys,
            old(project).edited(),
            final(project).edited(),
            old(selection).selected_timeline_clips@,
        ),
        final(selection).selected_timeline_clips@ == if keys.deletes() {
            Set::empty()
        } else {
            old(selection).selected_timeline_clips@
        },
        final(selection).same_but_timeline(*old(selection)),
{
    let ghost start = project.edited();
    let ghost selected = selection.selected_timeline_clips@;
    play_keys(keys, &mut project.playback);
    if keys.delete || keys.backspace {
        if !selection.selected_timeline_clips.is_empty() {
            project.snapshot_for_undo();
            let ghost kept = project.edited();
            let ids = selection.drain_timeline_clips();
            project.timeline.remove_clips(&ids);
            assert(kept_for_undo(start, kept));
            assert(cleared_in_order(start, project.edited(), ids@));
            assert(cleared(start, project.edited(), selected));
        } else {
            assert(selected =~= Set::empty());
        }
    }
    let ghost m = project.edited();
    assert(key_deleted(keys, start, m, selected));
    if keys.command && !keys.shift && keys.z {
        project.undo();
    }
    if keys.command && keys.shift && keys.z {
        project.redo();
    }
    assert(edited_by_keys(keys, start, project.edited(), selected));
}

/// The keys never leave the transport at a speed above the highest one, nor turn it back
/// in time.
pub proof fn law_key_speed_bounded(keys: Keys, p: Playback)
    requires
        0 < p.speed <= TOP_SPEED,
    ensures
        0 < keys.played(p).speed <= TOP_SPEED,
        keys.played(p).playhead == p.playhead,
{
}

/// With L alone playback goes forward: at normal speed where it did not, and otherwise
/// twice as fast, up to four times the normal speed. J does the same in reverse.
pub proof fn law_shuttle_keys_double_speed(p: Playback)
    requires
        0 < p.speed <= 4000,
    ensures
        ({
            let none = Keys {
                l: false,
                j: false,
                k: false,
                space: false,
                delete: false,
                backspace: false,
                z: false,
                command: false,
                shift: false,
            };
            let l = (Keys { l: true, ..none }).played(p);
            let j = (Keys { j: true, ..none }).played(p);
            &&& none.played(p) == p
            &&& l.state == PlaybackState::Playing && l.playhead == p.playhead
            &&& j.state == PlaybackState::PlayingReverse && j.playhead == p.playhead
            &&& p.state != PlaybackState::Playing ==> l.speed == 1000
            &&& p.state != PlaybackState::PlayingReverse ==> j.speed == 1000
            &&& p.state == PlaybackState::Playing && p.speed <= 2000 ==> l.speed == 2 * p.speed
            &&& p.state == PlaybackState::Playing && p.speed >= 2000 ==> l.speed == 4000
            &&& p.state == PlaybackState::PlayingReverse && p.speed <= 2000 ==> j.speed == 2
                * p.speed
            &&& p.state == PlaybackState::PlayingReverse && p.speed >= 2000 ==> j.speed == 4000
        }),
{
}

/// K stops playback, whatever other shuttle key is held with it; the space bar starts what
/// rests and stops what plays. Both go back to normal speed, and leave the playhead where
/// it is.
pub proof fn law_stop_keys_rest(keys: Keys, p: Playback)
    requires
        0 < p.speed <= 4000,
    ensures
        keys.k && !keys.space ==> keys.played(p) == (Playback {
            state: PlaybackState::Stopped,
            speed: 1000,
            playhead: p.playhead,
        }),
        keys.space && !keys.l && !keys.j && !keys.k ==> keys.played(p) == (Playback {
            state: if p.state == PlaybackState::Stopped {
                PlaybackState::Playing
            } else {
                PlaybackState::Stopped
            },
            speed: 1000,
            playhead: p.playhead,
        }),
{
}

/// Where the identifiers differ and links are mutual, the delete key takes the selected
/// clips off the timeline, each with the clip linked to it, and leaves all others as they
/// were; and undo gives the timeline back.
pub proof fn law_delete_key_clears_selection(
    keys: Keys,
    a: Edited,
    b: Edited,
    end: Edited,
    selected: Set<u128>,
)
    requires
        keys.delete || keys.backspace,
        !(keys.command && keys.z),
        edited_by_keys(keys, a, b, selected),
        unique_clips(a.timeline@),
        links_are_mutual(a.timeline@),
    ensures
        forall|c: TimelineClip| #[trigger]
            on_timeline(b.timeline@, c) <==> on_timeline(a.timeline@, c) && !selected.contains(
                c.id.0,
            ) && !(exists|d: TimelineClip| #[trigger]
                on_timeline(a.timeline@, d) && selected.contains(d.id.0) && d.linked_to == Some(
                    c.id,
                )),
        !(selected =~= Set::empty()) && stepped_back(b, end) ==> end.timeline@ == a.timeline@,
{
    if selected =~= Set::<u128>::empty() {
        assert(b == a);
        assert forall|c: TimelineClip| !selected.contains(#[trigger] c.id.0) by {}
    } else {
        let order = choose|order: Seq<TimelineClipId>|
            lists_all(order, selected) && #[trigger] cleared_in_order(a, b, order);
        let m = choose|m: Edited| #[trigger]
            kept_for_undo(a, m) && b.history == m.history && b.timeline@ == removed_all(
                a.timeline@,
                order,
            );
        assert forall|id: TimelineClipId| order.contains(id) <==> #[trigger] selected.contains(
            id.0,
        ) by {
            if selected.contains(id.0) {
                let i = choose|i: int| 0 <= i < order.len() && #[trigger] order[i].0 == id.0;
                assert(order[i] == id);
            }
        }
        law_removed_with_their_links(a.timeline@, order);
        if stepped_back(b, end) {
            crate::project::law_undo_takes_back_edit(a, m, b, end);
        }
    }
}

/// With the undo keys alone the last edit is taken back, with the redo keys alone the
/// last undo; with none of them, and nothing to delete, nothing changes.
pub proof fn law_undo_keys(keys: Keys, a: Edited, b: Edited, selected: Set<u128>)
    requires
        edited_by_keys(keys, a, b, selected),
        !(keys.delete || keys.backspace) || selected =~= Set::empty(),
    ensures
        !(keys.command && keys.z) ==> b == a,
        keys.command && keys.z && !keys.shift && a.history.past().len() > 0 ==> b.timeline
            == a.history.past().last() && b.history.past() == a.history.past().drop_last()
            && b.history.future().len() == a.history.future().len() + 1
            && b.history.future().last()@ == a.timeline@,
        keys.command && keys.z && keys.shift && a.history.future().len() > 0 ==> b.timeline
            == a.history.future().last() && b.history.future() == a.history.future().drop_last()
            && b.history.past().len() == a.history.past().len() + 1 && b.history.past().last()@
            == a.timeline@,
        keys.command && keys.z && !keys.shift && a.history.past().len() == 0 ==> b.timeline
            == a.timeline,
        keys.command && keys.z && keys.shift && a.history.future().len() == 0 ==> b.timeline
            == a.timeline,
{
}

} // verus!
