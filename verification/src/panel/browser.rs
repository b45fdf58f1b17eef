//! The media browser: its grid, what the pointer does on a thumbnail, and the menus.

use vstd::prelude::*;

use crate::browse::BrowserUiState;
use crate::clip::Clip;
use crate::ids::ClipId;
use crate::project::ProjectState;
use crate::selection::{members, Selection};
use crate::tag::Tag;
use crate::text::{trim_text, trimmed_end, trimmed_start};
use crate::timeline::trim::held;

verus! {

broadcast use vstd::std_specs::hash::group_hash_axioms;

/// What the browser asks the editor to do.
#[derive(Debug)]
pub enum BrowserAction {
    Nothing,
    ImportFolder(String),
}

/// How many thumbnails stand beside one another.
pub open spec fn columns(width: int, tile: int, spacing: int, count: int) -> int {
    let fit = (width + spacing) / (tile + spacing);
    let most = if count < 1 {
        1
    } else {
        count
    };
    let n = if fit < 1 {
        1
    } else {
        fit
    };
    if n < most {
        n
    } else {
        most
    }
}

/// How wide a thumbnail is.
pub open spec fn tile_width(width: int, spacing: int, columns: int) -> int {
    (width - spacing * (columns - 1)) / columns
}

/// The grid of thumbnails: how many stand beside one another, and how wide each is.
pub fn grid(width: u32, tile: u32, spacing: u32, count: usize) -> (r: (usize, u32))
    requires
        tile > 0,
        width >= 1,
        count <= u32::MAX,
    ensures
        r.0 == columns(width as int, tile as int, spacing as int, count as int),
        r.1 == tile_width(width as int, spacing as int, r.0 as int),
        r.0 >= 1,
{
    let fit: u64 = (width as u64 + spacing as u64) / (tile as u64 + spacing as u64);
    let most: u64 = if count < 1 {
        1
    } else {
        count as u64
    };
    let n: u64 = if fit < 1 {
        1
    } else {
        fit
    };
    let cols: u64 = if n < most {
        n
    } else {
        most
    };
    proof {
        if cols > 1 {
            lemma_columns_fit(fit as int, width + spacing, tile + spacing, cols as int);
        }
        assert(spacing * (cols - 1) <= width) by (nonlinear_arith)
            requires
                cols == 1 || cols * (tile + spacing) <= width + spacing,
                cols >= 1,
                tile >= 0,
                spacing >= 0,
                width >= 0,
        ;
        assert(0 <= spacing * (cols - 1)) by (nonlinear_arith)
            requires
                spacing >= 0,
                cols >= 1,
        ;
    }
    let used: u64 = spacing as u64 * (cols - 1);
    let w: u64 = (width as u64 - used) / cols;
    (cols as usize, w as u32)
}

proof fn lemma_columns_fit(fit: int, n: int, d: int, cols: int)
    requires
        fit == n / d,
        0 < d,
        0 <= n,
        0 <= cols <= fit,
    ensures
        cols * d <= n,
{
    assert(fit * d <= n) by (nonlinear_arith)
        requires
            fit == n / d,
            0 < d,
    ;
    assert(cols * d <= fit * d) by (nonlinear_arith)
        requires
            cols <= fit,
            0 < d,
    ;
}

/// The state of the browser and whether the preview plays, after a look at a thumbnail.
pub open spec fn hovered(ui: BrowserUiState, id: ClipId, over: bool, now: i64) -> (
    Option<ClipId>,
    Option<i64>,
) {
    if over && ui.hover_active_clip != Some(id) {
        (Some(id), Some(now))
    } else {
        (ui.hover_active_clip, ui.hover_started_at)
    }
}

/// The pointer rests this long on a thumbnail before its preview plays.
pub const HOVER_SCRUB_DELAY: i64 = 300_000_000;

/// The pointer has been on the thumbnail for long enough that its preview plays. The
/// thumbnail that was selected last has its own bar for that.
pub open spec fn preview_plays(
    active: Option<ClipId>,
    since: Option<i64>,
    id: ClipId,
    primary: bool,
    over: bool,
    now: int,
    delay: int,
) -> bool {
    !primary && over && active == Some(id) && (since matches Some(t) && now - t >= delay)
}

/// What a look at a thumbnail gives: whether its preview plays, and how long until it
/// does, where the pointer is on it.
#[derive(Debug, Clone, Copy, PartialEq, Eq, Structural)]
pub struct HoverStep {
    pub ready: bool,
    pub repaint_after: Option<i64>,
}

/// Looks at a thumbnail: notes when the pointer came on it, and says whether its preview
/// plays.
pub fn look_at_thumbnail(
    ui: &mut BrowserUiState,
    id: ClipId,
    primary: bool,
    over: bool,
    now: i64,
    delay: i64,
) -> (r: HoverStep)
    requires
        crate::time::in_time(now as int),
        crate::time::in_time(delay as int),
        old(ui).hover_started_at matches Some(t) ==> crate::time::in_time(t as int),
    ensures
        final(ui).hover_active_clip == hovered(*old(ui), id, over, now).0,
        final(ui).hover_started_at == hovered(*old(ui), id, over, now).1,
        *final(ui) == (BrowserUiState {
            hover_active_clip: final(ui).hover_active_clip,
            hover_started_at: final(ui).hover_started_at,
            ..*old(ui)
        }),
        ({
            let (active, since) = hovered(*old(ui), id, over, now);
            &&& r.ready == preview_plays(
                active,
                since,
                id,
                primary,
                over,
                now as int,
                delay as int,
            )
            &&& r.repaint_after == if !primary && over && active == Some(id) && since is Some
                && delay - (now - since->0) > 0 {
                Some((delay - (now - since->0)) as i64)
            } else {
                None
            }
        }),
{
    if over && !(ui.hover_active_clip == Some(id)) {
        ui.hover_active_clip = Some(id);
        ui.hover_started_at = Some(now);
    }
    let mut ready = false;
    let mut repaint_after: Option<i64> = None;
    if !primary && over && ui.hover_active_clip == Some(id) {
        if let Some(since) = ui.hover_started_at {
            let remaining: i64 = delay - (now - since);
            ready = remaining <= 0;
            if remaining > 0 {
                repaint_after = Some(remaining);
            }
        }
    }
    HoverStep { ready, repaint_after }
}

/// Where along a thumbnail the pointer is, in millionths.
pub open spec fn along(x: int, left: int, width: int) -> int {
    held((x - left) * 1_000_000 / width, 0, 1_000_000)
}

/// Where along a thumbnail the pointer is, in millionths.
pub fn pointer_along(x: i64, left: i64, width: i64) -> (r: i64)
    requires
        0 < width,
        crate::panel::pixels::in_pixels(x as int),
        crate::panel::pixels::in_pixels(left as int),
    ensures
        r == along(x as int, left as int, width as int),
        0 <= r <= 1_000_000,
{
    let d: i64 = x - left;
    if d < 0 {
        proof {
            assert((d * 1_000_000) / (width as int) < 0) by (nonlinear_arith)
                requires
                    d < 0,
                    width > 0,
            ;
        }
        return 0;
    }
    let at: i64 = d * 1_000_000 / width;
    if at > 1_000_000 {
        1_000_000
    } else {
        at
    }
}

/// The frame of a preview that is shown at a place along the thumbnail.
pub open spec fn frame_at(t: int, frames: int) -> int {
    let i = held(t, 0, 1_000_000) * frames / 1_000_000;
    if i < frames - 1 {
        i
    } else {
        frames - 1
    }
}

/// The frame of a preview that is shown; none where there are no frames, or where neither
/// the selected thumbnail is scrubbed nor the preview plays.
pub fn scrub_frame(
    frames: usize,
    primary: bool,
    selected_t: Option<i64>,
    ready: bool,
    hover_t: Option<i64>,
) -> (r: Option<usize>)
    requires
        frames <= u32::MAX,
    ensures
        r == if frames == 0 {
            None
        } else if primary {
            match selected_t {
                Some(t) => Some(frame_at(t as int, frames as int) as usize),
                None => None,
            }
        } else if ready {
            Some(
                frame_at(
                    match hover_t {
                        Some(t) => t as int,
                        None => 0,
                    },
                    frames as int,
                ) as usize,
            )
        } else {
            None
        },
        r matches Some(i) ==> i < frames,
{
    if frames == 0 {
        return None;
    }
    if primary {
        match selected_t {
            Some(t) => Some(find_frame(t, frames)),
            None => None,
        }
    } else if ready {
        let t: i64 = match hover_t {
            Some(t) => t,
            None => 0,
        };
        Some(find_frame(t, frames))
    } else {
        None
    }
}

fn find_frame(t: i64, frames: usize) -> (r: usize)
    requires
        0 < frames <= u32::MAX,
    ensures
        r == frame_at(t as int, frames as int),
        r < frames,
{
    let at: u64 = if t < 0 {
        0
    } else if t > 1_000_000 {
        1_000_000
    } else {
        t as u64
    };
    proof {
        assert(0 <= at * frames <= 1_000_000 * 0xffff_ffff) by (nonlinear_arith)
            requires
                0 <= at <= 1_000_000,
                0 <= frames <= 0xffff_ffff,
        ;
    }
    let i: u64 = at * frames as u64 / 1_000_000;
    if i < frames as u64 - 1 {
        i as usize
    } else {
        frames - 1
    }
}

/// The selection after a click on a thumbnail: with the command key the file is selected
/// or deselected, with the shift key all from the one selected last, and otherwise it
/// alone.
pub fn click_thumbnail(
    selection: &mut Selection,
    id: ClipId,
    command: bool,
    shift: bool,
    shown: &Vec<ClipId>,
    hover_t: Option<i64>,
    click_t: Option<i64>,
)
    ensures
        final(selection).selected_scrub_t == match hover_t {
            Some(t) => Some(t),
            None => click_t,
        },
        final(selection).hovered_clip == old(selection).hovered_clip,
        final(selection).selected_timeline_clips@ == old(selection).selected_timeline_clips@,
        command ==> crate::selection::clip_toggled(*old(selection), *final(selection), id),
        !command && shift ==> match old(selection).last_selected_clip {
            None => final(selection).only(id),
            Some(a) => if shown@.contains(a) && shown@.contains(id) {
                &&& final(selection).last_selected_clip == Some(id)
                &&& forall|i: int, j: int| #[trigger]
                    crate::selection::first_in(shown@, a, i)
                        && #[trigger] crate::selection::first_in(shown@, id, j)
                        ==> final(selection).selected_clips@ == crate::selection::ids_between(
                        shown@,
                        i,
                        j,
                    )
            } else {
                final(selection).only(id)
            },
        },
        !command && !shift ==> final(selection).only(id),
{
    if command {
        selection.toggle_clip(id);
    } else if shift {
        let anchor = selection.last_selected_clip;
        selection.select_range(anchor, id, shown);
    } else {
        selection.select_single(id);
    }
    selection.selected_scrub_t = if hover_t.is_some() {
        hover_t
    } else {
        click_t
    };
}

/// The files among `shown` that are selected.
pub open spec fn selected_of(shown: Seq<ClipId>, selected: Set<u128>) -> Seq<ClipId>
    decreases shown.len(),
{
    if shown.len() == 0 {
        shown
    } else if selected.contains(shown.last().0) {
        selected_of(shown.drop_last(), selected).push(shown.last())
    } else {
        selected_of(shown.drop_last(), selected)
    }
}

/// The files that are dragged from a thumbnail: all selected ones in the order shown,
/// where it is one of them, and otherwise it alone.
pub fn drag_payload(selection: &Selection, id: ClipId, shown: &Vec<ClipId>) -> (r: Vec<ClipId>)
    ensures
        r@ == if selection.selected_clips@.contains(id.0) {
            selected_of(shown@, selection.selected_clips@)
        } else {
            seq![id]
        },
{
    let mut out: Vec<ClipId> = Vec::new();
    if !selection.is_clip_selected(id) {
        out.push(id);
        assert(out@ =~= seq![id]);
        return out;
    }
    let mut i: usize = 0;
    while i < shown.len()
        invariant
            i <= shown@.len(),
            out@ == selected_of(shown@.take(i as int), selection.selected_clips@),
        decreases shown@.len() - i,
    {
        assert(shown@.take(i + 1).drop_last() =~= shown@.take(i as int));
        assert(shown@.take(i + 1).last() == shown@[i as int]);
        if selection.is_clip_selected(shown[i]) {
            out.push(shown[i]);
        }
        i += 1;
    }
    assert(shown@.take(i as int) =~= shown@);
    out
}

impl ProjectState {
    /// Whether all selected files are starred.
    pub fn all_starred(&self, selected: &Vec<u128>) -> (r: bool)
        ensures
            r == selected@.to_set().subset_of(self.starred@),
    {
        let mut i: usize = 0;
        while i < selected.len()
            invariant
                i <= selected@.len(),
                forall|k: int| 0 <= k < i ==> self.starred@.contains(#[trigger] selected@[k]),
            decreases selected@.len() - i,
        {
            if !self.starred.contains(&selected[i]) {
                assert(selected@.to_set().contains(selected@[i as int]));
                return false;
            }
            i += 1;
        }
        assert(selected@.to_set().subset_of(self.starred@)) by {
            assert forall|n: u128| selected@.to_set().contains(n) implies self.starred@.contains(
                n,
            ) by {
                let k = choose|k: int| 0 <= k < selected@.len() && selected@[k] == n;
                assert(self.starred@.contains(selected@[k]));
            }
        }
        true
    }

    /// Stars all selected files, or unstars them where all are starred.
    pub fn star_selected(&mut self, selection: &Selection)
        ensures
            final(self).starred@ == if selection.selected_clips@.subset_of(old(self).starred@) {
                old(self).starred@.difference(selection.selected_clips@)
            } else {
                old(self).starred@.union(selection.selected_clips@)
            },
            final(self).clips@ == old(self).clips@,
            final(self).clip_order@ == old(self).clip_order@,
            final(self).clip_tags@ == old(self).clip_tags@,
            final(self).timeline == old(self).timeline,
            final(self).playback == old(self).playback,
            final(self).history == old(self).history,
    {
        let ids = members(&selection.selected_clips);
        let all = self.all_starred(&ids);
        let ghost before = self.starred@;
        let mut i: usize = 0;
        while i < ids.len()
            invariant
                i <= ids@.len(),
                self.starred@ == if all {
                    before.difference(ids@.take(i as int).to_set())
                } else {
                    before.union(ids@.take(i as int).to_set())
                },
                self.clips@ == old(self).clips@,
                self.clip_order@ == old(self).clip_order@,
                self.clip_tags@ == old(self).clip_tags@,
                self.timeline == old(self).timeline,
                self.playback == old(self).playback,
                self.history == old(self).history,
            decreases ids@.len() - i,
        {
            let n: u128 = ids[i];
            if all {
                self.starred.remove(&n);
            } else {
                self.starred.insert(n);
            }
            proof {
                lemma_take_set(ids@, i as int);
                assert(self.starred@ =~= if all {
                    before.difference(ids@.take(i + 1).to_set())
                } else {
                    before.union(ids@.take(i + 1).to_set())
                });
            }
            i += 1;
        }
        assert(ids@.take(i as int) =~= ids@);
    }

    /// All selected files have the label.
    pub open spec fn all_tagged(self, selected: Set<u128>, tag: Tag) -> bool {
        forall|n: u128| #[trigger]
            selected.contains(n) ==> self.tags(ClipId(n)) & tag.mask() != 0
    }

    /// Whether all selected files have the label.
    pub fn have_all_tag(&self, selected: &Vec<u128>, tag: Tag) -> (r: bool)
        ensures
            r == self.all_tagged(selected@.to_set(), tag),
    {
        let mut i: usize = 0;
        while i < selected.len()
            invariant
                i <= selected@.len(),
                forall|k: int|
                    0 <= k < i ==> self.tags(ClipId(#[trigger] selected@[k])) & tag.mask() != 0,
            decreases selected@.len() - i,
        {
            if (self.clip_tag_mask(ClipId(selected[i])) & tag.bit()) == 0 {
                assert(selected@.to_set().contains(selected@[i as int]));
                return false;
            }
            i += 1;
        }
        assert forall|n: u128| #[trigger] selected@.to_set().contains(n) implies self.tags(
            ClipId(n),
        ) & tag.mask() != 0 by {
            let k = choose|k: int| 0 <= k < selected@.len() && selected@[k] == n;
            assert(self.tags(ClipId(selected@[k])) & tag.mask() != 0);
        }
        true
    }

    /// Gives all selected files the label, or takes it from them where all have it.
    pub fn tag_selected(&mut self, selection: &Selection, tag: Tag)
        ensures
            ({
                let selected = selection.selected_clips@;
                let all = old(self).all_tagged(selected, tag);
                &&& final(self).clip_tags@.dom() == old(self).clip_tags@.dom().union(selected)
                &&& forall|n: u128| #[trigger]
                    final(self).clip_tags@.contains_key(n) ==> final(self).clip_tags@[n]
                        == if selected.contains(n) {
                        if all {
                            old(self).tags(ClipId(n)) & !tag.mask()
                        } else {
                            old(self).tags(ClipId(n)) | tag.mask()
                        }
                    } else {
                        old(self).clip_tags@[n]
                    }
            }),
            old(self).relabelled_in(*final(self), selection.selected_clips@),
            old(self).searchable() ==> final(self).searchable(),
            final(self).clip_order@ == old(self).clip_order@,
            final(self).starred@ == old(self).starred@,
            final(self).timeline == old(self).timeline,
            final(self).playback == old(self).playback,
            final(self).history == old(self).history,
    {
        let ids = members(&selection.selected_clips);
        let all = self.have_all_tag(&ids, tag);
        let mut i: usize = 0;
        while i < ids.len()
            invariant
                i <= ids@.len(),
                ids@.no_duplicates(),
                self.clip_tags@.dom() == old(self).clip_tags@.dom().union(
                    ids@.take(i as int).to_set(),
                ),
                forall|n: u128| #[trigger]
                    self.clip_tags@.contains_key(n) ==> self.clip_tags@[n] == if ids@.take(
                        i as int,
                    ).to_set().contains(n) {
                        if all {
                            old(self).tags(ClipId(n)) & !tag.mask()
                        } else {
                            old(self).tags(ClipId(n)) | tag.mask()
                        }
                    } else {
                        old(self).clip_tags@[n]
                    },
                old(self).relabelled_in(*self, ids@.take(i as int).to_set()),
                self.clip_order@ == old(self).clip_order@,
                self.starred@ == old(self).starred@,
                self.timeline == old(self).timeline,
                self.playback == old(self).playback,
                self.history == old(self).history,
            decreases ids@.len() - i,
        {
            let n: u128 = ids[i];
            let ghost before_tags = *self;
            let mask: u32 = self.clip_tag_mask(ClipId(n));
            proof {
                lemma_take_set(ids@, i as int);
                assert(!ids@.take(i as int).to_set().contains(n)) by {
                    if ids@.take(i as int).contains(n) {
                        let k = choose|k: int|
                            0 <= k < ids@.take(i as int).len() && ids@.take(i as int)[k] == n;
                        assert(ids@[k] == ids@[i as int]);
                    }
                }
                assert(mask == old(self).tags(ClipId(n)));
            }
            let bit: u32 = tag.bit();
            self.clip_tags.insert(
                n,
                if all {
                    mask & !bit
                } else {
                    mask | bit
                },
            );
            let ghost tagged = *self;
            self.rebuild_clip_search_haystack(ClipId(n));
            proof {
                let done = ids@.take(i + 1).to_set();
                assert forall|m: u128| #[trigger] self.clips@.contains_key(m) implies if done.contains(
                    m,
                ) {
                    crate::project::relabelled(
                        old(self).clips@[m],
                        self.clips@[m],
                        self.tags(ClipId(m)),
                    )
                } else {
                    self.clips@[m] == old(self).clips@[m]
                } by {
                    assert(tagged.clips@.contains_key(m));
                    assert(before_tags.clips@.contains_key(m));
                    if m != n {
                        assert(self.tags(ClipId(m)) == before_tags.tags(ClipId(m)));
                    }
                }
            }
            assert(self.clip_tags@.dom() =~= old(self).clip_tags@.dom().union(
                ids@.take(i + 1).to_set(),
            ));
            i += 1;
        }
        assert(ids@.take(i as int) =~= ids@);
        proof {
            if old(self).searchable() {
                assert forall|m: u128| #[trigger] self.clips@.contains_key(
                    m,
                ) implies self.clips@[m].search_haystack@ == self.clips@[m].haystack(
                    self.tags(ClipId(m)),
                ) by {
                    assert(old(self).clips@.contains_key(m));
                    if !selection.selected_clips@.contains(m) {
                        assert(self.tags(ClipId(m)) == old(self).tags(ClipId(m)));
                    }
                }
            }
        }
    }
}

proof fn lemma_take_set(ids: Seq<u128>, i: int)
    requires
        0 <= i < ids.len(),
    ensures
        ids.take(i + 1).to_set() == ids.take(i).to_set().insert(ids[i]),
{
    let more = ids.take(i + 1);
    let less = ids.take(i);
    assert(more =~= less.push(ids[i]));
    assert(more.to_set() =~= less.to_set().insert(ids[i])) by {
        assert forall|c: u128| more.to_set().contains(c) <==> less.to_set().insert(
            ids[i],
        ).contains(c) by {
            if less.contains(c) {
                let x = choose|x: int| 0 <= x < less.len() && less[x] == c;
                assert(more[x] == c);
            }
            if more.contains(c) && c != ids[i] {
                let x = choose|x: int| 0 <= x < more.len() && more[x] == c;
                assert(less[x] == c);
            }
            assert(more[i] == ids[i]);
        }
    }
}

/// A media file under a new name.
pub open spec fn renamed(before: Clip, after: Clip, name: Seq<char>, mask: u32) -> bool {
    &&& after.id == before.id
    &&& after.path == before.path
    &&& after.filename == before.filename
    &&& after.display_name matches Some(n) && n@ == name
    &&& after.duration == before.duration
    &&& after.resolution == before.resolution
    &&& after.codec == before.codec
    &&& after.audio_only == before.audio_only
    &&& after.search_haystack@ == after.haystack(mask)
}

/// Ends the renaming of a file. Unless it was given up, or the new name is blank, the
/// file is shown under the new name from then on.
pub fn finish_rename(
    project: &mut ProjectState,
    ui: &mut BrowserUiState,
    id: ClipId,
    given_up: bool,
)
    ensures
        ({
            let name = trimmed_end(trimmed_start(old(ui).rename_buffer@));
            let renames = !given_up && name.len() > 0 && old(project).clips@.contains_key(id.0);
            &&& final(project).clips@.dom() == old(project).clips@.dom()
            &&& forall|n: u128|
                old(project).clips@.contains_key(n) && (n != id.0 || !renames)
                    ==> #[trigger] final(project).clips@[n] == old(project).clips@[n]
            &&& renames ==> renamed(
                old(project).clips@[id.0],
                final(project).clips@[id.0],
                name,
                old(project).tags(id),
            )
        }),
        old(project).searchable() ==> final(project).searchable(),
        final(project).clip_order@ == old(project).clip_order@,
        final(project).starred@ == old(project).starred@,
        final(project).clip_tags@ == old(project).clip_tags@,
        final(project).timeline == old(project).timeline,
        final(project).playback == old(project).playback,
        final(project).history == old(project).history,
        final(ui).renaming_clip is None,
        final(ui).rename_buffer@ == Seq::<char>::empty(),
        *final(ui) == (BrowserUiState {
            renaming_clip: None,
            rename_buffer: final(ui).rename_buffer,
            ..*old(ui)
        }),
{
    if !given_up {
        let name = trim_text(ui.rename_buffer.as_str());
        if !name.as_str().is_empty() {
            let mask: u32 = project.clip_tag_mask(id);
            match project.clips.remove(&id.0) {
                Some(found) => {
                    let mut clip = found;
                    clip.display_name = Some(name);
                    clip.rebuild_search_haystack(mask);
                    project.clips.insert(id.0, clip);
                    assert(project.clips@.dom() =~= old(project).clips@.dom());
                },
                None => {
                    assert(project.clips@ =~= old(project).clips@);
                },
            }
        }
    }
    ui.renaming_clip = None;
    ui.rename_buffer = String::new();
}

/// Starring the selected files twice, from none starred, leaves none starred.
pub proof fn law_star_twice(starred: Set<u128>, selected: Set<u128>)
    requires
        starred.disjoint(selected),
        !(selected =~= Set::empty()),
    ensures
        ({
            let once = if selected.subset_of(starred) {
                starred.difference(selected)
            } else {
                starred.union(selected)
            };
            let twice = if selected.subset_of(once) {
                once.difference(selected)
            } else {
                once.union(selected)
            };
            twice =~= starred
        }),
{
    let n = choose|n: u128| selected.contains(n);
    assert(selected.contains(n)) by {
        if forall|m: u128| !selected.contains(m) {
            assert(selected =~= Set::empty());
        }
    }
    assert(!starred.contains(n));
}

/// As many thumbnails stand beside one another as fit with the gaps between them, but at
/// least one, and no more than there are; and together they are as wide as the panel, but
/// for less than a unit each.
pub proof fn law_grid_fits(width: int, tile: int, spacing: int, count: int)
    requires
        0 < width,
        0 < tile,
        0 <= spacing,
        0 <= count,
    ensures
        ({
            let n = columns(width, tile, spacing, count);
            let w = tile_width(width, spacing, n);
            &&& 1 <= n
            &&& count >= 1 ==> n <= count
            &&& n > 1 ==> n * tile + (n - 1) * spacing <= width
            &&& n < count ==> (n + 1) * tile + n * spacing > width
            &&& n * w + spacing * (n - 1) <= width < n * w + spacing * (n - 1) + n
        }),
{
    let n = columns(width, tile, spacing, count);
    let fit = (width + spacing) / (tile + spacing);
    vstd::arithmetic::div_mod::lemma_fundamental_div_mod(width + spacing, tile + spacing);
    vstd::arithmetic::div_mod::lemma_mod_bound(width + spacing, tile + spacing);
    let rest = (width + spacing) % (tile + spacing);
    assert((tile + spacing) * fit + rest == width + spacing);
    if n > 1 {
        assert(n * tile + (n - 1) * spacing <= width) by (nonlinear_arith)
            requires
                n <= fit,
                (tile + spacing) * fit + rest == width + spacing,
                0 <= rest,
                0 < tile + spacing,
        ;
    }
    if n < count {
        assert((n + 1) * tile + n * spacing > width) by (nonlinear_arith)
            requires
                n >= fit,
                (tile + spacing) * fit + rest == width + spacing,
                rest < tile + spacing,
                0 < tile + spacing,
        ;
    }
    let left = width - spacing * (n - 1);
    vstd::arithmetic::div_mod::lemma_fundamental_div_mod(left, n);
    vstd::arithmetic::div_mod::lemma_mod_bound(left, n);
}

/// The place along a thumbnail is nothing at its left end, everything at its right end,
/// never decreases from left to right, and lies between the two beyond them.
pub proof fn law_place_along_thumbnail(x: int, y: int, left: int, width: int)
    requires
        0 < width,
        x <= y,
    ensures
        along(left, left, width) == 0,
        along(left + width, left, width) == 1_000_000,
        along(x, left, width) <= along(y, left, width),
        0 <= along(x, left, width) <= 1_000_000,
        left <= x <= left + width ==> along(x, left, width) * width <= (x - left) * 1_000_000 < (along(
            x,
            left,
            width,
        ) + 1) * width,
{
    let a = (x - left) * 1_000_000;
    let b = (y - left) * 1_000_000;
    vstd::arithmetic::div_mod::lemma_div_is_ordered(a, b, width);
    vstd::arithmetic::div_mod::lemma_fundamental_div_mod(a, width);
    vstd::arithmetic::div_mod::lemma_mod_bound(a, width);
    let q = a / width;
    let r = a % width;
    assert(a == width * q + r && 0 <= r < width);
    assert(0int * 1_000_000 / width == 0) by {
        vstd::arithmetic::div_mod::lemma_div_basics(width);
    }
    assert(width * 1_000_000 / width == 1_000_000) by {
        vstd::arithmetic::div_mod::lemma_div_multiples_vanish(1_000_000, width);
    }
    assert(q * width == width * q && (q + 1) * width == width * q + width) by (nonlinear_arith);
    if left <= x <= left + width {
        assert(0 <= q <= 1_000_000) by (nonlinear_arith)
            requires
                a == width * q + r,
                0 <= r < width,
                0 <= a <= width * 1_000_000,
        ;
    }
}

/// The picture under the pointer is one of those there are: the first at the left end, the
/// last at the right, and in between as far along as the pointer is.
pub proof fn law_picture_under_pointer(t: int, u: int, frames: int)
    requires
        0 < frames,
        0 <= t <= u <= 1_000_000,
    ensures
        0 <= frame_at(t, frames) < frames,
        frame_at(0, frames) == 0,
        frame_at(1_000_000, frames) == frames - 1,
        frame_at(t, frames) <= frame_at(u, frames),
        t < 1_000_000 ==> frame_at(t, frames) * 1_000_000 <= t * frames < (frame_at(t, frames) + 1)
            * 1_000_000,
{
    assert(0 <= t * frames <= u * frames) by (nonlinear_arith)
        requires
            0 < frames,
            0 <= t <= u,
    ;
    if t < 1_000_000 {
        assert(t * frames <= 999_999 * frames) by (nonlinear_arith)
            requires
                t <= 999_999,
                0 < frames,
        ;
    }
    assert(0 * frames == 0) by (nonlinear_arith);
    assert(1_000_000 * frames / 1_000_000 == frames);
}

/// What is dragged out of the browser are the selected files among those shown, in the
/// order in which they are shown.
pub proof fn law_dragged_files_are_those_selected(
    shown: Seq<ClipId>,
    selected: Set<u128>,
    id: ClipId,
)
    ensures
        selected_of(shown, selected).contains(id) <==> shown.contains(id) && selected.contains(id.0),
        selected_of(shown, selected) == shown.filter(|x: ClipId| selected.contains(x.0)),
    decreases shown.len(),
{
    reveal(Seq::filter);
    if shown.len() > 0 {
        let init = shown.drop_last();
        let last = shown.last();
        law_dragged_files_are_those_selected(init, selected, id);
        let part = selected_of(init, selected);
        let all = selected_of(shown, selected);
        if shown.contains(id) {
            let i = choose|i: int| 0 <= i < shown.len() && shown[i] == id;
            if i < init.len() {
                assert(init[i] == id);
            }
        }
        if init.contains(id) {
            let i = choose|i: int| 0 <= i < init.len() && init[i] == id;
            assert(shown[i] == id);
        }
        assert(shown[shown.len() - 1] == last);
        if selected.contains(last.0) {
            assert(all == part.push(last));
            assert(all[all.len() - 1] == last);
            if part.contains(id) {
                let i = choose|i: int| 0 <= i < part.len() && part[i] == id;
                assert(all[i] == id);
            }
            if all.contains(id) {
                let i = choose|i: int| 0 <= i < all.len() && all[i] == id;
                if i < part.len() {
                    assert(part[i] == id);
                }
            }
        }
    }
}

/// A file that is renamed is shown under the new name, keeps all else, and is found by
/// the new name and by that of the file.
pub proof fn law_renamed_file_is_shown_so(
    before: Clip,
    after: Clip,
    name: Seq<char>,
    mask: u32,
)
    requires
        renamed(before, after, name, mask),
    ensures
        after.shown_name() == name,
        after.filename == before.filename && after.path == before.path && after.duration
            == before.duration,
        crate::text::occurs(after.search_haystack@, crate::text::lowercase(name)),
        crate::text::occurs(after.search_haystack@, crate::text::lowercase(before.filename@)),
{
    let hay = after.haystack(mask);
    let file = crate::text::lowercase(after.filename@);
    let own = crate::text::lowercase(name);
    assert(hay.subrange(0, file.len() as int) =~= file);
    assert(crate::text::occurs_at(hay, file, 0));
    let at = file.len() as int + 1;
    assert(hay.subrange(at, at + own.len()) =~= own);
    assert(crate::text::occurs_at(hay, own, at));
}

/// A preview plays under a pointer that has stayed on the thumbnail for the delay, and not
/// on the file that is selected; coming onto another thumbnail begins the wait anew.
pub proof fn law_preview_waits_for_the_pointer(
    ui: BrowserUiState,
    id: ClipId,
    now: i64,
    later_now: int,
    delay: int,
)
    requires
        0 < delay,
        ui.hover_active_clip != Some(id),
    ensures
        ({
            let (active, since) = hovered(ui, id, true, now);
            &&& active == Some(id) && since == Some(now)
            &&& preview_plays(active, since, id, false, true, later_now, delay) <==> later_now - now
                >= delay
            &&& !preview_plays(active, since, id, true, true, later_now, delay)
            &&& !preview_plays(active, since, id, false, false, later_now, delay)
        }),
        hovered(ui, id, false, now) == (ui.hover_active_clip, ui.hover_started_at),
{
}

} // verus!
