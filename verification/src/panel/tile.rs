//! What the tiles of the media browser show.

use vstd::prelude::*;

use crate::browse::BrowserUiState;
use crate::ids::ClipId;
use crate::selection::Selection;
use crate::tag::Tag;

verus! {

/// Begins a pass over the browser: no tile has been seen or pointed at.
pub fn begin_browsing(ui: &mut BrowserUiState, selection: &mut Selection)
    ensures
        final(ui).visible_clips@ == Seq::<ClipId>::empty(),
        *final(ui) == (BrowserUiState {
            hovered_scrub_t: None,
            visible_clips: final(ui).visible_clips,
            ..*old(ui)
        }),
        *final(selection) == (Selection { hovered_clip: None, ..*old(selection) }),
{
    selection.hovered_clip = None;
    ui.hovered_scrub_t = None;
    ui.visible_clips = Vec::new();
}

/// Ends a pass over the browser: where no tile was pointed at, none is.
pub fn end_browsing(ui: &mut BrowserUiState, any_over: bool)
    ensures
        *final(ui) == if any_over {
            *old(ui)
        } else {
            BrowserUiState { hover_active_clip: None, hover_started_at: None, ..*old(ui) }
        },
{
    if !any_over {
        ui.hover_active_clip = None;
        ui.hover_started_at = None;
    }
}

/// A tile is in sight. Where its preview plays, and it has not just been selected, it is
/// the one pointed at. Says whether it is.
pub fn see_tile(
    ui: &mut BrowserUiState,
    selection: &mut Selection,
    id: ClipId,
    ready: bool,
    place: Option<i64>,
) -> (r: bool)
    ensures
        r == (ready && old(selection).last_selected_clip != Some(id)),
        final(ui).visible_clips@ == old(ui).visible_clips@.push(id),
        *final(ui) == (BrowserUiState {
            hovered_scrub_t: if r {
                place
            } else {
                old(ui).hovered_scrub_t
            },
            visible_clips: final(ui).visible_clips,
            ..*old(ui)
        }),
        *final(selection) == (Selection {
            hovered_clip: if r {
                Some(id)
            } else {
                old(selection).hovered_clip
            },
            ..*old(selection)
        }),
{
    ui.visible_clips.push(id);
    let plays = ready && !(selection.primary_clip() == Some(id));
    if plays {
        selection.hovered_clip = Some(id);
        ui.hovered_scrub_t = place;
    }
    plays
}

/// What a tile shows.
#[derive(Debug, Clone, Copy, PartialEq, Eq, Structural)]
pub enum TilePicture {
    /// A frame of its preview.
    Frame(usize),
    /// Its thumbnail.
    Thumbnail,
    /// That a thumbnail is on its way.
    Waiting,
    /// That the file is sound alone.
    Sound,
    /// That there is no picture.
    NoPreview,
}

/// What a tile shows: the frame that the pointer chooses, or else the best there is.
pub fn tile_picture(
    frame: Option<usize>,
    has_thumbnail: bool,
    pending: bool,
    audio_only: bool,
) -> (r: TilePicture)
    ensures
        r == match frame {
            Some(i) => TilePicture::Frame(i),
            None => if has_thumbnail {
                TilePicture::Thumbnail
            } else if pending {
                TilePicture::Waiting
            } else if audio_only {
                TilePicture::Sound
            } else {
                TilePicture::NoPreview
            },
        },
{
    match frame {
        Some(i) => TilePicture::Frame(i),
        None => if has_thumbnail {
            TilePicture::Thumbnail
        } else if pending {
            TilePicture::Waiting
        } else if audio_only {
            TilePicture::Sound
        } else {
            TilePicture::NoPreview
        },
    }
}

/// Whether the browser is drawn again at once, and whether a tile is veiled because its
/// preview is still being made.
#[derive(Debug, Clone, Copy, PartialEq, Eq, Structural)]
pub struct TileMotion {
    pub repaint: bool,
    pub veil: bool,
}

/// What moves on a tile whose preview plays, or should.
pub fn tile_motion(plays: bool, has_frames: bool, loading: bool) -> (r: TileMotion)
    ensures
        r.veil == (plays && !has_frames && loading),
        r.repaint == (plays && (has_frames || loading)),
{
    TileMotion {
        veil: plays && !has_frames && loading,
        repaint: plays && (has_frames || loading),
    }
}

/// Adds a label to those that are looked for, or takes it away.
pub fn toggle_tag_filter(ui: &mut BrowserUiState, tag: Tag)
    ensures
        *final(ui) == (BrowserUiState {
            tag_filter_mask: old(ui).tag_filter_mask ^ tag.mask(),
            ..*old(ui)
        }),
{
    ui.tag_filter_mask = ui.tag_filter_mask ^ tag.bit();
}

} // verus!
