//! What is drawn on a clip of the timeline.

use vstd::prelude::*;

use crate::browse::TimelineUiState;
use crate::panel::layout::THUMB_WIDTH;
use crate::project::{ProjectState, TrimEdge};
use crate::selection::Selection;
use crate::timeline::clip::TimelineClip;
use crate::timeline::track::TrackKind;

verus! {

broadcast use vstd::std_specs::hash::group_hash_axioms;

/// A clip narrower than this has no thumbnail.
pub const THUMB_FROM: i64 = 20_000;

/// A clip that is not wider than this has no star.
pub const STAR_ABOVE: i64 = 25_000;

/// A clip narrower than this has no name.
pub const NAME_FROM: i64 = 30_000;

/// What there is to draw a clip with.
#[derive(Debug, Clone, Copy)]
pub struct ClipMeans {
    pub kind: TrackKind,
    pub width: i64,
    /// Waveforms can be drawn by the graphics card.
    pub gpu: bool,
    /// The waveform of its media file is known.
    pub has_peaks: bool,
    /// There is a thumbnail of its media file.
    pub has_thumbnail: bool,
    /// The end of the clip that the pointer is at.
    pub pointed: Option<TrimEdge>,
}

/// What is drawn on a clip.
#[derive(Debug, Clone, Copy, PartialEq, Eq, Structural)]
pub struct ClipFace {
    /// The graphics card draws its waveform, and its background with it.
    pub gpu_waveform: bool,
    /// Its waveform is drawn on its background.
    pub waveform: bool,
    /// How wide its thumbnail is.
    pub thumbnail: Option<i64>,
    pub name: bool,
    pub star: bool,
    pub selected: bool,
    pub dragged: bool,
    pub left_handle: bool,
    pub right_handle: bool,
    /// The pointer shows that the clip can be trimmed.
    pub resize_pointer: bool,
}

/// The clip is being trimmed.
pub open spec fn is_trimmed(ui: TimelineUiState, c: TimelineClip) -> bool {
    ui.trimming_clip matches Some(t) && t.clip_id == c.id
}

/// What is drawn on a clip.
pub open spec fn face_of(
    project: ProjectState,
    ui: TimelineUiState,
    selection: Selection,
    c: TimelineClip,
    m: ClipMeans,
) -> ClipFace {
    let gpu_waveform = m.kind == TrackKind::Audio && m.gpu && m.has_peaks;
    ClipFace {
        gpu_waveform,
        waveform: m.kind == TrackKind::Audio && m.has_peaks && !gpu_waveform,
        thumbnail: if m.kind == TrackKind::Video && m.width >= THUMB_FROM && m.has_thumbnail {
            Some(
                if m.width < THUMB_WIDTH {
                    m.width
                } else {
                    THUMB_WIDTH
                },
            )
        } else {
            None
        },
        name: m.width >= NAME_FROM && project.clips@.contains_key(c.source_id.0),
        star: m.width > STAR_ABOVE && project.starred@.contains(c.source_id.0),
        selected: selection.selected_timeline_clips@.contains(c.id.0),
        dragged: ui.dragging_clip == Some(c.id),
        left_handle: m.pointed == Some(TrimEdge::Left) || is_trimmed(ui, c),
        right_handle: m.pointed == Some(TrimEdge::Right) || is_trimmed(ui, c),
        resize_pointer: m.pointed is Some && ui.trimming_clip is None && ui.dragging_clip is None,
    }
}

/// What is drawn on a clip.
pub fn clip_face(
    project: &ProjectState,
    ui: &TimelineUiState,
    selection: &Selection,
    c: TimelineClip,
    m: ClipMeans,
) -> (r: ClipFace)
    ensures
        r == face_of(*project, *ui, *selection, c, m),
{
    let gpu_waveform = m.kind == TrackKind::Audio && m.gpu && m.has_peaks;
    let trimmed = match ui.trimming_clip {
        Some(t) => t.clip_id == c.id,
        None => false,
    };
    let thumbnail: Option<i64> = if m.kind == TrackKind::Video && m.width >= THUMB_FROM
        && m.has_thumbnail {
        Some(
            if m.width < THUMB_WIDTH {
                m.width
            } else {
                THUMB_WIDTH
            },
        )
    } else {
        None
    };
    let (left, right) = match m.pointed {
        Some(TrimEdge::Left) => (true, false),
        Some(TrimEdge::Right) => (false, true),
        None => (false, false),
    };
    ClipFace {
        gpu_waveform,
        waveform: m.kind == TrackKind::Audio && m.has_peaks && !gpu_waveform,
        thumbnail,
        name: m.width >= NAME_FROM && project.clips.contains_key(&c.source_id.0),
        star: m.width > STAR_ABOVE && project.starred.contains(&c.source_id.0),
        selected: selection.is_timeline_clip_selected(c.id),
        dragged: ui.dragging_clip == Some(c.id),
        left_handle: left || trimmed,
        right_handle: right || trimmed,
        resize_pointer: m.pointed.is_some() && ui.trimming_clip.is_none()
            && ui.dragging_clip.is_none(),
    }
}

/// A waveform is drawn at most once, and only for sound; a thumbnail only for pictures.
pub proof fn law_one_picture(
    project: ProjectState,
    ui: TimelineUiState,
    selection: Selection,
    c: TimelineClip,
    m: ClipMeans,
)
    ensures
        ({
            let f = face_of(project, ui, selection, c, m);
            &&& !(f.gpu_waveform && f.waveform)
            &&& (f.gpu_waveform || f.waveform) ==> m.kind == TrackKind::Audio && f.thumbnail is None
            &&& f.thumbnail matches Some(w) ==> m.kind == TrackKind::Video && w <= m.width
        }),
{
}

/// A starred file is starred wherever it appears: two clips of it that are wide enough
/// both carry the star, or neither does.
pub proof fn law_star_is_shared(
    project: ProjectState,
    ui: TimelineUiState,
    selection: Selection,
    c: TimelineClip,
    d: TimelineClip,
    m: ClipMeans,
    n: ClipMeans,
)
    requires
        c.source_id == d.source_id,
        m.width > STAR_ABOVE,
        n.width > STAR_ABOVE,
    ensures
        face_of(project, ui, selection, c, m).star == face_of(project, ui, selection, d, n).star,
        face_of(project, ui, selection, c, m).star == project.starred@.contains(c.source_id.0),
{
}

/// A clip looks selected where it is selected, dragged while it is dragged, and has the
/// handles of the end that the pointer is at, or of both while it is trimmed; a thumbnail
/// or a name is drawn where there is one and room for it.
pub proof fn law_face_tells_the_state(
    project: ProjectState,
    ui: TimelineUiState,
    selection: Selection,
    c: TimelineClip,
    m: ClipMeans,
)
    ensures
        ({
            let f = face_of(project, ui, selection, c, m);
            &&& f.selected <==> selection.selected_timeline_clips@.contains(c.id.0)
            &&& f.dragged <==> ui.dragging_clip == Some(c.id)
            &&& ui.trimming_clip is None ==> (f.left_handle <==> m.pointed == Some(TrimEdge::Left))
                && (f.right_handle <==> m.pointed == Some(TrimEdge::Right))
            &&& (ui.trimming_clip matches Some(t) && t.clip_id == c.id) ==> f.left_handle
                && f.right_handle
            &&& m.width >= 50_000 && m.kind == TrackKind::Video ==> (f.thumbnail is Some
                <==> m.has_thumbnail) && (f.name <==> project.clips@.contains_key(c.source_id.0))
            &&& m.kind == TrackKind::Audio && m.has_peaks ==> f.gpu_waveform || f.waveform
        }),
{
}

} // verus!
