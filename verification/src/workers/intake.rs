//! What comes back from the workers is put on the shelf, and new files are taken in.

use std::collections::HashSet;

use vstd::prelude::*;

use crate::clip::{Clip, MediaPath};
use crate::ids::{is_random_id, ClipId};
use crate::media::stream::MediaMetadata;
use crate::project::ProjectState;
use crate::workers::shelf::TextureCache;

verus! {

broadcast use vstd::std_specs::hash::group_hash_axioms;

/// The frames once the one at `index` is `texture`: where there are too few, placeholders
/// fill the gap.
pub open spec fn frame_put(
    frames: Seq<u64>,
    index: int,
    texture: u64,
    placeholder: u64,
) -> Seq<u64> {
    if index < frames.len() {
        frames.update(index, texture)
    } else {
        Seq::new(
            (index + 1) as nat,
            |i: int|
                if i < frames.len() {
                    frames[i]
                } else if i < index {
                    placeholder
                } else {
                    texture
                },
        )
    }
}

/// Puts a frame at its place.
pub fn put_frame(frames: &mut Vec<u64>, index: usize, texture: u64, placeholder: u64)
    requires
        index < usize::MAX,
    ensures
        final(frames)@ == frame_put(old(frames)@, index as int, texture, placeholder),
{
    let ghost before = frames@;
    while frames.len() <= index
        invariant
            index < usize::MAX,
            before.len() <= frames@.len(),
            frames@.len() <= index + 1 || frames@.len() == before.len(),
            forall|i: int| 0 <= i < before.len() ==> #[trigger] frames@[i] == before[i],
            forall|i: int|
                before.len() <= i < frames@.len() ==> #[trigger] frames@[i] == placeholder,
        decreases index + 1 - frames@.len(),
    {
        frames.push(placeholder);
    }
    frames.set(index, texture);
    assert(frames@ =~= frame_put(before, index as int, texture, placeholder));
}

/// Of pictures at these positions, which one shows a moment: the last that does not come
/// after it, or else the first.
pub fn frame_at_time(positions: &Vec<i64>, time: i64) -> (r: Option<usize>)
    ensures
        r is None <==> positions@.len() == 0,
        r matches Some(i) ==> {
            &&& i < positions@.len()
            &&& positions@[i as int] <= time || i == 0
            &&& forall|j: int| i < j < positions@.len() ==> #[trigger] positions@[j] > time
        },
{
    if positions.len() == 0 {
        return None;
    }
    let mut i: usize = positions.len() - 1;
    while i > 0 && positions[i] > time
        invariant
            i < positions@.len(),
            forall|j: int| i < j < positions@.len() ==> #[trigger] positions@[j] > time,
        decreases i,
    {
        i -= 1;
    }
    Some(i)
}

impl TextureCache {
    /// All but the thumbnails, those on their way included, is the same.
    pub open spec fn same_but_thumbnails(self, other: TextureCache) -> bool {
        &&& self.preview_frames@ == other.preview_frames@
        &&& self.preview_requested@ == other.preview_requested@
        &&& self.scrub_frames@ == other.scrub_frames@
        &&& self.scrub_requested@ == other.scrub_requested@
        &&& self.waveform_peaks@ == other.waveform_peaks@
        &&& self.playback_texture == other.playback_texture
    }

    /// A thumbnail has come.
    pub fn take_thumbnail(&mut self, id: ClipId, texture: u64)
        ensures
            final(self).thumbnails@ == old(self).thumbnails@.insert(id.0, texture),
            final(self).pending_thumbnails@ == old(self).pending_thumbnails@.remove(id.0),
            final(self).same_but_thumbnails(*old(self)),
    {
        self.thumbnails.insert(id.0, texture);
        self.pending_thumbnails.remove(&id.0);
    }

    /// The frames of a preview, as far as they have come.
    pub open spec fn preview(self, id: ClipId) -> Seq<u64> {
        if self.preview_frames@.contains_key(id.0) {
            self.preview_frames@[id.0]@
        } else {
            Seq::empty()
        }
    }

    /// A frame of a preview has come.
    pub fn take_preview_frame(&mut self, id: ClipId, index: usize, texture: u64, placeholder: u64)
        requires
            index < usize::MAX,
        ensures
            final(self).preview(id) == frame_put(
                old(self).preview(id),
                index as int,
                texture,
                placeholder,
            ),
            final(self).preview_frames@.dom() == old(self).preview_frames@.dom().insert(id.0),
            forall|other: ClipId| other != id ==> #[trigger] final(self).preview(other) == old(self).preview(other),
            final(self).thumbnails@ == old(self).thumbnails@,
            final(self).pending_thumbnails@ == old(self).pending_thumbnails@,
            final(self).preview_requested@ == old(self).preview_requested@,
            final(self).scrub_frames@ == old(self).scrub_frames@,
            final(self).scrub_requested@ == old(self).scrub_requested@,
            final(self).waveform_peaks@ == old(self).waveform_peaks@,
            final(self).playback_texture == old(self).playback_texture,
    {
        let ghost before = self.preview(id);
        let mut frames: Vec<u64> = match self.preview_frames.remove(&id.0) {
            Some(frames) => frames,
            None => Vec::new(),
        };
        assert(frames@ =~= before);
        put_frame(&mut frames, index, texture, placeholder);
        self.preview_frames.insert(id.0, frames);
        proof {
            assert(self.preview_frames@.dom() =~= old(self).preview_frames@.dom().insert(id.0));
            assert forall|other: ClipId| other != id implies #[trigger] self.preview(other)
                == old(self).preview(other) by {
                assert(other.0 != id.0);
            }
        }
    }

    /// The peaks of a waveform have come.
    pub fn take_waveform(&mut self, id: ClipId, peaks: Vec<(i32, i32)>)
        ensures
            final(self).waveform_peaks@ == old(self).waveform_peaks@.insert(id.0, peaks),
            final(self).thumbnails@ == old(self).thumbnails@,
            final(self).pending_thumbnails@ == old(self).pending_thumbnails@,
            final(self).preview_frames@ == old(self).preview_frames@,
            final(self).preview_requested@ == old(self).preview_requested@,
            final(self).scrub_frames@ == old(self).scrub_frames@,
            final(self).scrub_requested@ == old(self).scrub_requested@,
            final(self).playback_texture == old(self).playback_texture,
    {
        self.waveform_peaks.insert(id.0, peaks);
    }

    /// The picture on screen can be drawn over: it has the size of the new one.
    pub fn can_reuse_playback_texture(&self, width: usize, height: usize) -> (r: Option<u64>)
        ensures
            r == match self.playback_texture {
                Some((texture, w, h)) => if w == width && h == height {
                    Some(texture)
                } else {
                    None
                },
                None => None,
            },
    {
        match self.playback_texture {
            Some((texture, w, h)) => {
                if w == width && h == height {
                    Some(texture)
                } else {
                    None
                }
            },
            None => None,
        }
    }

    /// Whether a thumbnail is on its way.
    pub fn is_pending(&self, id: ClipId) -> (r: bool)
        ensures
            r == self.pending_thumbnails@.contains(id.0),
    {
        self.pending_thumbnails.contains(&id.0)
    }

    /// Whether a preview has been asked for.
    pub fn is_preview_loading(&self, id: ClipId) -> (r: bool)
        ensures
            r == self.preview_requested@.contains(id.0),
    {
        self.preview_requested.contains(&id.0)
    }
}

/// A media file of which more has become known.
pub open spec fn described(before: Clip, after: Clip, meta: MediaMetadata, mask: u32) -> bool {
    &&& after.id == before.id
    &&& after.path == before.path
    &&& after.filename == before.filename
    &&& after.display_name == before.display_name
    &&& after.duration == meta.duration
    &&& after.resolution == meta.resolution
    &&& after.codec == meta.codec
    &&& after.audio_only == !meta.has_video
    &&& after.search_haystack@ == after.haystack(mask)
}

/// What a file holds has become known. A file without pictures gets no thumbnail. Where
/// the file is not in the project nothing happens.
pub fn take_metadata(
    project: &mut ProjectState,
    textures: &mut TextureCache,
    id: ClipId,
    meta: MediaMetadata,
)
    ensures
        final(project).clips@.dom() == old(project).clips@.dom(),
        forall|n: u128|
            n != id.0 && old(project).clips@.contains_key(n) ==> #[trigger] final(project).clips@[n] == old(project).clips@[n],
        old(project).clips@.contains_key(id.0) ==> described(
            old(project).clips@[id.0],
            final(project).clips@[id.0],
            meta,
            old(project).tags(id),
        ),
        old(project).searchable() ==> final(project).searchable(),
        final(project).clip_order@ == old(project).clip_order@,
        final(project).starred@ == old(project).starred@,
        final(project).clip_tags@ == old(project).clip_tags@,
        final(project).timeline == old(project).timeline,
        final(project).playback == old(project).playback,
        final(project).history == old(project).history,
        final(textures).pending_thumbnails@ == if old(project).clips@.contains_key(id.0)
            && !meta.has_video {
            old(textures).pending_thumbnails@.remove(id.0)
        } else {
            old(textures).pending_thumbnails@
        },
        final(textures).thumbnails@ == old(textures).thumbnails@,
        final(textures).same_but_thumbnails(*old(textures)),
{
    let tag_mask: u32 = project.clip_tag_mask(id);
    match project.clips.remove(&id.0) {
        Some(found) => {
            let mut clip = found;
            let has_video = meta.has_video;
            clip.duration = meta.duration;
            clip.resolution = meta.resolution;
            clip.codec = meta.codec;
            clip.audio_only = !has_video;
            clip.rebuild_search_haystack(tag_mask);
            project.clips.insert(id.0, clip);
            if !has_video {
                textures.pending_thumbnails.remove(&id.0);
            }
            assert(project.clips@.dom() =~= old(project).clips@.dom());
        },
        None => {
            assert(project.clips@ =~= old(project).clips@);
        },
    }
}

/// Takes a media file into the project, unless its path is known already. Paths are known
/// by numbers. Says under which identifier it was taken in.
pub fn import_file(
    known_paths: &mut HashSet<u64>,
    token: u64,
    path: MediaPath,
    project: &mut ProjectState,
    textures: &mut TextureCache,
) -> (r: Option<ClipId>)
    ensures
        final(known_paths)@ == old(known_paths)@.insert(token),
        r is None <==> old(known_paths)@.contains(token),
        old(project).searchable() && (r matches Some(id) ==> old(project).tags(id) == 0)
            ==> final(project).searchable(),
        final(textures).thumbnails@ == old(textures).thumbnails@,
        final(textures).same_but_thumbnails(*old(textures)),
        final(project).starred@ == old(project).starred@,
        final(project).timeline == old(project).timeline,
        final(project).playback == old(project).playback,
        final(project).history == old(project).history,
        match r {
            None => *final(project) == *old(project) && final(textures).pending_thumbnails@
                == old(textures).pending_thumbnails@,
            Some(id) => {
                &&& is_random_id(id.0)
                &&& final(textures).pending_thumbnails@ == old(textures).pending_thumbnails@.insert(id.0)
                &&& final(project).clip_order@ == old(project).clip_order@.push(id)
                &&& final(project).clips@.contains_key(id.0)
                &&& final(project).clips@ == old(project).clips@.insert(
                    id.0,
                    final(project).clips@[id.0],
                )
                &&& final(project).clips@[id.0].is_new(path)
                &&& final(project).clips@[id.0].id == id
                &&& final(project).clip_tags@ == old(project).clip_tags@.insert(
                    id.0,
                    old(project).tags(id),
                )
            },
        },
{
    if known_paths.contains(&token) {
        assert(known_paths@.insert(token) =~= known_paths@);
        return None;
    }
    known_paths.insert(token);
    let clip = Clip::from_path(path);
    let clip_id = clip.id;
    project.add_clip(clip);
    textures.pending_thumbnails.insert(clip_id.0);
    Some(clip_id)
}

/// A frame that was put can be found at its place, and the others stay where they were.
pub proof fn law_frame_is_put(frames: Seq<u64>, index: int, texture: u64, placeholder: u64)
    requires
        0 <= index,
    ensures
        frame_put(frames, index, texture, placeholder)[index] == texture,
        forall|i: int|
            0 <= i < frames.len() && i != index ==> #[trigger] frame_put(
                frames,
                index,
                texture,
                placeholder,
            )[i] == frames[i],
{
}

/// Once a file has been read it is known by what was read of it: its length, its
/// resolution and its codec, and as sound alone exactly where it has no picture. Its
/// names stay, and it is found by them.
pub proof fn law_read_file_is_known(before: Clip, after: Clip, meta: MediaMetadata, mask: u32)
    requires
        described(before, after, meta, mask),
    ensures
        after.duration == meta.duration,
        after.resolution == meta.resolution,
        after.codec == meta.codec,
        after.audio_only <==> !meta.has_video,
        after.id == before.id && after.path == before.path && after.filename == before.filename
            && after.display_name == before.display_name,
        crate::text::occurs(after.search_haystack@, crate::text::lowercase(before.filename@)),
{
    let hay = after.haystack(mask);
    let file = crate::text::lowercase(after.filename@);
    assert(hay.subrange(0, file.len() as int) =~= file);
    assert(crate::text::occurs_at(hay, file, 0));
}

} // verus!
