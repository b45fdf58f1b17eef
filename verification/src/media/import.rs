//! Which files are media, and which of a folder's entries are imported.

use vstd::prelude::*;

use crate::text::{lowercase, same_text, to_lower};

verus! {

/// The extensions of video files, in lower case.
pub open spec fn video_extension(e: Seq<char>) -> bool {
    ||| e == "mp4"@
    ||| e == "mov"@
    ||| e == "avi"@
    ||| e == "mkv"@
    ||| e == "webm"@
    ||| e == "m4v"@
    ||| e == "mxf"@
    ||| e == "ts"@
    ||| e == "mts"@
    ||| e == "m2ts"@
    ||| e == "flv"@
    ||| e == "wmv"@
    ||| e == "mpg"@
    ||| e == "mpeg"@
    ||| e == "vob"@
    ||| e == "3gp"@
    ||| e == "3g2"@
    ||| e == "ogv"@
    ||| e == "f4v"@
    ||| e == "divx"@
    ||| e == "asf"@
    ||| e == "rm"@
    ||| e == "rmvb"@
    ||| e == "dv"@
    ||| e == "r3d"@
    ||| e == "braw"@
}

/// The extensions of sound files, in lower case.
pub open spec fn audio_extension(e: Seq<char>) -> bool {
    ||| e == "wav"@
    ||| e == "mp3"@
    ||| e == "aac"@
    ||| e == "flac"@
    ||| e == "ogg"@
    ||| e == "m4a"@
    ||| e == "wma"@
    ||| e == "aiff"@
    ||| e == "aif"@
    ||| e == "opus"@
    ||| e == "alac"@
}

/// Whether a lower-case extension is one of video files.
pub fn is_video_extension(e: &str) -> (r: bool)
    ensures
        r == video_extension(e@),
{
    same_text(e, "mp4") || same_text(e, "mov") || same_text(e, "avi") || same_text(e, "mkv")
        || same_text(e, "webm") || same_text(e, "m4v") || same_text(e, "mxf") || same_text(e, "ts")
        || same_text(e, "mts") || same_text(e, "m2ts") || same_text(e, "flv") || same_text(
        e,
        "wmv",
    ) || same_text(e, "mpg") || same_text(e, "mpeg") || same_text(e, "vob") || same_text(e, "3gp")
        || same_text(e, "3g2") || same_text(e, "ogv") || same_text(e, "f4v") || same_text(
        e,
        "divx",
    ) || same_text(e, "asf") || same_text(e, "rm") || same_text(e, "rmvb") || same_text(e, "dv")
        || same_text(e, "r3d") || same_text(e, "braw")
}

/// Whether a lower-case extension is one of sound files.
pub fn is_audio_extension(e: &str) -> (r: bool)
    ensures
        r == audio_extension(e@),
{
    same_text(e, "wav") || same_text(e, "mp3") || same_text(e, "aac") || same_text(e, "flac")
        || same_text(e, "ogg") || same_text(e, "m4a") || same_text(e, "wma") || same_text(
        e,
        "aiff",
    ) || same_text(e, "aif") || same_text(e, "opus") || same_text(e, "alac")
}

/// The extension, in whatever case, is one of media files.
pub open spec fn media_extension(ext: Seq<char>) -> bool {
    video_extension(lowercase(ext)) || audio_extension(lowercase(ext))
}

/// Whether an extension, already in lower case, is one of media files.
pub fn is_media_extension_lower(lower: &str) -> (r: bool)
    ensures
        r == (video_extension(lower@) || audio_extension(lower@)),
{
    is_video_extension(lower) || is_audio_extension(lower)
}

/// Whether an extension, in whatever case, is one of media files.
pub fn is_media_extension(ext: &str) -> (r: bool)
    ensures
        r == media_extension(ext@),
{
    let lower = to_lower(ext);
    is_media_extension_lower(lower.as_str())
}

/// What an entry of a folder is.
#[derive(Debug, Clone, Copy, PartialEq, Eq, Structural)]
pub enum EntryKind {
    Folder,
    File,
    Other,
}

/// An entry of a folder: a number that stands for its path, what it is, and its
/// extension.
#[derive(Debug)]
pub struct FolderEntry {
    pub path: usize,
    pub kind: EntryKind,
    pub extension: Option<String>,
}

impl FolderEntry {
    /// The entry is a media file.
    pub open spec fn is_media(self) -> bool {
        self.kind == EntryKind::File && (self.extension matches Some(e) && media_extension(e@))
    }
}

/// A new entry of a watched folder is taken in: only a video file is.
pub open spec fn taken_in(created: bool, entry: FolderEntry) -> bool {
    created && entry.kind == EntryKind::File && (entry.extension matches Some(e)
        && video_extension(lowercase(e@)))
}

/// Whether an entry of a watched folder, of which something was heard, is taken in.
pub fn is_taken_in(created: bool, entry: &FolderEntry) -> (r: bool)
    ensures
        r == taken_in(created, *entry),
{
    if !created || !(entry.kind == EntryKind::File) {
        return false;
    }
    match &entry.extension {
        Some(e) => {
            let lower = to_lower(e.as_str());
            is_video_extension(lower.as_str())
        },
        None => false,
    }
}

/// A file that a watched folder brings in would have been found by a search of it.
pub proof fn law_watched_is_media(created: bool, entry: FolderEntry)
    requires
        taken_in(created, entry),
    ensures
        entry.is_media(),
{
}

/// A walk through a folder and all folders below it.
#[derive(Debug)]
pub struct FolderScan {
    pub stack: Vec<usize>,
    pub found: Vec<usize>,
}

/// The paths of the folders among the entries.
pub open spec fn folders(entries: Seq<FolderEntry>) -> Seq<usize>
    decreases entries.len(),
{
    if entries.len() == 0 {
        Seq::empty()
    } else if entries.last().kind == EntryKind::Folder {
        folders(entries.drop_last()).push(entries.last().path)
    } else {
        folders(entries.drop_last())
    }
}

/// The paths of the media files among the entries.
pub open spec fn media_files(entries: Seq<FolderEntry>) -> Seq<usize>
    decreases entries.len(),
{
    if entries.len() == 0 {
        Seq::empty()
    } else if entries.last().is_media() {
        media_files(entries.drop_last()).push(entries.last().path)
    } else {
        media_files(entries.drop_last())
    }
}

impl FolderScan {
    /// A walk that starts at `root`.
    pub fn new(root: usize) -> (r: Self)
        ensures
            r.stack@ == seq![root],
            r.found@ == Seq::<usize>::empty(),
    {
        let mut stack: Vec<usize> = Vec::new();
        stack.push(root);
        assert(stack@ =~= seq![root]);
        FolderScan { stack, found: Vec::new() }
    }

    /// The folder to read next; none once all have been read.
    pub fn next_folder(&mut self) -> (r: Option<usize>)
        ensures
            final(self).found@ == old(self).found@,
            match r {
                Some(p) => old(self).stack@.len() > 0 && p == old(self).stack@.last() && final(self).stack@ == old(self).stack@.drop_last(),
                None => old(self).stack@.len() == 0 && final(self).stack@ == old(self).stack@,
            },
    {
        self.stack.pop()
    }

    /// Takes in the entries of a folder: folders are to be read, media files are found,
    /// anything else is passed over.
    pub fn take_entries(&mut self, entries: &Vec<FolderEntry>)
        ensures
            final(self).stack@ == old(self).stack@ + folders(entries@),
            final(self).found@ == old(self).found@ + media_files(entries@),
    {
        let mut i: usize = 0;
        assert(old(self).stack@ + folders(entries@.take(0)) =~= old(self).stack@);
        assert(old(self).found@ + media_files(entries@.take(0)) =~= old(self).found@);
        while i < entries.len()
            invariant
                i <= entries.len(),
                self.stack@ == old(self).stack@ + folders(entries@.take(i as int)),
                self.found@ == old(self).found@ + media_files(entries@.take(i as int)),
            decreases entries.len() - i,
        {
            assert(entries@.take(i + 1).drop_last() =~= entries@.take(i as int));
            let entry = &entries[i];
            match entry.kind {
                EntryKind::Folder => {
                    self.stack.push(entry.path);
                },
                EntryKind::File => {
                    if let Some(ext) = &entry.extension {
                        if is_media_extension(ext.as_str()) {
                            self.found.push(entry.path);
                        }
                    }
                },
                EntryKind::Other => {},
            }
            i += 1;
            assert(self.stack@ =~= old(self).stack@ + folders(entries@.take(i as int)));
            assert(self.found@ =~= old(self).found@ + media_files(entries@.take(i as int)));
        }
        assert(entries@.take(i as int) =~= entries@);
    }
}

/// Of the entries of a folder the media files are taken in, and the folders are gone
/// through, each in their order, and nothing else is.
pub proof fn law_folder_gives_its_media_files(entries: Seq<FolderEntry>)
    ensures
        media_files(entries) == entries.filter(|e: FolderEntry| e.is_media()).map_values(
            |e: FolderEntry| e.path,
        ),
        folders(entries) == entries.filter(
            |e: FolderEntry| e.kind == EntryKind::Folder,
        ).map_values(|e: FolderEntry| e.path),
    decreases entries.len(),
{
    reveal(Seq::filter);
    let path = |e: FolderEntry| e.path;
    if entries.len() > 0 {
        let init = entries.drop_last();
        law_folder_gives_its_media_files(init);
        let a = init.filter(|e: FolderEntry| e.is_media());
        let b = init.filter(|e: FolderEntry| e.kind == EntryKind::Folder);
        assert(a.push(entries.last()).map_values(path) =~= a.map_values(path).push(
            entries.last().path,
        ));
        assert(b.push(entries.last()).map_values(path) =~= b.map_values(path).push(
            entries.last().path,
        ));
    } else {
        assert(media_files(entries) =~= entries.filter(
            |e: FolderEntry| e.is_media(),
        ).map_values(path));
        assert(folders(entries) =~= entries.filter(
            |e: FolderEntry| e.kind == EntryKind::Folder,
        ).map_values(path));
    }
}

/// An extension counts whatever the case of its letters; what is not a file, or has no
/// extension, is no media file.
pub proof fn law_media_is_told_by_extension(a: FolderEntry, b: FolderEntry)
    ensures
        a.is_media() ==> a.kind == EntryKind::File && a.extension is Some,
        a.kind == EntryKind::File && b.kind == EntryKind::File && (a.extension matches Some(x) && (
        b.extension matches Some(y) && lowercase(x@) == lowercase(y@))) ==> a.is_media()
            == b.is_media(),
{
}

} // verus!
