//! Media files of a project.

use vstd::prelude::*;

use crate::ids::{is_random_id, ClipId};
use crate::tag::Tag;
use crate::text::{chars_of, decimal, lowercase, occurs, occurs_at, push_decimal, push_two_digits, to_lower, two_digits};
use crate::time::SECOND;

verus! {

/// The view of an optional text.
pub open spec fn opt_text(s: Option<String>) -> Option<Seq<char>> {
    match s {
        Some(t) => Some(t@),
        None => None,
    }
}

/// Where the last slash of a path is; -1 where there is none.
pub open spec fn last_slash(path: Seq<char>) -> int
    decreases path.len(),
{
    if path.len() == 0 {
        -1
    } else if path.last() == '/' {
        path.len() - 1
    } else {
        last_slash(path.drop_last())
    }
}

/// What follows the last slash of a path.
pub open spec fn after_slash(path: Seq<char>) -> Seq<char> {
    path.skip(last_slash(path) + 1)
}

/// A path that every machine reads alike, and that names something: it has no backslash,
/// no colon and no double slash at its beginning, and after its last slash stands a name
/// that is neither one dot nor two.
pub open spec fn plain_path(path: Seq<char>) -> bool {
    &&& !path.contains('\\')
    &&& !path.contains(':')
    &&& !(path.len() >= 2 && path[0] == '/' && path[1] == '/')
    &&& after_slash(path).len() > 0
    &&& after_slash(path) != seq!['.']
    &&& after_slash(path) != seq!['.', '.']
}

/// `std::path::Path::file_name` on a path given as text: its last component, where there
/// is one. Of a path that every machine reads alike, that is what follows the last slash.
/// Of others only that it stands in the path is claimed: where a component begins rests
/// on the separators and prefixes that the machine goes by.
#[verifier::external_body]
fn path_file_name(path: &str) -> (r: Option<String>)
    ensures
        plain_path(path@) ==> opt_text(r) == Some(after_slash(path@)),
        r matches Some(n) ==> occurs(path@, n@),
{
    std::path::Path::new(path).file_name().map(|n| n.to_string_lossy().to_string())
}

/// Where the last dot of a name is; -1 where there is none.
pub open spec fn last_dot(name: Seq<char>) -> int
    decreases name.len(),
{
    if name.len() == 0 {
        -1
    } else if name.last() == '.' {
        name.len() - 1
    } else {
        last_dot(name.drop_last())
    }
}

/// The extension of a file name: what follows its last dot. A dot at the beginning does
/// not count.
pub open spec fn name_extension(name: Seq<char>) -> Option<Seq<char>> {
    if last_dot(name) > 0 {
        Some(name.skip(last_dot(name) + 1))
    } else {
        None
    }
}

/// The extension of a file name.
pub fn find_extension(name: &str) -> (r: Option<String>)
    ensures
        opt_text(r) == name_extension(name@),
{
    let chars = chars_of(name);
    let mut i: usize = chars.len();
    assert(chars@.take(i as int) =~= name@);
    while i > 0
        invariant
            i <= chars@.len(),
            chars@ == name@,
            last_dot(chars@.take(i as int)) == last_dot(name@),
        decreases i,
    {
        i -= 1;
        assert(chars@.take(i + 1).drop_last() =~= chars@.take(i as int));
        assert(chars@.take(i + 1).last() == chars@[i as int]);
        if chars[i] == '.' {
            assert(last_dot(name@) == i);
            if i == 0 {
                return None;
            }
            let mut out = String::new();
            let mut k: usize = i + 1;
            while k < chars.len()
                invariant
                    i < k <= chars@.len(),
                    out@ == chars@.subrange(i + 1, k as int),
                decreases chars@.len() - k,
            {
                out.push(chars[k]);
                assert(chars@.subrange(i + 1, k + 1) =~= chars@.subrange(i + 1, k as int).push(
                    chars@[k as int],
                ));
                k += 1;
            }
            assert(out@ =~= name@.skip(i + 1));
            return Some(out);
        }
    }
    None
}

/// Where a media file is: the path as it is shown, its last component and its
/// extension.
#[derive(Debug)]
pub struct MediaPath {
    pub text: String,
    pub file_name: Option<String>,
    pub extension: Option<String>,
}

impl MediaPath {
    /// Takes a path apart.
    pub fn parse(path: String) -> (r: Self)
        ensures
            r.text@ == path@,
            plain_path(path@) ==> opt_text(r.file_name) == Some(after_slash(path@)),
            r.file_name matches Some(n) ==> occurs(path@, n@),
            opt_text(r.extension) == match r.file_name {
                Some(n) => name_extension(n@),
                None => None,
            },
    {
        let file_name = path_file_name(path.as_str());
        let extension = match &file_name {
            Some(n) => find_extension(n.as_str()),
            None => None,
        };
        MediaPath { text: path, file_name, extension }
    }

    /// The extension, or nothing.
    pub open spec fn ext(self) -> Seq<char> {
        match self.extension {
            Some(e) => e@,
            None => Seq::empty(),
        }
    }
}

/// A media file of the project. Durations are in nanoseconds.
#[derive(Debug)]
pub struct Clip {
    pub id: ClipId,
    pub path: MediaPath,
    pub filename: String,
    pub display_name: Option<String>,
    pub duration: Option<i64>,
    pub resolution: Option<(u32, u32)>,
    pub codec: Option<String>,
    pub audio_only: bool,
    pub search_haystack: String,
}

/// A text as it is searched for, where there is one.
pub open spec fn opt_part(s: Option<String>) -> Seq<char> {
    match s {
        Some(t) => seq![' '] + lowercase(t@),
        None => Seq::empty(),
    }
}

/// The resolution as it is searched for: width, `x`, height.
pub open spec fn resolution_part(r: Option<(u32, u32)>) -> Seq<char> {
    match r {
        Some((w, h)) => seq![' '] + decimal(w as nat) + seq!['x'] + decimal(h as nat),
        None => Seq::empty(),
    }
}

/// The duration in whole seconds, rounded to the nearest; 0 for less than none.
pub open spec fn whole_seconds(duration: int) -> int {
    if duration <= 0 {
        0
    } else {
        (duration + SECOND / 2) / (SECOND as int)
    }
}

/// The duration as it is searched for: minutes and seconds, of two digits at least.
pub open spec fn duration_part(d: Option<i64>) -> Seq<char> {
    match d {
        Some(d) => {
            let n = whole_seconds(d as int);
            seq![' '] + two_digits((n / 60) as nat) + seq![':'] + two_digits((n % 60) as nat)
        },
        None => Seq::empty(),
    }
}

/// The label as it is searched for, where the mask holds it.
pub open spec fn tag_part(mask: u32, tag: Tag) -> Seq<char> {
    if mask & tag.mask() != 0 {
        seq![' '] + lowercase(tag.text())
    } else {
        Seq::empty()
    }
}

impl Clip {
    /// The name that the file is shown under.
    pub open spec fn shown_name(self) -> Seq<char> {
        match self.display_name {
            Some(name) => name@,
            None => self.filename@,
        }
    }

    /// What a search looks through once the haystack is rebuilt, such as
    /// `film.mp4 h264 1920x1080 00:30 b-roll music`. A name that the file was given stands
    /// behind the name of the file.
    pub open spec fn haystack(self, mask: u32) -> Seq<char> {
        lowercase(self.filename@) + opt_part(self.display_name) + opt_part(self.codec)
            + resolution_part(self.resolution) + duration_part(self.duration) + tag_part(mask, Tag::BRoll) + tag_part(mask, Tag::VO) + tag_part(mask, Tag::Music)
            + tag_part(mask, Tag::Sfx)
    }

    /// Of the file only the path is known: it is called by its last component, and found
    /// by that.
    pub open spec fn is_new(self, path: MediaPath) -> bool {
        &&& is_random_id(self.id.0)
        &&& self.path == path
        &&& self.filename@ == match path.file_name {
            Some(n) => n@,
            None => Seq::empty(),
        }
        &&& self.display_name is None
        &&& self.duration is None
        &&& self.resolution is None
        &&& self.codec is None
        &&& !self.audio_only
        &&& self.search_haystack@ == lowercase(self.filename@)
        &&& self.search_haystack@ == self.haystack(0)
    }

    /// A media file of which only the path is known.
    pub fn from_path(path: MediaPath) -> (r: Self)
        ensures
            r.is_new(path),
    {
        let filename = match &path.file_name {
            Some(n) => n.clone(),
            None => String::new(),
        };
        let search_haystack = to_lower(filename.as_str());
        let clip = Clip {
            id: ClipId::new(),
            path,
            filename,
            display_name: None,
            duration: None,
            resolution: None,
            codec: None,
            audio_only: false,
            search_haystack,
        };
        proof {
            assert(forall|bit: u32| #[trigger] (0u32 & bit) == 0) by (bit_vector);
            assert(clip.search_haystack@ =~= clip.haystack(0));
        }
        clip
    }

    /// The name that the file is shown under: its own, or else the file's.
    pub fn display_name(&self) -> (r: &str)
        ensures
            r@ == self.shown_name(),
    {
        match &self.display_name {
            Some(name) => name.as_str(),
            None => self.filename.as_str(),
        }
    }

    /// The extension of the path, or nothing.
    pub fn extension(&self) -> (r: &str)
        ensures
            r@ == self.path.ext(),
    {
        match &self.path.extension {
            Some(e) => e.as_str(),
            None => {
                proof {
                    reveal_strlit("");
                    assert(""@ =~= Seq::<char>::empty());
                }
                ""
            },
        }
    }

    /// Rebuilds what a search looks through: names, codec, resolution, duration
    /// and labels.
    pub fn rebuild_search_haystack(&mut self, tag_mask: u32)
        ensures
            final(self).search_haystack@ == old(self).haystack(tag_mask),
            final(self).id == old(self).id,
            final(self).path == old(self).path,
            final(self).filename == old(self).filename,
            final(self).display_name == old(self).display_name,
            final(self).duration == old(self).duration,
            final(self).resolution == old(self).resolution,
            final(self).codec == old(self).codec,
            final(self).audio_only == old(self).audio_only,
    {
        let mut haystack = to_lower(self.filename.as_str());
        push_part(&mut haystack, &self.display_name);
        push_part(&mut haystack, &self.codec);
        push_resolution(&mut haystack, self.resolution);
        push_duration(&mut haystack, self.duration);
        push_tag(&mut haystack, tag_mask, Tag::BRoll);
        push_tag(&mut haystack, tag_mask, Tag::VO);
        push_tag(&mut haystack, tag_mask, Tag::Music);
        push_tag(&mut haystack, tag_mask, Tag::Sfx);
        self.search_haystack = haystack;
    }
}

/// The duration in whole seconds, rounded to the nearest; 0 for less than none.
pub fn round_seconds(duration: i64) -> (r: u64)
    ensures
        r == whole_seconds(duration as int),
{
    if duration <= 0 {
        0
    } else {
        (duration as u64 + 500_000_000) / 1_000_000_000
    }
}

fn push_part(out: &mut String, part: &Option<String>)
    ensures
        final(out)@ == old(out)@ + opt_part(*part),
{
    if let Some(t) = part {
        out.push(' ');
        out.append(to_lower(t.as_str()).as_str());
    }
    assert(out@ =~= old(out)@ + opt_part(*part));
}

fn push_resolution(out: &mut String, resolution: Option<(u32, u32)>)
    ensures
        final(out)@ == old(out)@ + resolution_part(resolution),
{
    if let Some((w, h)) = resolution {
        out.push(' ');
        push_decimal(out, w as u64);
        out.push('x');
        push_decimal(out, h as u64);
    }
    assert(out@ =~= old(out)@ + resolution_part(resolution));
}

fn push_duration(out: &mut String, duration: Option<i64>)
    ensures
        final(out)@ == old(out)@ + duration_part(duration),
{
    if let Some(dur) = duration {
        let n: u64 = round_seconds(dur);
        out.push(' ');
        push_two_digits(out, n / 60);
        out.push(':');
        push_two_digits(out, n % 60);
    }
    assert(out@ =~= old(out)@ + duration_part(duration));
}

fn push_tag(out: &mut String, mask: u32, tag: Tag)
    ensures
        final(out)@ == old(out)@ + tag_part(mask, tag),
{
    if (mask & tag.bit()) != 0 {
        out.push(' ');
        out.append(to_lower(tag.label()).as_str());
    }
    assert(out@ =~= old(out)@ + tag_part(mask, tag));
}

proof fn lemma_last_slash(path: Seq<char>)
    ensures
        -1 <= last_slash(path) < path.len(),
        last_slash(path) >= 0 ==> path[last_slash(path)] == '/',
        forall|i: int| last_slash(path) < i < path.len() ==> #[trigger] path[i] != '/',
    decreases path.len(),
{
    if path.len() > 0 && path.last() != '/' {
        let init = path.drop_last();
        lemma_last_slash(init);
        assert forall|i: int| last_slash(path) < i < path.len() implies #[trigger] path[i] != '/' by {
            if i < init.len() {
                assert(init[i] == path[i]);
            }
        }
    }
}

proof fn lemma_last_dot(name: Seq<char>)
    ensures
        -1 <= last_dot(name) < name.len(),
        last_dot(name) >= 0 ==> name[last_dot(name)] == '.',
        forall|i: int| last_dot(name) < i < name.len() ==> #[trigger] name[i] != '.',
    decreases name.len(),
{
    if name.len() > 0 && name.last() != '.' {
        let init = name.drop_last();
        lemma_last_dot(init);
        assert forall|i: int| last_dot(name) < i < name.len() implies #[trigger] name[i] != '.' by {
            if i < init.len() {
                assert(init[i] == name[i]);
            }
        }
    }
}

/// The name of a file is all that stands behind the last stroke of its path.
pub proof fn law_name_stands_behind_last_stroke(folder: Seq<char>, name: Seq<char>)
    requires
        !name.contains('/'),
    ensures
        after_slash(folder + seq!['/'] + name) == name,
        after_slash(name) == name,
{
    let path = folder + seq!['/'] + name;
    let n = folder.len() as int;
    lemma_last_slash(path);
    lemma_last_slash(name);
    assert(path[n] == '/');
    assert forall|i: int| n < i < path.len() implies path[i] != '/' by {
        assert(path[i] == name[i - n - 1]);
    }
    assert(last_slash(path) == n);
    assert(path.skip(n + 1) =~= name);
    if last_slash(name) >= 0 {
        assert(name.contains(name[last_slash(name)]));
    }
    assert(name.skip(0) =~= name);
}

/// The extension of a file is all that stands behind the last dot of its name, where
/// anything stands before it; otherwise it has none.
pub proof fn law_extension_stands_behind_last_dot(stem: Seq<char>, ext: Seq<char>)
    requires
        !ext.contains('.'),
    ensures
        stem.len() > 0 ==> name_extension(stem + seq!['.'] + ext) == Some(ext),
        stem.len() == 0 ==> name_extension(stem + seq!['.'] + ext) is None,
        name_extension(ext) is None,
{
    let name = stem + seq!['.'] + ext;
    let n = stem.len() as int;
    lemma_last_dot(name);
    lemma_last_dot(ext);
    assert(name[n] == '.');
    assert forall|i: int| n < i < name.len() implies name[i] != '.' by {
        assert(name[i] == ext[i - n - 1]);
    }
    assert(last_dot(name) == n);
    assert(name.skip(n + 1) =~= ext);
    if last_dot(ext) >= 0 {
        assert(ext.contains(ext[last_dot(ext)]));
    }
}

/// A file is found by its codec, and by its resolution as it is written.
pub proof fn law_found_by_codec_and_size(c: Clip, mask: u32)
    ensures
        c.codec matches Some(codec) ==> occurs(c.haystack(mask), lowercase(codec@)),
        c.resolution matches Some((w, h)) ==> occurs(
            c.haystack(mask),
            decimal(w as nat) + seq!['x'] + decimal(h as nat),
        ),
{
    let hay = c.haystack(mask);
    let named = lowercase(c.filename@) + opt_part(c.display_name);
    if let Some(codec) = c.codec {
        let own = lowercase(codec@);
        let at = named.len() as int + 1;
        assert(hay.subrange(at, at + own.len()) =~= own);
        assert(occurs_at(hay, own, at));
    }
    if let Some((w, h)) = c.resolution {
        let own = decimal(w as nat) + seq!['x'] + decimal(h as nat);
        let at = (named + opt_part(c.codec)).len() as int + 1;
        assert(hay.subrange(at, at + own.len()) =~= own);
        assert(occurs_at(hay, own, at));
    }
}

/// A length is written in whole minutes and in seconds below sixty, to the nearest second.
pub proof fn law_length_is_written_to_the_second(d: i64)
    requires
        d >= 0,
    ensures
        exists|m: int, s: int|
            0 <= m && 0 <= s < 60 && -500_000_000 <= (m * 60 + s) * 1_000_000_000 - d <= 500_000_000
                && #[trigger] duration_part(Some(d)) == seq![' '] + #[trigger] two_digits(m as nat)
                + seq![':'] + #[trigger] two_digits(s as nat),
{
    let n = whole_seconds(d as int);
    assert(duration_part(Some(d)) == seq![' '] + two_digits((n / 60) as nat) + seq![':']
        + two_digits((n % 60) as nat));
    assert((n / 60) * 60 + n % 60 == n);
}

/// A file is found by its length as it is written, in minutes and seconds.
pub proof fn law_found_by_length(c: Clip, mask: u32, d: i64)
    requires
        c.duration == Some(d),
        d >= 0,
    ensures
        exists|m: int, s: int|
            0 <= m && 0 <= s < 60 && -500_000_000 <= (m * 60 + s) * 1_000_000_000 - d <= 500_000_000
                && occurs(
                c.haystack(mask),
                #[trigger] two_digits(m as nat) + seq![':'] + #[trigger] two_digits(s as nat),
            ),
{
    let n = whole_seconds(d as int);
    let own = two_digits((n / 60) as nat) + seq![':'] + two_digits((n % 60) as nat);
    let hay = c.haystack(mask);
    let at = (lowercase(c.filename@) + opt_part(c.display_name) + opt_part(c.codec)
        + resolution_part(c.resolution)).len() as int + 1;
    assert(hay.subrange(at, at + own.len()) =~= own);
    assert(occurs_at(hay, own, at));
    assert((n / 60) * 60 + n % 60 == n);
}

} // verus!
