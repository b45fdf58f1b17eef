//! The lines of the inspector and of the overlay that shows how playback runs.

use vstd::prelude::*;

use crate::clip::Clip;
use crate::engine::fps::TOP_RATE;
use crate::engine::slots::{FrameOrigin, Shown};
use crate::panel::labels::{
    nearest, rate_label, rate_text, rounded_quotient, seconds_label, seconds_text, size_text,
};
use crate::panel::transport::{clips_on, timeline_clip_count};
use crate::project::ProjectState;
use crate::text::{decimal, push_decimal, push_three_digits, three_digits};
use crate::time::{in_time, SECOND};
use crate::timeline::clip::TimelineClip;
use crate::timeline::track::{Track, TrackKind};

verus! {

/// How long a media file lasts.
pub open spec fn duration_line(duration: Option<i64>) -> Seq<char> {
    match duration {
        Some(d) => "Duration: "@ + seconds_label(d as int),
        None => "Duration: Unknown"@,
    }
}

/// How large the picture of a media file is.
pub open spec fn resolution_line(resolution: Option<(u32, u32)>) -> Seq<char> {
    match resolution {
        Some((w, h)) => "Resolution: "@ + size_text(w, h),
        None => "Resolution: Unknown"@,
    }
}

/// How a media file is encoded.
pub open spec fn codec_line(codec: Option<String>) -> Seq<char> {
    match codec {
        Some(c) => "Codec: "@ + c@,
        None => "Codec: Unknown"@,
    }
}

/// What a media file holds.
pub open spec fn type_line(audio_only: bool) -> Seq<char> {
    if audio_only {
        "Type: Audio only"@
    } else {
        "Type: Video + Audio"@
    }
}

/// What is known of a media file, line by line.
pub fn clip_lines(clip: &Clip) -> (r: Vec<String>)
    requires
        clip.duration matches Some(d) ==> 0 <= d && in_time(d as int),
    ensures
        r@.len() == 4,
        r@[0]@ == duration_line(clip.duration),
        r@[1]@ == resolution_line(clip.resolution),
        r@[2]@ == codec_line(clip.codec),
        r@[3]@ == type_line(clip.audio_only),
{
    let mut out: Vec<String> = Vec::new();
    let mut duration = String::new();
    match clip.duration {
        Some(d) => {
            duration.append("Duration: ");
            duration.append(seconds_text(d).as_str());
        },
        None => {
            duration.append("Duration: Unknown");
        },
    }
    assert(duration@ =~= duration_line(clip.duration));
    out.push(duration);
    let mut resolution = String::new();
    match clip.resolution {
        Some((w, h)) => {
            resolution.append("Resolution: ");
            push_decimal(&mut resolution, w as u64);
            resolution.push('x');
            push_decimal(&mut resolution, h as u64);
        },
        None => {
            resolution.append("Resolution: Unknown");
        },
    }
    assert(resolution@ =~= resolution_line(clip.resolution));
    out.push(resolution);
    let mut codec = String::new();
    match &clip.codec {
        Some(c) => {
            codec.append("Codec: ");
            codec.append(c.as_str());
        },
        None => {
            codec.append("Codec: Unknown");
        },
    }
    assert(codec@ =~= codec_line(clip.codec));
    out.push(codec);
    let mut kind = String::new();
    if clip.audio_only {
        kind.append("Type: Audio only");
    } else {
        kind.append("Type: Video + Audio");
    }
    assert(kind@ =~= type_line(clip.audio_only));
    out.push(kind);
    out
}

/// What the project holds, line by line.
pub fn project_lines(project: &ProjectState) -> (r: Vec<String>)
    requires
        clips_on(project.timeline@.tracks()) <= usize::MAX,
    ensures
        r@.len() == 3,
        r@[0]@ == "Clips: "@ + decimal(project.clips@.dom().len()),
        r@[1]@ == "Tracks: "@ + decimal(project.timeline@.video.len()) + " video / "@ + decimal(
            project.timeline@.audio.len(),
        ) + " audio"@,
        r@[2]@ == "Timeline clips: "@ + decimal(clips_on(project.timeline@.tracks()) as nat),
{
    let mut out: Vec<String> = Vec::new();
    let mut files = String::new();
    files.append("Clips: ");
    push_decimal(&mut files, project.clips.len() as u64);
    out.push(files);
    let mut tracks = String::new();
    tracks.append("Tracks: ");
    push_decimal(&mut tracks, project.timeline.video_tracks.len() as u64);
    tracks.append(" video / ");
    push_decimal(&mut tracks, project.timeline.audio_tracks.len() as u64);
    tracks.append(" audio");
    out.push(tracks);
    let mut clips = String::new();
    clips.append("Timeline clips: ");
    push_decimal(&mut clips, timeline_clip_count(&project.timeline) as u64);
    out.push(clips);
    out
}

/// What a track is called in the inspector.
pub open spec fn track_line(name: Seq<char>, kind: TrackKind) -> Seq<char> {
    "Track: "@ + name + if kind == TrackKind::Video {
        " (video)"@
    } else {
        " (audio)"@
    }
}

/// Where a clip of the timeline stands, line by line.
pub fn instance_lines(track: &Track, c: TimelineClip) -> (r: Vec<String>)
    requires
        0 <= c.timeline_start && in_time(c.timeline_start as int),
        0 <= c.duration && in_time(c.duration as int),
        0 <= c.source_in && in_time(c.source_in as int),
        0 <= c.source_out && in_time(c.source_out as int),
    ensures
        r@.len() == 4,
        r@[0]@ == track_line(track@.name, track@.kind),
        r@[1]@ == "Start: "@ + seconds_label(c.timeline_start as int),
        r@[2]@ == "Duration: "@ + seconds_label(c.duration as int),
        r@[3]@ == "Source range: "@ + seconds_label(c.source_in as int) + " -> "@ + seconds_label(
            c.source_out as int,
        ),
{
    let mut out: Vec<String> = Vec::new();
    let mut on = String::new();
    on.append("Track: ");
    on.append(track.name.as_str());
    match track.kind {
        TrackKind::Video => on.append(" (video)"),
        TrackKind::Audio => on.append(" (audio)"),
    }
    assert(on@ =~= track_line(track@.name, track@.kind));
    out.push(on);
    let mut start = String::new();
    start.append("Start: ");
    start.append(seconds_text(c.timeline_start).as_str());
    out.push(start);
    let mut duration = String::new();
    duration.append("Duration: ");
    duration.append(seconds_text(c.duration).as_str());
    out.push(duration);
    let mut range = String::new();
    range.append("Source range: ");
    range.append(seconds_text(c.source_in).as_str());
    range.append(" -> ");
    range.append(seconds_text(c.source_out).as_str());
    out.push(range);
    out
}

/// The rates at which the window and the film run.
pub fn fps_line(ui_fps: u128, video_fps: u128) -> (r: String)
    requires
        ui_fps <= TOP_RATE,
        video_fps <= TOP_RATE,
    ensures
        r@ == "UI "@ + rate_label(ui_fps as int) + " fps | Video "@ + rate_label(video_fps as int)
            + " fps"@,
{
    let mut out = String::new();
    out.append("UI ");
    out.append(rate_text(ui_fps).as_str());
    out.append(" fps | Video ");
    out.append(rate_text(video_fps).as_str());
    out.append(" fps");
    out
}

/// Both rates, in short.
pub fn short_fps_line(ui_fps: u128, video_fps: u128) -> (r: String)
    requires
        ui_fps <= TOP_RATE,
        video_fps <= TOP_RATE,
    ensures
        r@ == "UI "@ + rate_label(ui_fps as int) + " | Video "@ + rate_label(video_fps as int),
{
    let mut out = String::new();
    out.append("UI ");
    out.append(rate_text(ui_fps).as_str());
    out.append(" | Video ");
    out.append(rate_text(video_fps).as_str());
    assert(out@ =~= "UI "@ + rate_label(ui_fps as int) + " | Video "@ + rate_label(
        video_fps as int,
    ));
    out
}

/// Where a picture came from, in short.
pub open spec fn origin_text(o: FrameOrigin) -> Seq<char> {
    match o {
        FrameOrigin::Forward => "fwd"@,
        FrameOrigin::Reverse => "rev"@,
        FrameOrigin::Cache => "cache"@,
    }
}

/// A time in seconds, to a thousandth.
pub open spec fn fine_seconds(t: int) -> Seq<char> {
    let thousandths = nearest(t, SECOND / 1000);
    decimal((thousandths / 1000) as nat) + seq!['.'] + three_digits((thousandths % 1000) as nat)
}

fn push_fine_seconds(out: &mut String, t: i64)
    requires
        0 <= t,
    ensures
        final(out)@ == old(out)@ + fine_seconds(t as int),
{
    let thousandths: u128 = rounded_quotient(t as u128, 1_000_000);
    push_decimal(out, (thousandths / 1000) as u64);
    out.push('.');
    push_three_digits(out, (thousandths % 1000) as u64);
    assert(out@ =~= old(out)@ + fine_seconds(t as int));
}

/// A time in seconds, to a thousandth.
pub fn fine_seconds_text(t: i64) -> (r: String)
    requires
        0 <= t,
    ensures
        r@ == fine_seconds(t as int),
{
    let mut out = String::new();
    push_fine_seconds(&mut out, t);
    assert(out@ =~= fine_seconds(t as int));
    out
}

/// The picture that was shown last.
pub fn decode_line(shown: Option<Shown>) -> (r: String)
    requires
        shown matches Some(s) ==> 0 <= s.pts && in_time(s.pts as int),
    ensures
        r@ == match shown {
            Some(s) => "Decode "@ + origin_text(s.origin) + " pts: "@ + fine_seconds(s.pts as int),
            None => "Decode pts: -"@,
        },
{
    let mut out = String::new();
    match shown {
        Some(s) => {
            out.append("Decode ");
            match s.origin {
                FrameOrigin::Forward => out.append("fwd"),
                FrameOrigin::Reverse => out.append("rev"),
                FrameOrigin::Cache => out.append("cache"),
            }
            out.append(" pts: ");
            push_fine_seconds(&mut out, s.pts);
            assert(out@ =~= "Decode "@ + origin_text(s.origin) + " pts: "@ + fine_seconds(
                s.pts as int,
            ));
        },
        None => {
            out.append("Decode pts: -");
            assert(out@ =~= "Decode pts: -"@);
        },
    }
    out
}

} // verus!
