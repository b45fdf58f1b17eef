//! Identifiers of clips, tracks and clip instances.

use vstd::prelude::*;

verus! {

/// The bits that every random (version 4) identifier carries: version nibble
/// `4` and the two variant bits `10`.
pub open spec fn is_random_id(id: u128) -> bool {
    id & 0xF000_C000_0000_0000_0000u128 == 0x4000_8000_0000_0000_0000u128
}

/// A fresh random identifier, from `uuid::Uuid::new_v4`, as a 128-bit number.
///
/// The value depends on the operating system's random numbers. Claimed of every
/// outcome: the version nibble is 4 and the variant bits are `10`. That two calls
/// give different values is not claimed.
#[verifier::external_body]
fn random_id() -> (id: u128)
    ensures
        is_random_id(id),
{
    uuid::Uuid::new_v4().as_u128()
}

/// Identifies a media file of the project.
#[derive(Debug, Clone, Copy, PartialEq, Eq, Hash, Structural)]
pub struct ClipId(pub u128);

impl ClipId {
    /// A fresh random identifier.
    pub fn new() -> (id: Self)
        ensures
            is_random_id(id.0),
    {
        ClipId(random_id())
    }
}

impl Default for ClipId {
    fn default() -> (id: Self)
        ensures
            is_random_id(id.0),
    {
        ClipId::new()
    }
}

/// Identifies a track of the timeline.
#[derive(Debug, Clone, Copy, PartialEq, Eq, Hash, Structural)]
pub struct TrackId(pub u128);

impl TrackId {
    /// A fresh random identifier.
    pub fn new() -> (id: Self)
        ensures
            is_random_id(id.0),
    {
        TrackId(random_id())
    }
}

impl Default for TrackId {
    fn default() -> (id: Self)
        ensures
            is_random_id(id.0),
    {
        TrackId::new()
    }
}

/// Identifies one appearance of a media file on the timeline.
#[derive(Debug, Clone, Copy, PartialEq, Eq, Hash, Structural)]
pub struct TimelineClipId(pub u128);

impl TimelineClipId {
    /// A fresh random identifier.
    pub fn new() -> (id: Self)
        ensures
            is_random_id(id.0),
    {
        TimelineClipId(random_id())
    }
}

impl Default for TimelineClipId {
    fn default() -> (id: Self)
        ensures
            is_random_id(id.0),
    {
        TimelineClipId::new()
    }
}

} // verus!
