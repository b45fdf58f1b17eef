//! The labels that a media file can carry in the browser.

use vstd::prelude::*;

verus! {

/// A label of a media file.
#[derive(Debug, Clone, Copy, PartialEq, Eq, Hash, Structural)]
pub enum Tag {
    BRoll,
    VO,
    Music,
    Sfx,
}

impl Tag {
    /// The text that the label is shown as.
    pub open spec fn text(self) -> Seq<char> {
        match self {
            Tag::BRoll => "B-roll"@,
            Tag::VO => "VO"@,
            Tag::Music => "Music"@,
            Tag::Sfx => "SFX"@,
        }
    }

    /// The label's place in a mask.
    pub open spec fn mask(self) -> u32 {
        match self {
            Tag::BRoll => 1,
            Tag::VO => 2,
            Tag::Music => 4,
            Tag::Sfx => 8,
        }
    }

    /// All labels, in the order in which they are listed.
    pub fn all() -> (r: [Tag; 4])
        ensures
            r@ == seq![Tag::BRoll, Tag::VO, Tag::Music, Tag::Sfx],
    {
        let r = [Tag::BRoll, Tag::VO, Tag::Music, Tag::Sfx];
        assert(r@ =~= seq![Tag::BRoll, Tag::VO, Tag::Music, Tag::Sfx]);
        r
    }

    /// The text that the label is shown as.
    pub fn label(self) -> (r: &'static str)
        ensures
            r@ == self.text(),
    {
        match self {
            Tag::BRoll => "B-roll",
            Tag::VO => "VO",
            Tag::Music => "Music",
            Tag::Sfx => "SFX",
        }
    }

    /// The label's bit in a mask.
    pub fn bit(self) -> (r: u32)
        ensures
            r == self.mask(),
    {
        match self {
            Tag::BRoll => 1,
            Tag::VO => 2,
            Tag::Music => 4,
            Tag::Sfx => 8,
        }
    }
}

/// Different labels have different bits.
pub proof fn law_tag_bits_distinct(a: Tag, b: Tag)
    requires
        a != b,
    ensures
        a.mask() & b.mask() == 0,
        a.mask() & a.mask() == a.mask(),
{
    assert(1u32 & 2 == 0 && 1u32 & 4 == 0 && 1u32 & 8 == 0 && 2u32 & 1 == 0 && 2u32 & 4 == 0
        && 2u32 & 8 == 0 && 4u32 & 1 == 0 && 4u32 & 2 == 0 && 4u32 & 8 == 0 && 8u32 & 1 == 0
        && 8u32 & 2 == 0 && 8u32 & 4 == 0 && 1u32 & 1 == 1 && 2u32 & 2 == 2 && 4u32 & 4 == 4
        && 8u32 & 8 == 8) by (bit_vector);
}

} // verus!
