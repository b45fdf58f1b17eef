//! Gathering the pictures of a stretch, to be played in reverse.

use vstd::prelude::*;

use crate::media::clock::{in_reverse_window, GOP_SLACK};
use crate::media::frame::{frame_bytes, frame_from_sink, sized, DecodedFrame};
use crate::time::in_time;

verus! {

/// The pictures of a stretch that ends at `end`, in the order in which they are decoded.
#[derive(Debug)]
pub struct ReverseStretch {
    pub end: i64,
    pub width: u32,
    pub height: u32,
    pub frames: Vec<DecodedFrame>,
}

/// The picture that is made of what was decoded.
pub open spec fn is_picture(f: DecodedFrame, pts: int, w: u32, h: u32, data: Seq<u8>) -> bool {
    &&& f.pts == pts
    &&& f.width == w
    &&& f.height == h
    &&& f.rgba_data@ == sized(data, frame_bytes(w as int, h as int))
}

/// Every picture is shown later than the one before.
pub open spec fn ascends(frames: Seq<DecodedFrame>) -> bool {
    forall|i: int, j: int|
        0 <= i < j < frames.len() ==> (#[trigger] frames[i]).pts < (#[trigger] frames[j]).pts
}

/// Every picture is shown earlier than the one before.
pub open spec fn descends(frames: Seq<DecodedFrame>) -> bool {
    forall|i: int, j: int|
        0 <= i < j < frames.len() ==> (#[trigger] frames[i]).pts > (#[trigger] frames[j]).pts
}

impl ReverseStretch {
    /// A stretch of which nothing has been decoded.
    pub fn new(end: i64, width: u32, height: u32) -> (r: Self)
        ensures
            r.end == end,
            r.width == width,
            r.height == height,
            r.frames@ == Seq::<DecodedFrame>::empty(),
    {
        ReverseStretch { end, width, height, frames: Vec::new() }
    }

    /// Keeps a picture that lies within the stretch. Says whether it does.
    pub fn offer(&mut self, pts: i64, data: &Vec<u8>) -> (r: bool)
        requires
            in_time(old(self).end as int),
            frame_bytes(old(self).width as int, old(self).height as int) <= usize::MAX,
        ensures
            r == (pts <= old(self).end + GOP_SLACK),
            final(self).end == old(self).end,
            final(self).width == old(self).width,
            final(self).height == old(self).height,
            if r {
                &&& final(self).frames@.len() == old(self).frames@.len() + 1
                &&& final(self).frames@.drop_last() == old(self).frames@
                &&& is_picture(
                    final(self).frames@.last(),
                    pts as int,
                    old(self).width,
                    old(self).height,
                    data@,
                )
            } else {
                final(self).frames@ == old(self).frames@
            },
    {
        if !in_reverse_window(pts, self.end) {
            return false;
        }
        self.frames.push(frame_from_sink(pts, self.width, self.height, data));
        assert(self.frames@.drop_last() =~= old(self).frames@);
        true
    }

    /// The pictures, the last first.
    pub fn reversed(self) -> (r: Vec<DecodedFrame>)
        ensures
            r@ == self.frames@.reverse(),
    {
        let mut left = self.frames;
        let mut out: Vec<DecodedFrame> = Vec::new();
        let ghost all = left@;
        let ghost n = all.len();
        while left.len() > 0
            invariant
                n == all.len(),
                left@.len() <= n,
                left@ == all.take(left@.len() as int),
                out@ == all.reverse().take(n - left@.len()),
            decreases left.len(),
        {
            let ghost k = left@.len();
            match left.pop() {
                Some(f) => {
                    out.push(f);
                },
                None => {},
            }
            assert(left@ =~= all.take(k - 1));
            assert(out@ =~= all.reverse().take(n - (k - 1)));
        }
        assert(out@ =~= all.reverse());
        out
    }
}

/// What was decoded in the order of the film comes out in the opposite order.
pub proof fn law_reversed_descends(frames: Seq<DecodedFrame>)
    requires
        ascends(frames),
    ensures
        descends(frames.reverse()),
{
}

} // verus!
