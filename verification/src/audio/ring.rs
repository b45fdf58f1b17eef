//! Ring buffers that carry samples from one thread to another. The writing end and
//! the reading end live on different threads, so what one end knows of the other is
//! what it saw last.

use ringbuf::traits::{Consumer, Observer, Producer, Split};
use vstd::prelude::*;

verus! {

/// The writing end of a ring: a `ringbuf::HeapProd`.
#[verifier::external_body]
pub struct AudioProducer {
    ring: ringbuf::HeapProd<i32>,
}

/// The reading end of a ring: a `ringbuf::HeapCons`.
#[verifier::external_body]
pub struct AudioConsumer {
    ring: ringbuf::HeapCons<i32>,
}

/// The samples that went into the ring through its writing end, in order.
pub uninterp spec fn sent(p: AudioProducer) -> Seq<i32>;

/// The free places that the writing end knows of. The reader may have freed more.
pub uninterp spec fn room(p: AudioProducer) -> nat;

/// The samples that wait at the reading end and that it knows of, the oldest first.
/// The writer may have added more.
pub uninterp spec fn queued(c: AudioConsumer) -> Seq<i32>;

/// The samples that came out of the ring through its reading end, in order.
pub uninterp spec fn received(c: AudioConsumer) -> Seq<i32>;

/// The largest ring that is made.
pub const RING_LIMIT: usize = 268_435_456;

/// `ringbuf::HeapRb::new` and its `split`: both ends of a new ring with `capacity`
/// places, all of them free. `new` panics on a capacity of 0.
#[verifier::external_body]
pub(crate) fn new_ring(capacity: usize) -> (r: (AudioProducer, AudioConsumer))
    requires
        0 < capacity <= RING_LIMIT,
    ensures
        sent(r.0) == Seq::<i32>::empty(),
        room(r.0) == capacity,
        queued(r.1) == Seq::<i32>::empty(),
        received(r.1) == Seq::<i32>::empty(),
{
    let (producer, consumer) = ringbuf::HeapRb::<i32>::new(capacity).split();
    (AudioProducer { ring: producer }, AudioConsumer { ring: consumer })
}

/// `Producer::push_slice`: as many of the samples as there is room for go in, from
/// the first on. It looks up the reader's place first, so there may be more room than
/// was known; less is taken than is offered only where the ring is then full.
#[verifier::external_body]
pub(crate) fn push_slice(p: &mut AudioProducer, samples: &Vec<i32>) -> (n: usize)
    ensures
        n <= samples@.len(),
        sent(*final(p)) == sent(*old(p)) + samples@.take(n as int),
        n == samples@.len() || room(*final(p)) == 0,
        n == samples@.len() || n >= room(*old(p)),
        room(*final(p)) + n >= room(*old(p)),
{
    p.ring.push_slice(samples)
}

/// `Producer::try_push`: the sample goes in unless the ring is full. Where room is
/// known it goes in; where none is, the reader's place is looked up first.
#[verifier::external_body]
pub(crate) fn try_push(p: &mut AudioProducer, sample: i32) -> (ok: bool)
    ensures
        room(*old(p)) > 0 ==> ok && room(*final(p)) == room(*old(p)) - 1,
        ok ==> sent(*final(p)) == sent(*old(p)).push(sample),
        !ok ==> sent(*final(p)) == sent(*old(p)) && room(*final(p)) == 0,
{
    p.ring.try_push(sample).is_ok()
}

/// `Observer::occupied_len` at the reading end: how many samples wait. It looks up
/// the writer's place first, so there may be more than were known. None comes out.
#[verifier::external_body]
pub(crate) fn occupied_len(c: &mut AudioConsumer) -> (n: usize)
    ensures
        n == queued(*final(c)).len(),
        queued(*old(c)).is_prefix_of(queued(*final(c))),
        received(*final(c)) == received(*old(c)),
{
    c.ring.occupied_len()
}

/// `Consumer::try_pop`: the oldest sample that waits. Where none is known of, the
/// writer's place is looked up first. A sample that is handed out has come out of the
/// ring, and no other has.
#[verifier::external_body]
pub(crate) fn try_pop(c: &mut AudioConsumer) -> (r: Option<i32>)
    ensures
        queued(*old(c)).len() > 0 ==> r == Some(queued(*old(c))[0]) && queued(*final(c))
            == queued(*old(c)).drop_first(),
        r is None ==> queued(*final(c)) == Seq::<i32>::empty(),
        received(*final(c)) == match r {
            Some(s) => received(*old(c)).push(s),
            None => received(*old(c)),
        },
{
    c.ring.try_pop()
}

/// How many samples a ring between a decoder and the mixer holds.
pub const SOURCE_RING_SIZE: usize = 16384;

/// Both ends of a ring between the mixer and the sound card: a quarter of a second at
/// the card's rate.
pub fn create_output_ring(sample_rate_hz: u32) -> (r: (AudioProducer, AudioConsumer))
    requires
        4 <= sample_rate_hz <= 1_073_741_824,
    ensures
        sent(r.0) == Seq::<i32>::empty(),
        room(r.0) == sample_rate_hz / 4,
        queued(r.1) == Seq::<i32>::empty(),
        received(r.1) == Seq::<i32>::empty(),
{
    new_ring((sample_rate_hz / 4) as usize)
}

/// What a reading end held, what was taken out of it, and what it holds after: the
/// writer may have added samples meanwhile, but none is lost, none comes out of turn, and
/// nothing else was taken.
pub open spec fn drained(before: AudioConsumer, taken: Seq<i32>, after: AudioConsumer) -> bool {
    &&& queued(before).is_prefix_of(taken + queued(after))
    &&& received(after) == received(before) + taken
}

/// Takes up to `n` of the waiting samples: all of them where no more than `n` wait.
pub fn pop_available(c: &mut AudioConsumer, n: usize) -> (r: Vec<i32>)
    ensures
        r@.len() <= n,
        drained(*old(c), r@, *final(c)),
        r@.len() == n || queued(*final(c)) == Seq::<i32>::empty(),
{
    let avail: usize = occupied_len(c);
    let ghost all = queued(*c);
    let count: usize = if avail < n {
        avail
    } else {
        n
    };
    let mut out: Vec<i32> = Vec::new();
    assert(out@ + queued(*c) =~= all);
    let ghost had = received(*c);
    assert(had + out@ =~= had);
    while out.len() < count
        invariant
            out.len() <= count <= n,
            count <= all.len(),
            out@ + queued(*c) == all,
            received(*c) == had + out@,
        decreases count - out.len(),
    {
        assert(queued(*c).len() > 0);
        let ghost before = out@;
        let ghost q = queued(*c);
        match try_pop(c) {
            Some(s) => {
                out.push(s);
            },
            None => {},
        }
        assert(out@ + queued(*c) =~= before + q);
        assert(had + out@ =~= (had + before).push(q[0]));
    }
    proof {
        if count != n {
            assert(queued(*c) =~= Seq::<i32>::empty());
        }
    }
    out
}

} // verus!
