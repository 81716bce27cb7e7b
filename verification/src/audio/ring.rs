//! The sample ring between an audio callback and the rest of the pipeline: a
//! lock-free `ringbuf` ring with one producer and one consumer. Samples are
//! the bits of floats.
//!
//! The two ends run on different threads, so neither knows what the ring holds
//! at a given moment. What an end does know is what went through it, and a
//! lower bound on what it can do next: only this producer fills the room that
//! it saw, and only this consumer takes the samples that it saw.

use ringbuf::traits::{Consumer, Observer, Producer, Split};
use vstd::prelude::*;

verus! {

/// The end of a ring that samples are pushed into (`ringbuf::HeapProd`).
#[verifier::external_body]
pub struct RingProducer {
    inner: ringbuf::HeapProd<u32>,
}

/// The end of a ring that samples are taken from (`ringbuf::HeapCons`).
#[verifier::external_body]
pub struct RingConsumer {
    inner: ringbuf::HeapCons<u32>,
}

/// Every sample that was pushed through this end, in order.
pub uninterp spec fn sent(prod: RingProducer) -> Seq<u32>;

/// The free places that this end knows of: by its own write index and the read
/// index that it fetched last. There may be more by now, not fewer.
pub uninterp spec fn room(prod: RingProducer) -> nat;

/// Every sample that was taken through this end, popped or discarded, in
/// order.
pub uninterp spec fn taken(cons: RingConsumer) -> Seq<u32>;

/// The samples that this end knows of: by its own read index and the write
/// index that it fetched last. There may be more by now, not fewer.
pub uninterp spec fn ready(cons: RingConsumer) -> nat;

/// `ringbuf::HeapRb::new` and `split`: an empty ring with `capacity` places,
/// through neither end of which anything has gone. `new` panics without a
/// place, and where an allocation of that size is impossible.
#[verifier::external_body]
fn new_ring(capacity: usize) -> (r: (RingProducer, RingConsumer))
    requires
        0 < capacity,
        capacity * 4 <= isize::MAX,
    ensures
        sent(r.0) == Seq::<u32>::empty(),
        room(r.0) == capacity,
        taken(r.1) == Seq::<u32>::empty(),
        ready(r.1) == 0,
{
    let (prod, cons) = ringbuf::HeapRb::<u32>::new(capacity).split();
    (RingProducer { inner: prod }, RingConsumer { inner: cons })
}

/// `ringbuf::traits::Observer::vacant_len` of a producer: fetches the read
/// index and returns the number of free places, which were no fewer before.
#[verifier::external_body]
fn vacant_len(prod: &mut RingProducer) -> (r: usize)
    ensures
        room(*final(prod)) == r,
        r >= room(*old(prod)),
        sent(*final(prod)) == sent(*old(prod)),
{
    prod.inner.vacant_len()
}

/// `ringbuf::traits::Producer::push_slice`: pushes as many of the samples as
/// there is room for, from the first on, and returns how many these are. The
/// room that was known before is there, and goes down by no more than what was
/// pushed.
#[verifier::external_body]
fn push_slice(prod: &mut RingProducer, samples: &[u32]) -> (r: usize)
    ensures
        r <= samples@.len(),
        r < samples@.len() ==> r >= room(*old(prod)),
        sent(*final(prod)) == sent(*old(prod)) + samples@.take(r as int),
        room(*final(prod)) + r >= room(*old(prod)),
{
    prod.inner.push_slice(samples)
}

/// `ringbuf::traits::Observer::occupied_len` of a consumer: fetches the write
/// index and returns the number of samples, which were no fewer before.
#[verifier::external_body]
fn occupied_len(cons: &mut RingConsumer) -> (r: usize)
    ensures
        ready(*final(cons)) == r,
        r >= ready(*old(cons)),
        taken(*final(cons)) == taken(*old(cons)),
{
    cons.inner.occupied_len()
}

/// `ringbuf::traits::Consumer::pop_slice` into `buf`, which is made `want`
/// long for it and cut to what came: the next samples, as many as are there
/// up to `want`. Those that were known before are there.
#[verifier::external_body]
fn pop_slice(cons: &mut RingConsumer, buf: &mut Vec<u32>, want: usize)
    ensures
        final(buf)@.len() <= want,
        final(buf)@.len() < want ==> final(buf)@.len() >= ready(*old(cons)),
        taken(*final(cons)) == taken(*old(cons)) + final(buf)@,
        ready(*final(cons)) + final(buf)@.len() >= ready(*old(cons)),
{
    buf.clear();
    buf.resize(want, 0);
    let got = cons.inner.pop_slice(buf);
    buf.truncate(got);
}

/// `ringbuf::traits::Consumer::clear`: discards every sample that is there,
/// the ones known before among them, and returns how many these are. Which
/// samples the other end has pushed meanwhile is not known here.
#[verifier::external_body]
fn clear_ring(cons: &mut RingConsumer) -> (r: usize)
    ensures
        r >= ready(*old(cons)),
        taken(*final(cons)).len() == taken(*old(cons)).len() + r,
        taken(*old(cons)).is_prefix_of(taken(*final(cons))),
{
    cons.inner.clear()
}

/// Makes a ring with `capacity` places.
pub fn sample_ring(capacity: usize) -> (r: (RingProducer, RingConsumer))
    requires
        0 < capacity,
        capacity * 4 <= isize::MAX,
    ensures
        sent(r.0) == Seq::<u32>::empty(),
        room(r.0) == capacity,
        taken(r.1) == Seq::<u32>::empty(),
        ready(r.1) == 0,
{
    new_ring(capacity)
}

impl RingProducer {
    /// Looks at how many places are free.
    pub fn vacant(&mut self) -> (r: usize)
        ensures
            room(*final(self)) == r,
            r >= room(*old(self)),
            sent(*final(self)) == sent(*old(self)),
    {
        vacant_len(self)
    }

    /// Pushes as many of the samples as there is room for, and returns how
    /// many these are.
    pub fn push(&mut self, samples: &[u32]) -> (r: usize)
        ensures
            r <= samples@.len(),
            r < samples@.len() ==> r >= room(*old(self)),
            sent(*final(self)) == sent(*old(self)) + samples@.take(r as int),
            room(*final(self)) + r >= room(*old(self)),
    {
        push_slice(self, samples)
    }
}

impl RingConsumer {
    /// Looks at how many samples are there.
    pub fn occupied(&mut self) -> (r: usize)
        ensures
            ready(*final(self)) == r,
            r >= ready(*old(self)),
            taken(*final(self)) == taken(*old(self)),
    {
        occupied_len(self)
    }

    /// Takes the next samples into `buf`, up to `want` of them.
    pub fn pop(&mut self, buf: &mut Vec<u32>, want: usize)
        ensures
            final(buf)@.len() <= want,
            final(buf)@.len() < want ==> final(buf)@.len() >= ready(*old(self)),
            taken(*final(self)) == taken(*old(self)) + final(buf)@,
            ready(*final(self)) + final(buf)@.len() >= ready(*old(self)),
    {
        pop_slice(self, buf, want)
    }

    /// Discards every sample that is there, and returns how many these are.
    pub fn clear(&mut self) -> (r: usize)
        ensures
            r >= ready(*old(self)),
            taken(*final(self)).len() == taken(*old(self)).len() + r,
            taken(*old(self)).is_prefix_of(taken(*final(self))),
    {
        clear_ring(self)
    }
}

} // verus!
