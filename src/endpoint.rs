//! The three endpoints that share one buffer: a producer that pushes at the
//! tail, a consumer that shifts from the head, and any number of readers.
//!
//! The whole buffer lives behind one reader-writer lock, by design, rather
//! than behind separate locks for the head and the tail: the producer and the
//! consumer take it exclusively and readers share it, so each operation sees
//! the buffer between two whole operations. The producer and the consumer
//! therefore wait on each other, and readers wait on both. The lock carries a
//! predicate: the buffer it holds keeps the start index and the capacity it
//! was created with, which every endpoint knows as its own view.

use crate::index::distance;
use crate::ring::{RingBuffer, MAX_BUFFER_SIZE};
use std::sync::Arc;
use vstd::prelude::*;
use vstd::rwlock::{RwLock, RwLockPredicate};

verus! {

/// What the shared lock guarantees of the buffer it holds: it is consistent,
/// and keeps the start index and the capacity it was created with.
pub struct BufferShape {
    pub initial: usize,
    pub capacity: usize,
}

/// `b` is a consistent buffer of the given shape.
pub open spec fn has_shape<T>(b: RingBuffer<T>, shape: BufferShape) -> bool {
    &&& b.consistent()
    &&& b.initial() == shape.initial
    &&& b.capacity() == shape.capacity
}

impl<T> RwLockPredicate<RingBuffer<T>> for BufferShape {
    open spec fn inv(self, v: RingBuffer<T>) -> bool {
        has_shape(v, self)
    }
}

/// The lock shared by the endpoints of one buffer.
type SharedBuffer<T> = Arc<RwLock<RingBuffer<T>, BufferShape>>;

/// Relies on `Arc::clone`: a second handle to the same value.
#[verifier::external_body]
fn share<V>(a: &Arc<V>) -> (r: Arc<V>)
    ensures
        r == *a,
{
    a.clone()
}

/// The writing end: appends items at the tail.
#[verifier::reject_recursive_types(T)]
pub struct Producer<T> {
    buffer: SharedBuffer<T>,
}

/// The consuming end: removes items from the head.
#[verifier::reject_recursive_types(T)]
pub struct Consumer<T> {
    buffer: SharedBuffer<T>,
}

/// A reading end: copies live items without removing them.
#[verifier::reject_recursive_types(T)]
#[derive(Clone)]
pub struct Reader<T> {
    buffer: SharedBuffer<T>,
}


/// Whether the shared buffer holds no item.
fn shared_is_empty<T: Copy + Default>(buffer: &RwLock<RingBuffer<T>, BufferShape>) -> (r: bool)
    ensures
        exists|b: RingBuffer<T>| #[trigger] has_shape(b, buffer.pred()) && r == (b.items().len() == 0),
{
    let h = buffer.acquire_read();
    let r = h.borrow().is_empty();
    h.release_read();
    r
}

/// Whether the shared buffer holds as many items as its capacity.
fn shared_is_full<T: Copy + Default>(buffer: &RwLock<RingBuffer<T>, BufferShape>) -> (r: bool)
    ensures
        exists|b: RingBuffer<T>|
            #[trigger] has_shape(b, buffer.pred()) && r == (b.items().len() == b.capacity()),
{
    let h = buffer.acquire_read();
    let r = h.borrow().is_full();
    h.release_read();
    r
}

impl<T> Producer<T> {
    /// The shape of the buffer this endpoint shares.
    pub closed spec fn shape(&self) -> BufferShape {
        self.buffer.pred()
    }

    /// The absolute index the buffer gave its first push.
    pub open spec fn initial_index(&self) -> usize {
        self.shape().initial
    }

    /// How many items the shared buffer can hold.
    pub open spec fn capacity(&self) -> nat {
        self.shape().capacity as nat
    }
}

impl<T> Consumer<T> {
    /// The shape of the buffer this endpoint shares.
    pub closed spec fn shape(&self) -> BufferShape {
        self.buffer.pred()
    }

    /// The absolute index the buffer gave its first push.
    pub open spec fn initial_index(&self) -> usize {
        self.shape().initial
    }

    /// How many items the shared buffer can hold.
    pub open spec fn capacity(&self) -> nat {
        self.shape().capacity as nat
    }
}

impl<T> Reader<T> {
    /// The shape of the buffer this endpoint shares.
    pub closed spec fn shape(&self) -> BufferShape {
        self.buffer.pred()
    }

    /// The absolute index the buffer gave its first push.
    pub open spec fn initial_index(&self) -> usize {
        self.shape().initial
    }

    /// How many items the shared buffer can hold.
    pub open spec fn capacity(&self) -> nat {
        self.shape().capacity as nat
    }
}

impl<T: Copy + Default> Producer<T> {
    /// Whether the buffer holds no item.
    pub fn is_empty(&self) -> (r: bool)
        ensures
            exists|b: RingBuffer<T>| #[trigger] has_shape(b, self.shape()) && r == (b.items().len() == 0),
    {
        let r = shared_is_empty(&*self.buffer);
        assert(self.shape() == (*self.buffer).pred());
        r
    }

    /// Whether the buffer holds as many items as its capacity.
    pub fn is_full(&self) -> (r: bool)
        ensures
            exists|b: RingBuffer<T>|
                #[trigger] has_shape(b, self.shape()) && r == (b.items().len() == b.capacity()),
    {
        let r = shared_is_full(&*self.buffer);
        assert(self.shape() == (*self.buffer).pred());
        r
    }

    /// Appends `v` at the tail; false when the buffer is full.
    pub fn push(&mut self, v: T) -> (r: bool)
        ensures
            final(self).shape() == old(self).shape(),
            exists|b: RingBuffer<T>|
                #[trigger] has_shape(b, old(self).shape()) && r == (b.items().len() < b.capacity()),
    {
        let (mut b, handle) = self.buffer.acquire_write();
        let ghost before = b;
        let r = b.push(v);
        assert(has_shape(before, self.shape()));
        handle.release_write(b);
        r
    }
}

impl<T: Copy + Default> Consumer<T> {
    /// Whether the buffer holds no item.
    pub fn is_empty(&self) -> (r: bool)
        ensures
            exists|b: RingBuffer<T>| #[trigger] has_shape(b, self.shape()) && r == (b.items().len() == 0),
    {
        let r = shared_is_empty(&*self.buffer);
        assert(self.shape() == (*self.buffer).pred());
        r
    }

    /// Whether the buffer holds as many items as its capacity.
    pub fn is_full(&self) -> (r: bool)
        ensures
            exists|b: RingBuffer<T>|
                #[trigger] has_shape(b, self.shape()) && r == (b.items().len() == b.capacity()),
    {
        let r = shared_is_full(&*self.buffer);
        assert(self.shape() == (*self.buffer).pred());
        r
    }

    /// Removes every item up to and including absolute index `to` and returns
    /// them, oldest first; none when `to` is not live.
    pub fn shift_to(&mut self, to: usize) -> (r: Option<(usize, Vec<T>)>)
        ensures
            final(self).shape() == old(self).shape(),
            exists|b: RingBuffer<T>|
                {
                    let k = distance(b.first_index(), to);
                    &&& #[trigger] has_shape(b, old(self).shape())
                    &&& r is Some <==> k < b.items().len()
                    &&& r matches Some((i, v)) ==> i == to && v@ == b.items().subrange(0, k + 1)
                },
    {
        let (mut b, handle) = self.buffer.acquire_write();
        let ghost before = b;
        let r = b.shift_to(to);
        assert({
            let k = distance(before.first_index(), to);
            &&& has_shape(before, self.shape())
            &&& r is Some <==> k < before.items().len()
            &&& r matches Some((i, v)) ==> i == to && v@ == before.items().subrange(0, k + 1)
        });
        handle.release_write(b);
        r
    }

    /// Removes the oldest item and returns it with its absolute index.
    pub fn shift(&mut self) -> (r: Option<(usize, T)>)
        ensures
            final(self).shape() == old(self).shape(),
            exists|b: RingBuffer<T>|
                {
                    &&& #[trigger] has_shape(b, old(self).shape())
                    &&& b.items().len() == 0 ==> r is None
                    &&& b.items().len() > 0 ==> r == Some((b.first_index(), b.items()[0]))
                },
    {
        let (mut b, handle) = self.buffer.acquire_write();
        let ghost before = b;
        let r = b.shift();
        assert(has_shape(before, self.shape()) && (before.items().len() == 0 ==> r is None) && (
        before.items().len() > 0 ==> r == Some((before.first_index(), before.items()[0]))));
        handle.release_write(b);
        r
    }
}

impl<T: Copy + Default> Reader<T> {
    /// Whether the buffer holds no item.
    pub fn is_empty(&self) -> (r: bool)
        ensures
            exists|b: RingBuffer<T>| #[trigger] has_shape(b, self.shape()) && r == (b.items().len() == 0),
    {
        let r = shared_is_empty(&*self.buffer);
        assert(self.shape() == (*self.buffer).pred());
        r
    }

    /// Whether the buffer holds as many items as its capacity.
    pub fn is_full(&self) -> (r: bool)
        ensures
            exists|b: RingBuffer<T>|
                #[trigger] has_shape(b, self.shape()) && r == (b.items().len() == b.capacity()),
    {
        let r = shared_is_full(&*self.buffer);
        assert(self.shape() == (*self.buffer).pred());
        r
    }

    /// A copy of the item at absolute index `idx`, if it is live.
    pub fn get(&self, idx: usize) -> (r: Option<(usize, T)>)
        ensures
            exists|b: RingBuffer<T>| #[trigger] has_shape(b, self.shape()) && r == b.get_spec(idx),
    {
        let h = self.buffer.acquire_read();
        let ghost seen = h.view();
        assert(has_shape(seen, self.shape()));
        let r = h.borrow().get(idx);
        h.release_read();
        r
    }

    /// A copy of the whole live region with its first and last absolute index.
    pub fn get_all(&self) -> (r: Option<(usize, usize, Vec<T>)>)
        ensures
            exists|b: RingBuffer<T>|
                {
                    &&& #[trigger] has_shape(b, self.shape())
                    &&& r is None ==> b.get_all_spec() is None
                    &&& r matches Some((from, to, v)) ==> b.get_all_spec() == Some((from, to, v@))
                },
    {
        let h = self.buffer.acquire_read();
        let ghost seen = h.view();
        assert(has_shape(seen, self.shape()));
        let r = h.borrow().get_all();
        h.release_read();
        r
    }

    /// A copy of up to `len` items from absolute index `idx` on (to the tail
    /// when `len` is zero or runs past it); none when `idx` is not live.
    pub fn get_from(&self, idx: usize, len: usize) -> (r: Option<(usize, usize, Vec<T>)>)
        ensures
            exists|b: RingBuffer<T>|
                {
                    &&& #[trigger] has_shape(b, self.shape())
                    &&& r is None ==> b.get_from_spec(idx, len) is None
                    &&& r matches Some((from, to, v)) ==> b.get_from_spec(idx, len) == Some(
                        (from, to, v@),
                    )
                },
    {
        let h = self.buffer.acquire_read();
        let ghost seen = h.view();
        assert(has_shape(seen, self.shape()));
        let r = h.borrow().get_from(idx, len);
        h.release_read();
        r
    }
}

/// Creates a buffer for `capacity` items (at most `MAX_BUFFER_SIZE`) whose
/// first push receives absolute index `initial_index`, and the three
/// endpoints that share it.
pub fn indexed_ring_buffer<T: Copy + Default>(initial_index: usize, capacity: usize) -> (r: (
    Producer<T>,
    Consumer<T>,
    Reader<T>,
))
    ensures
        r.0.initial_index() == initial_index,
        r.0.capacity() == if capacity < MAX_BUFFER_SIZE { capacity } else { MAX_BUFFER_SIZE },
        r.1.shape() == r.0.shape(),
        r.2.shape() == r.0.shape(),
{
    let rb = RingBuffer::new(initial_index, capacity);
    let ghost shape = BufferShape { initial: initial_index, capacity: rb.capacity() as usize };
    let shared = Arc::new(RwLock::new(rb, Ghost(shape)));
    let tx = Producer { buffer: share(&shared) };
    let rx = Consumer { buffer: share(&shared) };
    let rdr = Reader { buffer: shared };
    (tx, rx, rdr)
}

} // verus!
