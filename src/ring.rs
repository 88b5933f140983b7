//! The storage of the ring buffer: a fixed slot array, the head and tail
//! cursors, and the absolute index of the item at the head.

use crate::index::{
    distance, lemma_distance_of_wrap, lemma_distance_reaches, usize_modulus, wrap_add, IndexUtil,
};
use vstd::prelude::*;

verus! {

/// The largest capacity a buffer can be created with.
pub const MAX_BUFFER_SIZE: usize = 2_147_483_647;

/// The slot of the `k`-th live item, counted from `head`, in an array of `n` cells.
pub open spec fn slot_of(head: int, k: int, n: int) -> int {
    if head + k < n {
        head + k
    } else {
        head + k - n
    }
}

/// `a + 1`, wrapped around the width of `usize`.
proof fn lemma_wrap_step(a: usize, k: nat)
    ensures
        wrap_add(wrap_add(a, k as int), 1) == wrap_add(a, k + 1 as int),
{
    vstd::arithmetic::div_mod::lemma_add_mod_noop(a as int + k, 1, usize_modulus());
    vstd::arithmetic::div_mod::lemma_small_mod(1, usize_modulus() as nat);
    vstd::arithmetic::div_mod::lemma_mod_bound(a as int + k, usize_modulus());
}

/// `wrap_add` taken in two steps gives the same index as in one.
proof fn lemma_wrap_twice(a: usize, j: nat, k: nat)
    ensures
        wrap_add(wrap_add(a, j as int), k as int) == wrap_add(a, (j + k) as int),
{
    vstd::arithmetic::div_mod::lemma_add_mod_noop(a as int + j, k as int, usize_modulus());
    vstd::arithmetic::div_mod::lemma_mod_bound(a as int + j, usize_modulus());
    vstd::arithmetic::div_mod::lemma_mod_bound(k as int, usize_modulus());
    vstd::arithmetic::div_mod::lemma_mod_twice(k as int, usize_modulus());
    vstd::arithmetic::div_mod::lemma_add_mod_noop(wrap_add(a, j as int) as int, k as int, usize_modulus());
}

/// `a + 1`, wrapped around the width of `usize`, as `wrapping_add` computes it.
proof fn lemma_wrap_one(a: usize)
    ensures
        wrap_add(a, 1) == (if a == usize::MAX { 0 } else { a + 1 }),
{
    if a == usize::MAX {
        vstd::arithmetic::div_mod::lemma_mod_self_0(usize_modulus());
    } else {
        vstd::arithmetic::div_mod::lemma_small_mod((a + 1) as nat, usize_modulus() as nat);
    }
}

/// `wrapping_add` computes `wrap_add`.
proof fn lemma_wrap_exact(a: usize, k: nat)
    requires
        k <= usize::MAX,
    ensures
        wrap_add(a, k as int) == (if a + k > usize::MAX { a + k - usize_modulus() } else { a + k }),
{
    if a + k > usize::MAX {
        vstd::arithmetic::div_mod::lemma_mod_add_multiples_vanish(a + k - usize_modulus(), usize_modulus());
        vstd::arithmetic::div_mod::lemma_small_mod((a + k - usize_modulus()) as nat, usize_modulus() as nat);
    } else {
        vstd::arithmetic::div_mod::lemma_small_mod((a + k) as nat, usize_modulus() as nat);
    }
}

/// The cursors, moved as one unit so that the buffer's invariant holds
/// between any two updates.
struct Cursors<T> {
    head: usize,
    tail: usize,
    offset: usize,
    /// Every value ever pushed, oldest first.
    pushed: Ghost<Seq<T>>,
    /// How many of the pushed values have been shifted out.
    removed: Ghost<nat>,
    /// The absolute index given to the first push.
    initial: Ghost<usize>,
}

/// A fixed-capacity circular buffer whose items carry absolute indices.
pub struct RingBuffer<T> {
    slots: Vec<T>,
    cur: Cursors<T>,
}

impl<T> RingBuffer<T> {
    /// The number of slots: one more than the capacity.
    pub closed spec fn slot_count(&self) -> int {
        self.slots@.len() as int
    }

    /// How many items the buffer can hold.
    pub closed spec fn capacity(&self) -> nat {
        (self.slots@.len() - 1) as nat
    }

    closed spec fn filled(&self) -> int {
        if self.cur.tail >= self.cur.head {
            self.cur.tail - self.cur.head
        } else {
            self.cur.tail + self.slots@.len() - self.cur.head
        }
    }

    /// The live items, oldest first.
    pub closed spec fn items(&self) -> Seq<T> {
        Seq::new(
            self.filled() as nat,
            |k: int| self.slots@[slot_of(self.cur.head as int, k, self.slots@.len() as int)],
        )
    }

    /// The absolute index of the oldest live item, or of the next push when empty.
    pub closed spec fn first_index(&self) -> usize {
        self.cur.offset
    }

    /// Every value ever pushed into this buffer, oldest first.
    pub closed spec fn pushed(&self) -> Seq<T> {
        self.cur.pushed@
    }

    /// How many values have been shifted out so far.
    pub closed spec fn removed(&self) -> nat {
        self.cur.removed@
    }

    /// The absolute index that the first push received.
    pub closed spec fn initial(&self) -> usize {
        self.cur.initial@
    }

    /// The live items are the pushed values not yet shifted out, and the
    /// first of them is named by `initial` advanced once per shifted value.
    pub open spec fn consistent(&self) -> bool {
        &&& self.removed() + self.items().len() == self.pushed().len()
        &&& self.items() =~= self.pushed().subrange(self.removed() as int, self.pushed().len() as int)
        &&& self.first_index() == wrap_add(self.initial(), self.removed() as int)
        &&& self.items().len() <= self.capacity()
        &&& self.capacity() <= MAX_BUFFER_SIZE
    }

    /// The values shifted out so far, oldest first.
    pub open spec fn delivered(&self) -> Seq<T> {
        self.pushed().subrange(0, self.removed() as int)
    }

    /// The result of reading absolute index `idx`.
    pub open spec fn get_spec(&self, idx: usize) -> Option<(usize, T)> {
        let k = distance(self.first_index(), idx);
        if k < self.items().len() {
            Some((idx, self.items()[k]))
        } else {
            None
        }
    }

    /// The result of reading the whole live region.
    pub open spec fn get_all_spec(&self) -> Option<(usize, usize, Seq<T>)> {
        if self.items().len() == 0 {
            None
        } else {
            Some(
                (
                    self.first_index(),
                    wrap_add(self.first_index(), self.items().len() - 1),
                    self.items(),
                ),
            )
        }
    }

    /// Where a read of up to `len` items from live position `k` stops; a
    /// `len` of zero, or one that runs past the live region, reads to the tail.
    pub open spec fn run_end(&self, k: int, len: usize) -> int {
        if len == 0 || k + len > self.items().len() {
            self.items().len() as int
        } else {
            k + len
        }
    }

    /// The result of reading up to `len` items from absolute index `idx`.
    pub open spec fn get_from_spec(&self, idx: usize, len: usize) -> Option<(usize, usize, Seq<T>)> {
        let k = distance(self.first_index(), idx);
        if k < self.items().len() {
            let end = self.run_end(k, len);
            Some((idx, wrap_add(idx, end - k - 1), self.items().subrange(k, end)))
        } else {
            None
        }
    }

    /// Indexing is a bijection between the live absolute indices and the
    /// pushes not yet shifted out: a live index `idx` reads the value of the
    /// `n`-th push, where `n` is how far the index advanced from `initial` to
    /// reach `idx`; and the `k`-th live item is read back at `first_index + k`.
    pub proof fn lemma_indexing_bijection(&self, idx: usize)
        requires
            self.consistent(),
            distance(self.first_index(), idx) < self.items().len(),
        ensures
            ({
                let n = self.removed() + distance(self.first_index(), idx);
                &&& n < self.pushed().len()
                &&& wrap_add(self.initial(), n) == idx
                &&& self.get_spec(idx) == Some((idx, self.pushed()[n]))
                &&& n < usize_modulus() ==> n == distance(self.initial(), idx)
            }),
            forall|k: int|
                0 <= k < self.items().len() ==> #[trigger] self.get_spec(
                    wrap_add(self.first_index(), k),
                ) == Some((wrap_add(self.first_index(), k), self.items()[k])),
    {
        let d = distance(self.first_index(), idx);
        lemma_distance_reaches(self.first_index(), idx);
        lemma_wrap_twice(self.initial(), self.removed(), d as nat);
        assert(self.items()[d] == self.pushed()[self.removed() + d]);
        if self.removed() + d < usize_modulus() {
            lemma_distance_of_wrap(self.initial(), self.removed() + d);
        }
        assert forall|k: int| 0 <= k < self.items().len() implies #[trigger] self.get_spec(
            wrap_add(self.first_index(), k),
        ) == Some((wrap_add(self.first_index(), k), self.items()[k])) by {
            lemma_distance_of_wrap(self.first_index(), k);
        }
    }

    /// Consumer operations hand out indices without gap or overlap, whatever
    /// pushes come between them: when the last one ended at index `e`, having
    /// brought the count of removed values to `removed()`, the next one starts
    /// at `e + 1` (wrapping).
    pub proof fn lemma_next_start_follows(&self, e: usize)
        requires
            self.consistent(),
            self.removed() > 0,
            e == wrap_add(self.initial(), self.removed() - 1),
        ensures
            self.first_index() == wrap_add(e, 1),
    {
        lemma_wrap_step(self.initial(), (self.removed() - 1) as nat);
    }

    /// Once drained, the values the consumer received, in order, are exactly
    /// the values pushed, in order.
    pub proof fn lemma_drain_round_trip(&self)
        requires
            self.consistent(),
            self.items().len() == 0,
        ensures
            self.delivered() == self.pushed(),
    {
        assert(self.delivered() =~= self.pushed());
    }

    #[verifier::type_invariant]
    closed spec fn inv(&self) -> bool {
        &&& 1 <= self.slots@.len() <= MAX_BUFFER_SIZE + 1
        &&& self.cur.head < self.slots@.len()
        &&& self.cur.tail < self.slots@.len()
        &&& self.cur.removed@ + self.filled() == self.cur.pushed@.len()
        &&& forall|k: int|
            0 <= k < self.filled() ==> #[trigger] self.slots@[slot_of(
                self.cur.head as int,
                k,
                self.slots@.len() as int,
            )] == self.cur.pushed@[self.cur.removed@ + k]
        &&& self.cur.offset == wrap_add(self.cur.initial@, self.cur.removed@ as int)
    }

    proof fn lemma_consistent(&self)
        requires
            self.inv(),
        ensures
            self.consistent(),
            self.items().len() < self.slot_count(),
    {
        assert forall|k: int| 0 <= k < self.items().len() implies self.items()[k]
            == self.pushed().subrange(self.removed() as int, self.pushed().len() as int)[k] by {
            assert(self.slots@[slot_of(self.cur.head as int, k, self.slots@.len() as int)]
                == self.cur.pushed@[self.cur.removed@ + k]);
        }
    }
}

impl<T: Copy + Default> RingBuffer<T> {
    /// An empty buffer for `size` items (at most `MAX_BUFFER_SIZE`) whose first
    /// push receives absolute index `offset`.
    pub fn new(offset: usize, size: usize) -> (r: Self)
        ensures
            r.items().len() == 0,
            r.first_index() == offset,
            r.capacity() == if size < MAX_BUFFER_SIZE { size } else { MAX_BUFFER_SIZE },
            r.pushed().len() == 0,
            r.removed() == 0,
            r.initial() == offset,
            r.consistent(),
    {
        let sz = if size < MAX_BUFFER_SIZE { size } else { MAX_BUFFER_SIZE };
        let mut data: Vec<T> = Vec::new();
        let mut i: usize = 0;
        while i <= sz
            invariant
                data@.len() == i,
                i <= sz + 1,
                sz <= MAX_BUFFER_SIZE,
            decreases sz + 1 - i,
        {
            data.push(T::default());
            i = i + 1;
        }
        proof {
            vstd::arithmetic::div_mod::lemma_small_mod(offset as nat, usize_modulus() as nat);
        }
        let r = RingBuffer {
            slots: data,
            cur: Cursors {
                head: 0,
                tail: 0,
                offset,
                pushed: Ghost(Seq::empty()),
                removed: Ghost(0),
                initial: Ghost(offset),
            },
        };
        proof {
            r.lemma_consistent();
        }
        r
    }

    /// The number of live items.
    fn filled_size(&self) -> (r: usize)
        ensures
            r == self.items().len(),
            r < self.slot_count(),
    {
        proof {
            use_type_invariant(self);
            self.lemma_consistent();
        }
        let n = self.slots.len();
        if self.cur.tail >= self.cur.head {
            self.cur.tail - self.cur.head
        } else {
            self.cur.tail + n - self.cur.head
        }
    }

    /// Whether the buffer holds no item.
    pub fn is_empty(&self) -> (r: bool)
        ensures
            r == (self.items().len() == 0),
            self.consistent(),
    {
        proof {
            use_type_invariant(self);
            self.lemma_consistent();
        }
        self.cur.head == self.cur.tail
    }

    /// Whether the buffer holds as many items as its capacity.
    pub fn is_full(&self) -> (r: bool)
        ensures
            r == (self.items().len() == self.capacity()),
            self.consistent(),
    {
        proof {
            use_type_invariant(self);
            self.lemma_consistent();
        }
        let capacity = self.slots.len();
        let next = if self.cur.tail + 1 == capacity { 0 } else { self.cur.tail + 1 };
        next == self.cur.head
    }

    /// Appends `v` at the tail. Fails, changing nothing, when the buffer is full.
    pub fn push(&mut self, v: T) -> (r: bool)
        ensures
            r == (old(self).items().len() < old(self).capacity()),
            r ==> final(self).items() == old(self).items().push(v),
            r ==> final(self).pushed() == old(self).pushed().push(v),
            r ==> final(self).first_index() == old(self).first_index(),
            r ==> final(self).removed() == old(self).removed(),
            r ==> final(self).initial() == old(self).initial(),
            r ==> final(self).capacity() == old(self).capacity(),
            r ==> final(self).delivered() == old(self).delivered(),
            !r ==> *final(self) == *old(self),
            old(self).consistent(),
            final(self).consistent(),
    {
        proof {
            use_type_invariant(&*self);
            self.lemma_consistent();
        }
        let head = self.cur.head;
        let tail = self.cur.tail;
        let mut new_tail = tail + 1;
        if new_tail == self.slots.len() {
            new_tail = 0;
        }
        if head == new_tail {
            return false;
        }
        let ghost n = self.slots@.len() as int;
        assert forall|k: int| 0 <= k < self.filled() implies slot_of(head as int, k, n) != tail by {}
        self.slots[tail] = v;
        assert(slot_of(head as int, self.filled(), n) == tail);
        self.cur = Cursors {
            head,
            tail: new_tail,
            offset: self.cur.offset,
            pushed: Ghost(self.cur.pushed@.push(v)),
            removed: Ghost(self.cur.removed@),
            initial: Ghost(self.cur.initial@),
        };
        proof {
            use_type_invariant(&*self);
            self.lemma_consistent();
            assert(self.delivered() =~= old(self).delivered());
        }
        true
    }

    /// Removes the oldest item and returns it with its absolute index.
    pub fn shift(&mut self) -> (r: Option<(usize, T)>)
        ensures
            old(self).items().len() == 0 ==> r is None && *final(self) == *old(self),
            old(self).items().len() > 0 ==> r == Some((old(self).first_index(), old(self).items()[0]))
                && final(self).items() == old(self).items().drop_first() && final(self).first_index()
                == wrap_add(old(self).first_index(), 1) && final(self).removed() == old(self).removed()
                + 1 && final(self).delivered() == old(self).delivered().push(old(self).items()[0]),
            r matches Some((i, _)) ==> i == wrap_add(final(self).initial(), final(self).removed() - 1),
            final(self).pushed() == old(self).pushed(),
            final(self).initial() == old(self).initial(),
            final(self).capacity() == old(self).capacity(),
            old(self).consistent(),
            final(self).consistent(),
    {
        proof {
            use_type_invariant(&*self);
            self.lemma_consistent();
        }
        let head = self.cur.head;
        let tail = self.cur.tail;
        let offset = self.cur.offset;
        if head == tail {
            return None;
        }
        let mut new_head = head + 1;
        if new_head == self.slots.len() {
            new_head = 0;
        }
        let v = self.slots[head];
        let ghost n = self.slots@.len() as int;
        let ghost removed = self.cur.removed@;
        proof {
            assert(slot_of(head as int, 0, n) == head);
            assert forall|k: int| 0 <= k < self.filled() - 1 implies self.slots@[slot_of(
                new_head as int,
                k,
                n,
            )] == self.cur.pushed@[removed + 1 + k] by {
                assert(slot_of(new_head as int, k, n) == slot_of(head as int, k + 1, n));
                assert(self.slots@[slot_of(head as int, k + 1, n)] == self.cur.pushed@[removed + (k
                    + 1)]);
            }
            lemma_wrap_one(offset);
            lemma_wrap_step(self.cur.initial@, removed);
            assert(self.cur.pushed@.subrange(0, removed + 1 as int) =~= self.cur.pushed@.subrange(
                0,
                removed as int,
            ).push(v));
        }
        self.cur = Cursors {
            head: new_head,
            tail,
            offset: offset.wrapping_add(1),
            pushed: Ghost(self.cur.pushed@),
            removed: Ghost(removed + 1),
            initial: Ghost(self.cur.initial@),
        };
        proof {
            use_type_invariant(&*self);
            self.lemma_consistent();
            assert(self.items() =~= old(self).items().drop_first());
        }
        Some((offset, v))
    }

    /// The slot of the `k`-th live item.
    fn slot(&self, k: usize) -> (r: usize)
        requires
            k < self.slot_count(),
        ensures
            r == slot_of(self.cur.head as int, k as int, self.slot_count()),
            r < self.slot_count(),
    {
        proof {
            use_type_invariant(self);
        }
        let n = self.slots.len();
        if self.cur.head + k < n {
            self.cur.head + k
        } else {
            self.cur.head + k - n
        }
    }

    /// A copy of the live items at positions `k0` up to `k1`, gathered from
    /// the (at most two) contiguous slot ranges that hold them.
    fn copy_live(&self, k0: usize, k1: usize) -> (v: Vec<T>)
        requires
            k0 <= k1 <= self.items().len(),
        ensures
            v@ == self.items().subrange(k0 as int, k1 as int),
    {
        proof {
            use_type_invariant(self);
            self.lemma_consistent();
        }
        let n = self.slots.len();
        let rh = self.slot(k0);
        let rt = self.slot(k1);
        let (a, b) = IndexUtil::calc_range(rh, rt, n);
        let ghost head = self.cur.head as int;
        let ghost items = self.items();
        let mut out: Vec<T> = Vec::new();
        let mut j: usize = a.start;
        while j < a.end
            invariant
                a.start <= j <= a.end <= n,
                n == self.slot_count(),
                items == self.items(),
                k0 <= k1 <= items.len() < n,
                head == self.cur.head,
                head < n,
                rh == slot_of(head, k0 as int, n as int),
                rt == slot_of(head, k1 as int, n as int),
                rh < rt ==> a.start == rh && a.end == rt && b.end == 0,
                rh > rt ==> a.start == rh && a.end == n && b.start == 0 && b.end == rt,
                rh == rt ==> a.start == 0 && a.end == 0 && b.end == 0,
                out@.len() == j - a.start,
                forall|i: int| 0 <= i < out@.len() ==> out@[i] == items[k0 + i],
            decreases a.end - j,
        {
            let ghost k = k0 + (j - a.start);
            assert(slot_of(head, k, n as int) == j);
            assert(k < k1);
            out.push(self.slots[j]);
            j = j + 1;
        }
        let ghost first = out@.len() as int;
        assert(rh == rt ==> k0 == k1);
        let mut j: usize = b.start;
        while j < b.end
            invariant
                b.start <= j <= b.end,
                n == self.slot_count(),
                items == self.items(),
                k0 <= k1 <= items.len() < n,
                head == self.cur.head,
                head < n,
                rh == slot_of(head, k0 as int, n as int),
                rt == slot_of(head, k1 as int, n as int),
                b.start == 0,
                rh > rt ==> b.end == rt && first == n - rh,
                rh < rt ==> b.end == 0 && first == k1 - k0,
                rh == rt ==> b.end == 0 && first == 0 && k0 == k1,
                out@.len() == first + j,
                forall|i: int| 0 <= i < out@.len() ==> out@[i] == items[k0 + i],
            decreases b.end - j,
        {
            let ghost k = k0 + first + j;
            assert(slot_of(head, k, n as int) == j);
            assert(k < k1);
            out.push(self.slots[j]);
            j = j + 1;
        }
        assert(out@.len() == k1 - k0);
        assert(out@ =~= items.subrange(k0 as int, k1 as int));
        out
    }

    /// Removes every item up to and including absolute index `to`, returning
    /// `to` and the removed items, oldest first. Fails, changing nothing,
    /// when `to` is not the index of a live item.
    pub fn shift_to(&mut self, to: usize) -> (r: Option<(usize, Vec<T>)>)
        ensures
            r is Some <==> distance(old(self).first_index(), to) < old(self).items().len(),
            r is None ==> *final(self) == *old(self),
            r matches Some((i, v)) ==> {
                let k = distance(old(self).first_index(), to);
                &&& i == to
                &&& v@ == old(self).items().subrange(0, k + 1)
                &&& final(self).items() == old(self).items().subrange(k + 1, old(self).items().len() as int)
                &&& final(self).first_index() == wrap_add(to, 1)
                &&& final(self).removed() == old(self).removed() + k + 1
                &&& final(self).delivered() == old(self).delivered() + v@
                &&& i == wrap_add(final(self).initial(), final(self).removed() - 1)
            },
            final(self).pushed() == old(self).pushed(),
            final(self).initial() == old(self).initial(),
            final(self).capacity() == old(self).capacity(),
            old(self).consistent(),
            final(self).consistent(),
    {
        proof {
            use_type_invariant(&*self);
            self.lemma_consistent();
        }
        let head = self.cur.head;
        let tail = self.cur.tail;
        let offset = self.cur.offset;
        if head == tail {
            return None;
        }
        let filled_size = self.filled_size();
        let i = match IndexUtil::exists_index(to, offset, filled_size) {
            Some(i) => i,
            None => {
                return None;
            },
        };
        let new_head = self.slot(i + 1);
        let v = self.copy_live(0, i + 1);
        let ghost n = self.slots@.len() as int;
        let ghost removed = self.cur.removed@;
        proof {
            assert forall|k: int| 0 <= k < self.filled() - (i + 1) implies self.slots@[slot_of(
                new_head as int,
                k,
                n,
            )] == self.cur.pushed@[removed + (i + 1) + k] by {
                assert(slot_of(new_head as int, k, n) == slot_of(head as int, k + (i + 1), n));
                assert(self.slots@[slot_of(head as int, k + (i + 1), n)] == self.cur.pushed@[removed
                    + (k + (i + 1))]);
            }
            lemma_wrap_one(to);
            lemma_wrap_twice(self.cur.initial@, removed, i as nat);
            lemma_wrap_step(self.cur.initial@, (removed + i) as nat);
            assert(self.cur.pushed@.subrange(0, removed + i + 1) =~= self.cur.pushed@.subrange(
                0,
                removed as int,
            ) + v@);
        }
        self.cur = Cursors {
            head: new_head,
            tail,
            offset: to.wrapping_add(1),
            pushed: Ghost(self.cur.pushed@),
            removed: Ghost((removed + i + 1) as nat),
            initial: Ghost(self.cur.initial@),
        };
        proof {
            use_type_invariant(&*self);
            self.lemma_consistent();
            assert(self.items() =~= old(self).items().subrange(i + 1, old(self).items().len() as int));
        }
        Some((to, v))
    }

    /// The item at absolute index `idx`, with that index, if it is live.
    pub fn get(&self, idx: usize) -> (r: Option<(usize, T)>)
        ensures
            r == self.get_spec(idx),
            self.consistent(),
    {
        proof {
            use_type_invariant(self);
            self.lemma_consistent();
        }
        if self.cur.head == self.cur.tail {
            return None;
        }
        let filled_size = self.filled_size();
        match IndexUtil::exists_index(idx, self.cur.offset, filled_size) {
            Some(i) => {
                let pos = self.slot(i);
                Some((idx, self.slots[pos]))
            },
            None => None,
        }
    }

    /// The whole live region: the first and last absolute index and the items.
    pub fn get_all(&self) -> (r: Option<(usize, usize, Vec<T>)>)
        ensures
            r matches Some((from, to, v)) ==> self.get_all_spec() == Some((from, to, v@)),
            r is None ==> self.get_all_spec() is None,
            self.consistent(),
    {
        proof {
            use_type_invariant(self);
            self.lemma_consistent();
        }
        let filled_size = self.filled_size();
        let v = self.copy_live(0, filled_size);
        if v.len() > 0 {
            let offset = self.cur.offset;
            proof {
                lemma_wrap_exact(offset, (v.len() - 1) as nat);
            }
            Some((offset, offset.wrapping_add(v.len() - 1), v))
        } else {
            None
        }
    }

    /// Up to `len` items from absolute index `idx` on, with the first and last
    /// absolute index read. A `len` of zero, or one that runs past the live
    /// region, reads to the tail. Fails when `idx` is not live.
    pub fn get_from(&self, idx: usize, len: usize) -> (r: Option<(usize, usize, Vec<T>)>)
        ensures
            r matches Some((from, to, v)) ==> self.get_from_spec(idx, len) == Some((from, to, v@)),
            r is None ==> self.get_from_spec(idx, len) is None,
            self.consistent(),
    {
        proof {
            use_type_invariant(self);
            self.lemma_consistent();
        }
        if self.cur.head == self.cur.tail {
            return None;
        }
        let filled_size = self.filled_size();
        let i1 = match IndexUtil::exists_index(idx, self.cur.offset, filled_size) {
            Some(i) => i,
            None => {
                return None;
            },
        };
        let end = if len == 0 || len > filled_size - i1 {
            filled_size
        } else {
            i1 + len
        };
        let v = self.copy_live(i1, end);
        let v_len = v.len();
        if v_len > 0 {
            proof {
                lemma_wrap_exact(idx, (v_len - 1) as nat);
            }
            Some((idx, idx.wrapping_add(v_len - 1), v))
        } else {
            None
        }
    }
}



} // verus!
