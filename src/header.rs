use vstd::arithmetic::div_mod::{lemma_mod_self_0, lemma_small_mod};
use vstd::prelude::*;

verus! {

/// The index that follows `i` on a ring of `capacity` slots.
pub open spec fn next_index_spec(i: nat, capacity: nat) -> nat
    recommends
        capacity > 0,
{
    ((i + 1) % capacity) as nat
}

/// Number of occupied slots between `head` (inclusive) and `tail` (exclusive),
/// counted modulo `capacity`.
pub open spec fn occupancy(head: nat, tail: nat, capacity: nat) -> nat
    recommends
        capacity > 0,
{
    if head <= tail {
        (tail - head) as nat
    } else {
        (capacity - head + tail) as nat
    }
}

/// The header stored at the start of a segment: the slot that the consumer
/// reads next (`head`), the slot that the producer writes next (`tail`), and the
/// number of slots, one of which is a sentinel that is never filled.
///
/// Here the header is a plain value: one consistent reading of the shared one.
#[derive(Clone, Copy, Debug, PartialEq, Eq, Structural)]
pub struct RingBufferHeader {
    pub head: usize,
    pub tail: usize,
    pub capacity: usize,
}

impl RingBufferHeader {
    /// Both indices lie inside the ring, and the ring has at least one slot.
    pub open spec fn wf(&self) -> bool {
        &&& self.capacity >= 1
        &&& self.head < self.capacity
        &&& self.tail < self.capacity
    }

    /// Number of records between `head` and `tail`.
    pub open spec fn len_spec(&self) -> nat {
        occupancy(self.head as nat, self.tail as nat, self.capacity as nat)
    }

    /// Number of records the ring can hold at once: every slot but the sentinel.
    pub open spec fn usable(&self) -> nat {
        (self.capacity - 1) as nat
    }

    /// The header after the producer's step, or `None` when the ring is full.
    pub open spec fn push_next(&self) -> Option<RingBufferHeader> {
        let t = next_index_spec(self.tail as nat, self.capacity as nat);
        if t == self.head {
            None
        } else {
            Some(RingBufferHeader { head: self.head, tail: t as usize, capacity: self.capacity })
        }
    }

    /// The header after the consumer's step, or `None` when the ring is empty.
    pub open spec fn pop_next(&self) -> Option<RingBufferHeader> {
        if self.head == self.tail {
            None
        } else {
            let h = next_index_spec(self.head as nat, self.capacity as nat);
            Some(RingBufferHeader { head: h as usize, tail: self.tail, capacity: self.capacity })
        }
    }

    /// The header after `m` producer steps, each followed at once by a
    /// consumer step, or `None` when one of them is refused.
    pub open spec fn after_pairs(self, m: nat) -> Option<RingBufferHeader>
        decreases m,
    {
        if m == 0 {
            Some(self)
        } else {
            match self.push_next() {
                None => None,
                Some(a) => match a.pop_next() {
                    None => None,
                    Some(b) => b.after_pairs((m - 1) as nat),
                },
            }
        }
    }

    /// A fresh header for a ring of `capacity` slots (the sentinel included):
    /// both indices at zero.
    pub fn new(capacity: usize) -> (r: RingBufferHeader)
        requires
            capacity >= 1,
        ensures
            r.wf(),
            r.head == 0,
            r.tail == 0,
            r.capacity == capacity,
            r.len_spec() == 0,
    {
        RingBufferHeader { head: 0, tail: 0, capacity }
    }

    /// A header read from a segment, if its indices lie inside its ring.
    pub fn from_parts(head: usize, tail: usize, capacity: usize) -> (r: Option<RingBufferHeader>)
        ensures
            r is Some <==> (capacity >= 1 && head < capacity && tail < capacity),
            r matches Some(h) ==> h.wf() && h.head == head && h.tail == tail && h.capacity
                == capacity,
    {
        if capacity >= 1 && head < capacity && tail < capacity {
            Some(RingBufferHeader { head, tail, capacity })
        } else {
            None
        }
    }

    /// The ring holds no record.
    pub fn is_empty(&self) -> (r: bool)
        requires
            self.wf(),
        ensures
            r == (self.head == self.tail),
            r == (self.len_spec() == 0),
    {
        self.head == self.tail
    }

    /// The slot after the tail is the head: one more record would make the
    /// ring look empty.
    pub fn is_full(&self) -> (r: bool)
        requires
            self.wf(),
        ensures
            r == (next_index_spec(self.tail as nat, self.capacity as nat) == self.head),
            r == (self.len_spec() == self.usable()),
    {
        next_index(self.tail, self.capacity) == self.head
    }

    /// Number of records between `head` and `tail`.
    pub fn len(&self) -> (r: usize)
        requires
            self.wf(),
        ensures
            r as nat == self.len_spec(),
            r < self.capacity,
    {
        if self.head <= self.tail {
            self.tail - self.head
        } else {
            self.capacity - self.head + self.tail
        }
    }

    /// The producer's step: `None` when the ring is full; otherwise the header
    /// after a record is written at the old tail and the tail is published.
    pub fn push_step(&self) -> (r: Option<RingBufferHeader>)
        requires
            self.wf(),
        ensures
            r == self.push_next(),
            r is None <==> self.len_spec() == self.usable(),
            r matches Some(h) ==> {
                &&& h.wf()
                &&& h.head == self.head
                &&& h.capacity == self.capacity
                &&& h.tail as nat == next_index_spec(self.tail as nat, self.capacity as nat)
                &&& h.len_spec() == self.len_spec() + 1
            },
    {
        let next_tail = next_index(self.tail, self.capacity);
        if next_tail == self.head {
            None
        } else {
            Some(RingBufferHeader { head: self.head, tail: next_tail, capacity: self.capacity })
        }
    }

    /// The consumer's step: `None` when the ring is empty; otherwise the header
    /// after the record at the old head is taken and the head is published.
    pub fn pop_step(&self) -> (r: Option<RingBufferHeader>)
        requires
            self.wf(),
        ensures
            r == self.pop_next(),
            r is None <==> self.len_spec() == 0,
            r matches Some(h) ==> {
                &&& h.wf()
                &&& h.tail == self.tail
                &&& h.capacity == self.capacity
                &&& h.head as nat == next_index_spec(self.head as nat, self.capacity as nat)
                &&& h.len_spec() + 1 == self.len_spec()
            },
    {
        if self.head == self.tail {
            None
        } else {
            let next_head = next_index(self.head, self.capacity);
            Some(RingBufferHeader { head: next_head, tail: self.tail, capacity: self.capacity })
        }
    }
}

/// The index that follows `i` on a ring of `capacity` slots: `(i + 1) % capacity`,
/// computed without overflow.
pub fn next_index(i: usize, capacity: usize) -> (r: usize)
    requires
        i < capacity,
    ensures
        r as nat == next_index_spec(i as nat, capacity as nat),
        r < capacity,
        r == (if i + 1 == capacity { 0 } else { i + 1 }),
{
    proof {
        lemma_next_index(i as nat, capacity as nat);
    }
    if i + 1 == capacity {
        0
    } else {
        i + 1
    }
}

/// On a ring, the index after `i` is `i + 1`, or zero after the last slot.
pub proof fn lemma_next_index(i: nat, capacity: nat)
    requires
        i < capacity,
    ensures
        next_index_spec(i, capacity) == (if i + 1 == capacity { 0 } else { i + 1 }),
{
    if i + 1 == capacity {
        lemma_mod_self_0(capacity as int);
    } else {
        lemma_small_mod(i + 1, capacity);
    }
}

/// From an empty header of a ring with room for at least one record, a push
/// and a pop in turn, `m` times over, leave it empty again with its indices
/// moved on.
pub proof fn lemma_pairs_keep_empty(h: RingBufferHeader, m: nat)
    requires
        h.wf(),
        h.capacity >= 2,
        h.head == h.tail,
    ensures
        h.after_pairs(m) matches Some(e) && e.wf() && e.head == e.tail && e.capacity
            == h.capacity,
    decreases m,
{
    if m > 0 {
        lemma_next_index(h.tail as nat, h.capacity as nat);
        let a = h.push_next()->Some_0;
        let b = a.pop_next()->Some_0;
        lemma_pairs_keep_empty(b, (m - 1) as nat);
    }
}

/// Wraparound: on a fresh ring with room for `c >= 1` records (`c + 1` slots),
/// `k * c` push / pop pairs in strict alternation bring it back to empty, and
/// it accepts a further push.
pub proof fn lemma_header_wraparound(c: nat, k: nat)
    requires
        c >= 1,
        c + 1 <= usize::MAX,
    ensures
        ({
            let fresh = RingBufferHeader { head: 0, tail: 0, capacity: (c + 1) as usize };
            fresh.after_pairs(k * c) matches Some(e) && e.head == e.tail && e.len_spec() == 0
                && e.push_next() is Some
        }),
{
    let fresh = RingBufferHeader { head: 0, tail: 0, capacity: (c + 1) as usize };
    lemma_pairs_keep_empty(fresh, k * c);
    let e = fresh.after_pairs(k * c)->Some_0;
    lemma_next_index(e.tail as nat, e.capacity as nat);
}

} // verus!
