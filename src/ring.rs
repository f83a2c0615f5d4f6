use crate::header::{lemma_next_index, next_index_spec, RingBufferHeader};
use vstd::prelude::*;

verus! {

/// Slot that holds the `k`-th record after `head` on a ring of `capacity` slots.
pub open spec fn slot_of(head: nat, k: nat, capacity: nat) -> nat {
    if head + k < capacity {
        head + k
    } else {
        (head + k - capacity) as nat
    }
}

/// What `push` does to the contents `v` of a ring that holds at most `capacity`
/// records: `None` when it is full, else the contents with `x` at the back.
pub open spec fn push_model<T>(v: Seq<T>, capacity: nat, x: T) -> Option<Seq<T>> {
    if v.len() >= capacity {
        None
    } else {
        Some(v.push(x))
    }
}

/// What `pop` does to the contents `v`: `None` when empty, else the front
/// record and the rest.
pub open spec fn pop_model<T>(v: Seq<T>) -> Option<(T, Seq<T>)> {
    if v.len() == 0 {
        None
    } else {
        Some((v[0], v.drop_first()))
    }
}

/// A ring buffer whose slots live in process memory, driven by the same
/// header protocol as a shared segment: the producer writes at `tail`, the
/// consumer reads at `head`, and one slot stays empty to tell full from empty.
pub struct RingBuffer<T> {
    header: RingBufferHeader,
    slots: Vec<Option<T>>,
    /// Every record that a push accepted, in order.
    pushed: Ghost<Seq<T>>,
    /// Every record that a pop handed out, in order.
    taken: Ghost<Seq<T>>,
}

impl<T> View for RingBuffer<T> {
    type V = Seq<T>;

    /// The records in the ring, front (next to pop) first.
    closed spec fn view(&self) -> Seq<T> {
        self.pushed@.skip(self.taken@.len() as int)
    }
}

impl<T> RingBuffer<T> {
    pub closed spec fn wf(&self) -> bool {
        let h = self.header;
        let n = h.len_spec();
        &&& h.wf()
        &&& self.slots@.len() == h.capacity
        &&& self.taken@.len() <= self.pushed@.len()
        &&& self.taken@ == self.pushed@.take(self.taken@.len() as int)
        &&& n == self.pushed@.len() - self.taken@.len()
        &&& h.tail as nat == slot_of(h.head as nat, n, h.capacity as nat)
        &&& forall|k: nat|
            k < n ==> #[trigger] self.slots@[slot_of(h.head as nat, k, h.capacity as nat) as int]
                == Some(self.pushed@[(self.taken@.len() + k) as int])
    }

    /// Number of records the ring holds at most.
    pub closed spec fn capacity_spec(&self) -> nat {
        self.header.usable()
    }

    /// Every record that a push accepted so far, in order.
    pub closed spec fn pushed(&self) -> Seq<T> {
        self.pushed@
    }

    /// Every record that a pop handed out so far, in order.
    pub closed spec fn taken(&self) -> Seq<T> {
        self.taken@
    }

    /// An empty ring that holds up to `capacity` records; it has one slot more.
    pub fn new(capacity: usize) -> (r: RingBuffer<T>)
        requires
            capacity < usize::MAX,
        ensures
            r.wf(),
            r@ == Seq::<T>::empty(),
            r.capacity_spec() == capacity,
            r.pushed() == Seq::<T>::empty(),
            r.taken() == Seq::<T>::empty(),
    {
        let real_capacity = capacity + 1;
        let mut slots: Vec<Option<T>> = Vec::new();
        let mut i: usize = 0;
        while i < real_capacity
            invariant
                i <= real_capacity,
                slots@.len() == i,
            decreases real_capacity - i,
        {
            slots.push(None);
            i = i + 1;
        }
        let r = RingBuffer {
            header: RingBufferHeader::new(real_capacity),
            slots,
            pushed: Ghost(Seq::empty()),
            taken: Ghost(Seq::empty()),
        };
        proof {
            assert(r@ =~= Seq::<T>::empty());
        }
        r
    }

    /// Number of records the ring holds at most.
    pub fn capacity(&self) -> (r: usize)
        requires
            self.wf(),
        ensures
            r as nat == self.capacity_spec(),
    {
        self.header.capacity - 1
    }

    /// Number of records in the ring.
    pub fn len(&self) -> (r: usize)
        requires
            self.wf(),
        ensures
            r as nat == self@.len(),
            r as nat <= self.capacity_spec(),
    {
        self.header.len()
    }

    /// The ring holds no record.
    pub fn is_empty(&self) -> (r: bool)
        requires
            self.wf(),
        ensures
            r == (self@.len() == 0),
    {
        self.header.is_empty()
    }

    /// The ring holds as many records as it can.
    pub fn is_full(&self) -> (r: bool)
        requires
            self.wf(),
        ensures
            r == (self@.len() == self.capacity_spec()),
    {
        self.header.is_full()
    }

    /// Appends `item` at the back, or hands it back when the ring is full.
    pub fn push(&mut self, item: T) -> (r: Result<(), T>)
        requires
            old(self).wf(),
        ensures
            final(self).wf(),
            final(self).capacity_spec() == old(self).capacity_spec(),
            final(self).taken() == old(self).taken(),
            match r {
                Ok(()) => {
                    &&& push_model(old(self)@, old(self).capacity_spec(), item) == Some(final(self)@)
                    &&& final(self).pushed() == old(self).pushed().push(item)
                },
                Err(x) => {
                    &&& x == item
                    &&& push_model(old(self)@, old(self).capacity_spec(), item) is None
                    &&& final(self)@ == old(self)@
                    &&& final(self).pushed() == old(self).pushed()
                },
            },
    {
        let ghost old_self = *self;
        let ghost cap = self.header.capacity as nat;
        let ghost head = self.header.head as nat;
        let ghost n = self.header.len_spec();
        match self.header.push_step() {
            None => Err(item),
            Some(h) => {
                let tail = self.header.tail;
                self.slots.set(tail, Some(item));
                self.header = h;
                self.pushed = Ghost(self.pushed@.push(item));
                proof {
                    lemma_next_index(tail as nat, cap);
                    assert forall|k: nat| k < n + 1 implies #[trigger] self.slots@[slot_of(
                        head,
                        k,
                        cap,
                    ) as int] == Some(self.pushed@[(self.taken@.len() + k) as int]) by {
                        if k < n {
                            assert(old_self.slots@[slot_of(head, k, cap) as int] == Some(
                                old_self.pushed@[(self.taken@.len() + k) as int],
                            ));
                        }
                    }
                    assert(self.taken@ =~= self.pushed@.take(self.taken@.len() as int));
                    assert(self@ =~= old_self@.push(item));
                }
                Ok(())
            },
        }
    }

    /// Removes and returns the front record, or `None` when the ring is empty.
    pub fn pop(&mut self) -> (r: Option<T>)
        requires
            old(self).wf(),
        ensures
            final(self).wf(),
            final(self).capacity_spec() == old(self).capacity_spec(),
            final(self).pushed() == old(self).pushed(),
            match r {
                Some(x) => {
                    &&& pop_model(old(self)@) == Some((x, final(self)@))
                    &&& final(self).taken() == old(self).taken().push(x)
                },
                None => {
                    &&& pop_model(old(self)@) is None
                    &&& final(self)@ == old(self)@
                    &&& final(self).taken() == old(self).taken()
                },
            },
    {
        let ghost old_self = *self;
        let ghost cap = self.header.capacity as nat;
        let ghost n = self.header.len_spec();
        match self.header.pop_step() {
            None => {
                proof {
                    assert(self@.len() == 0);
                }
                None
            },
            Some(h) => {
                let head = self.header.head;
                let mut out: Option<T> = None;
                proof {
                    assert(old_self.slots@[slot_of(head as nat, 0, cap) as int] == Some(
                        old_self.pushed@[(old_self.taken@.len() + 0) as int],
                    ));
                }
                self.slots.set_and_swap(head, &mut out);
                let ghost x = old_self.pushed@[old_self.taken@.len() as int];
                self.header = h;
                self.taken = Ghost(self.taken@.push(x));
                proof {
                    lemma_next_index(head as nat, cap);
                    assert forall|k: nat| k < n - 1 implies #[trigger] self.slots@[slot_of(
                        h.head as nat,
                        k,
                        cap,
                    ) as int] == Some(self.pushed@[(self.taken@.len() + k) as int]) by {
                        assert(slot_of(h.head as nat, k, cap) == slot_of(head as nat, k + 1, cap));
                        assert(old_self.slots@[slot_of(head as nat, k + 1, cap) as int] == Some(
                            old_self.pushed@[(old_self.taken@.len() + (k + 1)) as int],
                        ));
                    }
                    assert(self.taken@ =~= self.pushed@.take(self.taken@.len() as int));
                    assert(self@ =~= old_self@.drop_first());
                }
                out
            },
        }
    }
}

/// Whatever the interleaving of pushes and pops on one ring, the pops so far
/// never outnumber the accepted pushes, the `i`-th record popped is the `i`-th
/// record pushed, and the ring holds exactly the pushed records not yet popped.
pub proof fn lemma_pops_follow_pushes<T>(rb: &RingBuffer<T>)
    requires
        rb.wf(),
    ensures
        rb.taken().len() <= rb.pushed().len(),
        forall|i: int| 0 <= i < rb.taken().len() ==> #[trigger] rb.taken()[i] == rb.pushed()[i],
        rb@ == rb.pushed().skip(rb.taken().len() as int),
        rb@.len() <= rb.capacity_spec(),
{
    assert forall|i: int| 0 <= i < rb.taken().len() implies #[trigger] rb.taken()[i]
        == rb.pushed()[i] by {
        assert(rb.taken@[i] == rb.pushed@.take(rb.taken@.len() as int)[i]);
    }
}

} // verus!
