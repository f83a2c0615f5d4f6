use vstd::prelude::*;

verus! {

/// Byte layout of a segment: a header of `header_size` bytes at offset zero,
/// then `capacity` slots of `record_size` bytes each.
#[derive(Clone, Copy, Debug, PartialEq, Eq, Structural)]
pub struct SegmentLayout {
    pub header_size: usize,
    pub record_size: usize,
    pub capacity: usize,
}

/// Bytes taken by a header and `capacity` slots of `record_size` bytes.
pub open spec fn segment_bytes(header_size: nat, record_size: nat, capacity: nat) -> nat {
    header_size + capacity * record_size
}

impl SegmentLayout {
    /// The ring has at least one slot and the whole segment is addressable.
    pub open spec fn wf(&self) -> bool {
        &&& self.capacity >= 1
        &&& segment_bytes(
            self.header_size as nat,
            self.record_size as nat,
            self.capacity as nat,
        ) <= usize::MAX
    }

    pub open spec fn total_size_spec(&self) -> nat {
        segment_bytes(self.header_size as nat, self.record_size as nat, self.capacity as nat)
    }

    /// Byte offset of slot `i`.
    pub open spec fn slot_offset_spec(&self, i: nat) -> nat {
        (self.header_size + i * self.record_size) as nat
    }

    /// Layout for a ring that holds `requested_capacity` records at once: one
    /// slot more than requested, the sentinel. `None` when the slot count or
    /// the segment's size does not fit in a `usize`.
    pub fn for_request(requested_capacity: usize, header_size: usize, record_size: usize) -> (r:
        Option<SegmentLayout>)
        ensures
            r is None <==> segment_bytes(
                header_size as nat,
                record_size as nat,
                (requested_capacity + 1) as nat,
            ) > usize::MAX || requested_capacity + 1 > usize::MAX,
            r matches Some(l) ==> {
                &&& l.wf()
                &&& l.capacity == requested_capacity + 1
                &&& l.header_size == header_size
                &&& l.record_size == record_size
            },
    {
        let capacity = match requested_capacity.checked_add(1) {
            Some(c) => c,
            None => {
                return None;
            },
        };
        let slots = match capacity.checked_mul(record_size) {
            Some(s) => s,
            None => {
                proof {
                    assert(capacity * record_size <= segment_bytes(
                        header_size as nat,
                        record_size as nat,
                        capacity as nat,
                    ));
                }
                return None;
            },
        };
        match header_size.checked_add(slots) {
            Some(_) => Some(SegmentLayout { header_size, record_size, capacity }),
            None => None,
        }
    }

    /// Size in bytes of the whole segment.
    pub fn total_size(&self) -> (r: usize)
        requires
            self.wf(),
        ensures
            r as nat == self.total_size_spec(),
    {
        self.header_size + self.capacity * self.record_size
    }

    /// Byte offset of slot `i`: the slot lies wholly inside the segment and
    /// after the header.
    pub fn slot_offset(&self, i: usize) -> (r: usize)
        requires
            self.wf(),
            i < self.capacity,
        ensures
            r as nat == self.slot_offset_spec(i as nat),
            r >= self.header_size,
            r + self.record_size <= self.total_size_spec(),
    {
        proof {
            assert((i + 1) * self.record_size <= self.capacity * self.record_size)
                by (nonlinear_arith)
                requires
                    i + 1 <= self.capacity,
            ;
            assert((i + 1) * self.record_size == i * self.record_size + self.record_size)
                by (nonlinear_arith);
        }
        self.header_size + i * self.record_size
    }
}

} // verus!
