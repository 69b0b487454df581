//! Authoritative 256-slot SRAM packet ring: live routing reads from it without waiting on
//! storage; when full, the oldest packet is dropped.
use vstd::prelude::*;
use crate::frame::MeshPacket;

verus! {

pub const SRAM_RING_CAPACITY: usize = 256;

/// Fixed-capacity FIFO of mesh packets that evicts its oldest packet when full.
/// What `push` of a packet does to the ring (its contract): it is appended; a full ring
/// first drops its oldest packet and counts the drop (saturating).
pub open spec fn ring_pushed(b: SramRingBuffer, a: SramRingBuffer, packet: MeshPacket) -> bool {
    &&& b@.len() < SRAM_RING_CAPACITY ==> a@ == b@.push(packet) && a.dropped() == b.dropped()
    &&& b@.len() == SRAM_RING_CAPACITY ==> a@ == b@.drop_first().push(packet) && a.dropped() == (if b.dropped()
        == u32::MAX {
        u32::MAX
    } else {
        (b.dropped() + 1) as u32
    })
}

pub struct SramRingBuffer {
    buffer: [Option<MeshPacket>; SRAM_RING_CAPACITY],
    head: usize,
    tail: usize,
    count: usize,
    dropped_overflow: u32,
}

impl SramRingBuffer {
    /// Occupied slots run from `tail` for `count` slots (wrapping); `head` is the next free
    /// slot; every other slot is empty.
    #[verifier::type_invariant]
    spec fn inv(&self) -> bool {
        &&& self.head < SRAM_RING_CAPACITY
        &&& self.tail < SRAM_RING_CAPACITY
        &&& self.count <= SRAM_RING_CAPACITY
        &&& self.head == (self.tail + self.count) % (SRAM_RING_CAPACITY as int)
        &&& forall|i: int| 0 <= i < SRAM_RING_CAPACITY ==> (#[trigger] self.buffer@[i] is Some)
            == Self::in_window(self.tail as int, self.count as int, i)
    }

    /// Whether slot `i` lies in the `count` slots from `tail`, wrapping.
    pub open spec fn in_window(tail: int, count: int, i: int) -> bool {
        let d = (i - tail + SRAM_RING_CAPACITY) % (SRAM_RING_CAPACITY as int);
        d < count
    }

    /// Packets evicted because the ring was full (saturating).
    pub closed spec fn dropped(&self) -> u32 {
        self.dropped_overflow
    }

    proof fn lemma_window_pop(tail: int, count: int, i: int)
        requires
            0 <= tail < 256,
            0 < count <= 256,
            0 <= i < 256,
        ensures
            Self::in_window(tail, count, i) == (i == tail || Self::in_window((tail + 1) % 256, count - 1, i)),
    {
    }

    proof fn lemma_window_push(tail: int, count: int, i: int)
        requires
            0 <= tail < 256,
            0 <= count < 256,
            0 <= i < 256,
        ensures
            Self::in_window(tail, count + 1, i) == (Self::in_window(tail, count, i) || i == (tail + count) % 256),
    {
    }

    /// Packets held in `count` slots from `tail`, oldest first.
    pub open spec fn ring_view(buffer: Seq<Option<MeshPacket>>, tail: int, count: int) -> Seq<MeshPacket> {
        Seq::new(count as nat, |i: int| buffer[(tail + i) % 256].unwrap())
    }

    proof fn lemma_view_pop(b: Seq<Option<MeshPacket>>, tail: int, count: int)
        requires
            b.len() == 256,
            0 <= tail < 256,
            0 < count <= 256,
        ensures
            Self::ring_view(b.update(tail, None), (tail + 1) % 256, count - 1)
                =~= Self::ring_view(b, tail, count).drop_first(),
    {
        let b2 = b.update(tail, None);
        assert forall|i: int| 0 <= i < count - 1 implies #[trigger] Self::ring_view(b2, (tail + 1) % 256, count - 1)[i]
            == Self::ring_view(b, tail, count)[i + 1] by {
            assert(((tail + 1) % 256 + i) % 256 == (tail + i + 1) % 256);
            assert((tail + i + 1) % 256 != tail);
        }
    }

    proof fn lemma_view_push(b: Seq<Option<MeshPacket>>, tail: int, count: int, p: MeshPacket)
        requires
            b.len() == 256,
            0 <= tail < 256,
            0 <= count < 256,
        ensures
            Self::ring_view(b.update((tail + count) % 256, Some(p)), tail, count + 1)
                =~= Self::ring_view(b, tail, count).push(p),
    {
        let h = (tail + count) % 256;
        let b2 = b.update(h, Some(p));
        assert forall|i: int| 0 <= i < count implies #[trigger] Self::ring_view(b2, tail, count + 1)[i]
            == Self::ring_view(b, tail, count)[i] by {
            assert((tail + i) % 256 != h);
        }
    }

    pub fn new() -> (r: Self)
        ensures
            r@ == Seq::<MeshPacket>::empty(),
            r.dropped() == 0,
    {
        let r = SramRingBuffer {
            buffer: [None; SRAM_RING_CAPACITY],
            head: 0,
            tail: 0,
            count: 0,
            dropped_overflow: 0,
        };
        assert(r@ =~= Seq::<MeshPacket>::empty());
        r
    }

    /// Number of queued packets.
    pub fn len(&self) -> (r: usize)
        ensures
            r == self@.len(),
            r <= SRAM_RING_CAPACITY,
    {
        proof { use_type_invariant(self); }
        self.count
    }

    pub fn is_empty(&self) -> (r: bool)
        ensures
            r == (self@.len() == 0),
    {
        self.count == 0
    }

    pub fn is_full(&self) -> (r: bool)
        ensures
            r == (self@.len() == SRAM_RING_CAPACITY),
    {
        self.count == SRAM_RING_CAPACITY
    }

    pub fn capacity(&self) -> (r: usize)
        ensures
            r == SRAM_RING_CAPACITY,
    {
        SRAM_RING_CAPACITY
    }

    pub fn dropped_count(&self) -> (r: u32)
        ensures
            r == self.dropped(),
    {
        self.dropped_overflow
    }

    /// Appends `packet`; a full ring first evicts and returns its oldest packet.
    pub fn push(&mut self, packet: MeshPacket) -> (evicted: Option<MeshPacket>)
        ensures
            old(self)@.len() < SRAM_RING_CAPACITY ==> {
                &&& evicted is None
                &&& final(self)@ == old(self)@.push(packet)
                &&& final(self).dropped() == old(self).dropped()
            },
            old(self)@.len() == SRAM_RING_CAPACITY ==> {
                &&& evicted == Some(old(self)@[0])
                &&& final(self)@ == old(self)@.drop_first().push(packet)
                &&& final(self).dropped() == if old(self).dropped() == u32::MAX { u32::MAX } else { (old(self).dropped() + 1) as u32 }
            },
            ring_pushed(*old(self), *final(self), packet),
    {
        proof { use_type_invariant(&*self); }
        let ghost v0 = self@;
        let mut buffer = self.buffer;
        let mut tail = self.tail;
        let mut count = self.count;
        let mut dropped = self.dropped_overflow;
        let mut evicted = None;
        if count == SRAM_RING_CAPACITY {
            evicted = buffer[tail];
            proof {
                assert(Self::in_window(tail as int, 256, tail as int));
            }
            buffer[tail] = None;
            tail = (tail + 1) % SRAM_RING_CAPACITY;
            count = count - 1;
            dropped = dropped.saturating_add(1);
        }
        let h = self.head;
        proof {
            assert(h == (tail + count) % 256);
            assert(!Self::in_window(tail as int, count as int, h as int));
        }
        buffer[h] = Some(packet);
        count = count + 1;
        let head = (h + 1) % SRAM_RING_CAPACITY;
        let ghost r = SramRingBuffer { buffer, head, tail, count, dropped_overflow: dropped };
        proof {
            assert forall|i: int| 0 <= i < SRAM_RING_CAPACITY implies (#[trigger] buffer@[i] is Some)
                == Self::in_window(tail as int, count as int, i) by {
                Self::lemma_window_push(tail as int, count - 1, i);
                if v0.len() == 256 {
                    Self::lemma_window_pop(self.tail as int, 256, i);
                }
            }
            if v0.len() < SRAM_RING_CAPACITY {
                Self::lemma_view_push(self.buffer@, self.tail as int, self.count as int, packet);
            } else {
                Self::lemma_view_pop(self.buffer@, self.tail as int, 256);
                Self::lemma_view_push(self.buffer@.update(self.tail as int, None), tail as int, 255, packet);
            }
        }
        *self = SramRingBuffer { buffer, head, tail, count, dropped_overflow: dropped };
        evicted
    }

    /// Removes and returns the oldest packet.
    #[verifier::rlimit(40)]
    pub fn pop(&mut self) -> (r: Option<MeshPacket>)
        ensures
            old(self)@.len() == 0 ==> r is None && final(self)@ == old(self)@,
            old(self)@.len() > 0 ==> r == Some(old(self)@[0]) && final(self)@ == old(self)@.drop_first(),
            final(self).dropped() == old(self).dropped(),
    {
        proof { use_type_invariant(&*self); }
        if self.count == 0 {
            return None;
        }
        let ghost v0 = self@;
        let mut buffer = self.buffer;
        let t = self.tail;
        let packet = buffer[t];
        proof {
            assert(Self::in_window(t as int, self.count as int, t as int));
        }
        buffer[t] = None;
        let tail = (t + 1) % SRAM_RING_CAPACITY;
        let count = self.count - 1;
        let ghost r = SramRingBuffer { buffer, head: self.head, tail, count, dropped_overflow: self.dropped_overflow };
        proof {
            assert forall|i: int| 0 <= i < SRAM_RING_CAPACITY implies (#[trigger] buffer@[i] is Some)
                == Self::in_window(tail as int, count as int, i) by {
                Self::lemma_window_pop(t as int, self.count as int, i);
            }
            Self::lemma_view_pop(self.buffer@, t as int, self.count as int);
        }
        *self = SramRingBuffer { buffer, head: self.head, tail, count, dropped_overflow: self.dropped_overflow };
        packet
    }

    /// The oldest packet, left in place.
    pub fn peek(&self) -> (r: Option<&MeshPacket>)
        ensures
            self@.len() == 0 ==> r is None,
            self@.len() > 0 ==> (r matches Some(p) && *p == self@[0]),
    {
        proof { use_type_invariant(self); }
        if self.count == 0 {
            None
        } else {
            proof {
                assert(Self::in_window(self.tail as int, self.count as int, self.tail as int));
            }
            self.buffer[self.tail].as_ref()
        }
    }

    /// Empties the ring; the drop counter is kept.
    pub fn clear(&mut self)
        ensures
            final(self)@ == Seq::<MeshPacket>::empty(),
            final(self).dropped() == old(self).dropped(),
    {
        let dropped = self.dropped_overflow;
        let r = SramRingBuffer {
            buffer: [None; SRAM_RING_CAPACITY],
            head: 0,
            tail: 0,
            count: 0,
            dropped_overflow: dropped,
        };
        assert(r@ =~= Seq::<MeshPacket>::empty());
        *self = r;
    }
}

impl View for SramRingBuffer {
    type V = Seq<MeshPacket>;

    /// Queued packets, oldest first.
    closed spec fn view(&self) -> Seq<MeshPacket> {
        SramRingBuffer::ring_view(self.buffer@, self.tail as int, self.count as int)
    }
}

impl Default for SramRingBuffer {
    fn default() -> (r: Self)
        ensures
            r@ == Seq::<MeshPacket>::empty(),
            r.dropped() == 0,
    {
        SramRingBuffer::new()
    }
}

impl Clone for SramRingBuffer {
    fn clone(&self) -> (r: Self)
        ensures
            r@ == self@,
            r.dropped() == self.dropped(),
    {
        proof { use_type_invariant(self); }
        SramRingBuffer {
            buffer: self.buffer,
            head: self.head,
            tail: self.tail,
            count: self.count,
            dropped_overflow: self.dropped_overflow,
        }
    }
}

} // verus!
