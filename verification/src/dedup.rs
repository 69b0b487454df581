//! Sliding Bloom filter with a small recent-packet cache, for mesh deduplication without
//! heap allocation.
//!
//! Two epochs of 10,240 bits each: inserts go to the active epoch, and after 512 inserts
//! the active epoch becomes the previous one and a fresh one starts. A packet is
//! reported as seen when it is in the recent cache or all seven of its bits are set in
//! either epoch.
use vstd::prelude::*;

verus! {

pub const BLOOM_BITS: usize = 10240;
pub const BLOOM_WORDS: usize = BLOOM_BITS / 64;
pub const EPOCH_THRESHOLD: usize = 512;
pub const LRU_SIZE: usize = 64;

/// First hash of a packet identity.
pub open spec fn hash1(msg_id: u32, chunk_idx: u8) -> u32 {
    let h = msg_id.wrapping_mul(0x85ebca6b) ^ (chunk_idx as u32).wrapping_mul(0xc2b2ae35);
    (h ^ (h >> 16u32)).wrapping_mul(0x85ebca6b)
}

/// Second hash of a packet identity, never zero.
pub open spec fn hash2(msg_id: u32, chunk_idx: u8) -> u32 {
    let h = msg_id.wrapping_mul(0xcc9e2d51) ^ (chunk_idx as u32).wrapping_mul(0x1b873593);
    let h2 = (h ^ (h >> 13u32)).wrapping_mul(0x5bd1e995);
    if h2 == 0 { 1 } else { h2 }
}

/// The `i`-th of the seven bit positions of a packet: `(h1 + i * h2) mod 2^32 mod BLOOM_BITS`.
pub open spec fn bloom_bit(msg_id: u32, chunk_idx: u8, i: u32) -> int {
    (hash1(msg_id, chunk_idx).wrapping_add(i.wrapping_mul(hash2(msg_id, chunk_idx))) as int) % (BLOOM_BITS as int)
}

/// Whether bit `idx` is set in an epoch stored as 64-bit words, low bit first.
pub open spec fn bit_set(words: Seq<u64>, idx: int) -> bool {
    (words[idx / 64] >> ((idx % 64) as u64)) & 1u64 == 1u64
}

proof fn lemma_test_bit(w: u64, p: u64)
    by (bit_vector)
    requires
        p < 64,
    ensures
        ((w & (1u64 << p)) != 0u64) == ((w >> p) & 1u64 == 1u64),
{
}

proof fn lemma_set_bit(w: u64, p: u64, q: u64)
    by (bit_vector)
    requires
        p < 64,
        q < 64,
    ensures
        (((w | (1u64 << p)) >> q) & 1u64 == 1u64) == (((w >> q) & 1u64 == 1u64) || q == p),
{
}

proof fn lemma_zero_bit(q: u64)
    by (bit_vector)
    requires
        q < 64,
    ensures
        (0u64 >> q) & 1u64 != 1u64,
{
}

/// The chunk index is mixed into a packet's hash coordinates: for one message, two
/// different chunks never share their first hash, so every chunk of a message has its
/// own coordinates (and the filter does not take one chunk for another by construction).
pub proof fn lemma_chunks_have_own_coordinates(msg_id: u32, c1: u8, c2: u8)
    ensures
        c1 != c2 ==> hash1(msg_id, c1) != hash1(msg_id, c2),
        c1 != c2 ==> (hash1(msg_id, c1), hash2(msg_id, c1)) != (hash1(msg_id, c2), hash2(msg_id, c2)),
{
    lemma_hash1_injective_in_chunk(msg_id, c1, c2);
}

/// While neither epoch has a bit set (as in a new filter), a packet is reported as seen
/// exactly when its own `(message, chunk)` pair is in the recent cache: another chunk of
/// the same message does not count.
pub proof fn lemma_clear_epochs_report_cached_pairs(f: SlidingBloomFilter, msg_id: u32, chunk_idx: u8)
    requires
        forall|idx: int| 0 <= idx < BLOOM_BITS ==> !bit_set(f.active(), idx) && !bit_set(f.previous(), idx),
    ensures
        f.may_contain(msg_id, chunk_idx) <==> exists|k: int|
            0 <= k < f.recent().len() && f.recent()[k].0 == msg_id && f.recent()[k].1 == chunk_idx,
{
    let b = bloom_bit(msg_id, chunk_idx, 0);
    assert(0 <= b < BLOOM_BITS);
    assert(!(bit_set(f.active(), b) || bit_set(f.previous(), b)));
    if f.recent().contains((msg_id, chunk_idx)) {
        let k = choose|k: int| 0 <= k < f.recent().len() && f.recent()[k] == (msg_id, chunk_idx);
        assert(f.recent()[k].0 == msg_id && f.recent()[k].1 == chunk_idx);
    }
    if exists|k: int| 0 <= k < f.recent().len() && f.recent()[k].0 == msg_id && f.recent()[k].1 == chunk_idx {
        let k = choose|k: int| 0 <= k < f.recent().len() && f.recent()[k].0 == msg_id && f.recent()[k].1 == chunk_idx;
        assert(f.recent()[k] == (msg_id, chunk_idx));
    }
}

proof fn lemma_hash1_injective_in_chunk(msg_id: u32, c1: u8, c2: u8)
    by (bit_vector)
    ensures
        c1 != c2 ==> hash1(msg_id, c1) != hash1(msg_id, c2),
{
}

/// Computes the two hashes of a packet identity.
fn hash_coords(msg_id: u32, chunk_idx: u8) -> (r: (u32, u32))
    ensures
        r == (hash1(msg_id, chunk_idx), hash2(msg_id, chunk_idx)),
{
    let mut h1 = msg_id.wrapping_mul(0x85ebca6b) ^ (chunk_idx as u32).wrapping_mul(0xc2b2ae35);
    h1 = (h1 ^ (h1 >> 16)).wrapping_mul(0x85ebca6b);
    let mut h2 = msg_id.wrapping_mul(0xcc9e2d51) ^ (chunk_idx as u32).wrapping_mul(0x1b873593);
    h2 = (h2 ^ (h2 >> 13)).wrapping_mul(0x5bd1e995);
    if h2 == 0 {
        h2 = 1;
    }
    (h1, h2)
}

/// Whether all seven bits of a packet are set in an epoch.
pub open spec fn holds_packet(words: Seq<u64>, msg_id: u32, chunk_idx: u8) -> bool {
    forall|i: u32| i < 7 ==> #[trigger] bit_set(words, bloom_bit(msg_id, chunk_idx, i))
}

/// What one `insert` of any packet does to the epochs: an active epoch that holds 512
/// entries becomes the previous one and a new one starts with one entry; otherwise the
/// previous epoch stays and the active one keeps every bit and counts one more entry.
pub open spec fn epoch_step(b: SlidingBloomFilter, a: SlidingBloomFilter) -> bool {
    &&& b.entries() >= EPOCH_THRESHOLD ==> a.previous() == b.active() && a.entries() == 1
    &&& b.entries() < EPOCH_THRESHOLD ==> a.previous() == b.previous() && a.entries() == b.entries() + 1 && forall|
        idx: int,
    | 0 <= idx < BLOOM_BITS && bit_set(b.active(), idx) ==> #[trigger] bit_set(a.active(), idx)
}

/// What `insert` of a packet does (its contract): the packet takes the next cache slot,
/// its seven bits are set in the active epoch (which first turns over when it holds 512
/// entries), and the filter reports it as seen.
pub open spec fn filter_inserted(b: SlidingBloomFilter, a: SlidingBloomFilter, msg_id: u32, chunk_idx: u8) -> bool {
    &&& a.recent() == b.recent().update(b.next_slot(), (msg_id, chunk_idx))
    &&& a.next_slot() == (b.next_slot() + 1) % (LRU_SIZE as int)
    &&& epoch_step(b, a)
    &&& forall|idx: int|
        0 <= idx < BLOOM_BITS ==> #[trigger] bit_set(a.active(), idx) == ((b.entries() < EPOCH_THRESHOLD && bit_set(
            b.active(),
            idx,
        )) || exists|k: u32| k < 7 && bloom_bit(msg_id, chunk_idx, k) == idx)
    &&& holds_packet(a.active(), msg_id, chunk_idx)
    &&& a.may_contain(msg_id, chunk_idx)
}

pub struct SlidingBloomFilter {
    active_epoch: [u64; BLOOM_WORDS],
    previous_epoch: [u64; BLOOM_WORDS],
    entries_in_epoch: usize,
    recent_lru: [(u32, u8); LRU_SIZE],
    lru_head: usize,
}

impl SlidingBloomFilter {
    #[verifier::type_invariant]
    spec fn counters_in_range(self) -> bool {
        &&& self.lru_head < LRU_SIZE
        &&& self.entries_in_epoch <= EPOCH_THRESHOLD
    }

    /// The recent-packet cache, slot by slot.
    pub closed spec fn recent(&self) -> Seq<(u32, u8)> {
        self.recent_lru@
    }

    /// Next cache slot to overwrite.
    pub closed spec fn next_slot(&self) -> int {
        self.lru_head as int
    }

    /// Words of the active epoch.
    pub closed spec fn active(&self) -> Seq<u64> {
        self.active_epoch@
    }

    /// Words of the previous epoch.
    pub closed spec fn previous(&self) -> Seq<u64> {
        self.previous_epoch@
    }

    /// Inserts into the active epoch so far.
    pub closed spec fn entries(&self) -> int {
        self.entries_in_epoch as int
    }

    /// Whether the filter reports the packet as seen.
    pub open spec fn may_contain(&self, msg_id: u32, chunk_idx: u8) -> bool {
        ||| self.recent().contains((msg_id, chunk_idx))
        ||| forall|i: u32| i < 7 ==> bit_set(self.active(), #[trigger] bloom_bit(msg_id, chunk_idx, i))
            || bit_set(self.previous(), bloom_bit(msg_id, chunk_idx, i))
    }

    /// An empty filter.
    pub fn new() -> (r: Self)
        ensures
            r.recent() == Seq::new(LRU_SIZE as nat, |i: int| (0u32, 0u8)),
            r.next_slot() == 0,
            r.entries() == 0,
            forall|idx: int| 0 <= idx < BLOOM_BITS ==> !bit_set(r.active(), idx) && !bit_set(r.previous(), idx),
    {
        let r = SlidingBloomFilter {
            active_epoch: [0u64; BLOOM_WORDS],
            previous_epoch: [0u64; BLOOM_WORDS],
            entries_in_epoch: 0,
            recent_lru: [(0, 0); LRU_SIZE],
            lru_head: 0,
        };
        assert(r.recent() =~= Seq::new(LRU_SIZE as nat, |i: int| (0u32, 0u8)));
        assert forall|idx: int| 0 <= idx < BLOOM_BITS implies !bit_set(r.active(), idx) && !bit_set(r.previous(), idx) by {
            lemma_zero_bit((idx % 64) as u64);
        }
        r
    }

    /// Whether the packet has likely been seen: it is in the recent cache, or each of its
    /// seven bits is set in the active or the previous epoch.
    pub fn contains(&self, msg_id: u32, chunk_idx: u8) -> (r: bool)
        ensures
            r == self.may_contain(msg_id, chunk_idx),
    {
        let mut j: usize = 0;
        while j < LRU_SIZE
            invariant
                j <= LRU_SIZE,
                forall|k: int| 0 <= k < j ==> self.recent_lru@[k] != (msg_id, chunk_idx),
            decreases LRU_SIZE - j,
        {
            let entry = self.recent_lru[j];
            if entry.0 == msg_id && entry.1 == chunk_idx {
                assert(self.recent()[j as int] == (msg_id, chunk_idx));
                return true;
            }
            j = j + 1;
        }
        assert(!self.recent().contains((msg_id, chunk_idx)));
        let (h1, h2) = hash_coords(msg_id, chunk_idx);
        let mut i: u32 = 0;
        while i < 7
            invariant
                i <= 7,
                h1 == hash1(msg_id, chunk_idx),
                h2 == hash2(msg_id, chunk_idx),
                !self.recent().contains((msg_id, chunk_idx)),
                forall|k: u32| k < i ==> bit_set(self.active(), #[trigger] bloom_bit(msg_id, chunk_idx, k))
                    || bit_set(self.previous(), bloom_bit(msg_id, chunk_idx, k)),
            decreases 7 - i,
        {
            let bit_idx = (h1.wrapping_add(i.wrapping_mul(h2)) as usize) % BLOOM_BITS;
            let word_idx = bit_idx / 64;
            let bit_pos = (bit_idx % 64) as u64;
            let in_active = (self.active_epoch[word_idx] & (1u64 << bit_pos)) != 0;
            let in_prev = (self.previous_epoch[word_idx] & (1u64 << bit_pos)) != 0;
            proof {
                assert(bit_idx as int == bloom_bit(msg_id, chunk_idx, i));
                lemma_test_bit(self.active_epoch@[word_idx as int], bit_pos);
                lemma_test_bit(self.previous_epoch@[word_idx as int], bit_pos);
            }
            if !in_active && !in_prev {
                return false;
            }
            i = i + 1;
        }
        true
    }

    /// Records the packet: it takes the next cache slot, and its seven bits are set in the
    /// active epoch, which first turns over when it already holds 512 entries. Afterwards
    /// the filter reports the packet as seen.
    pub fn insert(&mut self, msg_id: u32, chunk_idx: u8)
        ensures
            final(self).recent() == old(self).recent().update(old(self).next_slot(), (msg_id, chunk_idx)),
            final(self).next_slot() == (old(self).next_slot() + 1) % (LRU_SIZE as int),
            old(self).entries() >= EPOCH_THRESHOLD ==> {
                &&& final(self).previous() == old(self).active()
                &&& final(self).entries() == 1
            },
            old(self).entries() < EPOCH_THRESHOLD ==> {
                &&& final(self).previous() == old(self).previous()
                &&& final(self).entries() == old(self).entries() + 1
            },
            forall|idx: int| 0 <= idx < BLOOM_BITS ==> #[trigger] bit_set(final(self).active(), idx) == (
                (old(self).entries() < EPOCH_THRESHOLD && bit_set(old(self).active(), idx))
                || exists|k: u32| k < 7 && bloom_bit(msg_id, chunk_idx, k) == idx),
            final(self).may_contain(msg_id, chunk_idx),
            epoch_step(*old(self), *final(self)),
            holds_packet(final(self).active(), msg_id, chunk_idx),
            final(self).entries() >= 1,
            filter_inserted(*old(self), *final(self), msg_id, chunk_idx),
    {
        proof { use_type_invariant(&*self); }
        let ghost old_active = self.active_epoch@;
        let mut lru = self.recent_lru;
        lru[self.lru_head] = (msg_id, chunk_idx);
        let head = (self.lru_head + 1) % LRU_SIZE;
        let turnover = self.entries_in_epoch >= EPOCH_THRESHOLD;
        let mut previous = self.previous_epoch;
        let mut active = self.active_epoch;
        let mut entries = self.entries_in_epoch;
        if turnover {
            previous = active;
            active = [0u64; BLOOM_WORDS];
            entries = 0;
        }
        let ghost base = active@;
        proof {
            assert forall|idx: int| 0 <= idx < BLOOM_BITS implies bit_set(base, idx) == (!turnover
                && bit_set(old_active, idx)) by {
                if turnover {
                    lemma_zero_bit((idx % 64) as u64);
                }
            }
        }
        let (h1, h2) = hash_coords(msg_id, chunk_idx);
        let mut i: u32 = 0;
        while i < 7
            invariant
                i <= 7,
                h1 == hash1(msg_id, chunk_idx),
                h2 == hash2(msg_id, chunk_idx),
                active@.len() == BLOOM_WORDS,
                forall|idx: int| 0 <= idx < BLOOM_BITS ==> #[trigger] bit_set(active@, idx) == (bit_set(base, idx)
                    || exists|k: u32| k < i && bloom_bit(msg_id, chunk_idx, k) == idx),
            decreases 7 - i,
        {
            let bit_idx = (h1.wrapping_add(i.wrapping_mul(h2)) as usize) % BLOOM_BITS;
            let word_idx = bit_idx / 64;
            let bit_pos = (bit_idx % 64) as u64;
            let ghost before = active@;
            let word = active[word_idx];
            active[word_idx] = word | (1u64 << bit_pos);
            proof {
                assert(bit_idx as int == bloom_bit(msg_id, chunk_idx, i));
                assert forall|idx: int| 0 <= idx < BLOOM_BITS implies #[trigger] bit_set(active@, idx) == (
                    bit_set(before, idx) || idx == bit_idx) by {
                    if idx / 64 == word_idx as int {
                        lemma_set_bit(word, bit_pos, (idx % 64) as u64);
                    }
                }
                assert forall|idx: int| 0 <= idx < BLOOM_BITS implies #[trigger] bit_set(active@, idx) == (
                    bit_set(base, idx) || exists|k: u32| k < i + 1 && bloom_bit(msg_id, chunk_idx, k) == idx) by {
                    if idx == bit_idx {
                        assert(bloom_bit(msg_id, chunk_idx, i) == idx);
                    }
                    if exists|k: u32| k < i + 1 && bloom_bit(msg_id, chunk_idx, k) == idx {
                        let k = choose|k: u32| k < i + 1 && bloom_bit(msg_id, chunk_idx, k) == idx;
                        if k < i {
                            assert(exists|k2: u32| k2 < i && bloom_bit(msg_id, chunk_idx, k2) == idx);
                        }
                    }
                }
            }
            i = i + 1;
        }
        *self = SlidingBloomFilter {
            active_epoch: active,
            previous_epoch: previous,
            entries_in_epoch: entries + 1,
            recent_lru: lru,
            lru_head: head,
        };
        proof {
            assert forall|k: u32| k < 7 implies bit_set(self.active(), #[trigger] bloom_bit(msg_id, chunk_idx, k))
                || bit_set(self.previous(), bloom_bit(msg_id, chunk_idx, k)) by {
                let idx = bloom_bit(msg_id, chunk_idx, k);
                assert(0 <= idx < BLOOM_BITS);
                assert(exists|k2: u32| k2 < 7 && bloom_bit(msg_id, chunk_idx, k2) == idx);
            }
            assert forall|k: u32| k < 7 implies #[trigger] bit_set(self.active(), bloom_bit(msg_id, chunk_idx, k)) by {
                let idx = bloom_bit(msg_id, chunk_idx, k);
                assert(0 <= idx < BLOOM_BITS);
                assert(exists|k2: u32| k2 < 7 && bloom_bit(msg_id, chunk_idx, k2) == idx);
            }
        }
    }
}

proof fn lemma_window_step(fs: Seq<SlidingBloomFilter>, msg_id: u32, chunk_idx: u8, j: int)
    requires
        1 <= fs.len() <= EPOCH_THRESHOLD + 1,
        holds_packet(fs[0].active(), msg_id, chunk_idx),
        fs[0].entries() >= 1,
        forall|k: int| 0 <= k < fs.len() - 1 ==> #[trigger] epoch_step(fs[k], fs[k + 1]),
        0 <= j < fs.len(),
    ensures
        (holds_packet(fs[j].active(), msg_id, chunk_idx) && fs[j].entries() >= 1) || (holds_packet(
            fs[j].previous(),
            msg_id,
            chunk_idx,
        ) && fs[j].entries() <= j),
    decreases j,
{
    if j > 0 {
        lemma_window_step(fs, msg_id, chunk_idx, j - 1);
        let b = fs[j - 1];
        let a = fs[j];
        assert(epoch_step(fs[j - 1], fs[j - 1 + 1]));
        if holds_packet(b.active(), msg_id, chunk_idx) && b.entries() >= 1 && b.entries() < EPOCH_THRESHOLD {
            assert forall|i: u32| i < 7 implies #[trigger] bit_set(a.active(), bloom_bit(msg_id, chunk_idx, i)) by {
                let idx = bloom_bit(msg_id, chunk_idx, i);
                assert(0 <= idx < BLOOM_BITS);
                assert(bit_set(b.active(), idx));
            }
        }
    }
}

/// A packet inserted into the filter is reported as seen through the next 512 inserts of
/// any packets: `fs[0]` is the filter right after the packet's insert, and each
/// `fs[j + 1]` the filter after one more insert.
pub proof fn lemma_seen_through_window(fs: Seq<SlidingBloomFilter>, msg_id: u32, chunk_idx: u8)
    requires
        1 <= fs.len() <= EPOCH_THRESHOLD + 1,
        holds_packet(fs[0].active(), msg_id, chunk_idx),
        fs[0].entries() >= 1,
        forall|k: int| 0 <= k < fs.len() - 1 ==> #[trigger] epoch_step(fs[k], fs[k + 1]),
    ensures
        forall|j: int| 0 <= j < fs.len() ==> #[trigger] fs[j].may_contain(msg_id, chunk_idx),
{
    assert forall|j: int| 0 <= j < fs.len() implies #[trigger] fs[j].may_contain(msg_id, chunk_idx) by {
        lemma_window_step(fs, msg_id, chunk_idx, j);
        if holds_packet(fs[j].active(), msg_id, chunk_idx) {
            assert forall|i: u32| i < 7 implies bit_set(fs[j].active(), #[trigger] bloom_bit(msg_id, chunk_idx, i)) || bit_set(
                fs[j].previous(),
                bloom_bit(msg_id, chunk_idx, i),
            ) by {
                assert(bit_set(fs[j].active(), bloom_bit(msg_id, chunk_idx, i)));
            }
        } else {
            assert forall|i: u32| i < 7 implies bit_set(fs[j].active(), #[trigger] bloom_bit(msg_id, chunk_idx, i)) || bit_set(
                fs[j].previous(),
                bloom_bit(msg_id, chunk_idx, i),
            ) by {
                assert(bit_set(fs[j].previous(), bloom_bit(msg_id, chunk_idx, i)));
            }
        }
    }
}

} // verus!
