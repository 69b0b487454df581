//! Message fragmentation with per-sender subkeys, anti-DoS reassembly, and selective
//! acknowledgment (SACK) recovery.
//!
//! Time is measured in milliseconds since the engine was created. Each operation that
//! depends on time has a form that takes the current time as an argument (`*_at`) and a
//! form that reads the engine's clock and then does the same.
use vstd::prelude::*;
use crate::clock::{age, age_ms, instant_now, millis_since};
use crate::ratchet::{
    chacha20poly1305_open, decrypt_chunk, derive_sender_subkey, implicit_nonce, sender_subkey, CryptoError,
};
use crate::secrecy::Secret;
use crate::text::{string_bytes, string_from_utf8};
use crate::nonce::{NonceManager, NonceStore, NONCE_BLOCK_SIZE};
use crate::ratchet::{chunk_ciphertext, encrypt_chunk, padded_chunk};
use vstd::slice::slice_subrange;
use vstd::utf8::{encode_utf8, valid_utf8};
use crate::frame::{
    MeshHeader, MeshPacket, SackPayload, sack_bytes, sack_denoted, CIPHERTEXT_LEN, FLAG_CLIPBOARD,
    FLAG_SACK, PLAINTEXT_CHUNK_LEN, SACK_WINDOW,
};

verus! {

/// Largest number of chunks a message may declare (64 KB).
pub const MAX_TOTAL_CHUNKS: usize = 800;
/// Messages reassembled at once, over all senders.
pub const MAX_GLOBAL_IN_FLIGHT: usize = 16;
/// Messages reassembled at once from one sender.
pub const MAX_PER_SENDER_IN_FLIGHT: usize = 2;
/// An incomplete message is dropped this long after its last new chunk.
pub const REASSEMBLY_TIMEOUT_MS: u64 = 10_000;
/// Quiet time after the last new chunk before the first SACK.
pub const SACK_INITIAL_DELAY_MS: u64 = 300;
/// Minimum time between two SACKs for one message.
pub const SACK_RETRY_INTERVAL_MS: u64 = 500;
/// SACKs sent at most per message.
pub const MAX_SACK_RETRIES: u8 = 3;
/// How long completed message ids and sent messages are remembered.
pub const CACHE_RETENTION_MS: u64 = 60_000;

/// A message being reassembled: one slot per chunk, filled as chunks arrive.
pub struct PendingMessage {
    pub src_node_id: u32,
    pub msg_id: u32,
    pub chunks: Seq<Option<Seq<u8>>>,
    pub first_received: u64,
    pub last_received: u64,
    pub last_sack_sent: Option<u64>,
    pub sack_count: u8,
}

/// Abstract state of the engine.
pub struct EngineView {
    /// Messages being reassembled, oldest insertion first.
    pub in_flight: Seq<PendingMessage>,
    /// Completed messages (sender, message id, completion time).
    pub completed: Seq<(u32, u32, u64)>,
    /// Sent messages kept for retransmission (message id, packets, time cached).
    pub outbox: Seq<(u32, Seq<MeshPacket>, u64)>,
}

struct InFlightMessage {
    src_node_id: u32,
    msg_id: u32,
    received_chunks: Vec<Option<[u8; PLAINTEXT_CHUNK_LEN]>>,
    first_received: u64,
    last_received: u64,
    last_sack_sent: Option<u64>,
    sack_count: u8,
}

/// A chunk slot as bytes.
pub open spec fn slot_view(c: Option<[u8; PLAINTEXT_CHUNK_LEN]>) -> Option<Seq<u8>> {
    match c {
        Some(a) => Some(a@),
        None => None,
    }
}

impl View for InFlightMessage {
    type V = PendingMessage;

    closed spec fn view(&self) -> PendingMessage {
        PendingMessage {
            src_node_id: self.src_node_id,
            msg_id: self.msg_id,
            chunks: self.received_chunks@.map_values(|c: Option<[u8; PLAINTEXT_CHUNK_LEN]>| slot_view(c)),
            first_received: self.first_received,
            last_received: self.last_received,
            last_sack_sent: self.last_sack_sent,
            sack_count: self.sack_count,
        }
    }
}

struct OutboxEntry {
    msg_id: u32,
    packets: Vec<MeshPacket>,
    cached_at: u64,
}

spec fn outbox_view(e: OutboxEntry) -> (u32, Seq<MeshPacket>, u64) {
    (e.msg_id, e.packets@, e.cached_at)
}

spec fn in_flight_view(m: InFlightMessage) -> PendingMessage {
    m@
}

/// Whether every in-flight message from `src` with the packet's id has a slot for the
/// packet's chunk index.
pub open spec fn slots_fit(in_flight: Seq<PendingMessage>, src: u32, p: MeshPacket) -> bool {
    forall|i: int|
        0 <= i < in_flight.len() && (#[trigger] in_flight[i]).src_node_id == src && in_flight[i].msg_id == p.header.msg_id
            ==> (p.header.chunk_idx as int) < in_flight[i].chunks.len()
}

/// Whether `after` is the outbox cache `before` once `packets` are cached at `now`:
/// nothing changes for no packets; otherwise the entry of the first packet's message id
/// takes the packets and the time, or one is added at the end.
pub open spec fn cached(
    before: Seq<(u32, Seq<MeshPacket>, u64)>,
    after: Seq<(u32, Seq<MeshPacket>, u64)>,
    packets: Seq<MeshPacket>,
    now: u64,
) -> bool {
    &&& packets.len() == 0 ==> after == before
    &&& packets.len() > 0 ==> {
        let id = packets[0].header.msg_id;
        &&& has_outbox(before, id) ==> exists|i: int| 0 <= i < before.len() && before[i].0 == id && after == before.update(
            i,
            (id, packets, now),
        )
        &&& !has_outbox(before, id) ==> after == before.push((id, packets, now))
    }
}

/// Whether some in-flight message has this sender and id.
pub open spec fn has_message(s: Seq<PendingMessage>, src: u32, msg_id: u32) -> bool {
    exists|i: int| 0 <= i < s.len() && s[i].src_node_id == src && s[i].msg_id == msg_id
}

/// Whether a completed message with this sender and id is remembered.
pub open spec fn has_completed(c: Seq<(u32, u32, u64)>, src: u32, msg_id: u32) -> bool {
    exists|i: int| 0 <= i < c.len() && c[i].0 == src && c[i].1 == msg_id
}

/// Whether the outbox holds a message with this id.
pub open spec fn has_outbox(o: Seq<(u32, Seq<MeshPacket>, u64)>, msg_id: u32) -> bool {
    exists|i: int| 0 <= i < o.len() && o[i].0 == msg_id
}

/// No two in-flight messages share sender and id.
pub open spec fn keys_unique(s: Seq<PendingMessage>) -> bool {
    forall|i: int, j: int|
        0 <= i < j < s.len() ==> !(#[trigger] s[i].src_node_id == #[trigger] s[j].src_node_id && s[i].msg_id == s[j].msg_id)
}

/// Every in-flight message has between one and 255 chunk slots.
pub open spec fn slots_sized(s: Seq<PendingMessage>) -> bool {
    forall|i: int| 0 <= i < s.len() ==> 1 <= #[trigger] s[i].chunks.len() <= 255
}

/// Invariant of the engine: one entry per key in each table, and each message has
/// between one and 255 chunk slots.
pub open spec fn engine_well_formed(v: EngineView) -> bool {
    &&& keys_unique(v.in_flight)
    &&& slots_sized(v.in_flight)
    &&& forall|i: int, j: int|
        0 <= i < j < v.completed.len() ==> !(#[trigger] v.completed[i].0 == #[trigger] v.completed[j].0 && v.completed[i].1
            == v.completed[j].1)
    &&& forall|i: int, j: int| 0 <= i < j < v.outbox.len() ==> #[trigger] v.outbox[i].0 != #[trigger] v.outbox[j].0
}

/// Whether the message still misses a chunk.
pub open spec fn is_incomplete(m: PendingMessage) -> bool {
    exists|i: int| 0 <= i < m.chunks.len() && m.chunks[i] is None
}

/// Whether a SACK for the message is due at `now`: it is incomplete, quiet for the initial
/// delay, below the retry cap, and the retry interval has passed since the last SACK.
pub open spec fn sack_due(m: PendingMessage, now: u64) -> bool {
    &&& is_incomplete(m)
    &&& age(now, m.last_received) >= SACK_INITIAL_DELAY_MS
    &&& m.sack_count < MAX_SACK_RETRIES
    &&& (m.last_sack_sent matches Some(t) ==> age(now, t) >= SACK_RETRY_INTERVAL_MS)
}

/// Whether `p` is the SACK packet for `m` sent by `local_node_id`: a bitmask of exactly
/// the missing chunks from index 0, under the swarm tag, with TTL 5.
pub open spec fn is_sack_for(p: MeshPacket, m: PendingMessage, local_node_id: u32, swarm_tag: u64) -> bool {
    &&& p.header == MeshHeader {
        network_tag: swarm_tag,
        msg_id: m.msg_id,
        chunk_idx: 0,
        total_chunks: m.chunks.len() as u8,
        ttl: 5,
        hop_count: 0,
        flags: FLAG_SACK,
    }
    &&& exists|s: SackPayload|
        #![trigger sack_bytes(s)]
        p.payload@ == sack_bytes(s) && s.receiver_node_id == local_node_id && s.sender_node_id == m.src_node_id
            && s.base_chunk == 0 && forall|c: int| s.missing(c) == (0 <= c < m.chunks.len() && m.chunks[c] is None)
}

/// The message after a SACK for it went out at `now`.
pub open spec fn after_sack(m: PendingMessage, now: u64) -> PendingMessage {
    PendingMessage { last_sack_sent: Some(now), sack_count: (m.sack_count + 1) as u8, ..m }
}

/// Packets to resend for a SACK, from the cached packets of the message: those at the
/// missing indices, in increasing order, among the first `n` slots of the window.
pub open spec fn retransmissions(s: SackPayload, cached: Seq<MeshPacket>, n: int) -> Seq<MeshPacket>
    decreases n,
{
    if n <= 0 {
        Seq::empty()
    } else {
        let c = s.base_chunk + n - 1;
        let rest = retransmissions(s, cached, n - 1);
        if s.missing(c) && c < cached.len() { rest.push(cached[c]) } else { rest }
    }
}

/// The in-flight table after SACKs for message `msg_id` were marked sent at `now`.
pub open spec fn sacks_suppressed(before: Seq<PendingMessage>, after: Seq<PendingMessage>, now: u64, msg_id: u32) -> bool {
    &&& after.len() == before.len()
    &&& forall|k: int| 0 <= k < before.len() ==> #[trigger] after[k] == if before[k].msg_id == msg_id {
        PendingMessage { last_sack_sent: Some(now), ..before[k] }
    } else {
        before[k]
    }
}

/// The in-flight table and the emitted packets after the SACK round at `now`: every
/// message with a SACK due is marked, and the packets are its SACKs in table order.
pub open spec fn sack_round(
    before: Seq<PendingMessage>,
    after: Seq<PendingMessage>,
    sent: Seq<MeshPacket>,
    now: u64,
    local_node_id: u32,
    swarm_tag: u64,
) -> bool {
    &&& after.len() == before.len()
    &&& forall|k: int| 0 <= k < before.len() ==> #[trigger] after[k] == if sack_due(before[k], now) {
        after_sack(before[k], now)
    } else {
        before[k]
    }
    &&& sent.len() == before.filter(|m: PendingMessage| sack_due(m, now)).len()
    &&& forall|k: int| 0 <= k < sent.len() ==> is_sack_for(
        #[trigger] sent[k],
        before.filter(|m: PendingMessage| sack_due(m, now))[k],
        local_node_id,
        swarm_tag,
    )
}

pub struct ChunkEngine {
    origin: std::time::Instant,
    in_flight: Vec<InFlightMessage>,
    completed_cache: Vec<(u32, u32, u64)>,
    outbox_cache: Vec<OutboxEntry>,
}

impl View for ChunkEngine {
    type V = EngineView;

    closed spec fn view(&self) -> EngineView {
        EngineView {
            in_flight: self.in_flight@.map_values(|m: InFlightMessage| in_flight_view(m)),
            completed: self.completed_cache@,
            outbox: self.outbox_cache@.map_values(|e: OutboxEntry| outbox_view(e)),
        }
    }
}

impl ChunkEngine {
    /// An engine with empty tables; its clock starts now.
    pub fn new() -> (r: Self)
        ensures
            r@.in_flight == Seq::<PendingMessage>::empty(),
            r@.completed == Seq::<(u32, u32, u64)>::empty(),
            r@.outbox == Seq::<(u32, Seq<MeshPacket>, u64)>::empty(),
            engine_well_formed(r@),
    {
        let r = ChunkEngine {
            origin: instant_now(),
            in_flight: Vec::new(),
            completed_cache: Vec::new(),
            outbox_cache: Vec::new(),
        };
        assert(r@.in_flight =~= Seq::<PendingMessage>::empty());
        assert(r@.outbox =~= Seq::<(u32, Seq<MeshPacket>, u64)>::empty());
        r
    }

    /// Milliseconds on the engine's clock.
    fn now_ms(&self) -> u64 {
        millis_since(&self.origin)
    }

    /// Remembers sent packets, under the first packet's message id, for retransmission;
    /// an earlier entry for that id is replaced. An empty list is ignored.
    pub fn cache_outbound_at(&mut self, now_ms: u64, packets: &[MeshPacket])
        requires
            engine_well_formed(old(self)@),
        ensures
            engine_well_formed(final(self)@),
            final(self)@.in_flight == old(self)@.in_flight,
            final(self)@.completed == old(self)@.completed,
            cached(old(self)@.outbox, final(self)@.outbox, packets@, now_ms),
    {
        if packets.len() == 0 {
            return;
        }
        let id = packets[0].header.msg_id;
        let mut copy: Vec<MeshPacket> = Vec::new();
        let mut k: usize = 0;
        while k < packets.len()
            invariant
                k <= packets@.len(),
                copy@ == packets@.subrange(0, k as int),
            decreases packets@.len() - k,
        {
            copy.push(packets[k]);
            k = k + 1;
            assert(copy@ =~= packets@.subrange(0, k as int));
        }
        assert(packets@.subrange(0, packets@.len() as int) =~= packets@);
        let ghost before = self@;
        let entry = OutboxEntry { msg_id: id, packets: copy, cached_at: now_ms };
        let mut i: usize = 0;
        while i < self.outbox_cache.len()
            invariant
                i <= self.outbox_cache@.len(),
                self@ == before,
                before == old(self)@,
                packets@.len() > 0,
                id == packets@[0].header.msg_id,
                engine_well_formed(before),
                entry.msg_id == id,
                entry.packets@ == packets@,
                entry.cached_at == now_ms,
                forall|j: int| 0 <= j < i ==> self@.outbox[j].0 != id,
            decreases self.outbox_cache@.len() - i,
        {
            if self.outbox_cache[i].msg_id == id {
                assert(self@.outbox[i as int].0 == id);
                let ghost old_cache = self.outbox_cache@;
                self.outbox_cache.set(i, entry);
                assert(self.outbox_cache@ == old_cache.update(i as int, entry));
                assert(outbox_view(entry) == (id, packets@, now_ms));
                assert(self@.outbox =~= before.outbox.update(i as int, (id, packets@, now_ms)));
                assert(self@.in_flight == before.in_flight);
                assert(self@.completed == before.completed);
                assert forall|a: int, b: int| 0 <= a < b < self@.outbox.len() implies #[trigger] self@.outbox[a].0
                    != #[trigger] self@.outbox[b].0 by {
                    assert(before.outbox[a].0 != before.outbox[b].0);
                }
                return;
            }
            i = i + 1;
        }
        let ghost old_cache = self.outbox_cache@;
        self.outbox_cache.push(entry);
        assert(self.outbox_cache@ == old_cache.push(entry));
        assert(outbox_view(entry) == (id, packets@, now_ms));
        assert(self@.outbox =~= before.outbox.push((id, packets@, now_ms)));
        assert(self@.in_flight == before.in_flight);
        assert(self@.completed == before.completed);
        assert forall|a: int, b: int| 0 <= a < b < self@.outbox.len() implies #[trigger] self@.outbox[a].0
            != #[trigger] self@.outbox[b].0 by {
            if b < before.outbox.len() {
                assert(before.outbox[a].0 != before.outbox[b].0);
            }
        }
    }

    /// `cache_outbound_at` at the engine's current time.
    pub fn cache_outbound(&mut self, packets: &[MeshPacket])
        requires
            engine_well_formed(old(self)@),
        ensures
            engine_well_formed(final(self)@),
            final(self)@.in_flight == old(self)@.in_flight,
            final(self)@.completed == old(self)@.completed,
            exists|now: u64| cached(old(self)@.outbox, final(self)@.outbox, packets@, now),
    {
        let now = self.now_ms();
        self.cache_outbound_at(now, packets);
        assert(cached(old(self)@.outbox, self@.outbox, packets@, now));
    }
}


impl ChunkEngine {
    /// Answers a SACK: the cached packets of its message at the chunk indices it marks
    /// missing, in increasing order. Packets without the SACK flag, and SACKs for messages
    /// not in the outbox, get nothing.
    pub fn handle_sack(&mut self, sack_packet: &MeshPacket) -> (r: Vec<MeshPacket>)
        requires
            engine_well_formed(old(self)@),
        ensures
            final(self)@ == old(self)@,
            sack_packet.header.flags & FLAG_SACK == 0 ==> r@ == Seq::<MeshPacket>::empty(),
            sack_packet.header.flags & FLAG_SACK != 0 ==> exists|s: SackPayload|
                #![trigger sack_denoted(sack_packet.payload@, s)]
                sack_denoted(sack_packet.payload@, s) && r@ == (if has_outbox(old(self)@.outbox, sack_packet.header.msg_id) {
                    retransmissions(s, old(self)@.outbox[outbox_index(old(self)@.outbox, sack_packet.header.msg_id)].1, SACK_WINDOW as int)
                } else {
                    Seq::<MeshPacket>::empty()
                }),
    {
        if (sack_packet.header.flags & FLAG_SACK) == 0 {
            return Vec::new();
        }
        let sack = SackPayload::deserialize(&sack_packet.payload);
        let msg_id = sack_packet.header.msg_id;
        let mut retransmit: Vec<MeshPacket> = Vec::new();
        let mut i: usize = 0;
        while i < self.outbox_cache.len()
            invariant
                i <= self@.outbox.len(),
                engine_well_formed(self@),
                self@ == old(self)@,
                retransmit@ == Seq::<MeshPacket>::empty(),
                sack_denoted(sack_packet.payload@, sack),
                msg_id == sack_packet.header.msg_id,
                sack_packet.header.flags & FLAG_SACK != 0,
                forall|j: int| 0 <= j < i ==> self@.outbox[j].0 != msg_id,
            decreases self@.outbox.len() - i,
        {
            if self.outbox_cache[i].msg_id == msg_id {
                proof { lemma_outbox_index(self@.outbox, i as int, msg_id); }
                let cached = &self.outbox_cache[i].packets;
                assert(cached@ == self@.outbox[i as int].1);
                let base = sack.base_chunk as usize;
                assert(retransmit@ =~= retransmissions(sack, cached@, 0));
                let mut off: usize = 0;
                while off < SACK_WINDOW
                    invariant
                        off <= SACK_WINDOW,
                        base == sack.base_chunk,
                        retransmit@ == retransmissions(sack, cached@, off as int),
                    decreases SACK_WINDOW - off,
                {
                    let c = base + off;
                    if sack.is_missing(c) && c < cached.len() {
                        retransmit.push(cached[c]);
                    }
                    off = off + 1;
                }
                return retransmit;
            }
            i = i + 1;
        }
        assert(!has_outbox(self@.outbox, msg_id));
        retransmit
    }

    /// Marks a SACK as just sent, at `now_ms`, for every in-flight message with this id, as
    /// when an identical SACK from another node was overheard.
    pub fn suppress_sack_at(&mut self, now_ms: u64, msg_id: u32)
        requires
            engine_well_formed(old(self)@),
        ensures
            engine_well_formed(final(self)@),
            final(self)@.completed == old(self)@.completed,
            final(self)@.outbox == old(self)@.outbox,
            sacks_suppressed(old(self)@.in_flight, final(self)@.in_flight, now_ms, msg_id),
    {
        let ghost before = self@;
        let n = self.in_flight.len();
        let mut i: usize = 0;
        while i < n
            invariant
                n == before.in_flight.len(),
                i <= n,
                before == old(self)@,
                self@.completed == before.completed,
                self@.outbox == before.outbox,
                self@.in_flight.len() == n,
                forall|k: int| 0 <= k < i ==> #[trigger] self@.in_flight[k] == if before.in_flight[k].msg_id == msg_id {
                    PendingMessage { last_sack_sent: Some(now_ms), ..before.in_flight[k] }
                } else {
                    before.in_flight[k]
                },
                forall|k: int| i <= k < n ==> #[trigger] self@.in_flight[k] == before.in_flight[k],
            decreases n - i,
        {
            if self.in_flight[i].msg_id == msg_id {
                let ghost prev = self.in_flight@;
                assert(self@.in_flight[i as int] == in_flight_view(prev[i as int]));
                let mut m = self.in_flight.remove(i);
                m.last_sack_sent = Some(now_ms);
                self.in_flight.insert(i, m);
                proof {
                    assert(self.in_flight@ =~= prev.update(i as int, m));
                    assert(self@.in_flight =~= prev.map_values(|m: InFlightMessage| in_flight_view(m)).update(i as int, m@));
                }
            }
            i = i + 1;
        }
        proof { lemma_same_keys_well_formed(before, self@); }
    }

    /// `suppress_sack_at` at the engine's current time.
    pub fn suppress_sack(&mut self, msg_id: u32)
        requires
            engine_well_formed(old(self)@),
        ensures
            engine_well_formed(final(self)@),
            final(self)@.completed == old(self)@.completed,
            final(self)@.outbox == old(self)@.outbox,
            exists|now: u64| #[trigger] sacks_suppressed(old(self)@.in_flight, final(self)@.in_flight, now, msg_id),
    {
        let now = self.now_ms();
        self.suppress_sack_at(now, msg_id);
    }

    /// Emits one SACK per incomplete message for which one is due at `now_ms`, in table
    /// order, and records it as sent.
    pub fn check_pending_sacks_at(&mut self, now_ms: u64, local_node_id: u32, swarm_tag: u64) -> (r: Vec<MeshPacket>)
        requires
            engine_well_formed(old(self)@),
        ensures
            engine_well_formed(final(self)@),
            final(self)@.completed == old(self)@.completed,
            final(self)@.outbox == old(self)@.outbox,
            sack_round(old(self)@.in_flight, final(self)@.in_flight, r@, now_ms, local_node_id, swarm_tag),
    {
        let ghost before = self@;
        let ghost due = |m: PendingMessage| sack_due(m, now_ms);
        let n = self.in_flight.len();
        let mut sacks: Vec<MeshPacket> = Vec::new();
        let mut i: usize = 0;
        while i < n
            invariant
                n == before.in_flight.len(),
                i <= n,
                before == old(self)@,
                engine_well_formed(before),
                due == (|m: PendingMessage| sack_due(m, now_ms)),
                self@.completed == before.completed,
                self@.outbox == before.outbox,
                self@.in_flight.len() == n,
                forall|k: int| 0 <= k < i ==> #[trigger] self@.in_flight[k] == if sack_due(before.in_flight[k], now_ms) {
                    after_sack(before.in_flight[k], now_ms)
                } else {
                    before.in_flight[k]
                },
                forall|k: int| i <= k < n ==> #[trigger] self@.in_flight[k] == before.in_flight[k],
                sacks@.len() == before.in_flight.take(i as int).filter(due).len(),
                forall|k: int| 0 <= k < sacks@.len() ==> is_sack_for(
                    #[trigger] sacks@[k],
                    before.in_flight.take(i as int).filter(due)[k],
                    local_node_id,
                    swarm_tag,
                ),
            decreases n - i,
        {
            proof {
                reveal(Seq::filter);
                assert(before.in_flight.take(i + 1).drop_last() =~= before.in_flight.take(i as int));
                assert(before.in_flight.take(i + 1).last() == before.in_flight[i as int]);
            }
            let ghost prev = self.in_flight@;
            assert(self@.in_flight[i as int] == in_flight_view(prev[i as int]));
            let mut m = self.in_flight.remove(i);
            assert(m@ == before.in_flight[i as int]);
            let is_due = self.sack_is_due(&m, now_ms);
            if is_due {
                let sack = build_sack(&m, local_node_id, swarm_tag);
                m.last_sack_sent = Some(now_ms);
                m.sack_count = m.sack_count + 1;
                sacks.push(sack);
            }
            self.in_flight.insert(i, m);
            proof {
                assert(self.in_flight@ =~= prev.update(i as int, m));
                assert(self@.in_flight =~= prev.map_values(|m: InFlightMessage| in_flight_view(m)).update(i as int, m@));
                if is_due {
                    assert(m@ == after_sack(before.in_flight[i as int], now_ms));
                }
            }
            i = i + 1;
        }
        proof {
            assert(before.in_flight.take(n as int) =~= before.in_flight);
            lemma_same_keys_well_formed(before, self@);
        }
        sacks
    }

    /// Whether a SACK for `m` is due at `now_ms`.
    fn sack_is_due(&self, m: &InFlightMessage, now_ms: u64) -> (r: bool)
        ensures
            r == sack_due(m@, now_ms),
    {
        let mut incomplete = false;
        let len = m.received_chunks.len();
        let mut k: usize = 0;
        while k < len
            invariant
                len == m.received_chunks@.len(),
                k <= len,
                incomplete == exists|j: int| 0 <= j < k && m.received_chunks@[j] is None,
            decreases len - k,
        {
            if m.received_chunks[k].is_none() {
                incomplete = true;
            }
            k = k + 1;
        }
        proof {
            assert(incomplete == is_incomplete(m@)) by {
                if incomplete {
                    let j = choose|j: int| 0 <= j < len && m.received_chunks@[j] is None;
                    assert(m@.chunks[j] is None);
                }
                if is_incomplete(m@) {
                    let j = choose|j: int| 0 <= j < m@.chunks.len() && m@.chunks[j] is None;
                    assert(m.received_chunks@[j] is None);
                }
            }
        }
        if !incomplete {
            return false;
        }
        if age_ms(now_ms, m.last_received) < SACK_INITIAL_DELAY_MS {
            return false;
        }
        if m.sack_count >= MAX_SACK_RETRIES {
            return false;
        }
        match m.last_sack_sent {
            Some(t) => age_ms(now_ms, t) >= SACK_RETRY_INTERVAL_MS,
            None => true,
        }
    }

    /// `check_pending_sacks_at` at the engine's current time.
    pub fn check_pending_sacks(&mut self, local_node_id: u32, swarm_tag: u64) -> (r: Vec<MeshPacket>)
        requires
            engine_well_formed(old(self)@),
        ensures
            engine_well_formed(final(self)@),
            final(self)@.completed == old(self)@.completed,
            final(self)@.outbox == old(self)@.outbox,
            exists|now: u64| #[trigger] sack_round(old(self)@.in_flight, final(self)@.in_flight, r@, now, local_node_id, swarm_tag),
    {
        let now = self.now_ms();
        self.check_pending_sacks_at(now, local_node_id, swarm_tag)
    }
}

/// The SACK packet for an in-flight message.
fn build_sack(m: &InFlightMessage, local_node_id: u32, swarm_tag: u64) -> (p: MeshPacket)
    requires
        1 <= m@.chunks.len() <= 255,
    ensures
        is_sack_for(p, m@, local_node_id, swarm_tag),
{
    let mut sack = SackPayload::new(local_node_id, m.src_node_id, 0);
    let len = m.received_chunks.len();
    let mut idx: usize = 0;
    while idx < len
        invariant
            len == m.received_chunks@.len(),
            len <= 255,
            idx <= len,
            sack.receiver_node_id == local_node_id,
            sack.sender_node_id == m.src_node_id,
            sack.base_chunk == 0,
            forall|c: int| sack.missing(c) == (0 <= c < idx && m.received_chunks@[c] is None),
        decreases len - idx,
    {
        if m.received_chunks[idx].is_none() {
            sack.mark_missing(idx);
        }
        idx = idx + 1;
    }
    let mut payload = [0u8; CIPHERTEXT_LEN];
    sack.serialize(&mut payload);
    let header = MeshHeader {
        network_tag: swarm_tag,
        msg_id: m.msg_id,
        chunk_idx: 0,
        total_chunks: len as u8,
        ttl: 5,
        hop_count: 0,
        flags: FLAG_SACK,
    };
    let p = MeshPacket { header, payload };
    assert forall|c: int| sack.missing(c) == (0 <= c < m@.chunks.len() && m@.chunks[c] is None) by {
        if 0 <= c < len {
            assert(m@.chunks[c] == slot_view(m.received_chunks@[c]));
        }
    }
    assert(p.payload@ == sack_bytes(sack));
    p
}

/// The index of the outbox entry with this id.
pub open spec fn outbox_index(o: Seq<(u32, Seq<MeshPacket>, u64)>, msg_id: u32) -> int {
    choose|i: int| 0 <= i < o.len() && o[i].0 == msg_id
}

proof fn lemma_outbox_index(o: Seq<(u32, Seq<MeshPacket>, u64)>, i: int, msg_id: u32)
    requires
        forall|a: int, b: int| 0 <= a < b < o.len() ==> #[trigger] o[a].0 != #[trigger] o[b].0,
        0 <= i < o.len(),
        o[i].0 == msg_id,
    ensures
        has_outbox(o, msg_id),
        outbox_index(o, msg_id) == i,
{
    let j = outbox_index(o, msg_id);
    assert(0 <= j < o.len() && o[j].0 == msg_id);
    if j < i {
        assert(o[j].0 != o[i].0);
    } else if i < j {
        assert(o[i].0 != o[j].0);
    }
}

/// Changing in-flight entries without changing their keys or slot counts keeps the
/// engine well formed.
proof fn lemma_same_keys_well_formed(a: EngineView, b: EngineView)
    requires
        engine_well_formed(a),
        b.completed == a.completed,
        b.outbox == a.outbox,
        b.in_flight.len() == a.in_flight.len(),
        forall|k: int| 0 <= k < a.in_flight.len() ==> (#[trigger] b.in_flight[k]).src_node_id == a.in_flight[k].src_node_id
            && b.in_flight[k].msg_id == a.in_flight[k].msg_id && b.in_flight[k].chunks.len() == a.in_flight[k].chunks.len(),
    ensures
        engine_well_formed(b),
{
    assert forall|i: int, j: int| 0 <= i < j < b.in_flight.len() implies !(#[trigger] b.in_flight[i].src_node_id
        == #[trigger] b.in_flight[j].src_node_id && b.in_flight[i].msg_id == b.in_flight[j].msg_id) by {
        assert(!(a.in_flight[i].src_node_id == a.in_flight[j].src_node_id && a.in_flight[i].msg_id
            == a.in_flight[j].msg_id));
    }
    assert forall|i: int| 0 <= i < b.in_flight.len() implies 1 <= #[trigger] b.in_flight[i].chunks.len() <= 255 by {
        assert(1 <= a.in_flight[i].chunks.len() <= 255);
    }
}


/// Whether an in-flight message is still within the reassembly timeout at `now`.
pub open spec fn reassembly_live(m: PendingMessage, now: u64) -> bool {
    age(now, m.last_received) < REASSEMBLY_TIMEOUT_MS
}

/// The state after expired entries are dropped at `now`: incomplete messages quiet for
/// the reassembly timeout, and completed ids and sent messages older than the retention.
pub open spec fn purged(v: EngineView, now: u64) -> EngineView {
    EngineView {
        in_flight: v.in_flight.filter(|m: PendingMessage| reassembly_live(m, now)),
        completed: v.completed.filter(|c: (u32, u32, u64)| age(now, c.2) < CACHE_RETENTION_MS),
        outbox: v.outbox.filter(|o: (u32, Seq<MeshPacket>, u64)| age(now, o.2) < CACHE_RETENTION_MS),
    }
}

/// A filter keeps the elements in order and adds none, so a table without duplicate keys
/// stays without them.
proof fn lemma_filter_sub<A>(s: Seq<A>, p: spec_fn(A) -> bool)
    ensures
        forall|i: int| 0 <= i < s.filter(p).len() ==> exists|j: int| 0 <= j < s.len() && s[j] == #[trigger] s.filter(p)[i],
    decreases s.len(),
{
    reveal(Seq::filter);
    if s.len() > 0 {
        lemma_filter_sub(s.drop_last(), p);
        assert forall|i: int| 0 <= i < s.filter(p).len() implies exists|j: int| 0 <= j < s.len() && s[j] == #[trigger] s.filter(p)[i] by {
            if i < s.drop_last().filter(p).len() {
                let j = choose|j: int| 0 <= j < s.drop_last().len() && s.drop_last()[j] == s.drop_last().filter(p)[i];
                assert(s[j] == s.filter(p)[i]);
            } else {
                assert(s[s.len() - 1] == s.filter(p)[i]);
            }
        }
    }
}

/// A relation that holds between all earlier-later pairs of a sequence still holds after
/// filtering it.
proof fn lemma_filter_pairwise<A>(s: Seq<A>, p: spec_fn(A) -> bool, rel: spec_fn(A, A) -> bool)
    requires
        forall|i: int, j: int| #![trigger s[i], s[j]] 0 <= i < j < s.len() ==> rel(s[i], s[j]),
    ensures
        forall|i: int, j: int|
            #![trigger s.filter(p)[i], s.filter(p)[j]]
            0 <= i < j < s.filter(p).len() ==> rel(s.filter(p)[i], s.filter(p)[j]),
    decreases s.len(),
{
    reveal(Seq::filter);
    if s.len() > 0 {
        let d = s.drop_last();
        assert forall|i: int, j: int| #![trigger d[i], d[j]] 0 <= i < j < d.len() implies rel(d[i], d[j]) by {
            assert(d[i] == s[i] && d[j] == s[j]);
        }
        lemma_filter_pairwise(d, p, rel);
        lemma_filter_sub(d, p);
        let f = s.filter(p);
        let df = d.filter(p);
        assert forall|i: int, j: int| #![trigger f[i], f[j]] 0 <= i < j < f.len() implies rel(f[i], f[j]) by {
            if j < df.len() {
                assert(f[i] == df[i] && f[j] == df[j]);
            } else {
                assert(f[j] == s.last());
                assert(f[i] == df[i]);
                let k = choose|k: int| 0 <= k < d.len() && d[k] == #[trigger] df[i];
                assert(s[k] == d[k]);
                assert(rel(s[k], s[s.len() - 1]));
            }
        }
    }
}

proof fn lemma_purged_well_formed(v: EngineView, now: u64)
    requires
        engine_well_formed(v),
    ensures
        engine_well_formed(purged(v, now)),
{
    let w = purged(v, now);
    let pf = |m: PendingMessage| reassembly_live(m, now);
    let pc = |c: (u32, u32, u64)| age(now, c.2) < CACHE_RETENTION_MS;
    let po = |o: (u32, Seq<MeshPacket>, u64)| age(now, o.2) < CACHE_RETENTION_MS;
    let r1 = |a: PendingMessage, b: PendingMessage| !(a.src_node_id == b.src_node_id && a.msg_id == b.msg_id);
    let r2 = |a: (u32, u32, u64), b: (u32, u32, u64)| !(a.0 == b.0 && a.1 == b.1);
    let r3 = |a: (u32, Seq<MeshPacket>, u64), b: (u32, Seq<MeshPacket>, u64)| a.0 != b.0;
    assert forall|i: int, j: int| #![trigger v.in_flight[i], v.in_flight[j]] 0 <= i < j < v.in_flight.len()
        implies r1(v.in_flight[i], v.in_flight[j]) by {
        assert(!(v.in_flight[i].src_node_id == v.in_flight[j].src_node_id && v.in_flight[i].msg_id == v.in_flight[j].msg_id));
    }
    assert forall|i: int, j: int| #![trigger v.completed[i], v.completed[j]] 0 <= i < j < v.completed.len()
        implies r2(v.completed[i], v.completed[j]) by {
        assert(!(v.completed[i].0 == v.completed[j].0 && v.completed[i].1 == v.completed[j].1));
    }
    assert forall|i: int, j: int| #![trigger v.outbox[i], v.outbox[j]] 0 <= i < j < v.outbox.len()
        implies r3(v.outbox[i], v.outbox[j]) by {
        assert(v.outbox[i].0 != v.outbox[j].0);
    }
    lemma_filter_pairwise(v.in_flight, pf, r1);
    lemma_filter_pairwise(v.completed, pc, r2);
    lemma_filter_pairwise(v.outbox, po, r3);
    lemma_filter_sub(v.in_flight, pf);
    assert forall|i: int, j: int| 0 <= i < j < w.in_flight.len() implies !(#[trigger] w.in_flight[i].src_node_id
        == #[trigger] w.in_flight[j].src_node_id && w.in_flight[i].msg_id == w.in_flight[j].msg_id) by {
        assert(r1(w.in_flight[i], w.in_flight[j]));
    }
    assert forall|i: int| 0 <= i < w.in_flight.len() implies 1 <= #[trigger] w.in_flight[i].chunks.len() <= 255 by {
        let k = choose|k: int| 0 <= k < v.in_flight.len() && v.in_flight[k] == #[trigger] v.in_flight.filter(pf)[i];
        assert(1 <= v.in_flight[k].chunks.len() <= 255);
    }
    assert forall|i: int, j: int| 0 <= i < j < w.completed.len() implies !(#[trigger] w.completed[i].0
        == #[trigger] w.completed[j].0 && w.completed[i].1 == w.completed[j].1) by {
        assert(r2(w.completed[i], w.completed[j]));
    }
    assert forall|i: int, j: int| 0 <= i < j < w.outbox.len() implies #[trigger] w.outbox[i].0 != #[trigger] w.outbox[j].0 by {
        assert(r3(w.outbox[i], w.outbox[j]));
    }
}

impl ChunkEngine {
    /// Drops what has expired at `now_ms`.
    fn purge_expired_at(&mut self, now_ms: u64)
        requires
            engine_well_formed(old(self)@),
        ensures
            final(self)@ == purged(old(self)@, now_ms),
            engine_well_formed(final(self)@),
    {
        let ghost before = self@;
        let ghost pf = |m: PendingMessage| reassembly_live(m, now_ms);
        let ghost pc = |c: (u32, u32, u64)| age(now_ms, c.2) < CACHE_RETENTION_MS;
        let ghost po = |o: (u32, Seq<MeshPacket>, u64)| age(now_ms, o.2) < CACHE_RETENTION_MS;

        let mut rest: Vec<InFlightMessage> = Vec::new();
        std::mem::swap(&mut rest, &mut self.in_flight);
        let ghost orig = rest@.map_values(|m: InFlightMessage| in_flight_view(m));
        assert(orig == before.in_flight);
        let mut kept: Vec<InFlightMessage> = Vec::new();
        let ghost mut taken: int = 0;
        while rest.len() > 0
            invariant
                0 <= taken <= orig.len(),
                rest@.len() + taken == orig.len(),
                rest@.map_values(|m: InFlightMessage| in_flight_view(m)) == orig.skip(taken),
                kept@.map_values(|m: InFlightMessage| in_flight_view(m)) == orig.take(taken).filter(pf),
                pf == (|m: PendingMessage| reassembly_live(m, now_ms)),
            decreases rest@.len(),
        {
            let ghost r0 = rest@;
            let ghost k0 = kept@;
            assert(rest@.map_values(|m: InFlightMessage| in_flight_view(m))[0] == in_flight_view(rest@[0]));
            assert(orig.skip(taken)[0] == orig[taken]);
            let m = rest.remove(0);
            proof {
                assert(in_flight_view(m) == orig[taken]);
                reveal(Seq::filter);
                assert(orig.take(taken + 1).drop_last() =~= orig.take(taken));
                assert(orig.take(taken + 1).last() == orig[taken]);
                let rv = rest@.map_values(|m: InFlightMessage| in_flight_view(m));
                assert forall|k: int| 0 <= k < rv.len() implies #[trigger] rv[k] == orig.skip(taken + 1)[k] by {
                    assert(rest@[k] == r0[k + 1]);
                    assert(r0.map_values(|m: InFlightMessage| in_flight_view(m))[k + 1] == in_flight_view(r0[k + 1]));
                    assert(orig.skip(taken)[k + 1] == orig.skip(taken + 1)[k]);
                }
                assert(rest@.map_values(|m: InFlightMessage| in_flight_view(m)) =~= orig.skip(taken + 1));
            }
            if age_ms(now_ms, m.last_received) < REASSEMBLY_TIMEOUT_MS {
                kept.push(m);
                proof {
                    assert(kept@.map_values(|m: InFlightMessage| in_flight_view(m)) =~= k0.map_values(
                        |m: InFlightMessage| in_flight_view(m),
                    ).push(in_flight_view(m)));
                }
            }
            proof { taken = taken + 1; }
        }
        proof {
            assert(orig.take(taken) =~= orig);
        }
        self.in_flight = kept;

        let mut completed: Vec<(u32, u32, u64)> = Vec::new();
        let n = self.completed_cache.len();
        let mut i: usize = 0;
        while i < n
            invariant
                n == self.completed_cache@.len(),
                self.completed_cache@ == before.completed,
                i <= n,
                completed@ == before.completed.take(i as int).filter(pc),
                pc == (|c: (u32, u32, u64)| age(now_ms, c.2) < CACHE_RETENTION_MS),
            decreases n - i,
        {
            proof {
                reveal(Seq::filter);
                assert(before.completed.take(i + 1).drop_last() =~= before.completed.take(i as int));
                assert(before.completed.take(i + 1).last() == before.completed[i as int]);
            }
            let c = self.completed_cache[i];
            if age_ms(now_ms, c.2) < CACHE_RETENTION_MS {
                completed.push(c);
            }
            i = i + 1;
        }
        proof {
            assert(before.completed.take(n as int) =~= before.completed);
        }
        self.completed_cache = completed;

        let mut orest: Vec<OutboxEntry> = Vec::new();
        std::mem::swap(&mut orest, &mut self.outbox_cache);
        let ghost oorig = orest@.map_values(|e: OutboxEntry| outbox_view(e));
        assert(oorig == before.outbox);
        let mut okept: Vec<OutboxEntry> = Vec::new();
        let ghost mut otaken: int = 0;
        while orest.len() > 0
            invariant
                0 <= otaken <= oorig.len(),
                orest@.len() + otaken == oorig.len(),
                orest@.map_values(|e: OutboxEntry| outbox_view(e)) == oorig.skip(otaken),
                okept@.map_values(|e: OutboxEntry| outbox_view(e)) == oorig.take(otaken).filter(po),
                po == (|o: (u32, Seq<MeshPacket>, u64)| age(now_ms, o.2) < CACHE_RETENTION_MS),
            decreases orest@.len(),
        {
            let ghost k0 = okept@;
            let ghost r0 = orest@;
            assert(orest@.map_values(|e: OutboxEntry| outbox_view(e))[0] == outbox_view(orest@[0]));
            assert(oorig.skip(otaken)[0] == oorig[otaken]);
            let e = orest.remove(0);
            proof {
                assert(outbox_view(e) == oorig[otaken]);
                reveal(Seq::filter);
                assert(oorig.take(otaken + 1).drop_last() =~= oorig.take(otaken));
                assert(oorig.take(otaken + 1).last() == oorig[otaken]);
                let rv = orest@.map_values(|e: OutboxEntry| outbox_view(e));
                assert forall|k: int| 0 <= k < rv.len() implies #[trigger] rv[k] == oorig.skip(otaken + 1)[k] by {
                    assert(orest@[k] == r0[k + 1]);
                    assert(r0.map_values(|e: OutboxEntry| outbox_view(e))[k + 1] == outbox_view(r0[k + 1]));
                    assert(oorig.skip(otaken)[k + 1] == oorig.skip(otaken + 1)[k]);
                }
                assert(orest@.map_values(|e: OutboxEntry| outbox_view(e)) =~= oorig.skip(otaken + 1));
            }
            if age_ms(now_ms, e.cached_at) < CACHE_RETENTION_MS {
                okept.push(e);
                proof {
                    assert(okept@.map_values(|e: OutboxEntry| outbox_view(e)) =~= k0.map_values(
                        |e: OutboxEntry| outbox_view(e),
                    ).push(outbox_view(e)));
                }
            }
            proof { otaken = otaken + 1; }
        }
        proof {
            assert(oorig.take(otaken) =~= oorig);
        }
        self.outbox_cache = okept;
        proof {
            assert(self@.in_flight == purged(before, now_ms).in_flight);
            assert(self@.completed == purged(before, now_ms).completed);
            assert(self@.outbox == purged(before, now_ms).outbox);
            lemma_purged_well_formed(before, now_ms);
        }
    }
}


/// Messages from sender `src`.
pub open spec fn from_sender(src: u32) -> spec_fn(PendingMessage) -> bool {
    |m: PendingMessage| m.src_node_id == src
}

/// Any message.
pub open spec fn any_message() -> spec_fn(PendingMessage) -> bool {
    |m: PendingMessage| true
}

/// Whether entry `j` is the first among those satisfying `p` with the earliest first
/// chunk.
pub open spec fn is_oldest(s: Seq<PendingMessage>, j: int, p: spec_fn(PendingMessage) -> bool) -> bool {
    &&& 0 <= j < s.len()
    &&& p(s[j])
    &&& forall|k: int| 0 <= k < s.len() && p(#[trigger] s[k]) ==> s[j].first_received <= s[k].first_received
    &&& forall|k: int| 0 <= k < j && p(#[trigger] s[k]) ==> s[j].first_received < s[k].first_received
}

/// The table without its oldest entry satisfying `p`.
pub open spec fn without_oldest(s: Seq<PendingMessage>, p: spec_fn(PendingMessage) -> bool) -> Seq<PendingMessage> {
    s.remove(choose|j: int| is_oldest(s, j, p))
}

/// The table after making room for a new message from `src`: the sender's oldest message
/// goes if it already has the maximum, then the oldest message overall if the table is
/// full.
pub open spec fn admitted(s: Seq<PendingMessage>, src: u32) -> Seq<PendingMessage> {
    let s1 = if s.filter(from_sender(src)).len() >= MAX_PER_SENDER_IN_FLIGHT {
        without_oldest(s, from_sender(src))
    } else {
        s
    };
    if s1.len() >= MAX_GLOBAL_IN_FLIGHT { without_oldest(s1, any_message()) } else { s1 }
}

/// A message entry created by its first chunk at `now`.
pub open spec fn new_pending(src: u32, msg_id: u32, total: int, now: u64) -> PendingMessage {
    PendingMessage {
        src_node_id: src,
        msg_id,
        chunks: Seq::new(total as nat, |i: int| None::<Seq<u8>>),
        first_received: now,
        last_received: now,
        last_sack_sent: None,
        sack_count: 0,
    }
}

/// The index of the in-flight message with this sender and id.
pub open spec fn message_index(s: Seq<PendingMessage>, src: u32, msg_id: u32) -> int {
    choose|i: int| 0 <= i < s.len() && s[i].src_node_id == src && s[i].msg_id == msg_id
}

/// Whether every chunk slot is filled.
pub open spec fn is_complete(m: PendingMessage) -> bool {
    forall|i: int| 0 <= i < m.chunks.len() ==> (#[trigger] m.chunks[i]) is Some
}

/// The chunk plaintexts one after another.
pub open spec fn joined_chunks(chunks: Seq<Option<Seq<u8>>>) -> Seq<u8>
    decreases chunks.len(),
{
    if chunks.len() == 0 {
        Seq::empty()
    } else {
        joined_chunks(chunks.drop_last()) + chunks.last()->0
    }
}

/// The bytes without their trailing zero padding.
pub open spec fn without_trailing_zeros(b: Seq<u8>) -> Seq<u8>
    decreases b.len(),
{
    if b.len() > 0 && b.last() == 0 {
        without_trailing_zeros(b.drop_last())
    } else {
        b
    }
}

/// The plaintext of a packet's chunk under the sender's subkey, if it authenticates.
pub open spec fn chunk_plaintext(master: Seq<u8>, src: u32, p: MeshPacket) -> Option<Seq<u8>> {
    let key = sender_subkey(master, src);
    chacha20poly1305_open(
        key,
        implicit_nonce(key, p.header.msg_id, p.header.chunk_idx, p.header.msg_id as u64),
        p.payload@,
    )
}

/// Whether the packet's chunk index and chunk count pass the anti-DoS checks.
pub open spec fn chunk_coords_valid(p: MeshPacket) -> bool {
    &&& p.header.total_chunks != 0
    &&& (p.header.total_chunks as int) <= MAX_TOTAL_CHUNKS
    &&& p.header.chunk_idx < p.header.total_chunks
}

/// One ingestion at `now` of packet `p` from `src`: the new state, and the outcome:
/// an error, nothing yet, or the bytes of a message the packet completed.
pub open spec fn ingest_step(v: EngineView, now: u64, src: u32, p: MeshPacket, master: Seq<u8>) -> (
    EngineView,
    Result<Option<Seq<u8>>, CryptoError>,
) {
    let v1 = purged(v, now);
    let msg_id = p.header.msg_id;
    let idx = p.header.chunk_idx as int;
    if !chunk_coords_valid(p) {
        (v1, Err(CryptoError::PayloadTooLarge))
    } else if has_completed(v1.completed, src, msg_id) {
        (v1, Ok(None))
    } else {
        let f1 = if has_message(v1.in_flight, src, msg_id) { v1.in_flight } else { admitted(v1.in_flight, src) };
        match chunk_plaintext(master, src, p) {
            None => (EngineView { in_flight: f1, ..v1 }, Err(CryptoError::AuthenticationFailed)),
            Some(pt) => {
                let f2 = if has_message(f1, src, msg_id) {
                    f1
                } else {
                    f1.push(new_pending(src, msg_id, p.header.total_chunks as int, now))
                };
                let i = message_index(f2, src, msg_id);
                let m = f2[i];
                let m2 = if m.chunks[idx] is None {
                    PendingMessage { chunks: m.chunks.update(idx, Some(pt)), last_received: now, ..m }
                } else {
                    m
                };
                if is_complete(m2) {
                    (
                        EngineView { in_flight: f2.remove(i), completed: v1.completed.push((src, msg_id, now)), ..v1 },
                        Ok(Some(without_trailing_zeros(joined_chunks(m2.chunks)))),
                    )
                } else {
                    (EngineView { in_flight: f2.update(i, m2), ..v1 }, Ok(None))
                }
            },
        }
    }
}

/// Whether the packet's chunk index lies within the slots of the in-flight message it
/// continues (indexing beyond them is outside what the engine accepts).
pub open spec fn chunk_index_fits(v: EngineView, now: u64, src: u32, p: MeshPacket) -> bool {
    let v1 = purged(v, now);
    chunk_coords_valid(p) && !has_completed(v1.completed, src, p.header.msg_id) ==> forall|i: int|
        0 <= i < v1.in_flight.len() && (#[trigger] v1.in_flight[i]).src_node_id == src && v1.in_flight[i].msg_id
            == p.header.msg_id ==> (p.header.chunk_idx as int) < v1.in_flight[i].chunks.len()
}

/// Whether `r` is what the engine returns for the outcome `out`: a completed message is
/// returned as text when its bytes are valid UTF-8, and as nothing otherwise.
pub open spec fn ingest_result(r: Result<Option<Secret<String>>, CryptoError>, out: Result<Option<Seq<u8>>, CryptoError>) -> bool {
    match out {
        Err(e) => r == Err::<Option<Secret<String>>, CryptoError>(e),
        Ok(None) => r matches Ok(None),
        Ok(Some(b)) => if valid_utf8(b) {
            r matches Ok(Some(t)) && encode_utf8(t.value()@) == b
        } else {
            r matches Ok(None)
        },
    }
}

proof fn lemma_oldest_unique(s: Seq<PendingMessage>, j: int, p: spec_fn(PendingMessage) -> bool)
    requires
        is_oldest(s, j, p),
    ensures
        (choose|k: int| is_oldest(s, k, p)) == j,
{
    let k = choose|k: int| is_oldest(s, k, p);
    assert(is_oldest(s, k, p));
    if k < j {
        assert(s[j].first_received < s[k].first_received);
    } else if j < k {
        assert(s[k].first_received < s[j].first_received);
    }
}

proof fn lemma_message_index(s: Seq<PendingMessage>, i: int, src: u32, msg_id: u32)
    requires
        keys_unique(s),
        0 <= i < s.len(),
        s[i].src_node_id == src,
        s[i].msg_id == msg_id,
    ensures
        has_message(s, src, msg_id),
        message_index(s, src, msg_id) == i,
{
    let k = message_index(s, src, msg_id);
    assert(0 <= k < s.len() && s[k].src_node_id == src && s[k].msg_id == msg_id);
    if k < i {
        assert(!(s[k].src_node_id == s[i].src_node_id && s[k].msg_id == s[i].msg_id));
    } else if i < k {
        assert(!(s[i].src_node_id == s[k].src_node_id && s[i].msg_id == s[k].msg_id));
    }
}

proof fn lemma_remove_keeps_shape(s: Seq<PendingMessage>, j: int)
    requires
        keys_unique(s),
        slots_sized(s),
        0 <= j < s.len(),
    ensures
        keys_unique(s.remove(j)),
        slots_sized(s.remove(j)),
        forall|src: u32, msg_id: u32| has_message(s.remove(j), src, msg_id) ==> has_message(s, src, msg_id),
{
    let t = s.remove(j);
    assert forall|a: int, b: int| 0 <= a < b < t.len() implies !(#[trigger] t[a].src_node_id == #[trigger] t[b].src_node_id
        && t[a].msg_id == t[b].msg_id) by {
        let a2 = if a < j { a } else { a + 1 };
        let b2 = if b < j { b } else { b + 1 };
        assert(t[a] == s[a2] && t[b] == s[b2]);
        assert(!(s[a2].src_node_id == s[b2].src_node_id && s[a2].msg_id == s[b2].msg_id));
    }
    assert forall|a: int| 0 <= a < t.len() implies 1 <= #[trigger] t[a].chunks.len() <= 255 by {
        let a2 = if a < j { a } else { a + 1 };
        assert(t[a] == s[a2]);
    }
    assert forall|src: u32, msg_id: u32| has_message(t, src, msg_id) implies has_message(s, src, msg_id) by {
        let a = choose|a: int| 0 <= a < t.len() && t[a].src_node_id == src && t[a].msg_id == msg_id;
        let a2 = if a < j { a } else { a + 1 };
        assert(t[a] == s[a2]);
    }
}

proof fn lemma_admitted_shape(s: Seq<PendingMessage>, src: u32)
    requires
        keys_unique(s),
        slots_sized(s),
    ensures
        keys_unique(admitted(s, src)),
        slots_sized(admitted(s, src)),
        forall|x: u32, m: u32| has_message(admitted(s, src), x, m) ==> has_message(s, x, m),
{
    let p = from_sender(src);
    let s1 = if s.filter(p).len() >= MAX_PER_SENDER_IN_FLIGHT { without_oldest(s, p) } else { s };
    if s.filter(p).len() >= MAX_PER_SENDER_IN_FLIGHT {
        lemma_oldest_exists(s, p);
        let j = choose|j: int| is_oldest(s, j, p);
        lemma_remove_keeps_shape(s, j);
    }
    if s1.len() >= MAX_GLOBAL_IN_FLIGHT {
        lemma_filter_keeps(s1, any_message(), 0);
        lemma_oldest_exists(s1, any_message());
        let j = choose|j: int| is_oldest(s1, j, any_message());
        lemma_remove_keeps_shape(s1, j);
    }
}

/// A table with an entry satisfying `p` has an oldest such entry.
proof fn lemma_oldest_exists(s: Seq<PendingMessage>, p: spec_fn(PendingMessage) -> bool)
    requires
        s.filter(p).len() > 0,
    ensures
        exists|j: int| is_oldest(s, j, p),
    decreases s.len(),
{
    reveal(Seq::filter);
    let d = s.drop_last();
    let last = s.len() - 1;
    if d.filter(p).len() > 0 {
        lemma_oldest_exists(d, p);
        let j = choose|j: int| is_oldest(d, j, p);
        assert forall|k: int| 0 <= k < d.len() implies #[trigger] d[k] == s[k] by {}
        if p(s[last]) && s[last].first_received < s[j].first_received {
            assert forall|k: int| 0 <= k < s.len() && p(#[trigger] s[k]) implies s[last].first_received <= s[k].first_received by {
                if k < last {
                    assert(d[k] == s[k]);
                }
            }
            assert forall|k: int| 0 <= k < last && p(#[trigger] s[k]) implies s[last].first_received < s[k].first_received by {
                assert(d[k] == s[k]);
            }
            assert(is_oldest(s, last, p));
        } else {
            assert forall|k: int| 0 <= k < s.len() && p(#[trigger] s[k]) implies s[j].first_received <= s[k].first_received by {
                if k < last {
                    assert(d[k] == s[k]);
                }
            }
            assert forall|k: int| 0 <= k < j && p(#[trigger] s[k]) implies s[j].first_received < s[k].first_received by {
                assert(d[k] == s[k]);
            }
            assert(is_oldest(s, j, p));
        }
    } else {
        assert(p(s[last]));
        assert forall|k: int| 0 <= k < last implies !p(#[trigger] s[k]) by {
            lemma_filter_sub(d, p);
            if p(s[k]) {
                assert(d[k] == s[k]);
                lemma_filter_keeps(d, p, k);
            }
        }
        assert(is_oldest(s, last, p));
    }
}

/// An element satisfying the filter's predicate leaves the filtered sequence non-empty.
proof fn lemma_filter_keeps<A>(s: Seq<A>, p: spec_fn(A) -> bool, k: int)
    requires
        0 <= k < s.len(),
        p(s[k]),
    ensures
        s.filter(p).len() > 0,
    decreases s.len(),
{
    reveal(Seq::filter);
    if k < s.len() - 1 {
        assert(s.drop_last()[k] == s[k]);
        lemma_filter_keeps(s.drop_last(), p, k);
    }
}


/// The predicate that selects eviction candidates: one sender's messages, or all.
pub open spec fn eviction_scope(only: Option<u32>) -> spec_fn(PendingMessage) -> bool {
    match only {
        Some(src) => from_sender(src),
        None => any_message(),
    }
}

impl ChunkEngine {
    /// Whether a completed message with this sender and id is remembered.
    fn is_completed(&self, src: u32, msg_id: u32) -> (r: bool)
        ensures
            r == has_completed(self@.completed, src, msg_id),
    {
        let n = self.completed_cache.len();
        let mut i: usize = 0;
        while i < n
            invariant
                n == self@.completed.len(),
                i <= n,
                forall|k: int| 0 <= k < i ==> !(self@.completed[k].0 == src && self@.completed[k].1 == msg_id),
            decreases n - i,
        {
            let c = self.completed_cache[i];
            if c.0 == src && c.1 == msg_id {
                assert(self@.completed[i as int] == c);
                return true;
            }
            i = i + 1;
        }
        false
    }

    /// Position of the in-flight message with this sender and id.
    fn find_message(&self, src: u32, msg_id: u32) -> (r: Option<usize>)
        ensures
            r is None ==> !has_message(self@.in_flight, src, msg_id),
            r matches Some(i) ==> i < self@.in_flight.len() && self@.in_flight[i as int].src_node_id == src
                && self@.in_flight[i as int].msg_id == msg_id,
    {
        let n = self.in_flight.len();
        let mut i: usize = 0;
        while i < n
            invariant
                n == self@.in_flight.len(),
                i <= n,
                forall|k: int| 0 <= k < i ==> !(self@.in_flight[k].src_node_id == src && self@.in_flight[k].msg_id == msg_id),
            decreases n - i,
        {
            assert(self@.in_flight[i as int] == in_flight_view(self.in_flight@[i as int]));
            if self.in_flight[i].src_node_id == src && self.in_flight[i].msg_id == msg_id {
                return Some(i);
            }
            i = i + 1;
        }
        None
    }

    /// Number of in-flight messages from `src`.
    fn count_from(&self, src: u32) -> (r: usize)
        ensures
            r == self@.in_flight.filter(from_sender(src)).len(),
    {
        let ghost s = self@.in_flight;
        let n = self.in_flight.len();
        let mut count: usize = 0;
        let mut i: usize = 0;
        while i < n
            invariant
                n == s.len(),
                s == self@.in_flight,
                i <= n,
                count == s.take(i as int).filter(from_sender(src)).len(),
                count <= i,
            decreases n - i,
        {
            proof {
                reveal(Seq::filter);
                assert(s.take(i + 1).drop_last() =~= s.take(i as int));
                assert(s.take(i + 1).last() == s[i as int]);
                assert(s[i as int] == in_flight_view(self.in_flight@[i as int]));
            }
            if self.in_flight[i].src_node_id == src {
                count = count + 1;
            }
            i = i + 1;
        }
        assert(s.take(n as int) =~= s);
        count
    }

    /// Position of the oldest in-flight message in scope (first on ties).
    fn oldest_index(&self, only: Option<u32>) -> (r: usize)
        requires
            self@.in_flight.filter(eviction_scope(only)).len() > 0,
        ensures
            is_oldest(self@.in_flight, r as int, eviction_scope(only)),
    {
        let ghost s = self@.in_flight;
        let ghost p = eviction_scope(only);
        let n = self.in_flight.len();
        let mut best: Option<usize> = None;
        let mut i: usize = 0;
        while i < n
            invariant
                n == s.len(),
                s == self@.in_flight,
                p == eviction_scope(only),
                i <= n,
                best is None ==> forall|k: int| 0 <= k < i ==> !p(#[trigger] s[k]),
                best matches Some(b) ==> b < i && is_oldest(s.take(i as int), b as int, p),
            decreases n - i,
        {
            assert(s[i as int] == in_flight_view(self.in_flight@[i as int]));
            let in_scope = match only {
                Some(src) => self.in_flight[i].src_node_id == src,
                None => true,
            };
            assert(in_scope == p(s[i as int]));
            if in_scope {
                match best {
                    None => {
                        best = Some(i);
                    },
                    Some(b) => {
                        assert(s.take(i as int)[b as int] == s[b as int]);
                        if self.in_flight[i].first_received < self.in_flight[b].first_received {
                            assert(s[b as int] == in_flight_view(self.in_flight@[b as int]));
                            best = Some(i);
                        }
                    },
                }
            }
            proof {
                let t = s.take(i + 1);
                assert forall|k: int| 0 <= k < i ==> #[trigger] t[k] == s.take(i as int)[k] by {}
                if let Some(b) = best {
                    assert(s[b as int] == in_flight_view(self.in_flight@[b as int]));
                    assert forall|k: int| 0 <= k < t.len() && p(#[trigger] t[k]) implies t[b as int].first_received
                        <= t[k].first_received by {
                        if k < i {
                            assert(t[k] == s.take(i as int)[k]);
                        }
                    }
                    assert forall|k: int| 0 <= k < b && p(#[trigger] t[k]) implies t[b as int].first_received
                        < t[k].first_received by {
                        assert(t[k] == s.take(i as int)[k]);
                    }
                }
            }
            i = i + 1;
        }
        assert(s.take(n as int) =~= s);
        match best {
            Some(b) => b,
            None => {
                proof {
                    let k = choose|k: int| 0 <= k < s.len() && p(s[k]);
                    lemma_filter_sub(s, p);
                    assert(s.filter(p).len() > 0);
                    reveal(Seq::filter);
                    lemma_filter_nonempty_witness(s, p);
                }
                0
            },
        }
    }
}

/// A non-empty filter has a witness in the original sequence.
proof fn lemma_filter_nonempty_witness<A>(s: Seq<A>, p: spec_fn(A) -> bool)
    requires
        s.filter(p).len() > 0,
    ensures
        exists|k: int| 0 <= k < s.len() && p(#[trigger] s[k]),
{
    s.filter_lemma(p);
    lemma_filter_sub(s, p);
    let k = choose|k: int| 0 <= k < s.len() && s[k] == #[trigger] s.filter(p)[0];
    assert(p(s.filter(p)[0]));
    assert(p(s[k]));
}


impl ChunkEngine {
    /// Makes room for a new message from `src` (see `admitted`).
    fn admit_new(&mut self, src: u32)
        requires
            engine_well_formed(old(self)@),
        ensures
            final(self)@ == (EngineView { in_flight: admitted(old(self)@.in_flight, src), ..old(self)@ }),
            engine_well_formed(final(self)@),
    {
        let ghost s0 = self@.in_flight;
        proof { lemma_admitted_shape(s0, src); }
        if self.count_from(src) >= MAX_PER_SENDER_IN_FLIGHT {
            let j = self.oldest_index(Some(src));
            proof { lemma_oldest_unique(s0, j as int, from_sender(src)); }
            let ghost prev = self.in_flight@;
            self.in_flight.remove(j);
            assert(self@.in_flight =~= s0.remove(j as int));
        }
        let ghost s1 = self@.in_flight;
        if self.in_flight.len() >= MAX_GLOBAL_IN_FLIGHT {
            proof { lemma_filter_keeps(s1, any_message(), 0); }
            let j = self.oldest_index(None);
            proof { lemma_oldest_unique(s1, j as int, any_message()); }
            self.in_flight.remove(j);
            assert(self@.in_flight =~= s1.remove(j as int));
        }
    }

    /// Appends a new in-flight message with `total` empty slots.
    fn push_new(&mut self, src: u32, msg_id: u32, total: usize, now_ms: u64)
        requires
            engine_well_formed(old(self)@),
            1 <= total <= 255,
            !has_message(old(self)@.in_flight, src, msg_id),
        ensures
            final(self)@ == (EngineView {
                in_flight: old(self)@.in_flight.push(new_pending(src, msg_id, total as int, now_ms)),
                ..old(self)@
            }),
            engine_well_formed(final(self)@),
    {
        let mut slots: Vec<Option<[u8; PLAINTEXT_CHUNK_LEN]>> = Vec::new();
        let mut k: usize = 0;
        while k < total
            invariant
                k <= total,
                slots@.len() == k,
                forall|j: int| 0 <= j < k ==> slots@[j] is None,
            decreases total - k,
        {
            slots.push(None);
            k = k + 1;
        }
        let m = InFlightMessage {
            src_node_id: src,
            msg_id,
            received_chunks: slots,
            first_received: now_ms,
            last_received: now_ms,
            last_sack_sent: None,
            sack_count: 0,
        };
        assert(m@.chunks =~= new_pending(src, msg_id, total as int, now_ms).chunks);
        let ghost before = self@;
        self.in_flight.push(m);
        assert(self@.in_flight =~= before.in_flight.push(new_pending(src, msg_id, total as int, now_ms)));
        assert forall|a: int, b: int| 0 <= a < b < self@.in_flight.len() implies !(#[trigger] self@.in_flight[a].src_node_id
            == #[trigger] self@.in_flight[b].src_node_id && self@.in_flight[a].msg_id == self@.in_flight[b].msg_id) by {
            if b < before.in_flight.len() {
                assert(!(before.in_flight[a].src_node_id == before.in_flight[b].src_node_id && before.in_flight[a].msg_id
                    == before.in_flight[b].msg_id));
            }
        }
    }
}

/// Whether every chunk of `m` has arrived.
fn all_received(m: &InFlightMessage) -> (r: bool)
    ensures
        r == is_complete(m@),
{
    let n = m.received_chunks.len();
    let mut k: usize = 0;
    while k < n
        invariant
            n == m@.chunks.len(),
            k <= n,
            forall|j: int| 0 <= j < k ==> (#[trigger] m@.chunks[j]) is Some,
        decreases n - k,
    {
        assert(m@.chunks[k as int] == slot_view(m.received_chunks@[k as int]));
        if m.received_chunks[k].is_none() {
            return false;
        }
        k = k + 1;
    }
    true
}

/// The message bytes of a complete message: its chunks joined, trailing zeros removed.
fn assemble(m: &InFlightMessage) -> (r: Vec<u8>)
    requires
        is_complete(m@),
    ensures
        r@ == without_trailing_zeros(joined_chunks(m@.chunks)),
{
    let n = m.received_chunks.len();
    let mut out: Vec<u8> = Vec::new();
    let mut k: usize = 0;
    while k < n
        invariant
            n == m@.chunks.len(),
            k <= n,
            is_complete(m@),
            out@ == joined_chunks(m@.chunks.take(k as int)),
        decreases n - k,
    {
        assert(m@.chunks[k as int] == slot_view(m.received_chunks@[k as int]));
        assert(m@.chunks[k as int] is Some);
        let chunk = match m.received_chunks[k] {
            Some(c) => c,
            None => [0u8; PLAINTEXT_CHUNK_LEN],
        };
        let mut j: usize = 0;
        let ghost base = out@;
        while j < PLAINTEXT_CHUNK_LEN
            invariant
                j <= PLAINTEXT_CHUNK_LEN,
                out@ == base + chunk@.subrange(0, j as int),
            decreases PLAINTEXT_CHUNK_LEN - j,
        {
            out.push(chunk[j]);
            j = j + 1;
            assert(out@ =~= base + chunk@.subrange(0, j as int));
        }
        proof {
            assert(chunk@.subrange(0, 80) =~= chunk@);
            assert(m@.chunks.take(k + 1).drop_last() =~= m@.chunks.take(k as int));
            assert(m@.chunks.take(k + 1).last() == Some(chunk@));
        }
        k = k + 1;
    }
    assert(m@.chunks.take(n as int) =~= m@.chunks);
    let ghost joined = out@;
    while out.len() > 0 && out[out.len() - 1] == 0
        invariant
            without_trailing_zeros(out@) == without_trailing_zeros(joined),
        decreases out@.len(),
    {
        let ghost before = out@;
        out.pop();
        assert(out@ =~= before.drop_last());
    }
    out
}


impl ChunkEngine {
    /// Ingests a packet from `src_node_id` at `now_ms` (see `ingest_step`): expired state is
    /// dropped first; chunk counts of zero or above the cap and out-of-range indices are
    /// rejected; chunks of completed messages are ignored; a new message makes room under
    /// the per-sender and global limits; the chunk must authenticate under the sender's
    /// subkey; and the packet that fills the last slot returns the message.
    pub fn ingest_packet_at(
        &mut self,
        now_ms: u64,
        src_node_id: u32,
        packet: &MeshPacket,
        swarm_master_key: &Secret<[u8; 32]>,
    ) -> (r: Result<Option<Secret<String>>, CryptoError>)
        requires
            engine_well_formed(old(self)@),
            chunk_index_fits(old(self)@, now_ms, src_node_id, *packet),
        ensures
            engine_well_formed(final(self)@),
            final(self)@ == ingest_step(old(self)@, now_ms, src_node_id, *packet, swarm_master_key.value()@).0,
            ingest_result(r, ingest_step(old(self)@, now_ms, src_node_id, *packet, swarm_master_key.value()@).1),
    {
        let ghost master = swarm_master_key.value()@;
        self.purge_expired_at(now_ms);
        let ghost v1 = self@;
        let msg_id = packet.header.msg_id;
        let chunk_idx = packet.header.chunk_idx as usize;
        let total_chunks = packet.header.total_chunks as usize;
        if total_chunks == 0 || total_chunks > MAX_TOTAL_CHUNKS {
            return Err(CryptoError::PayloadTooLarge);
        }
        if chunk_idx >= total_chunks {
            return Err(CryptoError::PayloadTooLarge);
        }
        if self.is_completed(src_node_id, msg_id) {
            return Ok(None);
        }
        let existing = self.find_message(src_node_id, msg_id);
        if existing.is_none() {
            self.admit_new(src_node_id);
            proof { lemma_admitted_shape(v1.in_flight, src_node_id); }
        }
        let ghost f1 = self@.in_flight;
        assert(f1 == (if has_message(v1.in_flight, src_node_id, msg_id) { v1.in_flight } else { admitted(v1.in_flight, src_node_id) }));
        let peer_key = derive_sender_subkey(swarm_master_key, src_node_id);
        let decrypted = match decrypt_chunk(&peer_key, msg_id, packet.header.chunk_idx, msg_id as u64, &packet.payload) {
            Ok(d) => d,
            Err(e) => {
                assert(chunk_plaintext(master, src_node_id, *packet) is None);
                return Err(e);
            },
        };
        let ghost pt = decrypted@;
        assert(chunk_plaintext(master, src_node_id, *packet) == Some(pt));
        let i = match existing {
            Some(i) => i,
            None => {
                self.push_new(src_node_id, msg_id, total_chunks, now_ms);
                self.in_flight.len() - 1
            },
        };
        let ghost f2 = self@.in_flight;
        proof {
            lemma_message_index(f2, i as int, src_node_id, msg_id);
        }
        assert(f2[i as int] == in_flight_view(self.in_flight@[i as int]));
        let mut m = self.in_flight.remove(i);
        let ghost m0 = m@;
        assert(chunk_idx < m.received_chunks@.len());
        assert(m0.chunks[chunk_idx as int] == slot_view(m.received_chunks@[chunk_idx as int]));
        if m.received_chunks[chunk_idx].is_none() {
            m.received_chunks.set(chunk_idx, Some(decrypted));
            m.last_received = now_ms;
            assert(m@.chunks =~= m0.chunks.update(chunk_idx as int, Some(pt)));
        }
        if all_received(&m) {
            let bytes = assemble(&m);
            self.completed_cache.push((src_node_id, msg_id, now_ms));
            proof {
                assert(self@.in_flight =~= f2.remove(i as int));
                lemma_remove_keeps_shape(f2, i as int);
                assert forall|a: int, b: int| 0 <= a < b < self@.completed.len() implies !(#[trigger] self@.completed[a].0
                    == #[trigger] self@.completed[b].0 && self@.completed[a].1 == self@.completed[b].1) by {
                    if b < v1.completed.len() {
                        assert(!(v1.completed[a].0 == v1.completed[b].0 && v1.completed[a].1 == v1.completed[b].1));
                    }
                }
            }
            match string_from_utf8(bytes) {
                Some(text) => Ok(Some(Secret::new(text))),
                None => Ok(None),
            }
        } else {
            self.in_flight.insert(i, m);
            proof {
                assert(self@.in_flight =~= f2.update(i as int, m@));
                lemma_same_keys_well_formed(EngineView { in_flight: f2, ..self@ }, self@);
            }
            Ok(None)
        }
    }

    /// Whether every in-flight message from `src_node_id` with the packet's id has a slot
    /// for the packet's chunk index, so that `ingest_packet` may take it.
    pub fn chunk_slot_fits(&self, src_node_id: u32, packet: &MeshPacket) -> (r: bool)
        ensures
            r == slots_fit(self@.in_flight, src_node_id, *packet),
            r ==> forall|now: u64| chunk_index_fits(self@, now, src_node_id, *packet),
    {
        let n = self.in_flight.len();
        let mut i: usize = 0;
        while i < n
            invariant
                n == self.in_flight@.len(),
                i <= n,
                forall|k: int|
                    0 <= k < i && (#[trigger] self@.in_flight[k]).src_node_id == src_node_id && self@.in_flight[k].msg_id
                        == packet.header.msg_id ==> (packet.header.chunk_idx as int) < self@.in_flight[k].chunks.len(),
            decreases n - i,
        {
            let m = &self.in_flight[i];
            assert(self@.in_flight[i as int] == m@);
            if m.src_node_id == src_node_id && m.msg_id == packet.header.msg_id && packet.header.chunk_idx as usize
                >= m.received_chunks.len() {
                return false;
            }
            i = i + 1;
        }
        proof {
            assert forall|now: u64| chunk_index_fits(self@, now, src_node_id, *packet) by {
                lemma_filter_sub(self@.in_flight, |m: PendingMessage| reassembly_live(m, now));
            }
        }
        true
    }


    /// `ingest_packet_at` at the engine's current time.
    pub fn ingest_packet(
        &mut self,
        src_node_id: u32,
        packet: &MeshPacket,
        swarm_master_key: &Secret<[u8; 32]>,
    ) -> (r: Result<Option<Secret<String>>, CryptoError>)
        requires
            engine_well_formed(old(self)@),
            forall|now: u64| chunk_index_fits(old(self)@, now, src_node_id, *packet),
        ensures
            engine_well_formed(final(self)@),
            exists|now: u64|
                final(self)@ == #[trigger] ingest_step(old(self)@, now, src_node_id, *packet, swarm_master_key.value()@).0
                    && ingest_result(r, ingest_step(old(self)@, now, src_node_id, *packet, swarm_master_key.value()@).1),
    {
        let now = self.now_ms();
        self.ingest_packet_at(now, src_node_id, packet, swarm_master_key)
    }
}


/// Number of 80-byte chunks `len` bytes take.
pub open spec fn chunk_count(len: int) -> int {
    (len + PLAINTEXT_CHUNK_LEN - 1) / (PLAINTEXT_CHUNK_LEN as int)
}

/// Message id of an outgoing message: the high half of the node id and the low half of
/// the allocated counter.
pub open spec fn outgoing_msg_id(local_node_id: u32, counter: u64) -> u32 {
    (local_node_id & 0xFFFF_0000u32) | ((counter & 0xFFFFu64) as u32)
}

/// A message id carries its sender: the high 16 bits are the node id's high 16 bits, and
/// the low 16 bits are the allocated counter's low 16 bits.
pub proof fn lemma_msg_id_names_sender(local_node_id: u32, counter: u64)
    ensures
        outgoing_msg_id(local_node_id, counter) & 0xFFFF_0000u32 == local_node_id & 0xFFFF_0000u32,
        outgoing_msg_id(local_node_id, counter) & 0xFFFFu32 == (counter & 0xFFFFu64) as u32,
{
    lemma_msg_id_halves(local_node_id, counter);
}

proof fn lemma_msg_id_halves(n: u32, c: u64)
    by (bit_vector)
    ensures
        ((n & 0xFFFF_0000u32) | ((c & 0xFFFFu64) as u32)) & 0xFFFF_0000u32 == n & 0xFFFF_0000u32,
        ((n & 0xFFFF_0000u32) | ((c & 0xFFFFu64) as u32)) & 0xFFFFu32 == (c & 0xFFFFu64) as u32,
{
}

/// Nodes whose ids differ in the high 16 bits never send the same message id, whatever
/// their counters: their messages are not taken for one another by the mesh's
/// deduplication.
pub proof fn lemma_msg_ids_of_nodes_differ(node1: u32, counter1: u64, node2: u32, counter2: u64)
    requires
        node1 & 0xFFFF_0000u32 != node2 & 0xFFFF_0000u32,
    ensures
        outgoing_msg_id(node1, counter1) != outgoing_msg_id(node2, counter2),
{
    lemma_msg_id_names_sender(node1, counter1);
    lemma_msg_id_names_sender(node2, counter2);
}

/// The plaintext of chunk `k` of a message.
pub open spec fn chunk_text(bytes: Seq<u8>, k: int) -> Seq<u8> {
    let start = k * PLAINTEXT_CHUNK_LEN;
    let end = if start + PLAINTEXT_CHUNK_LEN < bytes.len() { start + PLAINTEXT_CHUNK_LEN } else { bytes.len() as int };
    bytes.subrange(start, end)
}

/// Whether `p` is chunk `k` of `total` of the message `bytes` with id `msg_id`, encrypted
/// under the sender subkey `key` with the message id as ratchet counter.
pub open spec fn is_fragment(p: MeshPacket, bytes: Seq<u8>, k: int, total: u8, msg_id: u32, swarm_tag: u64, key: Seq<u8>) -> bool {
    &&& p.header == MeshHeader {
        network_tag: swarm_tag,
        msg_id,
        chunk_idx: k as u8,
        total_chunks: total,
        ttl: 7,
        hop_count: 0,
        flags: FLAG_CLIPBOARD,
    }
    &&& p.payload@ == chunk_ciphertext(key, msg_id, k as u8, msg_id as u64, chunk_text(bytes, k))
    &&& chacha20poly1305_open(key, implicit_nonce(key, msg_id, k as u8, msg_id as u64), p.payload@) == Some(
        padded_chunk(chunk_text(bytes, k)),
    )
}

impl ChunkEngine {
    /// Splits a message into 80-byte chunks, each encrypted under the sender's subkey into
    /// one packet. An empty message gives no packets and allocates nothing; more than 800
    /// chunks is too large. Otherwise one counter is allocated, and the message id combines
    /// the node id with it. The chunk count goes on the wire as one byte (modulo 256), and
    /// that many packets are produced.
    pub fn fragment_and_encrypt<S: NonceStore>(
        text: &Secret<String>,
        swarm_tag: u64,
        local_node_id: u32,
        swarm_master_key: &Secret<[u8; 32]>,
        nonce_mgr: &mut NonceManager<S>,
    ) -> (r: Result<Vec<MeshPacket>, CryptoError>)
        requires
            old(nonce_mgr).well_formed(),
            old(nonce_mgr).counter() < old(nonce_mgr).limit() || old(nonce_mgr).limit() <= u64::MAX - NONCE_BLOCK_SIZE,
        ensures
            ({
                let bytes = encode_utf8(text.value()@);
                let n = chunk_count(bytes.len() as int);
                let total = (n % 256) as u8;
                let msg_id = outgoing_msg_id(local_node_id, old(nonce_mgr).counter());
                let key = sender_subkey(swarm_master_key.value()@, local_node_id);
                &&& bytes.len() == 0 ==> (r matches Ok(v) && v@.len() == 0) && *final(nonce_mgr) == *old(nonce_mgr)
                &&& bytes.len() > 0 && n > MAX_TOTAL_CHUNKS ==> r == Err::<Vec<MeshPacket>, CryptoError>(CryptoError::PayloadTooLarge)
                    && *final(nonce_mgr) == *old(nonce_mgr)
                &&& bytes.len() > 0 && n <= MAX_TOTAL_CHUNKS ==> {
                    &&& final(nonce_mgr).well_formed()
                    &&& final(nonce_mgr).epoch() == old(nonce_mgr).epoch()
                    &&& old(nonce_mgr).counter() < old(nonce_mgr).limit() ==> r is Ok
                    &&& r is Err ==> r == Err::<Vec<MeshPacket>, CryptoError>(CryptoError::InvalidNonce)
                        && final(nonce_mgr).counter() == old(nonce_mgr).counter()
                    &&& r matches Ok(v) ==> {
                        &&& final(nonce_mgr).counter() == old(nonce_mgr).counter() + 1
                        &&& v@.len() == total
                        &&& forall|k: int| 0 <= k < v@.len() ==> is_fragment(#[trigger] v@[k], bytes, k, total, msg_id, swarm_tag, key)
                        &&& forall|k: int| 0 <= k < v@.len() ==> (#[trigger] v@[k]).header.msg_id & 0xFFFF_0000u32
                            == local_node_id & 0xFFFF_0000u32 && v@[k].header.msg_id & 0xFFFFu32 == (old(
                            nonce_mgr,
                        ).counter() & 0xFFFFu64) as u32
                    }
                }
            }),
    {
        let raw_bytes = string_bytes(text.expose_secret());
        if raw_bytes.len() == 0 {
            return Ok(Vec::new());
        }
        let len = raw_bytes.len();
        let num_chunks = len / PLAINTEXT_CHUNK_LEN + if len % PLAINTEXT_CHUNK_LEN == 0 { 0 } else { 1 };
        assert(num_chunks == chunk_count(len as int));
        if num_chunks > MAX_TOTAL_CHUNKS {
            return Err(CryptoError::PayloadTooLarge);
        }
        let total_chunks = (num_chunks % 256) as u8;
        let ghost c0 = nonce_mgr.counter();
        let counter = match nonce_mgr.allocate_msg() {
            Ok((_epoch, c)) => c,
            Err(_) => return Err(CryptoError::InvalidNonce),
        };
        let msg_id = (local_node_id & 0xFFFF_0000) | ((counter & 0x0000_FFFF) as u32);
        let sender_key = derive_sender_subkey(swarm_master_key, local_node_id);
        let mut packets: Vec<MeshPacket> = Vec::new();
        let mut chunk_idx: u8 = 0;
        while chunk_idx < total_chunks
            invariant
                len == raw_bytes@.len(),
                raw_bytes@ == encode_utf8(text.value()@),
                0 < len,
                num_chunks == chunk_count(len as int),
                num_chunks <= MAX_TOTAL_CHUNKS,
                total_chunks == (num_chunks % 256) as u8,
                chunk_idx <= total_chunks,
                packets@.len() == chunk_idx,
                msg_id == outgoing_msg_id(local_node_id, c0),
                sender_key.value()@ == sender_subkey(swarm_master_key.value()@, local_node_id),
                forall|k: int| 0 <= k < packets@.len() ==> is_fragment(
                    #[trigger] packets@[k],
                    raw_bytes@,
                    k,
                    total_chunks,
                    msg_id,
                    swarm_tag,
                    sender_key.value()@,
                ),
            decreases total_chunks - chunk_idx,
        {
            let start = (chunk_idx as usize) * PLAINTEXT_CHUNK_LEN;
            assert(start < len) by (nonlinear_arith)
                requires
                    start == chunk_idx * 80,
                    chunk_idx < total_chunks,
                    total_chunks <= num_chunks,
                    num_chunks == (len + 79) / 80,
                    0 < len;
            let end = if start + PLAINTEXT_CHUNK_LEN < len { start + PLAINTEXT_CHUNK_LEN } else { len };
            let chunk_data = slice_subrange(raw_bytes, start, end);
            let ciphertext = match encrypt_chunk(&sender_key, msg_id, chunk_idx, msg_id as u64, chunk_data) {
                Ok(c) => c,
                Err(e) => return Err(e),
            };
            let header = MeshHeader {
                network_tag: swarm_tag,
                msg_id,
                chunk_idx,
                total_chunks,
                ttl: 7,
                hop_count: 0,
                flags: FLAG_CLIPBOARD,
            };
            packets.push(MeshPacket { header, payload: ciphertext });
            chunk_idx = chunk_idx + 1;
        }
        proof {
            lemma_msg_id_names_sender(local_node_id, c0);
        }
        Ok(packets)
    }
}

/// A SACK answered once `cache_outbound` has cached `packets` (and before they are purged)
/// is answered from exactly those packets: the outbox holds them under their message id,
/// so `handle_sack` gives the packets at the indices the SACK marks missing, in increasing
/// order (see `retransmissions`).
pub proof fn lemma_sack_answers_latest_cache(
    before: Seq<(u32, Seq<MeshPacket>, u64)>,
    after: Seq<(u32, Seq<MeshPacket>, u64)>,
    packets: Seq<MeshPacket>,
    now: u64,
)
    requires
        cached(before, after, packets, now),
        packets.len() > 0,
        forall|i: int, j: int| 0 <= i < j < after.len() ==> #[trigger] after[i].0 != #[trigger] after[j].0,
    ensures
        has_outbox(after, packets[0].header.msg_id),
        after[outbox_index(after, packets[0].header.msg_id)].1 == packets,
{
    let id = packets[0].header.msg_id;
    if has_outbox(before, id) {
        let i = choose|i: int| 0 <= i < before.len() && before[i].0 == id && after == before.update(i, (id, packets, now));
        lemma_outbox_index(after, i, id);
    } else {
        lemma_outbox_index(after, before.len() as int, id);
    }
}

/// An overheard SACK holds ours back: once `suppress_sack_at(t, msg_id)` has run (turning
/// `t0` into `t1`), a SACK round at any `now` before the retry interval has passed since
/// `t` sends no SACK for `msg_id`.
pub proof fn lemma_suppressed_sack_waits(
    t0: Seq<PendingMessage>,
    t1: Seq<PendingMessage>,
    msg_id: u32,
    t: u64,
    after: Seq<PendingMessage>,
    sent: Seq<MeshPacket>,
    now: u64,
    local_node_id: u32,
    swarm_tag: u64,
)
    requires
        sacks_suppressed(t0, t1, t, msg_id),
        sack_round(t1, after, sent, now, local_node_id, swarm_tag),
        age(now, t) < SACK_RETRY_INTERVAL_MS,
    ensures
        forall|k: int| 0 <= k < sent.len() ==> (#[trigger] sent[k]).header.msg_id != msg_id,
{
    let due = |m: PendingMessage| sack_due(m, now);
    let f = t1.filter(due);
    lemma_filter_sub(t1, due);
    assert forall|k: int| 0 <= k < sent.len() implies (#[trigger] sent[k]).header.msg_id != msg_id by {
        assert(is_sack_for(sent[k], f[k], local_node_id, swarm_tag));
        t1.lemma_filter_pred(due, k);
        let j = choose|j: int| 0 <= j < t1.len() && t1[j] == #[trigger] f[k];
        assert(t1[j] == if t0[j].msg_id == msg_id {
            PendingMessage { last_sack_sent: Some(t), ..t0[j] }
        } else {
            t0[j]
        });
    }
}

/// Packet `p`, sent at `now`, is a SACK for the message in row `k`: that message still
/// missed a chunk, had been quiet for the initial delay, was below the retry cap, and had
/// its last SACK (if any) at least one retry interval ago; it now counts one SACK more,
/// sent at `now`.
pub open spec fn sack_counted(before: Seq<PendingMessage>, after: Seq<PendingMessage>, p: MeshPacket, now: u64, k: int) -> bool {
    &&& 0 <= k < before.len()
    &&& p.header.msg_id == before[k].msg_id
    &&& exists|c: int| 0 <= c < before[k].chunks.len() && before[k].chunks[c] is None
    &&& age(now, before[k].last_received) >= SACK_INITIAL_DELAY_MS
    &&& before[k].sack_count < MAX_SACK_RETRIES
    &&& (before[k].last_sack_sent matches Some(t) ==> age(now, t) >= SACK_RETRY_INTERVAL_MS)
    &&& after[k].sack_count == before[k].sack_count + 1
    &&& after[k].last_sack_sent == Some(now)
}

/// Packet `p`, sent at `now`, is a SACK for some message of the table that was due one
/// (see `sack_counted`).
pub open spec fn sack_of_capped(before: Seq<PendingMessage>, after: Seq<PendingMessage>, p: MeshPacket, now: u64) -> bool {
    exists|k: int| #[trigger] sack_counted(before, after, p, now, k)
}

/// A SACK round never exceeds the retry cap: a message that already had
/// `MAX_SACK_RETRIES` SACKs is left exactly as it was, a message within the cap stays
/// within it, and every SACK sent is for a message that was below the cap and now counts
/// one SACK more.
pub proof fn lemma_sack_round_respects_cap(
    before: Seq<PendingMessage>,
    after: Seq<PendingMessage>,
    sent: Seq<MeshPacket>,
    now: u64,
    local_node_id: u32,
    swarm_tag: u64,
)
    requires
        sack_round(before, after, sent, now, local_node_id, swarm_tag),
    ensures
        forall|k: int|
            0 <= k < before.len() && before[k].sack_count >= MAX_SACK_RETRIES ==> #[trigger] after[k] == before[k],
        forall|k: int|
            0 <= k < before.len() && before[k].sack_count <= MAX_SACK_RETRIES ==> (#[trigger] after[k]).sack_count
                <= MAX_SACK_RETRIES,
        forall|j: int| 0 <= j < sent.len() ==> #[trigger] sack_of_capped(before, after, sent[j], now),
{
    let due = |m: PendingMessage| sack_due(m, now);
    let f = before.filter(due);
    lemma_filter_sub(before, due);
    assert forall|j: int| 0 <= j < sent.len() implies #[trigger] sack_of_capped(before, after, sent[j], now) by {
        assert(is_sack_for(sent[j], f[j], local_node_id, swarm_tag));
        before.lemma_filter_pred(due, j);
        let k = choose|k: int| 0 <= k < before.len() && before[k] == #[trigger] f[j];
        assert(sack_due(before[k], now));
        assert(after[k] == after_sack(before[k], now));
        assert(sack_counted(before, after, sent[j], now, k));
    }
}

/// How many of the first `n` SACK rounds over the tables `ts` (round `j` at `nows[j]`)
/// sent a SACK for the message in row `k`.
pub open spec fn rounds_sacked(ts: Seq<Seq<PendingMessage>>, nows: Seq<u64>, k: int, n: int) -> nat
    decreases n,
{
    if n <= 0 {
        0
    } else {
        rounds_sacked(ts, nows, k, n - 1) + if sack_due(ts[n - 1][k], nows[n - 1]) { 1nat } else { 0nat }
    }
}

proof fn lemma_rounds_sacked_upto(
    ts: Seq<Seq<PendingMessage>>,
    sents: Seq<Seq<MeshPacket>>,
    nows: Seq<u64>,
    local_node_id: u32,
    swarm_tag: u64,
    k: int,
    n: int,
)
    requires
        ts.len() == nows.len() + 1,
        sents.len() == nows.len(),
        forall|j: int| 0 <= j < nows.len() ==> #[trigger] sack_round(ts[j], ts[j + 1], sents[j], nows[j], local_node_id, swarm_tag),
        0 <= k < ts[0].len(),
        0 <= n <= nows.len(),
    ensures
        ts[n].len() == ts[0].len(),
        ts[0][k].sack_count <= MAX_SACK_RETRIES ==> ts[n][k].sack_count <= MAX_SACK_RETRIES && rounds_sacked(ts, nows, k, n)
            + ts[0][k].sack_count == ts[n][k].sack_count,
        ts[0][k].sack_count > MAX_SACK_RETRIES ==> rounds_sacked(ts, nows, k, n) == 0 && ts[n][k] == ts[0][k],
    decreases n,
{
    if n > 0 {
        lemma_rounds_sacked_upto(ts, sents, nows, local_node_id, swarm_tag, k, n - 1);
        assert(sack_round(ts[n - 1], ts[n - 1 + 1], sents[n - 1], nows[n - 1], local_node_id, swarm_tag));
        assert(ts[n][k] == if sack_due(ts[n - 1][k], nows[n - 1]) {
            after_sack(ts[n - 1][k], nows[n - 1])
        } else {
            ts[n - 1][k]
        });
    }
}

/// However many SACK rounds run, no message is SACKed more than `MAX_SACK_RETRIES` times
/// in all: `ts[j + 1]` is the in-flight table after round `j`, which ran at `nows[j]` and
/// sent `sents[j]`.
pub proof fn lemma_at_most_max_sacks(
    ts: Seq<Seq<PendingMessage>>,
    sents: Seq<Seq<MeshPacket>>,
    nows: Seq<u64>,
    local_node_id: u32,
    swarm_tag: u64,
    k: int,
)
    requires
        ts.len() == nows.len() + 1,
        sents.len() == nows.len(),
        forall|j: int| 0 <= j < nows.len() ==> #[trigger] sack_round(ts[j], ts[j + 1], sents[j], nows[j], local_node_id, swarm_tag),
        0 <= k < ts[0].len(),
    ensures
        rounds_sacked(ts, nows, k, nows.len() as int) <= MAX_SACK_RETRIES,
        ts[0][k].sack_count == 0 ==> rounds_sacked(ts, nows, k, nows.len() as int) == ts.last()[k].sack_count,
{
    lemma_rounds_sacked_upto(ts, sents, nows, local_node_id, swarm_tag, k, nows.len() as int);
}

} // verus!
