//! Asymmetric delivery policy, the beacon-triggered DTN outbox, and ingest deduplication.
use vstd::prelude::*;
use crate::clock::{age, age_ms, duration_nanos, duration_total_nanos, instant_now, millis_since, nanos_since};
use crate::frame::{FLAG_ACK_REQ, FLAG_DIRECT, FLAG_GROUP};
use crate::schema::{OutboxRecord, OutboxStatus};

verus! {

/// Outbox messages expire after 48 hours.
pub const DEFAULT_OUTBOX_TTL_SECS: u64 = 48 * 3600;
/// A peer heard within this window counts as present.
pub const PEER_RECENT_ACTIVITY_WINDOW_MS: u64 = 60_000;

/// Delivery rules: broadcasts never ask for or produce acknowledgments.
pub struct AsymmetricPolicy;

impl AsymmetricPolicy {
    /// Refuses outbound flags that ask for an acknowledgment of a swarm broadcast.
    pub fn validate_outbound_flags(flags: u16) -> (r: Result<(), &'static str>)
        ensures
            r is Err <==> (flags & FLAG_GROUP != 0 && flags & FLAG_ACK_REQ != 0),
    {
        if (flags & FLAG_GROUP) != 0 && (flags & FLAG_ACK_REQ) != 0 {
            return Err("FLAG_ACK_REQ is forbidden on swarm broadcast frames");
        }
        Ok(())
    }

    /// Whether an inbound frame is acknowledged: only direct messages that request it,
    /// never broadcasts.
    pub fn should_emit_ack(flags: u16) -> (r: bool)
        ensures
            r == (flags & FLAG_GROUP == 0 && flags & FLAG_DIRECT != 0 && flags & FLAG_ACK_REQ != 0),
    {
        if (flags & FLAG_GROUP) != 0 {
            return false;
        }
        (flags & FLAG_DIRECT) != 0 && (flags & FLAG_ACK_REQ) != 0
    }
}

/// A broadcast is never acknowledged, and an acknowledged frame always passes the outbound
/// check.
pub proof fn lemma_broadcasts_never_acked(flags: u16)
    ensures
        flags & FLAG_GROUP != 0 ==> !(flags & FLAG_GROUP == 0 && flags & FLAG_DIRECT != 0 && flags & FLAG_ACK_REQ != 0),
        (flags & FLAG_GROUP == 0 && flags & FLAG_DIRECT != 0 && flags & FLAG_ACK_REQ != 0) ==> !(flags & FLAG_GROUP != 0
            && flags & FLAG_ACK_REQ != 0),
{
}

/// Entries still remembered at `now`: the longest prefix of entries older than the window
/// is dropped (entries are kept in arrival order).
pub open spec fn unexpired(entries: Seq<(u32, u32, u64)>, now: u64, window: u64) -> Seq<(u32, u32, u64)>
    decreases entries.len(),
{
    if entries.len() > 0 && age(now, entries[0].2) > window {
        unexpired(entries.drop_first(), now, window)
    } else {
        entries
    }
}

/// Whether a `(source, sequence)` pair is among the entries.
pub open spec fn seen_pair(entries: Seq<(u32, u32, u64)>, src: u32, seq: u32) -> bool {
    exists|i: int| 0 <= i < entries.len() && entries[i].0 == src && entries[i].1 == seq
}

/// The key a `(source, sequence)` pair is filed under: the source in the high 32 bits,
/// the sequence number in the low 32.
pub open spec fn pair_key(src: u32, seq: u32) -> u64 {
    (src * 0x1_0000_0000 + seq) as u64
}

/// Computes `pair_key(src, seq)`.
fn key_of(src: u32, seq: u32) -> (r: u64)
    ensures
        r == pair_key(src, seq),
{
    (src as u64) * 0x1_0000_0000 + (seq as u64)
}

/// Two pairs share a key only when they are the same pair.
proof fn lemma_pair_key_injective(a: u32, b: u32, c: u32, d: u32)
    ensures
        pair_key(a, b) == pair_key(c, d) ==> a == c && b == d,
{
    assert(a * 0x1_0000_0000 + b == c * 0x1_0000_0000 + d ==> a == c && b == d) by (nonlinear_arith)
        requires
            0 <= b < 0x1_0000_0000,
            0 <= d < 0x1_0000_0000,
            0 <= a,
            0 <= c,
    ;
}

/// The key of the `i`-th entry.
pub open spec fn entry_key(entries: Seq<(u32, u32, u64)>, i: int) -> u64 {
    pair_key(entries[i].0, entries[i].1)
}

/// Recently processed `(source, sequence)` pairs: a map from each pair's key to its
/// arrival time, for lookup, and the pairs in arrival order, for expiry.
pub struct IngestDeduplicator {
    origin: std::time::Instant,
    window_ns: u64,
    seen: std::collections::HashMap<u64, u64>,
    order: std::collections::VecDeque<(u32, u32, u64)>,
}

impl IngestDeduplicator {
    /// The remembered pairs with their arrival times (nanoseconds on the deduplicator's
    /// clock), oldest first.
    pub closed spec fn entries(&self) -> Seq<(u32, u32, u64)> {
        self.order@
    }

    /// The window in nanoseconds.
    pub closed spec fn window(&self) -> u64 {
        self.window_ns
    }

    /// The map holds the key of each remembered pair and nothing else, and no pair is
    /// remembered twice.
    pub closed spec fn well_formed(&self) -> bool {
        &&& forall|i: int| 0 <= i < self.order@.len() ==> #[trigger] self.seen@.contains_key(entry_key(self.order@, i))
        &&& forall|k: u64| #[trigger] self.seen@.contains_key(k) ==> exists|i: int|
            0 <= i < self.order@.len() && #[trigger] entry_key(self.order@, i) == k
        &&& forall|i: int, j: int|
            0 <= i < j < self.order@.len() ==> #[trigger] entry_key(self.order@, i) != #[trigger] entry_key(self.order@, j)
    }

    /// An empty deduplicator that remembers pairs for `window`.
    pub fn new(window: core::time::Duration) -> (r: Self)
        ensures
            r.well_formed(),
            r.entries() == Seq::<(u32, u32, u64)>::empty(),
            r.window() as int == duration_total_nanos(window) % 0x1_0000_0000_0000_0000,
    {
        broadcast use vstd::std_specs::hash::group_hash_axioms;
        IngestDeduplicator {
            origin: instant_now(),
            window_ns: duration_nanos(window),
            seen: std::collections::HashMap::new(),
            order: std::collections::VecDeque::new(),
        }
    }

    /// At `now_ns`: forgets expired pairs, then reports whether the pair was already seen
    /// and remembers it if not.
    pub fn check_and_insert_at(&mut self, now_ns: u64, src_node_id: u32, seq_num: u32) -> (r: bool)
        requires
            old(self).well_formed(),
        ensures
            final(self).well_formed(),
            final(self).window() == old(self).window(),
            r == seen_pair(unexpired(old(self).entries(), now_ns, old(self).window()), src_node_id, seq_num),
            r ==> final(self).entries() == unexpired(old(self).entries(), now_ns, old(self).window()),
            !r ==> final(self).entries() == unexpired(old(self).entries(), now_ns, old(self).window()).push(
                (src_node_id, seq_num, now_ns),
            ),
    {
        broadcast use vstd::std_specs::hash::group_hash_axioms;
        self.prune(now_ns);
        let key = key_of(src_node_id, seq_num);
        let ghost e = self.order@;
        if self.seen.contains_key(&key) {
            proof {
                let i = choose|i: int| 0 <= i < e.len() && #[trigger] entry_key(e, i) == key;
                lemma_pair_key_injective(e[i].0, e[i].1, src_node_id, seq_num);
            }
            return true;
        }
        proof {
            assert forall|i: int| 0 <= i < e.len() implies !(e[i].0 == src_node_id && e[i].1 == seq_num) by {
                assert(self.seen@.contains_key(entry_key(e, i)));
            }
        }
        self.seen.insert(key, now_ns);
        self.order.push_back((src_node_id, seq_num, now_ns));
        proof {
            let f = self.order@;
            assert(f == e.push((src_node_id, seq_num, now_ns)));
            assert(entry_key(f, e.len() as int) == key);
            assert forall|i: int| 0 <= i < f.len() implies #[trigger] self.seen@.contains_key(entry_key(f, i)) by {
                if i < e.len() {
                    assert(entry_key(f, i) == entry_key(e, i));
                }
            }
            assert forall|k: u64| #[trigger] self.seen@.contains_key(k) implies exists|i: int|
                0 <= i < f.len() && #[trigger] entry_key(f, i) == k by {
                if k != key {
                    let i = choose|i: int| 0 <= i < e.len() && #[trigger] entry_key(e, i) == k;
                    assert(entry_key(f, i) == k);
                }
            }
            assert forall|i: int, j: int| 0 <= i < j < f.len() implies #[trigger] entry_key(f, i) != #[trigger] entry_key(
                f,
                j,
            ) by {
                if j == e.len() {
                    assert(self.seen@.contains_key(entry_key(e, i)));
                    assert(entry_key(f, i) == entry_key(e, i));
                } else {
                    assert(entry_key(f, i) == entry_key(e, i));
                    assert(entry_key(f, j) == entry_key(e, j));
                }
            }
        }
        false
    }

    /// `check_and_insert_at` on the deduplicator's clock.
    pub fn check_and_insert(&mut self, src_node_id: u32, seq_num: u32) -> (r: bool)
        requires
            old(self).well_formed(),
        ensures
            final(self).well_formed(),
            final(self).window() == old(self).window(),
            exists|now: u64|
                {
                    &&& r == seen_pair(#[trigger] unexpired(old(self).entries(), now, old(self).window()), src_node_id, seq_num)
                    &&& r ==> final(self).entries() == unexpired(old(self).entries(), now, old(self).window())
                    &&& !r ==> final(self).entries() == unexpired(old(self).entries(), now, old(self).window()).push(
                        (src_node_id, seq_num, now),
                    )
                },
    {
        let now = nanos_since(&self.origin);
        self.check_and_insert_at(now, src_node_id, seq_num)
    }

    /// Forgets the pairs older than the window at `now_ns`, from the oldest on.
    fn prune(&mut self, now_ns: u64)
        requires
            old(self).well_formed(),
        ensures
            final(self).well_formed(),
            final(self).window() == old(self).window(),
            final(self).entries() == unexpired(old(self).entries(), now_ns, old(self).window()),
    {
        broadcast use vstd::std_specs::hash::group_hash_axioms;
        let ghost e0 = self.order@;
        while self.order.len() > 0 && age_ms(now_ns, self.order[0].2) > self.window_ns
            invariant
                self.window_ns == old(self).window(),
                unexpired(self.order@, now_ns, self.window_ns) == unexpired(e0, now_ns, self.window_ns),
                e0 == old(self).entries(),
                self.well_formed(),
            decreases self.order@.len(),
        {
            let ghost before = self.order@;
            let front = self.order[0];
            let key = key_of(front.0, front.1);
            assert(key == entry_key(before, 0));
            self.seen.remove(&key);
            let _ = self.order.pop_front();
            proof {
                let f = self.order@;
                assert(f =~= before.drop_first());
                assert forall|i: int| 0 <= i < f.len() implies #[trigger] self.seen@.contains_key(entry_key(f, i)) by {
                    assert(entry_key(f, i) == entry_key(before, i + 1));
                    assert(entry_key(before, 0) != entry_key(before, i + 1));
                }
                assert forall|k: u64| #[trigger] self.seen@.contains_key(k) implies exists|i: int|
                    0 <= i < f.len() && #[trigger] entry_key(f, i) == k by {
                    let i = choose|i: int| 0 <= i < before.len() && #[trigger] entry_key(before, i) == k;
                    assert(i != 0);
                    assert(entry_key(f, i - 1) == k);
                }
                assert forall|i: int, j: int| 0 <= i < j < f.len() implies #[trigger] entry_key(f, i) != #[trigger] entry_key(
                    f,
                    j,
                ) by {
                    assert(entry_key(f, i) == entry_key(before, i + 1));
                    assert(entry_key(f, j) == entry_key(before, j + 1));
                }
            }
        }
    }
}

/// A pair checked right after it was recorded, within the window, is reported as seen.
pub proof fn lemma_recorded_pair_is_duplicate(entries: Seq<(u32, u32, u64)>, src: u32, seq: u32, t0: u64, t1: u64, window: u64)
    requires
        age(t1, t0) <= window,
    ensures
        seen_pair(unexpired(entries.push((src, seq, t0)), t1, window), src, seq),
    decreases entries.len(),
{
    let s = entries.push((src, seq, t0));
    if entries.len() > 0 && age(t1, s[0].2) > window {
        assert(s.drop_first() =~= entries.drop_first().push((src, seq, t0)));
        lemma_recorded_pair_is_duplicate(entries.drop_first(), src, seq, t0, t1, window);
    } else {
        assert(s[s.len() - 1] == (src, seq, t0));
    }
}

/// Durable outbox storage, implemented by the host's database.
pub trait OutboxStore {
    type Error;

    fn insert_outbox(&self, record: &OutboxRecord) -> Result<(), Self::Error>;

    fn list_pending_outbox_for_node(&self, dest_node_id: u32) -> Result<Vec<OutboxRecord>, Self::Error>;

    fn mark_outbox_sending(&self, ids: &[&str]) -> Result<(), Self::Error>;

    fn mark_outbox_sent(&self, ids: &[&str]) -> Result<(), Self::Error>;

    fn evict_expired_outbox(&self, current_time: i64) -> Result<Vec<String>, Self::Error>;
}

/// One call the engine made on its store, with what the store answered.
pub enum OutboxCall {
    /// The record handed to `insert_outbox`, and whether it was stored.
    Insert(OutboxRecord, bool),
    /// The node handed to `list_pending_outbox_for_node`, and the records listed (none
    /// when the store failed).
    ListPending(u32, Option<Seq<OutboxRecord>>),
    /// The ids handed to `mark_outbox_sending`, and whether they were marked.
    MarkSending(Seq<Seq<char>>, bool),
    /// The ids handed to `mark_outbox_sent`, and whether they were marked.
    MarkSent(Seq<Seq<char>>, bool),
    /// The time handed to `evict_expired_outbox`, and the ids evicted (none when the
    /// store failed).
    Evict(i64, Option<Seq<String>>),
}

/// What a listing call answered: the items, or nothing when it failed.
pub open spec fn listed<T, E>(r: Result<Vec<T>, E>) -> Option<Seq<T>> {
    match r {
        Ok(v) => Some(v@),
        Err(_) => None,
    }
}

/// The ids of some outbox records, in order.
pub open spec fn record_ids(recs: Seq<OutboxRecord>) -> Seq<Seq<char>> {
    Seq::new(recs.len(), |k: int| recs[k].id@)
}

/// Whether `rec` is the pending record that queues `payload` for `dest` under `id`.
pub open spec fn queued_record(rec: OutboxRecord, id: Seq<char>, dest: u32, payload: Seq<u8>, ttl_secs: u64, queued_at: i64) -> bool {
    &&& rec.id@ == id
    &&& rec.dest_node_id == dest
    &&& rec.payload@ == payload
    &&& rec.queued_at == queued_at
    &&& rec.retry_count == 0
    &&& rec.ttl_secs == ttl_secs
    &&& rec.status == OutboxStatus::Pending
}

fn store_insert<S: OutboxStore>(db: &S, log: &mut Ghost<Seq<OutboxCall>>, rec: &OutboxRecord) -> (r: Result<(), S::Error>)
    ensures
        final(log)@ == old(log)@.push(OutboxCall::Insert(*rec, r is Ok)),
{
    let r = db.insert_outbox(rec);
    *log = Ghost(log@.push(OutboxCall::Insert(*rec, r is Ok)));
    r
}

fn store_list_pending<S: OutboxStore>(db: &S, log: &mut Ghost<Seq<OutboxCall>>, node: u32) -> (r: Result<Vec<OutboxRecord>, S::Error>)
    ensures
        final(log)@ == old(log)@.push(OutboxCall::ListPending(node, listed(r))),
{
    let r = db.list_pending_outbox_for_node(node);
    *log = Ghost(log@.push(OutboxCall::ListPending(node, listed(r))));
    r
}

fn store_mark_sending<S: OutboxStore>(db: &S, log: &mut Ghost<Seq<OutboxCall>>, ids: &[&str]) -> (r: Result<(), S::Error>)
    ensures
        final(log)@ == old(log)@.push(OutboxCall::MarkSending(Seq::new(ids@.len(), |k: int| ids@[k]@), r is Ok)),
{
    let r = db.mark_outbox_sending(ids);
    *log = Ghost(log@.push(OutboxCall::MarkSending(Seq::new(ids@.len(), |k: int| ids@[k]@), r is Ok)));
    r
}

fn store_mark_sent<S: OutboxStore>(db: &S, log: &mut Ghost<Seq<OutboxCall>>, ids: &[&str]) -> (r: Result<(), S::Error>)
    ensures
        final(log)@ == old(log)@.push(OutboxCall::MarkSent(Seq::new(ids@.len(), |k: int| ids@[k]@), r is Ok)),
{
    let r = db.mark_outbox_sent(ids);
    *log = Ghost(log@.push(OutboxCall::MarkSent(Seq::new(ids@.len(), |k: int| ids@[k]@), r is Ok)));
    r
}

fn store_evict<S: OutboxStore>(db: &S, log: &mut Ghost<Seq<OutboxCall>>, current_time: i64) -> (r: Result<Vec<String>, S::Error>)
    ensures
        final(log)@ == old(log)@.push(OutboxCall::Evict(current_time, listed(r))),
{
    let r = db.evict_expired_outbox(current_time);
    *log = Ghost(log@.push(OutboxCall::Evict(current_time, listed(r))));
    r
}

/// Beacon-triggered delay-tolerant outbox: queued direct messages wait in the store until
/// their recipient is heard.
pub struct DtnOutboxEngine<S: OutboxStore> {
    db: S,
    origin: std::time::Instant,
    peer_last_seen: Vec<(u32, u64)>,
    dedup: IngestDeduplicator,
    calls: Ghost<Seq<OutboxCall>>,
}

/// Whether `after` is the peer table `before` once `node` is heard at `now`: its entry
/// takes the new time, or one is added at the end.
pub open spec fn heard_at(before: Seq<(u32, u64)>, after: Seq<(u32, u64)>, node: u32, now: u64) -> bool {
    &&& forall|i: int| 0 <= i < before.len() && before[i].0 == node ==> after == before.update(i, (node, now))
    &&& (forall|i: int| 0 <= i < before.len() ==> before[i].0 != node) ==> after == before.push((node, now))
}

/// Each peer has one entry.
pub open spec fn distinct_peers(s: Seq<(u32, u64)>) -> bool {
    forall|i: int, j: int| 0 <= i < j < s.len() ==> #[trigger] s[i].0 != #[trigger] s[j].0
}

/// Whether `node` was heard within the activity window at `now` (times in milliseconds).
pub open spec fn recently_heard(seen: Seq<(u32, u64)>, node: u32, now: u64) -> bool {
    exists|i: int| 0 <= i < seen.len() && seen[i].0 == node && age(now, seen[i].1) < PEER_RECENT_ACTIVITY_WINDOW_MS
}

impl<S: OutboxStore> DtnOutboxEngine<S> {
    /// The calls made on the store so far, oldest first, with its answers.
    pub closed spec fn calls(&self) -> Seq<OutboxCall> {
        self.calls@
    }

    /// Last time each peer was heard (milliseconds on the engine's clock).
    pub closed spec fn peers(&self) -> Seq<(u32, u64)> {
        self.peer_last_seen@
    }

    /// One entry per peer, and a well-formed deduplicator.
    pub closed spec fn well_formed(&self) -> bool {
        &&& distinct_peers(self.peer_last_seen@)
        &&& self.dedup.well_formed()
    }

    /// An engine over `db` with no peers heard yet and a ten-minute deduplication window.
    pub fn new(db: S) -> (r: Self)
        ensures
            r.peers() == Seq::<(u32, u64)>::empty(),
            r.well_formed(),
            r.store() == db,
            r.deduplicator().entries() == Seq::<(u32, u32, u64)>::empty(),
            r.deduplicator().window() == 600_000_000_000,
            r.calls() == Seq::<OutboxCall>::empty(),
    {
        let r = DtnOutboxEngine {
            db,
            origin: instant_now(),
            peer_last_seen: Vec::new(),
            dedup: IngestDeduplicator::new(core::time::Duration::from_secs(600)),
            calls: Ghost(Seq::empty()),
        };
        r
    }

    /// The store the engine works on.
    pub closed spec fn store(&self) -> S {
        self.db
    }

    /// The engine's ingest deduplicator.
    pub closed spec fn deduplicator(&self) -> IngestDeduplicator {
        self.dedup
    }

    /// The store.
    pub fn db(&self) -> (r: &S)
        ensures
            *r == self.store(),
    {
        &self.db
    }

    /// The ingest deduplicator, for the caller to use; nothing else changes.
    pub fn deduplicator_mut(&mut self) -> (r: &mut IngestDeduplicator)
        ensures
            *r == old(self).deduplicator(),
            old(self).well_formed() ==> r.well_formed(),
            final(self).deduplicator() == *final(r),
            final(self).store() == old(self).store(),
            final(self).peers() == old(self).peers(),
            final(self).well_formed() == (distinct_peers(old(self).peers()) && final(r).well_formed()),
            final(self).calls() == old(self).calls(),
    {
        &mut self.dedup
    }

    /// Records that `node_id` was heard at `now_ms`.
    pub fn record_peer_heard_at(&mut self, now_ms: u64, node_id: u32)
        requires
            old(self).well_formed(),
        ensures
            final(self).well_formed(),
            heard_at(old(self).peers(), final(self).peers(), node_id, now_ms),
            final(self).store() == old(self).store(),
            final(self).calls() == old(self).calls(),
    {
        let n = self.peer_last_seen.len();
        let mut i: usize = 0;
        while i < n
            invariant
                n == self.peer_last_seen@.len(),
                i <= n,
                self.peer_last_seen@ == old(self).peers(),
                self.db == old(self).store(),
                self.calls@ == old(self).calls(),
                self.well_formed(),
                forall|k: int| 0 <= k < i ==> self.peer_last_seen@[k].0 != node_id,
            decreases n - i,
        {
            if self.peer_last_seen[i].0 == node_id {
                self.peer_last_seen.set(i, (node_id, now_ms));
                assert forall|a: int, b: int| 0 <= a < b < self.peer_last_seen@.len() implies #[trigger] self.peer_last_seen@[a].0
                    != #[trigger] self.peer_last_seen@[b].0 by {
                    assert(old(self).peers()[a].0 != old(self).peers()[b].0);
                }
                assert forall|k: int| 0 <= k < old(self).peers().len() && old(self).peers()[k].0 == node_id implies k == i by {
                    if k != i {
                        if k < i {
                            assert(old(self).peers()[k].0 != old(self).peers()[i as int].0);
                        } else {
                            assert(old(self).peers()[i as int].0 != old(self).peers()[k].0);
                        }
                    }
                }
                return;
            }
            i = i + 1;
        }
        self.peer_last_seen.push((node_id, now_ms));
        assert forall|a: int, b: int| 0 <= a < b < self.peer_last_seen@.len() implies #[trigger] self.peer_last_seen@[a].0
            != #[trigger] self.peer_last_seen@[b].0 by {
            if b < n {
                assert(old(self).peers()[a].0 != old(self).peers()[b].0);
            }
        }
    }

    /// `record_peer_heard_at` on the engine's clock.
    pub fn record_peer_heard(&mut self, node_id: u32)
        requires
            old(self).well_formed(),
        ensures
            final(self).well_formed(),
            exists|now: u64| heard_at(old(self).peers(), final(self).peers(), node_id, now),
            final(self).store() == old(self).store(),
            final(self).calls() == old(self).calls(),
    {
        let now = millis_since(&self.origin);
        self.record_peer_heard_at(now, node_id);
        assert(heard_at(old(self).peers(), self.peers(), node_id, now));
    }

    /// Whether `node_id` was heard within the activity window at `now_ms`.
    pub fn is_peer_recently_heard_at(&self, now_ms: u64, node_id: u32) -> (r: bool)
        requires
            self.well_formed(),
        ensures
            r == recently_heard(self.peers(), node_id, now_ms),
    {
        let n = self.peer_last_seen.len();
        let mut i: usize = 0;
        while i < n
            invariant
                n == self.peer_last_seen@.len(),
                i <= n,
                self.well_formed(),
                forall|k: int| 0 <= k < i ==> self.peer_last_seen@[k].0 != node_id,
            decreases n - i,
        {
            let e = self.peer_last_seen[i];
            if e.0 == node_id {
                proof {
                    assert forall|k: int| 0 <= k < n && self.peer_last_seen@[k].0 == node_id implies k == i by {
                        if k > i {
                            assert(self.peer_last_seen@[i as int].0 != self.peer_last_seen@[k].0);
                        }
                    }
                }
                return age_ms(now_ms, e.1) < PEER_RECENT_ACTIVITY_WINDOW_MS;
            }
            i = i + 1;
        }
        false
    }

    /// `is_peer_recently_heard_at` on the engine's clock.
    pub fn is_peer_recently_heard(&self, node_id: u32) -> (r: bool)
        requires
            self.well_formed(),
        ensures
            exists|now: u64| r == #[trigger] recently_heard(self.peers(), node_id, now),
    {
        let now = millis_since(&self.origin);
        self.is_peer_recently_heard_at(now, node_id)
    }

    /// Queues a direct message as a pending outbox record and stores it.
    pub fn queue_message(&mut self, id: &str, dest_node_id: u32, payload: Vec<u8>, ttl_secs: u64, queued_at: i64) -> (r: Result<
        OutboxRecord,
        S::Error,
    >)
        ensures
            final(self).store() == old(self).store(),
            final(self).peers() == old(self).peers(),
            final(self).deduplicator() == old(self).deduplicator(),
            final(self).well_formed() == old(self).well_formed(),
            final(self).calls().len() == old(self).calls().len() + 1,
            final(self).calls().drop_last() == old(self).calls(),
            final(self).calls().last() matches OutboxCall::Insert(rec, ok) && queued_record(
                rec,
                id@,
                dest_node_id,
                payload@,
                ttl_secs,
                queued_at,
            ) && ok == (r is Ok) && (r matches Ok(x) ==> x == rec),
    {
        let record = OutboxRecord {
            id: id.to_owned(),
            dest_node_id,
            payload,
            queued_at,
            retry_count: 0,
            ttl_secs,
            status: OutboxStatus::Pending,
        };
        let r = store_insert(&self.db, &mut self.calls, &record);
        assert(self.calls@.drop_last() =~= old(self).calls());
        match r {
            Ok(()) => Ok(record),
            Err(e) => Err(e),
        }
    }

    /// On hearing a peer's beacon: records the peer (whatever the store answers), lists its
    /// pending outbox records, marks exactly those sending and returns them for
    /// transmission. An empty list marks nothing; a failing store call gives its error.
    pub fn on_peer_beacon_overheard(&mut self, dest_node_id: u32) -> (r: Result<Vec<OutboxRecord>, S::Error>)
        requires
            old(self).well_formed(),
        ensures
            final(self).well_formed(),
            exists|now: u64| heard_at(old(self).peers(), final(self).peers(), dest_node_id, now),
            final(self).store() == old(self).store(),
            ({
                let c = final(self).calls();
                let o = old(self).calls();
                &&& c.len() > o.len()
                &&& c.take(o.len() as int) == o
                &&& c[o.len() as int] matches OutboxCall::ListPending(node, ans) && node == dest_node_id && match ans {
                    None => c.len() == o.len() + 1 && r is Err,
                    Some(p) => if p.len() == 0 {
                        c.len() == o.len() + 1 && (r matches Ok(v) && v@.len() == 0)
                    } else {
                        &&& c.len() == o.len() + 2
                        &&& c[o.len() as int + 1] matches OutboxCall::MarkSending(ids, ok) && ids == record_ids(p) && (if ok {
                            r matches Ok(v) && v@ == p
                        } else {
                            r is Err
                        })
                    },
                }
            }),
    {
        self.record_peer_heard(dest_node_id);
        let ghost now = choose|now: u64| heard_at(old(self).peers(), self.peers(), dest_node_id, now);
        let ghost o = self.calls@;
        let listed_r = store_list_pending(&self.db, &mut self.calls, dest_node_id);
        let pending = match listed_r {
            Ok(p) => p,
            Err(e) => {
                assert(self.calls@.take(o.len() as int) =~= o);
                assert(heard_at(old(self).peers(), self.peers(), dest_node_id, now));
                return Err(e);
            },
        };
        if pending.len() == 0 {
            assert(self.calls@.take(o.len() as int) =~= o);
            assert(heard_at(old(self).peers(), self.peers(), dest_node_id, now));
            return Ok(Vec::new());
        }
        let mut ids: Vec<&str> = Vec::new();
        let mut i: usize = 0;
        while i < pending.len()
            invariant
                i <= pending@.len(),
                ids@.len() == i,
                forall|k: int| 0 <= k < i ==> ids@[k]@ == pending@[k].id@,
            decreases pending@.len() - i,
        {
            ids.push(pending[i].id.as_str());
            i = i + 1;
        }
        let marked = store_mark_sending(&self.db, &mut self.calls, ids.as_slice());
        proof {
            assert(self.calls@.take(o.len() as int) =~= o);
            assert(Seq::new(ids@.len(), |k: int| ids@[k]@) =~= record_ids(pending@));
            assert(heard_at(old(self).peers(), self.peers(), dest_node_id, now));
        }
        match marked {
            Ok(()) => {},
            Err(e) => return Err(e),
        }
        Ok(pending)
    }

    /// On a delivery receipt: marks the outbox record with this id sent.
    pub fn on_delivery_ack_received(&mut self, msg_id: &str) -> (r: Result<bool, S::Error>)
        ensures
            final(self).store() == old(self).store(),
            final(self).peers() == old(self).peers(),
            final(self).deduplicator() == old(self).deduplicator(),
            final(self).well_formed() == old(self).well_formed(),
            final(self).calls() == old(self).calls().push(OutboxCall::MarkSent(seq![msg_id@], r is Ok)),
            r is Ok ==> r == Ok::<bool, S::Error>(true),
    {
        let ids: [&str; 1] = [msg_id];
        let marked = store_mark_sent(&self.db, &mut self.calls, ids.as_slice());
        assert(Seq::new(ids@.len(), |k: int| ids@[k]@) =~= seq![msg_id@]);
        match marked {
            Ok(()) => Ok(true),
            Err(e) => Err(e),
        }
    }

    /// Evicts outbox records past their TTL at `current_time`, returning the ids the store
    /// evicted.
    pub fn evict_expired(&mut self, current_time: i64) -> (r: Result<Vec<String>, S::Error>)
        ensures
            final(self).store() == old(self).store(),
            final(self).peers() == old(self).peers(),
            final(self).deduplicator() == old(self).deduplicator(),
            final(self).well_formed() == old(self).well_formed(),
            final(self).calls() == old(self).calls().push(OutboxCall::Evict(current_time, listed(r))),
    {
        store_evict(&self.db, &mut self.calls, current_time)
    }
}

} // verus!
