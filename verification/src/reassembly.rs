//! What a receiver makes of a message's fragments: taken in one after another, they give
//! back the message.
use vstd::prelude::*;
use crate::chunk::{
    chunk_count, chunk_plaintext, chunk_text, from_sender, has_message, ingest_step, is_complete, is_fragment,
    joined_chunks, message_index, new_pending, purged, without_trailing_zeros, EngineView, PendingMessage,
    REASSEMBLY_TIMEOUT_MS,
};
use crate::frame::{MeshPacket, PLAINTEXT_CHUNK_LEN};
use crate::ratchet::{padded_chunk, sender_subkey, CryptoError};

verus! {

/// A receiver with nothing in progress, nothing completed and nothing sent.
pub open spec fn empty_engine() -> EngineView {
    EngineView { in_flight: Seq::empty(), completed: Seq::empty(), outbox: Seq::empty() }
}

/// Whether `later` follows `earlier` within the reassembly timeout.
pub open spec fn within_timeout(earlier: u64, later: u64) -> bool {
    earlier <= later && later - earlier < REASSEMBLY_TIMEOUT_MS
}

/// Packets taken in one after another, `packets[k]` at time `times[k]`: the state after
/// the last, and the outcome of each.
pub open spec fn ingest_all(v: EngineView, times: Seq<u64>, src: u32, packets: Seq<MeshPacket>, master: Seq<u8>) -> (
    EngineView,
    Seq<Result<Option<Seq<u8>>, CryptoError>>,
)
    decreases packets.len(),
{
    if packets.len() == 0 || times.len() == 0 {
        (v, Seq::empty())
    } else {
        let (v1, r1) = ingest_step(v, times[0], src, packets[0], master);
        let (vn, rs) = ingest_all(v1, times.drop_first(), src, packets.drop_first(), master);
        (vn, seq![r1] + rs)
    }
}

/// The chunk slots of a message of `n` chunks once its first `k` chunks are in.
spec fn slots(bytes: Seq<u8>, n: int, k: int) -> Seq<Option<Seq<u8>>> {
    Seq::new(n as nat, |i: int| if i < k { Some(padded_chunk(chunk_text(bytes, i))) } else { None })
}

/// The chunk slots of a message of `n` chunks once the chunks listed in `got` are in.
spec fn slots_in(bytes: Seq<u8>, n: int, got: Seq<int>) -> Seq<Option<Seq<u8>>> {
    Seq::new(n as nat, |i: int| if got.contains(i) { Some(padded_chunk(chunk_text(bytes, i))) } else { None })
}

/// Whether `order` lists each chunk index `0..n` exactly once: an order in which the `n`
/// fragments of a message can arrive.
pub open spec fn is_arrival_order(order: Seq<int>, n: int) -> bool {
    &&& order.len() == n
    &&& forall|j: int| 0 <= j < n ==> 0 <= #[trigger] order[j] < n
    &&& forall|j: int, l: int| 0 <= j < l < n ==> #[trigger] order[j] != #[trigger] order[l]
    &&& forall|i: int| 0 <= i < n ==> #[trigger] order.contains(i)
}

/// The receiver's state once the first `k` of `n` fragments, in arrival order `order`,
/// are in (`0 <= k < n`).
spec fn state_after(src: u32, msg_id: u32, bytes: Seq<u8>, n: int, order: Seq<int>, k: int, times: Seq<u64>) -> EngineView {
    if k == 0 {
        empty_engine()
    } else {
        EngineView {
            in_flight: seq![
                PendingMessage {
                    src_node_id: src,
                    msg_id,
                    chunks: slots_in(bytes, n, order.take(k)),
                    first_received: times[0],
                    last_received: times[k - 1],
                    last_sack_sent: None,
                    sack_count: 0,
                },
            ],
            completed: Seq::empty(),
            outbox: Seq::empty(),
        }
    }
}

/// The outcomes of fragments `k..n`: nothing until the last, which gives the message.
spec fn outcomes_from(bytes: Seq<u8>, n: int, k: int) -> Seq<Result<Option<Seq<u8>>, CryptoError>> {
    Seq::new(
        (n - k) as nat,
        |j: int|
            if k + j < n - 1 {
                Ok::<Option<Seq<u8>>, CryptoError>(None)
            } else {
                Ok::<Option<Seq<u8>>, CryptoError>(Some(bytes))
            },
    )
}

/// The chunk arithmetic of a message of `len > 0` bytes in `n` chunks of 80.
proof fn lemma_chunk_bounds(len: int, n: int)
    requires
        len > 0,
        n == chunk_count(len),
    ensures
        n >= 1,
        (n - 1) * 80 < len <= n * 80,
{
    assert(n == (len + 79) / 80);
    assert((n - 1) * 80 < len <= n * 80) by (nonlinear_arith)
        requires
            n == (len + 79) / 80,
            len > 0,
    ;
}

/// Chunk `k` of a message, for `k` before the last, is its 80 bytes from `80 * k`.
proof fn lemma_full_chunk(bytes: Seq<u8>, n: int, k: int)
    requires
        bytes.len() > 0,
        n == chunk_count(bytes.len() as int),
        0 <= k < n - 1,
    ensures
        chunk_text(bytes, k) == bytes.subrange(k * 80, (k + 1) * 80),
        padded_chunk(chunk_text(bytes, k)) == chunk_text(bytes, k),
{
    lemma_chunk_bounds(bytes.len() as int, n);
    assert((k + 1) * 80 <= (n - 1) * 80) by (nonlinear_arith)
        requires
            k + 1 <= n - 1,
    ;
    assert(k * 80 + 80 == (k + 1) * 80);
    assert(k * 80 >= 0) by (nonlinear_arith)
        requires
            k >= 0,
    ;
    assert(chunk_text(bytes, k).len() == PLAINTEXT_CHUNK_LEN);
    assert(padded_chunk(chunk_text(bytes, k)) =~= chunk_text(bytes, k));
}

/// The chunks before the last, joined, are the message's first `80 * j` bytes.
proof fn lemma_joined_prefix(bytes: Seq<u8>, n: int, j: int)
    requires
        bytes.len() > 0,
        n == chunk_count(bytes.len() as int),
        0 <= j <= n - 1,
    ensures
        joined_chunks(slots(bytes, n, n).take(j)) == bytes.take(j * 80),
    decreases j,
{
    lemma_chunk_bounds(bytes.len() as int, n);
    let s = slots(bytes, n, n);
    if j == 0 {
        assert(s.take(0) =~= Seq::<Option<Seq<u8>>>::empty());
        assert(bytes.take(0) =~= Seq::<u8>::empty());
    } else {
        lemma_joined_prefix(bytes, n, j - 1);
        lemma_full_chunk(bytes, n, j - 1);
        assert(s.take(j).drop_last() =~= s.take(j - 1));
        assert(s.take(j).last() == Some(padded_chunk(chunk_text(bytes, j - 1))));
        assert((j - 1) * 80 + 80 == j * 80);
        assert(j * 80 <= (n - 1) * 80) by (nonlinear_arith)
            requires
                j <= n - 1,
        ;
        assert((j - 1) * 80 >= 0) by (nonlinear_arith)
            requires
                j >= 1,
        ;
        assert(bytes.take((j - 1) * 80) + bytes.subrange((j - 1) * 80, j * 80) =~= bytes.take(j * 80));
    }
}

/// All chunks joined are the message followed by the zero padding of the last chunk.
proof fn lemma_joined_all(bytes: Seq<u8>, n: int)
    requires
        bytes.len() > 0,
        n == chunk_count(bytes.len() as int),
    ensures
        joined_chunks(slots(bytes, n, n)) == bytes + Seq::new((n * 80 - bytes.len()) as nat, |i: int| 0u8),
{
    lemma_chunk_bounds(bytes.len() as int, n);
    let s = slots(bytes, n, n);
    lemma_joined_prefix(bytes, n, n - 1);
    assert(s.drop_last() =~= s.take(n - 1));
    let start = (n - 1) * 80;
    assert((n - 1) * 80 >= 0) by (nonlinear_arith)
        requires
            n >= 1,
    ;
    assert(start + 80 >= bytes.len());
    assert(chunk_text(bytes, n - 1) =~= bytes.subrange(start, bytes.len() as int));
    assert(s.last() == Some(padded_chunk(chunk_text(bytes, n - 1))));
    assert(PLAINTEXT_CHUNK_LEN - (bytes.len() - start) == n * 80 - bytes.len());
    assert(bytes.take(start) + (bytes.subrange(start, bytes.len() as int) + Seq::new(
        (n * 80 - bytes.len()) as nat,
        |i: int| 0u8,
    )) =~= bytes + Seq::new((n * 80 - bytes.len()) as nat, |i: int| 0u8));
}

/// Zero padding after a message that does not end in a zero byte comes off exactly.
proof fn lemma_strip_padding(bytes: Seq<u8>, z: nat)
    requires
        bytes.len() > 0,
        bytes.last() != 0,
    ensures
        without_trailing_zeros(bytes + Seq::new(z, |i: int| 0u8)) == bytes,
    decreases z,
{
    let padded = bytes + Seq::new(z, |i: int| 0u8);
    if z == 0 {
        assert(padded =~= bytes);
    } else {
        assert(padded.drop_last() =~= bytes + Seq::new((z - 1) as nat, |i: int| 0u8));
        assert(padded.last() == 0);
        lemma_strip_padding(bytes, (z - 1) as nat);
    }
}

proof fn lemma_filter_empty<A>()
    ensures
        forall|p: spec_fn(A) -> bool| #[trigger] Seq::<A>::empty().filter(p) == Seq::<A>::empty(),
{
    assert forall|p: spec_fn(A) -> bool| #[trigger] Seq::<A>::empty().filter(p) == Seq::<A>::empty() by {
        reveal(Seq::filter);
    }
}

proof fn lemma_filter_singleton<A>(a: A)
    ensures
        forall|p: spec_fn(A) -> bool| p(a) ==> #[trigger] seq![a].filter(p) == seq![a],
{
    assert forall|p: spec_fn(A) -> bool| p(a) implies #[trigger] seq![a].filter(p) == seq![a] by {
        reveal_with_fuel(Seq::filter, 2);
        assert(seq![a].drop_last() =~= Seq::<A>::empty());
        assert(Seq::<A>::empty().push(a) =~= seq![a]);
    }
}

/// One fragment taken in: the `k`-th to arrive moves the receiver from its state after
/// `k` arrivals to its state after `k + 1`, with no outcome yet, and the last to arrive
/// completes the message.
proof fn lemma_fragment_step(
    bytes: Seq<u8>,
    msg_id: u32,
    swarm_tag: u64,
    master: Seq<u8>,
    src: u32,
    packets: Seq<MeshPacket>,
    order: Seq<int>,
    times: Seq<u64>,
    k: int,
)
    requires
        bytes.len() > 0,
        bytes.last() != 0,
        chunk_count(bytes.len() as int) <= 255,
        packets.len() == chunk_count(bytes.len() as int),
        times.len() == packets.len(),
        is_arrival_order(order, packets.len() as int),
        forall|i: int|
            0 <= i < packets.len() ==> #[trigger] is_fragment(
                packets[i],
                bytes,
                order[i],
                packets.len() as u8,
                msg_id,
                swarm_tag,
                sender_subkey(master, src),
            ),
        forall|i: int| 0 < i < times.len() ==> within_timeout(times[i - 1], #[trigger] times[i]),
        0 <= k < packets.len(),
    ensures
        ({
            let n = packets.len() as int;
            let step = ingest_step(state_after(src, msg_id, bytes, n, order, k, times), times[k], src, packets[k], master);
            if k < n - 1 {
                step == (state_after(src, msg_id, bytes, n, order, k + 1, times), Ok::<Option<Seq<u8>>, CryptoError>(None))
            } else {
                step == (
                    EngineView {
                        in_flight: Seq::empty(),
                        completed: seq![(src, msg_id, times[k])],
                        outbox: Seq::empty(),
                    },
                    Ok::<Option<Seq<u8>>, CryptoError>(Some(bytes)),
                )
            }
        }),
{
    let n = packets.len() as int;
    lemma_chunk_bounds(bytes.len() as int, n);
    let p = packets[k];
    let c = order[k];
    assert(is_fragment(p, bytes, c, n as u8, msg_id, swarm_tag, sender_subkey(master, src)));
    assert((n as u8) as int == n);
    let v = state_after(src, msg_id, bytes, n, order, k, times);
    let now = times[k];
    lemma_filter_empty::<PendingMessage>();
    lemma_filter_empty::<(u32, u32, u64)>();
    lemma_filter_empty::<(u32, Seq<MeshPacket>, u64)>();
    if k > 0 {
        assert(within_timeout(times[k - 1], times[k]));
        lemma_filter_singleton(v.in_flight[0]);
        assert(v.in_flight =~= seq![v.in_flight[0]]);
    }
    assert(purged(v, now) == v);
    let pt = padded_chunk(chunk_text(bytes, c));
    assert(chunk_plaintext(master, src, p) == Some(pt));
    let got = order.take(k);
    let got2 = order.take(k + 1);
    assert(!got.contains(c)) by {
        if got.contains(c) {
            let q = choose|q: int| 0 <= q < got.len() && got[q] == c;
            assert(order[q] == order[k]);
        }
    }
    assert forall|i: int| 0 <= i < n implies #[trigger] got2.contains(i) == (got.contains(i) || i == c) by {
        if got2.contains(i) {
            let q = choose|q: int| 0 <= q < got2.len() && got2[q] == i;
            if q < k {
                assert(got[q] == i);
            }
        }
        if got.contains(i) {
            let q = choose|q: int| 0 <= q < got.len() && got[q] == i;
            assert(got2[q] == i);
        }
        if i == c {
            assert(got2[k] == c);
        }
    }
    let n_slots = slots_in(bytes, n, got2);
    let m = if k == 0 { new_pending(src, msg_id, n, now) } else { v.in_flight[0] };
    let f2 = seq![m];
    if k == 0 {
        assert(Seq::<PendingMessage>::empty().filter(from_sender(src)).len() == 0);
        assert(Seq::<PendingMessage>::empty().push(m) =~= f2);
    } else {
        assert(has_message(v.in_flight, src, msg_id));
        assert(v.in_flight =~= f2);
    }
    assert(f2[0].src_node_id == src && f2[0].msg_id == msg_id);
    assert(has_message(f2, src, msg_id));
    assert(message_index(f2, src, msg_id) == 0);
    assert(m.chunks[c] is None);
    let m2 = PendingMessage { chunks: m.chunks.update(c, Some(pt)), last_received: now, ..m };
    assert(m2.chunks =~= n_slots);
    if k < n - 1 {
        let last = order[n - 1];
        assert(!got2.contains(last)) by {
            if got2.contains(last) {
                let q = choose|q: int| 0 <= q < got2.len() && got2[q] == last;
                assert(order[q] == order[n - 1]);
            }
        }
        assert(m2.chunks[last] is None);
        assert(!is_complete(m2));
        assert(f2.update(0, m2) =~= state_after(src, msg_id, bytes, n, order, k + 1, times).in_flight);
    } else {
        assert(got2 =~= order);
        assert(n_slots =~= slots(bytes, n, n));
        assert(is_complete(m2));
        assert(f2.remove(0) =~= Seq::<PendingMessage>::empty());
        assert(Seq::<(u32, u32, u64)>::empty().push((src, msg_id, now)) =~= seq![(src, msg_id, now)]);
        lemma_joined_all(bytes, n);
        lemma_strip_padding(bytes, (n * 80 - bytes.len()) as nat);
    }
}

proof fn lemma_fragments_from(
    bytes: Seq<u8>,
    msg_id: u32,
    swarm_tag: u64,
    master: Seq<u8>,
    src: u32,
    packets: Seq<MeshPacket>,
    order: Seq<int>,
    times: Seq<u64>,
    k: int,
)
    requires
        bytes.len() > 0,
        bytes.last() != 0,
        chunk_count(bytes.len() as int) <= 255,
        packets.len() == chunk_count(bytes.len() as int),
        times.len() == packets.len(),
        is_arrival_order(order, packets.len() as int),
        forall|i: int|
            0 <= i < packets.len() ==> #[trigger] is_fragment(
                packets[i],
                bytes,
                order[i],
                packets.len() as u8,
                msg_id,
                swarm_tag,
                sender_subkey(master, src),
            ),
        forall|i: int| 0 < i < times.len() ==> within_timeout(times[i - 1], #[trigger] times[i]),
        0 <= k < packets.len(),
    ensures
        ingest_all(
            state_after(src, msg_id, bytes, packets.len() as int, order, k, times),
            times.skip(k),
            src,
            packets.skip(k),
            master,
        ) == (
            EngineView {
                in_flight: Seq::empty(),
                completed: seq![(src, msg_id, times[packets.len() - 1])],
                outbox: Seq::empty(),
            },
            outcomes_from(bytes, packets.len() as int, k),
        ),
    decreases packets.len() - k,
{
    let n = packets.len() as int;
    lemma_fragment_step(bytes, msg_id, swarm_tag, master, src, packets, order, times, k);
    assert(times.skip(k)[0] == times[k]);
    assert(packets.skip(k)[0] == packets[k]);
    assert(times.skip(k).drop_first() =~= times.skip(k + 1));
    assert(packets.skip(k).drop_first() =~= packets.skip(k + 1));
    let here = state_after(src, msg_id, bytes, n, order, k, times);
    let step = ingest_step(here, times[k], src, packets[k], master);
    let rest = ingest_all(step.0, times.skip(k + 1), src, packets.skip(k + 1), master);
    assert(packets.skip(k).len() > 0 && times.skip(k).len() > 0);
    assert(ingest_all(here, times.skip(k), src, packets.skip(k), master) == (rest.0, seq![step.1] + rest.1));
    if k < n - 1 {
        lemma_fragments_from(bytes, msg_id, swarm_tag, master, src, packets, order, times, k + 1);
        assert(outcomes_from(bytes, n, k) =~= seq![Ok::<Option<Seq<u8>>, CryptoError>(None)] + outcomes_from(
            bytes,
            n,
            k + 1,
        ));
    } else {
        assert(packets.skip(k + 1).len() == 0);
        assert(outcomes_from(bytes, n, k) =~= seq![Ok::<Option<Seq<u8>>, CryptoError>(Some(bytes))]
            + Seq::<Result<Option<Seq<u8>>, CryptoError>>::empty());
    }
}

/// The fragments of a message (its bytes in 80-byte chunks, each sealed under the
/// sender's subkey, as `fragment_and_encrypt` produces them), taken in by a receiver with
/// nothing in progress, each once and in any order (`packets[j]` is fragment `order[j]`),
/// each within the reassembly timeout of the one before,
/// give nothing until the last, which gives back the message's bytes; the message is then
/// remembered as completed and nothing stays in progress. The message must fit in 255
/// chunks and must not end in a zero byte (padding is cut off as zeros).
pub proof fn lemma_fragments_reassemble(
    bytes: Seq<u8>,
    msg_id: u32,
    swarm_tag: u64,
    master: Seq<u8>,
    src: u32,
    packets: Seq<MeshPacket>,
    order: Seq<int>,
    times: Seq<u64>,
)
    requires
        bytes.len() > 0,
        bytes.last() != 0,
        chunk_count(bytes.len() as int) <= 255,
        packets.len() == chunk_count(bytes.len() as int),
        times.len() == packets.len(),
        is_arrival_order(order, packets.len() as int),
        forall|i: int|
            0 <= i < packets.len() ==> #[trigger] is_fragment(
                packets[i],
                bytes,
                order[i],
                packets.len() as u8,
                msg_id,
                swarm_tag,
                sender_subkey(master, src),
            ),
        forall|i: int| 0 < i < times.len() ==> within_timeout(times[i - 1], #[trigger] times[i]),
    ensures
        ingest_all(empty_engine(), times, src, packets, master) == (
            EngineView {
                in_flight: Seq::empty(),
                completed: seq![(src, msg_id, times[packets.len() - 1])],
                outbox: Seq::empty(),
            },
            Seq::new(
                packets.len(),
                |k: int|
                    if k < packets.len() - 1 {
                        Ok::<Option<Seq<u8>>, CryptoError>(None)
                    } else {
                        Ok::<Option<Seq<u8>>, CryptoError>(Some(bytes))
                    },
            ),
        ),
{
    lemma_chunk_bounds(bytes.len() as int, packets.len() as int);
    lemma_fragments_from(bytes, msg_id, swarm_tag, master, src, packets, order, times, 0);
    assert(times.skip(0) =~= times);
    assert(packets.skip(0) =~= packets);
    assert(outcomes_from(bytes, packets.len() as int, 0) =~= Seq::new(
        packets.len(),
        |k: int|
            if k < packets.len() - 1 {
                Ok::<Option<Seq<u8>>, CryptoError>(None)
            } else {
                Ok::<Option<Seq<u8>>, CryptoError>(Some(bytes))
            },
    ));
}

} // verus!
