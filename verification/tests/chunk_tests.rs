use gibberish::chunk::{ChunkEngine, MAX_TOTAL_CHUNKS, SACK_INITIAL_DELAY_MS};
use gibberish::frame::{MeshHeader, MeshPacket, SackPayload, DEFAULT_NETWORK_TAG, FLAG_CLIPBOARD, FLAG_SACK};
use gibberish::nonce::{NonceManager, NonceStore};
use gibberish::secrecy::Secret;

struct MemoryNonceStore {
    saved: Vec<(u32, u64)>,
}

impl NonceStore for MemoryNonceStore {
    type Error = ();

    fn persist_reservation(&mut self, epoch: u32, next_allocated_block: u64) -> Result<(), ()> {
        self.saved.push((epoch, next_allocated_block));
        Ok(())
    }
}

fn nonce_manager() -> NonceManager<MemoryNonceStore> {
    NonceManager::open(MemoryNonceStore { saved: Vec::new() }, 1_700_000_000, 0, 0).unwrap()
}

#[test]
fn test_fragment_and_reassembly_roundtrip() {
    let master_key = Secret::new([0x33u8; 32]);
    let local_node = 0xBEBCE5B8;
    let mut nonce_mgr = nonce_manager();

    let original_text = Secret::new(
        "The quick brown fox jumps over the lazy dog! Running across IEEE 802.15.4 Channel 15 mesh airwaves with 0-trust ChaCha20-Poly1305 encryption."
            .to_string(),
    );

    let packets =
        ChunkEngine::fragment_and_encrypt(&original_text, DEFAULT_NETWORK_TAG, local_node, &master_key, &mut nonce_mgr)
            .expect("Fragmentation failed");

    assert!(packets.len() > 1);

    let mut engine = ChunkEngine::new();
    let mut reassembled = None;
    // Ingest packets in scrambled order to verify out-of-order robustness
    for pkt in packets.iter().rev() {
        if let Some(text) = engine.ingest_packet(local_node, pkt, &master_key).expect("Ingest failed") {
            reassembled = Some(text);
        }
    }

    let final_text = reassembled.expect("Failed to reassemble complete message");
    assert_eq!(final_text.expose_secret(), original_text.expose_secret());
}

#[test]
fn test_anti_dos_caps() {
    let mut engine = ChunkEngine::new();
    let master_key = Secret::new([0x55u8; 32]);

    let invalid_hdr = MeshHeader {
        network_tag: DEFAULT_NETWORK_TAG,
        msg_id: 1,
        chunk_idx: 0,
        total_chunks: 255,
        ttl: 7,
        hop_count: 0,
        flags: FLAG_CLIPBOARD,
    };
    let pkt = MeshPacket { header: invalid_hdr, payload: [0u8; 96] };

    let res = engine.ingest_packet(0x11112222, &pkt, &master_key);
    // Should fail authentication or be dropped cleanly
    assert!(res.is_err() || res.unwrap().is_none());
    assert!(255 <= MAX_TOTAL_CHUNKS);
}

#[test]
fn test_sack_missing_chunk_recovery() {
    let master_key = Secret::new([0x77u8; 32]);
    let sender_node = 0xAAAA1111;
    let receiver_node = 0xBBBB2222;
    let mut nonce_mgr = nonce_manager();

    let original_text = Secret::new(
        "Selective Acknowledgment (SACK) recovery test message designed to span across exactly three mesh frames to reliably simulate RF chunk loss and recovery across 802.15.4 airwaves without any data corruption.".to_string()
    );

    let packets =
        ChunkEngine::fragment_and_encrypt(&original_text, DEFAULT_NETWORK_TAG, sender_node, &master_key, &mut nonce_mgr)
            .expect("Fragmentation failed");

    assert_eq!(packets.len(), 3);

    let mut sender_engine = ChunkEngine::new();
    sender_engine.cache_outbound_at(0, &packets);

    let mut receiver_engine = ChunkEngine::new();

    // Receiver ingests chunk 0 and chunk 2 (chunk 1 is lost to RF interference)
    let res0 = receiver_engine.ingest_packet_at(1_000, sender_node, &packets[0], &master_key).unwrap();
    assert!(res0.is_none());

    let res2 = receiver_engine.ingest_packet_at(1_000, sender_node, &packets[2], &master_key).unwrap();
    assert!(res2.is_none());

    // Immediately checking pending SACKs returns empty because the initial delay has not elapsed
    let sacks_immediate = receiver_engine.check_pending_sacks_at(1_000, receiver_node, DEFAULT_NETWORK_TAG);
    assert!(sacks_immediate.is_empty());

    // 350 ms later the receiver generates a compact 1-packet bitmask SACK
    let sacks = receiver_engine.check_pending_sacks_at(1_350, receiver_node, DEFAULT_NETWORK_TAG);
    assert_eq!(sacks.len(), 1);
    let sack_pkt = &sacks[0];
    assert_eq!(sack_pkt.header.flags & FLAG_SACK, FLAG_SACK);
    assert_eq!(sack_pkt.header.msg_id, packets[0].header.msg_id);

    let sack_payload = SackPayload::deserialize(&sack_pkt.payload);
    assert_eq!(sack_payload.receiver_node_id, receiver_node);
    assert_eq!(sack_payload.sender_node_id, sender_node);
    assert_eq!(sack_payload.missing_count(), 1);
    assert!(!sack_payload.is_missing(0));
    assert!(sack_payload.is_missing(1));
    assert!(!sack_payload.is_missing(2));

    // Sender handles SACK and retransmits ONLY the missing chunk (chunk 1)
    let retransmitted = sender_engine.handle_sack(sack_pkt);
    assert_eq!(retransmitted.len(), 1);
    assert_eq!(retransmitted[0].header.chunk_idx, 1);
    assert_eq!(retransmitted[0].payload, packets[1].payload);

    // Receiver ingests the retransmitted chunk 1
    let reassembled = receiver_engine.ingest_packet_at(1_400, sender_node, &retransmitted[0], &master_key).unwrap();

    assert!(reassembled.is_some());
    assert_eq!(reassembled.unwrap().expose_secret(), original_text.expose_secret());
}

#[test]
fn test_sack_rate_limiting_and_suppression() {
    let master_key = Secret::new([0x88u8; 32]);
    let sender_node = 0xCCCC3333;
    let receiver_node = 0xDDDD4444;
    let mut nonce_mgr = nonce_manager();

    let original_text = Secret::new(
        "Rate-limiting verification for SACK frames to prevent broadcast storms during lossy mesh link states."
            .to_string(),
    );

    let packets =
        ChunkEngine::fragment_and_encrypt(&original_text, DEFAULT_NETWORK_TAG, sender_node, &master_key, &mut nonce_mgr)
            .expect("Fragmentation failed");

    let mut receiver_engine = ChunkEngine::new();
    receiver_engine.ingest_packet_at(5_000, sender_node, &packets[0], &master_key).unwrap();

    // First SACK fires once the entry has aged past the initial delay
    let sacks1 = receiver_engine.check_pending_sacks_at(5_350, receiver_node, DEFAULT_NETWORK_TAG);
    assert_eq!(sacks1.len(), 1);

    // Immediate subsequent check: rate-limited by the retry interval
    let sacks2 = receiver_engine.check_pending_sacks_at(5_350, receiver_node, DEFAULT_NETWORK_TAG);
    assert!(sacks2.is_empty());

    // Test overheard SACK suppression
    receiver_engine.suppress_sack_at(5_350, packets[0].header.msg_id);
    // Still suppressed
    let sacks3 = receiver_engine.check_pending_sacks_at(5_350, receiver_node, DEFAULT_NETWORK_TAG);
    assert!(sacks3.is_empty());
}

#[test]
fn completed_message_is_not_delivered_twice() {
    // A message completed once is not delivered again when its chunks are replayed.
    let master_key = Secret::new([0x21u8; 32]);
    let node = 0x0102_0304;
    let mut nonce_mgr = nonce_manager();
    let text = Secret::new("short echo".to_string());
    let packets = ChunkEngine::fragment_and_encrypt(&text, DEFAULT_NETWORK_TAG, node, &master_key, &mut nonce_mgr)
        .expect("Fragmentation failed");
    assert_eq!(packets.len(), 1);
    let mut engine = ChunkEngine::new();
    let first = engine.ingest_packet_at(100, node, &packets[0], &master_key).unwrap();
    assert_eq!(first.unwrap().expose_secret(), text.expose_secret());
    let replay = engine.ingest_packet_at(200, node, &packets[0], &master_key).unwrap();
    assert!(replay.is_none());
}

#[test]
fn sack_waits_for_initial_delay() {
    let master_key = Secret::new([0x44u8; 32]);
    let node = 0x0A0B_0C0D;
    let mut nonce_mgr = nonce_manager();
    let text = Secret::new("x".repeat(200));
    let packets = ChunkEngine::fragment_and_encrypt(&text, DEFAULT_NETWORK_TAG, node, &master_key, &mut nonce_mgr)
        .expect("Fragmentation failed");
    assert_eq!(packets.len(), 3);
    let mut engine = ChunkEngine::new();
    engine.ingest_packet_at(10_000, node, &packets[1], &master_key).unwrap();
    assert!(engine.check_pending_sacks_at(10_000 + SACK_INITIAL_DELAY_MS - 1, 1, DEFAULT_NETWORK_TAG).is_empty());
    assert_eq!(engine.check_pending_sacks_at(10_000 + SACK_INITIAL_DELAY_MS, 1, DEFAULT_NETWORK_TAG).len(), 1);
}

#[test]
fn tampered_chunk_is_rejected() {
    let master_key = Secret::new([0x66u8; 32]);
    let node = 0x1111_2222;
    let mut nonce_mgr = nonce_manager();
    let text = Secret::new("integrity".to_string());
    let mut packets = ChunkEngine::fragment_and_encrypt(&text, DEFAULT_NETWORK_TAG, node, &master_key, &mut nonce_mgr)
        .expect("Fragmentation failed");
    packets[0].payload[0] ^= 0x01;
    let mut engine = ChunkEngine::new();
    assert!(engine.ingest_packet_at(0, node, &packets[0], &master_key).is_err());
}

#[test]
fn fragments_use_consecutive_counters() {
    let master_key = Secret::new([0x12u8; 32]);
    let mut nonce_mgr = nonce_manager();
    let a = ChunkEngine::fragment_and_encrypt(&Secret::new("a".to_string()), DEFAULT_NETWORK_TAG, 0x100, &master_key, &mut nonce_mgr)
        .unwrap();
    let b = ChunkEngine::fragment_and_encrypt(&Secret::new("b".to_string()), DEFAULT_NETWORK_TAG, 0x100, &master_key, &mut nonce_mgr)
        .unwrap();
    assert_ne!(a[0].header.msg_id, b[0].header.msg_id);
    assert_eq!(a[0].header.total_chunks, 1);
    assert_eq!(a[0].header.network_tag, DEFAULT_NETWORK_TAG);
}
