use gibberish::dedup::{SlidingBloomFilter, EPOCH_THRESHOLD};
use gibberish::frame::{MeshHeader, MeshPacket, CIPHERTEXT_LEN, FLAG_GROUP};
use gibberish::ieee802154::BackoffController;

fn packet(msg_id: u32, chunk_idx: u8) -> MeshPacket {
    let header = MeshHeader {
        network_tag: 0x0102030405060708,
        msg_id,
        chunk_idx,
        total_chunks: 4,
        ttl: 5,
        hop_count: 0,
        flags: FLAG_GROUP,
    };
    MeshPacket { header, payload: [0u8; CIPHERTEXT_LEN] }
}

#[test]
fn inserted_packet_stays_seen_through_the_window() {
    let mut f = SlidingBloomFilter::new();
    f.insert(7, 3);
    assert!(f.contains(7, 3));
    for k in 0..EPOCH_THRESHOLD as u32 {
        f.insert(1000 + k, (k % 200) as u8);
        assert!(f.contains(7, 3));
    }
}

#[test]
fn queued_packets_come_out_in_order_without_cancelled_ones() {
    let mut c = BackoffController::new();
    c.schedule_tx(packet(1, 0), 20);
    c.schedule_tx(packet(2, 0), 20);
    c.schedule_tx(packet(3, 0), 20);
    assert!(c.on_overhear(2, 0));
    assert_eq!(c.take_pending().map(|p| p.header.msg_id), Some(1));
    assert_eq!(c.take_pending().map(|p| p.header.msg_id), Some(3));
    assert_eq!(c.take_pending(), None);
    assert!(!c.has_pending());
}

#[test]
fn a_full_queue_drops_its_oldest_packet() {
    let mut c = BackoffController::new();
    for id in 1..=9u32 {
        c.schedule_tx(packet(id, 0), 20);
    }
    for id in 2..=9u32 {
        assert_eq!(c.take_pending().map(|p| p.header.msg_id), Some(id));
    }
    assert_eq!(c.take_pending(), None);
    assert!(!c.has_pending());
}
