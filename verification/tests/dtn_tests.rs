use gibberish::dtn_outbox::{
    AsymmetricPolicy, DtnOutboxEngine, IngestDeduplicator, OutboxStore, DEFAULT_OUTBOX_TTL_SECS,
};
use gibberish::schema::{MessageRecord, MessageStatus, OutboxRecord, OutboxStatus};
use std::cell::RefCell;
use std::rc::Rc;
use gibberish::frame::{FLAG_ACK_REQ, FLAG_CLIPBOARD, FLAG_DIRECT, FLAG_GROUP};
use std::time::Duration;

#[test]
fn test_asymmetric_policy_zero_broadcast_acks_r10_r13() {
    // 100 consecutive #all Swarm messages produce exactly ZERO ACK responses (R10, R13)
    let broadcast_flags = FLAG_GROUP | FLAG_CLIPBOARD;
    for _ in 0..100 {
        let emit_ack = AsymmetricPolicy::should_emit_ack(broadcast_flags);
        assert!(!emit_ack, "Swarm broadcast frame must NEVER emit ACK response");
    }

    // Direct message with ACK requested MUST emit ACK
    let direct_flags = FLAG_DIRECT | FLAG_ACK_REQ;
    assert!(
        AsymmetricPolicy::should_emit_ack(direct_flags),
        "Direct message with FLAG_ACK_REQ must trigger ACK"
    );

    // Direct message without ACK requested does not emit ACK
    assert!(
        !AsymmetricPolicy::should_emit_ack(FLAG_DIRECT),
        "Direct message without FLAG_ACK_REQ must not emit ACK"
    );

    // Protocol gate: reject FLAG_ACK_REQ attached to broadcast
    assert!(
        AsymmetricPolicy::validate_outbound_flags(FLAG_GROUP | FLAG_ACK_REQ).is_err(),
        "Must reject FLAG_ACK_REQ on broadcast frames"
    );
    assert!(
        AsymmetricPolicy::validate_outbound_flags(FLAG_GROUP).is_ok(),
        "Clean broadcast flags must validate cleanly"
    );
}

#[test]
fn test_ingest_deduplicator() {
    let mut dedup = IngestDeduplicator::new(Duration::from_secs(10));

    // First arrival
    assert!(!dedup.check_and_insert(0x11112222, 1));

    // Immediate duplicate
    assert!(dedup.check_and_insert(0x11112222, 1));

    // Different sequence number from same node
    assert!(!dedup.check_and_insert(0x11112222, 2));

    // Same sequence number from different node
    assert!(!dedup.check_and_insert(0x33334444, 1));
}

#[test]
fn test_ingest_deduplicator_forgets_after_window() {
    let mut dedup = IngestDeduplicator::new(Duration::from_secs(10));
    let second: u64 = 1_000_000_000;
    assert!(!dedup.check_and_insert_at(0, 7, 1));
    assert!(dedup.check_and_insert_at(10 * second, 7, 1));
    // Strictly older than the window: forgotten.
    assert!(!dedup.check_and_insert_at(10 * second + 1, 7, 1));
}

#[test]
fn test_group_flag_with_direct_and_ack_still_not_acknowledged() {
    assert!(!AsymmetricPolicy::should_emit_ack(FLAG_GROUP | FLAG_DIRECT | FLAG_ACK_REQ));
    assert!(AsymmetricPolicy::validate_outbound_flags(FLAG_DIRECT | FLAG_ACK_REQ).is_ok());
}

/// An in-memory stand-in for the daemon's database, with the same row semantics.
#[derive(Clone, Default)]
struct MemDb {
    outbox: Rc<RefCell<Vec<OutboxRecord>>>,
    messages: Rc<RefCell<Vec<MessageRecord>>>,
}

impl MemDb {
    fn insert_message(&self, m: &MessageRecord) {
        self.messages.borrow_mut().push(m.clone());
    }
    fn get_outbox(&self, id: &str) -> Option<OutboxRecord> {
        self.outbox.borrow().iter().find(|r| r.id == id).cloned()
    }
    fn get_message(&self, id: &str) -> Option<MessageRecord> {
        self.messages.borrow().iter().find(|r| r.id == id).cloned()
    }
    fn set_message_status(&self, id: &str, status: MessageStatus) {
        for m in self.messages.borrow_mut().iter_mut() {
            if m.id == id {
                m.status = status;
            }
        }
    }
    fn set_outbox_status(&self, id: &str, status: OutboxStatus) {
        for r in self.outbox.borrow_mut().iter_mut() {
            if r.id == id {
                r.status = status;
            }
        }
    }
}

impl OutboxStore for MemDb {
    type Error = String;

    fn insert_outbox(&self, record: &OutboxRecord) -> Result<(), String> {
        let mut rows = self.outbox.borrow_mut();
        if let Some(existing) = rows.iter_mut().find(|r| r.id == record.id) {
            existing.payload = record.payload.clone();
            existing.retry_count = record.retry_count;
            existing.status = record.status;
        } else {
            rows.push(record.clone());
        }
        Ok(())
    }

    fn list_pending_outbox_for_node(&self, dest_node_id: u32) -> Result<Vec<OutboxRecord>, String> {
        let mut rows: Vec<OutboxRecord> = self
            .outbox
            .borrow()
            .iter()
            .filter(|r| {
                r.dest_node_id == dest_node_id
                    && (r.status == OutboxStatus::Pending || r.status == OutboxStatus::Sending)
            })
            .cloned()
            .collect();
        rows.sort_by_key(|r| r.queued_at);
        Ok(rows)
    }

    fn mark_outbox_sending(&self, ids: &[&str]) -> Result<(), String> {
        for id in ids {
            self.set_outbox_status(id, OutboxStatus::Sending);
        }
        Ok(())
    }

    fn mark_outbox_sent(&self, ids: &[&str]) -> Result<(), String> {
        for id in ids {
            self.set_outbox_status(id, OutboxStatus::Sent);
            self.set_message_status(id, MessageStatus::Delivered);
        }
        Ok(())
    }

    fn evict_expired_outbox(&self, current_time: i64) -> Result<Vec<String>, String> {
        let ids: Vec<String> = self
            .outbox
            .borrow()
            .iter()
            .filter(|r| {
                (r.status == OutboxStatus::Pending || r.status == OutboxStatus::Sending)
                    && r.queued_at + (r.ttl_secs as i64) < current_time
            })
            .map(|r| r.id.clone())
            .collect();
        for id in &ids {
            self.set_outbox_status(id, OutboxStatus::Failed);
            self.set_message_status(id, MessageStatus::Failed);
        }
        Ok(ids)
    }
}

#[test]
fn test_offline_dtn_queue_and_beacon_flush_f2() {
    let db = MemDb::default();
    let mut engine = DtnOutboxEngine::new(db.clone());

    let dest_node_id = 0xC3A109F2;
    let msg_id = "msg-offline-101";

    let chat_msg = MessageRecord {
        id: msg_id.to_string(),
        convo_id: format!("0x{:08X}", dest_node_id),
        sender_node_id: 0x01,
        timestamp: 1000,
        text: "Offline dispatched directive".to_string(),
        status: MessageStatus::Queued,
    };
    db.insert_message(&chat_msg);

    // Peer is offline: queue in DTN outbox
    let queued = engine
        .queue_message(msg_id, dest_node_id, b"Encrypted payload bytes".to_vec(), DEFAULT_OUTBOX_TTL_SECS, 1000)
        .expect("queue failed");
    assert_eq!(queued.status, OutboxStatus::Pending);

    assert!(!engine.is_peer_recently_heard(dest_node_id));

    // Radio listener overhears peer announcement beacon
    let flush_batch = engine.on_peer_beacon_overheard(dest_node_id).expect("beacon flush failed");
    assert_eq!(flush_batch.len(), 1);
    assert_eq!(flush_batch[0].id, msg_id);

    let sending_item = db.get_outbox(msg_id).unwrap();
    assert_eq!(sending_item.status, OutboxStatus::Sending);

    assert!(engine.is_peer_recently_heard(dest_node_id));

    // Recipient returns a delivery receipt
    let acked = engine.on_delivery_ack_received(msg_id).expect("ack received failed");
    assert!(acked);

    let sent_item = db.get_outbox(msg_id).unwrap();
    assert_eq!(sent_item.status, OutboxStatus::Sent);

    let delivered_msg = db.get_message(msg_id).unwrap();
    assert_eq!(delivered_msg.status, MessageStatus::Delivered);
    assert_eq!(delivered_msg.status.symbol(), "[OK]");
}

#[test]
fn test_dtn_outbox_48h_ttl_eviction_ae3() {
    let db = MemDb::default();
    let mut engine = DtnOutboxEngine::new(db.clone());

    let dest_node_id = 0xC3A109F2;
    let msg_id = "msg-ttl-expire-202";

    let chat_msg = MessageRecord {
        id: msg_id.to_string(),
        convo_id: format!("0x{:08X}", dest_node_id),
        sender_node_id: 0x01,
        timestamp: 1000,
        text: "Expiring offline message".to_string(),
        status: MessageStatus::Queued,
    };
    db.insert_message(&chat_msg);

    engine.queue_message(msg_id, dest_node_id, b"Payload".to_vec(), 48 * 3600, 1000).expect("queue failed");

    // 24 hours elapse: not expired
    let evicted_24h = engine.evict_expired(1000 + 86400).expect("evict failed");
    assert!(evicted_24h.is_empty());

    // 48 hours + 1s elapse: must evict
    let evicted_48h = engine.evict_expired(1000 + 172801).expect("evict failed");
    assert_eq!(evicted_48h.len(), 1);
    assert_eq!(evicted_48h[0], msg_id);

    let outbox_record = db.get_outbox(msg_id).unwrap();
    assert_eq!(outbox_record.status, OutboxStatus::Failed);

    let msg_record = db.get_message(msg_id).unwrap();
    assert_eq!(msg_record.status, MessageStatus::Failed);
    assert_eq!(msg_record.status.symbol(), "[!]");
}
