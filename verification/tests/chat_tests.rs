use gibberish::chat::{
    decrypt_direct_message, decrypt_swarm_broadcast, direct_convo_id, encrypt_direct_message, encrypt_swarm_broadcast,
    persist_chat_message, ChatError,
};
use gibberish::frame::{FLAG_ACK_REQ, FLAG_DIRECT, FLAG_GROUP};
use gibberish::ratchet::{CryptoError, KeyPair};
use gibberish::schema::{MessageRecord, MessageStatus};
use gibberish::secrecy::Secret;
use gibberish::store::{DbError, MessageStore, Recorded};
use std::cell::RefCell;

struct MemoryMessages {
    rows: RefCell<Vec<MessageRecord>>,
}

impl MessageStore for MemoryMessages {
    fn insert_message(&self, msg: &MessageRecord) -> Result<(), DbError> {
        self.rows.borrow_mut().push(msg.clone());
        Ok(())
    }
}

impl MemoryMessages {
    fn list_messages(&self, convo_id: &str, limit: usize, offset: usize) -> Vec<MessageRecord> {
        self.rows.borrow().iter().filter(|m| m.convo_id == convo_id).skip(offset).take(limit).cloned().collect()
    }
}

struct FailingMessages;

impl MessageStore for FailingMessages {
    fn insert_message(&self, _msg: &MessageRecord) -> Result<(), DbError> {
        Err(DbError::LockPoisoned)
    }
}

#[test]
fn test_swarm_broadcast_encryption_roundtrip_f3() {
    let swarm_key = Secret::new([0x55; 32]);
    let local_node_id = 0xBEBCE5B8;
    let msg_id = 42;
    let text = "Emergency: Swarm Channel Alert #all";

    let frame = encrypt_swarm_broadcast(&swarm_key, local_node_id, msg_id, text).expect("encrypt broadcast failed");

    assert_eq!(frame.flags & FLAG_GROUP, FLAG_GROUP);
    assert_eq!(frame.flags & FLAG_ACK_REQ, 0, "FLAG_ACK_REQ must be zero for broadcast");
    assert_eq!(frame.status, MessageStatus::Transmitted);
    assert_eq!(frame.convo_id, "#all");

    let decrypted =
        decrypt_swarm_broadcast(&swarm_key, local_node_id, msg_id, &frame.ciphertext).expect("decrypt broadcast failed");
    assert_eq!(decrypted, text);
}

#[test]
fn test_pairwise_ratcheted_dm_encryption_roundtrip() {
    let alice_keypair = KeyPair::from_secret_bytes([0x01; 32]);
    let bob_keypair = KeyPair::from_secret_bytes([0x02; 32]);

    let _alice_node_id: u32 = 0xAAAA0001;
    let bob_node_id: u32 = 0xBBBB0002;
    let msg_id = 99;
    let text = "Classified pairwise dispatch to Bob";

    let frame = encrypt_direct_message(&alice_keypair, bob_keypair.public_key(), bob_node_id, msg_id, text, true)
        .expect("encrypt DM failed");

    assert_eq!(frame.flags & FLAG_DIRECT, FLAG_DIRECT);
    assert_eq!(frame.flags & FLAG_ACK_REQ, FLAG_ACK_REQ);
    assert_eq!(frame.status, MessageStatus::Transmitted);
    assert_eq!(frame.convo_id, "0xBBBB0002");

    let decrypted =
        decrypt_direct_message(&bob_keypair, alice_keypair.public_key(), msg_id, frame.counter, &frame.ciphertext)
            .expect("decrypt DM failed");
    assert_eq!(decrypted, text);
}

#[test]
fn test_pairwise_offline_dm_initial_status_queued() {
    let alice_keypair = KeyPair::from_secret_bytes([0x11; 32]);
    let bob_keypair = KeyPair::from_secret_bytes([0x22; 32]);

    let frame =
        encrypt_direct_message(&alice_keypair, bob_keypair.public_key(), 0xDEADBEEF, 1, "Offline queued message", false)
            .expect("encrypt DM failed");

    assert_eq!(frame.status, MessageStatus::Queued);
    assert_eq!(frame.status.symbol(), "[Q]");
}

#[test]
fn test_chat_message_persistence_in_db() {
    let mut db = Recorded::new(MemoryMessages { rows: RefCell::new(Vec::new()) });

    let rec = persist_chat_message(&mut db, "msg-test-1", "#all", 0xBEBCE5B8, 1700000000, "Stored swarm message", MessageStatus::Transmitted)
        .expect("persist failed");

    assert_eq!(rec.id, "msg-test-1");
    assert_eq!(rec.status, MessageStatus::Transmitted);

    let messages = db.store().list_messages("#all", 10, 0);
    assert_eq!(messages.len(), 1);
    assert_eq!(messages[0].text, "Stored swarm message");
}

#[test]
fn persistence_failure_is_a_db_error() {
    let r = persist_chat_message(&mut Recorded::new(FailingMessages), "m", "#all", 1, 2, "t", MessageStatus::Failed);
    assert!(matches!(r, Err(ChatError::Db(DbError::LockPoisoned))));
}

#[test]
fn oversized_messages_are_refused() {
    let key = Secret::new([1u8; 32]);
    let text = "x".repeat(81);
    assert_eq!(encrypt_swarm_broadcast(&key, 1, 1, &text).unwrap_err(), ChatError::PayloadTooLarge(81));
    // Three-byte characters: 27 of them take 81 bytes.
    let wide = "\u{20AC}".repeat(27);
    assert_eq!(encrypt_swarm_broadcast(&key, 1, 1, &wide).unwrap_err(), ChatError::PayloadTooLarge(81));
    let kp = KeyPair::from_secret_bytes([3u8; 32]);
    let peer = KeyPair::from_secret_bytes([4u8; 32]);
    assert_eq!(
        encrypt_direct_message(&kp, peer.public_key(), 1, 1, &text, true).unwrap_err(),
        ChatError::PayloadTooLarge(81)
    );
    assert!(encrypt_swarm_broadcast(&key, 1, 1, &"y".repeat(80)).is_ok());
}

#[test]
fn broadcast_from_another_sender_does_not_open() {
    let key = Secret::new([0x55; 32]);
    let frame = encrypt_swarm_broadcast(&key, 1, 7, "hello").unwrap();
    assert_eq!(
        decrypt_swarm_broadcast(&key, 2, 7, &frame.ciphertext),
        Err(ChatError::Crypto(CryptoError::AuthenticationFailed))
    );
    assert_eq!(frame.dest_node_id, 0xFFFF_FFFF);
    assert_eq!(frame.counter, 0);
    assert_eq!(frame.msg_id, 7);
}

#[test]
fn multibyte_text_roundtrips() {
    let key = Secret::new([0x21; 32]);
    let text = "Grüße aus dem Mesh \u{1F4E1}";
    let frame = encrypt_swarm_broadcast(&key, 9, 1, text).unwrap();
    assert_eq!(decrypt_swarm_broadcast(&key, 9, 1, &frame.ciphertext).unwrap(), text);
}

#[test]
fn direct_message_for_someone_else_does_not_open() {
    let alice = KeyPair::from_secret_bytes([0x01; 32]);
    let bob = KeyPair::from_secret_bytes([0x02; 32]);
    let eve = KeyPair::from_secret_bytes([0x03; 32]);
    let frame = encrypt_direct_message(&alice, bob.public_key(), 2, 5, "for bob", true).unwrap();
    assert!(decrypt_direct_message(&eve, alice.public_key(), 5, frame.counter, &frame.ciphertext).is_err());
    assert!(decrypt_direct_message(&bob, alice.public_key(), 5, frame.counter + 1, &frame.ciphertext).is_err());
}

#[test]
fn direct_conversation_ids_are_eight_hex_digits() {
    assert_eq!(direct_convo_id(0), "0x00000000");
    assert_eq!(direct_convo_id(0xBEBD82B4), "0xBEBD82B4");
    assert_eq!(direct_convo_id(0xAB), "0x000000AB");
}
