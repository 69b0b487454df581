use gibberish::identity::{
    contact_from_beacon, derive_sas_words, format_sas_words, generate_verification_qr_svg, ingest_announcement_beacon,
    verification_link, verify_contact_identity, IdentityError,
};
use gibberish::schema::{ContactRecord, TrustState};
use gibberish::store::{ContactStore, DbError, Recorded};
use std::cell::RefCell;

struct MemoryContacts {
    rows: RefCell<Vec<ContactRecord>>,
}

impl MemoryContacts {
    fn new() -> Self {
        MemoryContacts { rows: RefCell::new(Vec::new()) }
    }
}

impl ContactStore for MemoryContacts {
    fn get_contact(&self, node_id: u32) -> Result<Option<ContactRecord>, DbError> {
        Ok(self.rows.borrow().iter().find(|c| c.node_id == node_id).cloned())
    }

    fn upsert_contact(&self, contact: &ContactRecord) -> Result<(), DbError> {
        let mut rows = self.rows.borrow_mut();
        if let Some(c) = rows.iter_mut().find(|c| c.node_id == contact.node_id) {
            *c = contact.clone();
        } else {
            rows.push(contact.clone());
        }
        Ok(())
    }

    fn set_trust_state(&self, node_id: u32, trust: TrustState) -> Result<bool, DbError> {
        let mut rows = self.rows.borrow_mut();
        match rows.iter_mut().find(|c| c.node_id == node_id) {
            Some(c) => {
                c.trust_state = trust;
                Ok(true)
            }
            None => Ok(false),
        }
    }
}

#[test]
fn test_sas_derivation_deterministic_and_commutative() {
    let mut pk_alice = [0u8; 32];
    pk_alice[0] = 0xAA;
    pk_alice[31] = 0x01;

    let mut pk_bob = [0u8; 32];
    pk_bob[0] = 0xBB;
    pk_bob[31] = 0x02;

    let words_ab = derive_sas_words(&pk_alice, &pk_bob);
    let words_ba = derive_sas_words(&pk_bob, &pk_alice);

    assert_eq!(words_ab, words_ba);
    assert_eq!(words_ab.len(), 4);

    let formatted = format_sas_words(&words_ab);
    assert!(!formatted.is_empty());
    assert_eq!(formatted.split_whitespace().count(), 4);
}

#[test]
fn test_sas_mismatch_on_impersonation_ae2() {
    let mut pk_alice = [0u8; 32];
    pk_alice[0] = 0x01;
    let mut pk_bob = [0u8; 32];
    pk_bob[0] = 0x02;
    let mut pk_eve = [0u8; 32];
    pk_eve[0] = 0x66;

    let real_alice_bob_words = derive_sas_words(&pk_alice, &pk_bob);
    let eve_bob_words = derive_sas_words(&pk_eve, &pk_bob);

    assert_ne!(real_alice_bob_words, eve_bob_words, "Impersonator key must produce mismatched SAS words");
}

#[test]
fn test_qr_code_svg_generation() {
    let mut pk = [0u8; 32];
    pk[0] = 0xDE;
    pk[31] = 0xAD;

    let svg = generate_verification_qr_svg(0xBEBD82B4, "Alice", &pk).expect("QR generation failed");
    assert!(svg.contains("<svg"), "Output must contain SVG tag");
    assert!(svg.contains("</svg>"), "Output must be closed SVG");
}

#[test]
fn test_airwave_contact_discovery_and_trust_transition_ae1() {
    let mut db = Recorded::new(MemoryContacts::new());

    let mut pk = [0u8; 32];
    pk[0] = 0x42;

    let contact = ingest_announcement_beacon(&mut db, 0xBEBD82B4, "Alice_Node", &pk, -75, 185, 1000).expect("ingest beacon failed");

    assert_eq!(contact.trust_state, TrustState::Unverified);

    let stored = db.store().get_contact(0xBEBD82B4).unwrap().unwrap();
    assert_eq!(stored.trust_state, TrustState::Unverified);

    let verified = verify_contact_identity(&mut db, 0xBEBD82B4).expect("verify failed");
    assert!(verified);

    let updated = db.store().get_contact(0xBEBD82B4).unwrap().unwrap();
    assert_eq!(updated.trust_state, TrustState::Verified);

    let re_announced = ingest_announcement_beacon(&mut db, 0xBEBD82B4, "Alice_Node", &pk, -70, 200, 1050).expect("re-announce failed");
    assert_eq!(re_announced.trust_state, TrustState::Verified);
}

#[test]
fn verifying_an_unknown_contact_fails() {
    let mut db = Recorded::new(MemoryContacts::new());
    assert_eq!(verify_contact_identity(&mut db, 7), Err(IdentityError::ContactNotFound(7)));
}

#[test]
fn beacon_contact_falls_back_to_unverified_on_read_errors() {
    let pk = [1u8; 32];
    let c = contact_from_beacon(Err(DbError::LockPoisoned), 5, "n", &pk, -1, 2, 3);
    assert_eq!(c.trust_state, TrustState::Unverified);
    assert_eq!(c.node_id, 5);
    assert_eq!(c.alias, "n");
    assert_eq!(c.rssi, -1);
    assert_eq!(c.lqi, 2);
    assert_eq!(c.last_seen, 3);
}

#[test]
fn sas_words_are_bip39_words_joined_by_spaces() {
    let a = [0x10u8; 32];
    let b = [0x20u8; 32];
    let words = derive_sas_words(&a, &b);
    for w in words.iter() {
        assert!(!w.is_empty());
        assert!(w.chars().all(|c| c.is_ascii_lowercase()));
    }
    assert_eq!(format_sas_words(&words), format!("{} {} {} {}", words[0], words[1], words[2], words[3]));
    let same = derive_sas_words(&a, &a);
    assert_eq!(same, derive_sas_words(&a, &a));
}

#[test]
fn verification_link_format() {
    let mut pk = [0u8; 32];
    pk[0] = 0xDE;
    pk[31] = 0x0A;
    let link = verification_link(0xBEBD82B4, "Alice", &pk);
    assert_eq!(
        link,
        "gibberish://verify?node_id=0xBEBD82B4&alias=Alice&pubkey=de0000000000000000000000000000000000000000000000000000000000000a"
    );
}
