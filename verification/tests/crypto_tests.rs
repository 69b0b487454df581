use gibberish::ratchet::{
    decrypt_chunk, derive_implicit_nonce, derive_network_tag, derive_sender_subkey, encrypt_chunk, CryptoError,
    KeyPair, SenderKeyChain,
};
use gibberish::secrecy::Secret;

#[test]
fn test_chacha20_roundtrip_with_implicit_nonce() {
    let key = Secret::new([0x42u8; 32]);
    let msg_id = 12345;
    let chunk_idx = 2;
    let ratchet_counter = 77;
    let plaintext = b"Hello, Gibberish encrypted mesh swarm! This is 80B chunk.";

    let ciphertext = encrypt_chunk(&key, msg_id, chunk_idx, ratchet_counter, plaintext).expect("encryption failed");

    // Ciphertext must be 96 bytes (80B body + 16B tag)
    assert_eq!(ciphertext.len(), 96);

    let decrypted = decrypt_chunk(&key, msg_id, chunk_idx, ratchet_counter, &ciphertext).expect("decryption failed");

    assert_eq!(&decrypted[..plaintext.len()], plaintext);

    // Tamper with ciphertext tag
    let mut tampered = ciphertext;
    tampered[95] ^= 0xFF;
    let err = decrypt_chunk(&key, msg_id, chunk_idx, ratchet_counter, &tampered);
    assert_eq!(err, Err(CryptoError::AuthenticationFailed));

    // Wrong ratchet counter should fail authentication because nonce differs
    let wrong_counter = decrypt_chunk(&key, msg_id, chunk_idx, ratchet_counter + 1, &ciphertext);
    assert_eq!(wrong_counter, Err(CryptoError::AuthenticationFailed));
}

#[test]
fn test_sender_key_chain_stepping() {
    let seed = Secret::new([0x13u8; 32]);
    let mut chain = SenderKeyChain::new(seed);

    assert_eq!(chain.counter(), 0);
    let (key0, step0) = chain.step();
    assert_eq!(step0, 0);

    let (key1, step1) = chain.step();
    assert_eq!(step1, 1);

    assert_ne!(key0.expose_secret(), key1.expose_secret());
    assert_eq!(chain.counter(), 2);
}

#[test]
fn test_x25519_diffie_hellman_shared_secret() {
    let alice_priv = [1u8; 32];
    let bob_priv = [2u8; 32];

    let alice = KeyPair::from_secret_bytes(alice_priv);
    let bob = KeyPair::from_secret_bytes(bob_priv);

    let alice_shared = alice.diffie_hellman(bob.public_key());
    let bob_shared = bob.diffie_hellman(alice.public_key());

    assert_eq!(alice_shared.expose_secret(), bob_shared.expose_secret());
}

#[test]
fn test_network_tag_derivation() {
    let swarm_key = [0x77u8; 32];
    let tag1 = derive_network_tag(&swarm_key);
    let tag2 = derive_network_tag(&swarm_key);
    assert_eq!(tag1, tag2);

    let other_key = [0x78u8; 32];
    let tag3 = derive_network_tag(&other_key);
    assert_ne!(tag1, tag3);
}

#[test]
fn test_secret_redaction_and_zeroize() {
    let secret = Secret::new([42u8; 32]);
    assert_eq!(secret.to_string(), "<REDACTED>");
    assert_eq!(*secret.expose_secret(), [42u8; 32]);
}

#[test]
fn encrypt_rejects_plaintext_over_one_chunk() {
    let key = Secret::new([0x01u8; 32]);
    let long = [0x61u8; 81];
    assert_eq!(encrypt_chunk(&key, 1, 0, 0, &long), Err(CryptoError::PayloadTooLarge));
    let exact = [0x61u8; 80];
    assert!(encrypt_chunk(&key, 1, 0, 0, &exact).is_ok());
}

#[test]
fn decrypted_chunk_is_zero_padded() {
    let key = Secret::new([0x09u8; 32]);
    let ct = encrypt_chunk(&key, 7, 3, 0, b"abc").unwrap();
    let pt = decrypt_chunk(&key, 7, 3, 0, &ct).unwrap();
    assert_eq!(&pt[..3], b"abc");
    assert!(pt[3..].iter().all(|&b| b == 0));
}

#[test]
fn implicit_nonce_depends_on_every_input() {
    let key = [0x10u8; 32];
    let base = derive_implicit_nonce(&key, 1, 0, 0);
    assert_eq!(base, derive_implicit_nonce(&key, 1, 0, 0));
    assert_ne!(base, derive_implicit_nonce(&key, 2, 0, 0));
    assert_ne!(base, derive_implicit_nonce(&key, 1, 1, 0));
    assert_ne!(base, derive_implicit_nonce(&key, 1, 0, 1));
    assert_ne!(base, derive_implicit_nonce(&[0x11u8; 32], 1, 0, 0));
}

#[test]
fn sender_subkeys_differ_per_node_and_differ_from_master() {
    let master = Secret::new([0x55u8; 32]);
    let a = derive_sender_subkey(&master, 1);
    let b = derive_sender_subkey(&master, 2);
    assert_ne!(a.expose_secret(), b.expose_secret());
    assert_ne!(a.expose_secret(), master.expose_secret());
    assert_eq!(a.expose_secret(), derive_sender_subkey(&master, 1).expose_secret());
}
