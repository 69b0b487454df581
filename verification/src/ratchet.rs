//! Cryptographic operations: ChaCha20-Poly1305 chunk encryption with implicit nonces,
//! BLAKE3 key derivation, the sender-key ratchet and X25519 key agreement.
use vstd::prelude::*;
use chacha20poly1305::aead::{AeadInPlace, KeyInit};
use chacha20poly1305::{ChaCha20Poly1305, Key, Nonce, Tag};
use x25519_dalek::{PublicKey, StaticSecret};
use crate::bytes::{be4, be8, get_be8, load_be8, push_all, push_be4, push_be8};
use crate::frame::{CIPHERTEXT_LEN, PLAINTEXT_CHUNK_LEN};
use crate::secrecy::Secret;

verus! {

#[derive(Debug, Clone, Copy, PartialEq, Eq, Structural)]
pub enum CryptoError {
    AuthenticationFailed,
    InvalidKeyLength,
    InvalidNonce,
    PayloadTooLarge,
}

/// Domain separator of implicit nonces ("GIBBERISH-NONCE-V1").
pub const NONCE_DOMAIN: [u8; 18] = [
    0x47, 0x49, 0x42, 0x42, 0x45, 0x52, 0x49, 0x53, 0x48, 0x2D, 0x4E, 0x4F, 0x4E, 0x43, 0x45, 0x2D, 0x56, 0x31,
];

/// Domain separator of network admission tags ("GIBBERISH-NETWORK-ADMISSION-TAG-V1").
pub const NETWORK_TAG_DOMAIN: [u8; 34] = [
    0x47, 0x49, 0x42, 0x42, 0x45, 0x52, 0x49, 0x53, 0x48, 0x2D, 0x4E, 0x45, 0x54, 0x57, 0x4F, 0x52, 0x4B,
    0x2D, 0x41, 0x44, 0x4D, 0x49, 0x53, 0x53, 0x49, 0x4F, 0x4E, 0x2D, 0x54, 0x41, 0x47, 0x2D, 0x56, 0x31,
];

/// Domain separator of sender subkeys ("GIBBERISH-SENDER-SUBKEY-V1").
pub const SENDER_SUBKEY_DOMAIN: [u8; 26] = [
    0x47, 0x49, 0x42, 0x42, 0x45, 0x52, 0x49, 0x53, 0x48, 0x2D, 0x53, 0x45, 0x4E, 0x44, 0x45, 0x52, 0x2D,
    0x53, 0x55, 0x42, 0x4B, 0x45, 0x59, 0x2D, 0x56, 0x31,
];

/// Domain separator of ratchet message keys ("SENDER-KEY-MSG").
pub const CHAIN_MSG_DOMAIN: [u8; 14] = [
    0x53, 0x45, 0x4E, 0x44, 0x45, 0x52, 0x2D, 0x4B, 0x45, 0x59, 0x2D, 0x4D, 0x53, 0x47,
];

/// Domain separator of ratchet chain keys ("SENDER-KEY-NEXT").
pub const CHAIN_NEXT_DOMAIN: [u8; 15] = [
    0x53, 0x45, 0x4E, 0x44, 0x45, 0x52, 0x2D, 0x4B, 0x45, 0x59, 0x2D, 0x4E, 0x45, 0x58, 0x54,
];

/// The 32-byte BLAKE3 keyed hash of `data` under `key`.
pub uninterp spec fn blake3_keyed(key: Seq<u8>, data: Seq<u8>) -> Seq<u8>;

/// Calls `blake3::keyed_hash`: the keyed BLAKE3 hash of `data`, which the crate documents
/// as equal to feeding `data` to `Hasher::new_keyed(key)` in any number of updates.
#[verifier::external_body]
fn keyed_hash(key: &[u8; 32], data: &[u8]) -> (r: [u8; 32])
    ensures
        r@ == blake3_keyed(key@, data@),
{
    *blake3::keyed_hash(key, data).as_bytes()
}

/// ChaCha20-Poly1305 sealing with empty associated data: the ciphertext followed by the
/// 16-byte tag.
pub uninterp spec fn chacha20poly1305_seal(key: Seq<u8>, nonce: Seq<u8>, plaintext: Seq<u8>) -> Seq<u8>;

/// ChaCha20-Poly1305 opening with empty associated data of a ciphertext followed by its
/// tag: the plaintext when the tag authenticates, else nothing.
pub uninterp spec fn chacha20poly1305_open(key: Seq<u8>, nonce: Seq<u8>, sealed: Seq<u8>) -> Option<Seq<u8>>;

#[verifier::external_type_specification]
#[verifier::external_body]
pub struct ExAeadError(chacha20poly1305::Error);

/// Calls `ChaCha20Poly1305::encrypt_in_place_detached` with empty associated data: encrypts
/// `buffer` in place and returns the tag. The crate fails only for buffers of 2^32 blocks
/// or more, so on 80 bytes it always succeeds; and, as for any AEAD, opening the result
/// under the same key and nonce gives the plaintext back.
#[verifier::external_body]
fn seal_in_place(key: &[u8; 32], nonce: &[u8; 12], buffer: &mut [u8; 80]) -> (r: Result<[u8; 16], chacha20poly1305::Error>)
    ensures
        r matches Ok(tag) && final(buffer)@ + tag@ == chacha20poly1305_seal(key@, nonce@, old(buffer)@),
        r matches Ok(tag) && chacha20poly1305_open(key@, nonce@, final(buffer)@ + tag@) == Some(old(buffer)@),
{
    let cipher = ChaCha20Poly1305::new(Key::from_slice(key));
    match cipher.encrypt_in_place_detached(Nonce::from_slice(nonce), b"", buffer) {
        Ok(tag) => Ok(tag.into()),
        Err(e) => Err(e),
    }
}

/// Calls `ChaCha20Poly1305::decrypt_in_place_detached` with empty associated data: checks
/// `tag` over `buffer` and, when it authenticates, decrypts `buffer` in place. What sealing
/// under the same key and nonce produced always opens to its plaintext.
#[verifier::external_body]
fn open_in_place(key: &[u8; 32], nonce: &[u8; 12], buffer: &mut [u8; 80], tag: &[u8; 16]) -> (r: Result<(), chacha20poly1305::Error>)
    ensures
        r is Ok <==> chacha20poly1305_open(key@, nonce@, old(buffer)@ + tag@) is Some,
        r is Ok ==> final(buffer)@ == chacha20poly1305_open(key@, nonce@, old(buffer)@ + tag@)->0,
        forall|p: Seq<u8>|
            p.len() == 80 && #[trigger] chacha20poly1305_seal(key@, nonce@, p) == old(buffer)@ + tag@ ==> r is Ok
                && final(buffer)@ == p,
{
    let cipher = ChaCha20Poly1305::new(Key::from_slice(key));
    cipher.decrypt_in_place_detached(Nonce::from_slice(nonce), b"", buffer, Tag::from_slice(tag))
}

/// The X25519 public key of a secret key.
pub uninterp spec fn x25519_public(secret: Seq<u8>) -> Seq<u8>;

/// The X25519 shared secret of a secret key and a peer's public key.
pub uninterp spec fn x25519_shared(secret: Seq<u8>, peer_public: Seq<u8>) -> Seq<u8>;

/// Calls `PublicKey::from(&StaticSecret::from(secret))`: the public key of a secret key.
#[verifier::external_body]
fn x25519_public_key(secret: &[u8; 32]) -> (r: [u8; 32])
    ensures
        r@ == x25519_public(secret@),
{
    let sk = StaticSecret::from(*secret);
    *PublicKey::from(&sk).as_bytes()
}

/// Calls `StaticSecret::diffie_hellman`: the shared secret with a peer's public key. As the
/// crate documents, both parties to an exchange compute the same shared secret.
#[verifier::external_body]
fn x25519_agree(secret: &[u8; 32], peer_public: &[u8; 32]) -> (r: [u8; 32])
    ensures
        r@ == x25519_shared(secret@, peer_public@),
        forall|peer_secret: Seq<u8>|
            peer_secret.len() == 32 && peer_public@ == #[trigger] x25519_public(peer_secret) ==> r@ == x25519_shared(
                peer_secret,
                x25519_public(secret@),
            ),
{
    let sk = StaticSecret::from(*secret);
    *sk.diffie_hellman(&PublicKey::from(*peer_public)).as_bytes()
}

/// Input hashed for the implicit nonce of a chunk.
pub open spec fn nonce_input(msg_id: u32, chunk_idx: u8, ratchet_counter: u64) -> Seq<u8> {
    NONCE_DOMAIN@ + be4(msg_id) + seq![chunk_idx] + be8(ratchet_counter)
}

/// The 12-byte implicit nonce of a chunk: the first 12 bytes of the keyed hash of its
/// coordinates. It is never sent on the wire.
pub open spec fn implicit_nonce(key: Seq<u8>, msg_id: u32, chunk_idx: u8, ratchet_counter: u64) -> Seq<u8> {
    blake3_keyed(key, nonce_input(msg_id, chunk_idx, ratchet_counter)).subrange(0, 12)
}

/// Derives the implicit nonce of a chunk from the session key and the chunk's coordinates.
pub fn derive_implicit_nonce(session_key: &[u8; 32], msg_id: u32, chunk_idx: u8, ratchet_counter: u64) -> (r: [u8; 12])
    ensures
        r@ == implicit_nonce(session_key@, msg_id, chunk_idx, ratchet_counter),
{
    let mut input: Vec<u8> = Vec::new();
    push_all(&mut input, NONCE_DOMAIN.as_slice());
    push_be4(&mut input, msg_id);
    input.push(chunk_idx);
    push_be8(&mut input, ratchet_counter);
    assert(input@ =~= nonce_input(msg_id, chunk_idx, ratchet_counter));
    let output = keyed_hash(session_key, input.as_slice());
    let mut nonce = [0u8; 12];
    let mut i: usize = 0;
    while i < 12
        invariant
            i <= 12,
            output@ == blake3_keyed(session_key@, nonce_input(msg_id, chunk_idx, ratchet_counter)),
            forall|k: int| 0 <= k < i ==> nonce@[k] == output@[k],
        decreases 12 - i,
    {
        nonce[i] = output[i];
        i = i + 1;
    }
    assert(nonce@ =~= implicit_nonce(session_key@, msg_id, chunk_idx, ratchet_counter));
    nonce
}

/// The network admission tag of a swarm key: the first eight bytes, big-endian, of its
/// keyed hash of the admission-tag domain string.
pub open spec fn network_tag_of(swarm_key: Seq<u8>) -> u64 {
    get_be8(blake3_keyed(swarm_key, NETWORK_TAG_DOMAIN@), 0)
}

/// Derives the 64-bit network admission tag of a swarm key.
pub fn derive_network_tag(swarm_key: &[u8; 32]) -> (r: u64)
    ensures
        r == network_tag_of(swarm_key@),
{
    let output = keyed_hash(swarm_key, NETWORK_TAG_DOMAIN.as_slice());
    load_be8(output.as_slice(), 0)
}

/// The subkey of one sender under a swarm key.
pub open spec fn sender_subkey(swarm_key: Seq<u8>, node_id: u32) -> Seq<u8> {
    blake3_keyed(swarm_key, SENDER_SUBKEY_DOMAIN@ + be4(node_id))
}

/// Derives the 32-byte subkey with which node `node_id` encrypts under the swarm key.
pub fn derive_sender_subkey(swarm_key: &Secret<[u8; 32]>, node_id: u32) -> (r: Secret<[u8; 32]>)
    ensures
        r.value()@ == sender_subkey(swarm_key.value()@, node_id),
{
    let mut input: Vec<u8> = Vec::new();
    push_all(&mut input, SENDER_SUBKEY_DOMAIN.as_slice());
    push_be4(&mut input, node_id);
    let subkey = keyed_hash(swarm_key.expose_secret(), input.as_slice());
    Secret::new(subkey)
}

/// A chunk plaintext zero-padded to 80 bytes.
pub open spec fn padded_chunk(plaintext: Seq<u8>) -> Seq<u8> {
    plaintext + Seq::new((PLAINTEXT_CHUNK_LEN - plaintext.len()) as nat, |i: int| 0u8)
}

/// The 96-byte ciphertext of a chunk: the padded plaintext sealed under the chunk's
/// implicit nonce.
pub open spec fn chunk_ciphertext(key: Seq<u8>, msg_id: u32, chunk_idx: u8, ratchet_counter: u64, plaintext: Seq<u8>) -> Seq<u8> {
    chacha20poly1305_seal(key, implicit_nonce(key, msg_id, chunk_idx, ratchet_counter), padded_chunk(plaintext))
}

/// Encrypts a plaintext of at most 80 bytes, zero-padded to 80, into a 96-byte chunk
/// (ciphertext and Poly1305 tag).
pub fn encrypt_chunk(
    session_key: &Secret<[u8; 32]>,
    msg_id: u32,
    chunk_idx: u8,
    ratchet_counter: u64,
    plaintext: &[u8],
) -> (r: Result<[u8; CIPHERTEXT_LEN], CryptoError>)
    ensures
        plaintext@.len() > PLAINTEXT_CHUNK_LEN <==> r == Err::<[u8; CIPHERTEXT_LEN], CryptoError>(CryptoError::PayloadTooLarge),
        plaintext@.len() <= PLAINTEXT_CHUNK_LEN ==> (r matches Ok(c) && c@ == chunk_ciphertext(
            session_key.value()@,
            msg_id,
            chunk_idx,
            ratchet_counter,
            plaintext@,
        )),
        plaintext@.len() <= PLAINTEXT_CHUNK_LEN ==> (r matches Ok(c) && chacha20poly1305_open(
            session_key.value()@,
            implicit_nonce(session_key.value()@, msg_id, chunk_idx, ratchet_counter),
            c@,
        ) == Some(padded_chunk(plaintext@))),
{
    if plaintext.len() > PLAINTEXT_CHUNK_LEN {
        return Err(CryptoError::PayloadTooLarge);
    }
    let key = session_key.expose_secret();
    let raw_nonce = derive_implicit_nonce(key, msg_id, chunk_idx, ratchet_counter);
    let mut buffer = [0u8; PLAINTEXT_CHUNK_LEN];
    let n = plaintext.len();
    let mut i: usize = 0;
    while i < n
        invariant
            n == plaintext@.len(),
            n <= PLAINTEXT_CHUNK_LEN,
            i <= n,
            forall|k: int| 0 <= k < i ==> buffer@[k] == plaintext@[k],
            forall|k: int| i <= k < PLAINTEXT_CHUNK_LEN ==> buffer@[k] == 0u8,
        decreases n - i,
    {
        buffer[i] = plaintext[i];
        i = i + 1;
    }
    assert(buffer@ =~= padded_chunk(plaintext@));
    let ghost padded = buffer@;
    let tag = match seal_in_place(key, &raw_nonce, &mut buffer) {
        Ok(t) => t,
        Err(_) => return Err(CryptoError::AuthenticationFailed),
    };
    let mut out = [0u8; CIPHERTEXT_LEN];
    let mut j: usize = 0;
    while j < CIPHERTEXT_LEN
        invariant
            j <= CIPHERTEXT_LEN,
            forall|k: int| 0 <= k < j ==> out@[k] == (buffer@ + tag@)[k],
        decreases CIPHERTEXT_LEN - j,
    {
        if j < PLAINTEXT_CHUNK_LEN {
            out[j] = buffer[j];
        } else {
            out[j] = tag[j - PLAINTEXT_CHUNK_LEN];
        }
        j = j + 1;
    }
    assert(out@ =~= buffer@ + tag@);
    Ok(out)
}

/// Decrypts a 96-byte chunk back to its 80 padded plaintext bytes; a tag that does not
/// authenticate under the chunk's key and nonce is an authentication failure.
pub fn decrypt_chunk(
    session_key: &Secret<[u8; 32]>,
    msg_id: u32,
    chunk_idx: u8,
    ratchet_counter: u64,
    ciphertext: &[u8; CIPHERTEXT_LEN],
) -> (r: Result<[u8; PLAINTEXT_CHUNK_LEN], CryptoError>)
    ensures
        ({
            let opened = chacha20poly1305_open(
                session_key.value()@,
                implicit_nonce(session_key.value()@, msg_id, chunk_idx, ratchet_counter),
                ciphertext@,
            );
            &&& opened is None ==> r == Err::<[u8; PLAINTEXT_CHUNK_LEN], CryptoError>(CryptoError::AuthenticationFailed)
            &&& opened is Some ==> (r matches Ok(p) && p@ == opened->0)
        }),
        forall|pt: Seq<u8>|
            pt.len() <= PLAINTEXT_CHUNK_LEN && ciphertext@ == #[trigger] chunk_ciphertext(
                session_key.value()@,
                msg_id,
                chunk_idx,
                ratchet_counter,
                pt,
            ) ==> (r matches Ok(p) && p@ == padded_chunk(pt)),
{
    let key = session_key.expose_secret();
    let raw_nonce = derive_implicit_nonce(key, msg_id, chunk_idx, ratchet_counter);
    let mut buffer = [0u8; PLAINTEXT_CHUNK_LEN];
    let mut tag = [0u8; 16];
    let mut i: usize = 0;
    while i < CIPHERTEXT_LEN
        invariant
            i <= CIPHERTEXT_LEN,
            forall|k: int| 0 <= k < i && k < 80 ==> buffer@[k] == ciphertext@[k],
            forall|k: int| 80 <= k < i ==> tag@[k - 80] == ciphertext@[k],
        decreases CIPHERTEXT_LEN - i,
    {
        if i < PLAINTEXT_CHUNK_LEN {
            buffer[i] = ciphertext[i];
        } else {
            tag[i - PLAINTEXT_CHUNK_LEN] = ciphertext[i];
        }
        i = i + 1;
    }
    assert(buffer@ + tag@ =~= ciphertext@);
    match open_in_place(key, &raw_nonce, &mut buffer, &tag) {
        Ok(()) => Ok(buffer),
        Err(_) => Err(CryptoError::AuthenticationFailed),
    }
}

/// Sender-key ratchet: each step yields a fresh message key and moves the chain key
/// forward.
#[derive(Clone)]
pub struct SenderKeyChain {
    chain_key: Secret<[u8; 32]>,
    counter: u64,
}

/// The message key of the step taken at `counter` from chain key `chain_key`.
pub open spec fn chain_message_key(chain_key: Seq<u8>, counter: u64) -> Seq<u8> {
    blake3_keyed(chain_key, CHAIN_MSG_DOMAIN@ + be8(counter))
}

/// The chain key after one step from `chain_key`.
pub open spec fn chain_next_key(chain_key: Seq<u8>) -> Seq<u8> {
    blake3_keyed(chain_key, CHAIN_NEXT_DOMAIN@)
}

impl SenderKeyChain {
    /// Current chain key.
    pub closed spec fn key(&self) -> Seq<u8> {
        self.chain_key.value()@
    }

    /// Steps taken so far (saturating).
    pub closed spec fn steps(&self) -> u64 {
        self.counter
    }

    pub fn new(initial_seed: Secret<[u8; 32]>) -> (r: Self)
        ensures
            r.key() == initial_seed.value()@,
            r.steps() == 0,
    {
        SenderKeyChain { chain_key: initial_seed, counter: 0 }
    }

    pub fn counter(&self) -> (r: u64)
        ensures
            r == self.steps(),
    {
        self.counter
    }

    /// Returns the message key for the current step with the step's number, and ratchets
    /// the chain key forward.
    pub fn step(&mut self) -> (r: (Secret<[u8; 32]>, u64))
        ensures
            r.1 == old(self).steps(),
            r.0.value()@ == chain_message_key(old(self).key(), old(self).steps()),
            final(self).key() == chain_next_key(old(self).key()),
            final(self).steps() == if old(self).steps() == u64::MAX { u64::MAX } else { (old(self).steps() + 1) as u64 },
    {
        let current_step = self.counter;
        let mut msg_input: Vec<u8> = Vec::new();
        push_all(&mut msg_input, CHAIN_MSG_DOMAIN.as_slice());
        push_be8(&mut msg_input, current_step);
        let msg_key = keyed_hash(self.chain_key.expose_secret(), msg_input.as_slice());
        let next_chain = keyed_hash(self.chain_key.expose_secret(), CHAIN_NEXT_DOMAIN.as_slice());
        self.chain_key = Secret::new(next_chain);
        self.counter = self.counter.saturating_add(1);
        (Secret::new(msg_key), current_step)
    }
}

/// X25519 key pair for pairwise key agreement.
pub struct KeyPair {
    private_key: Secret<[u8; 32]>,
    public_key: [u8; 32],
}

impl KeyPair {
    #[verifier::type_invariant]
    spec fn public_matches_secret(self) -> bool {
        self.public_key@ == x25519_public(self.private_key.value()@)
    }

    /// The secret key bytes.
    pub closed spec fn secret(&self) -> Seq<u8> {
        self.private_key.value()@
    }

    /// The public key bytes.
    pub closed spec fn public(&self) -> Seq<u8> {
        self.public_key@
    }

    pub fn from_secret_bytes(bytes: [u8; 32]) -> (r: Self)
        ensures
            r.secret() == bytes@,
            r.public() == x25519_public(bytes@),
    {
        let public_key = x25519_public_key(&bytes);
        KeyPair { private_key: Secret::new(bytes), public_key }
    }

    pub fn public_key(&self) -> (r: &[u8; 32])
        ensures
            r@ == self.public(),
            r@ == x25519_public(self.secret()),
    {
        proof { use_type_invariant(self); }
        &self.public_key
    }

    /// The shared secret with a peer's public key; a peer holding the secret key behind
    /// that public key computes the same secret from this pair's public key.
    pub fn diffie_hellman(&self, peer_public: &[u8; 32]) -> (r: Secret<[u8; 32]>)
        ensures
            r.value()@ == x25519_shared(self.secret(), peer_public@),
            forall|peer_secret: Seq<u8>|
                peer_secret.len() == 32 && peer_public@ == #[trigger] x25519_public(peer_secret) ==> r.value()@
                    == x25519_shared(peer_secret, self.public()),
    {
        proof { use_type_invariant(self); }
        let shared = x25519_agree(self.private_key.expose_secret(), peer_public);
        Secret::new(shared)
    }
}

} // verus!
