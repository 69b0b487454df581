//! Swarm broadcast (`#all`) and pairwise ratcheted direct messages.
use vstd::prelude::*;
use vstd::string::StringSliceAdditionalSpecFns;
use vstd::utf8::{encode_utf8, encode_utf8_decode_utf8, encode_utf8_valid_utf8, valid_utf8};
use crate::frame::{CIPHERTEXT_LEN, FLAG_ACK_REQ, FLAG_DIRECT, FLAG_GROUP, PLAINTEXT_CHUNK_LEN};
use crate::ratchet::{
    chacha20poly1305_open, chain_message_key, chain_next_key, chunk_ciphertext, decrypt_chunk,
    derive_sender_subkey, encrypt_chunk, implicit_nonce, padded_chunk, sender_subkey, x25519_public,
    x25519_shared, CryptoError, KeyPair, SenderKeyChain,
};
use crate::schema::{MessageRecord, MessageStatus};
use crate::store::{DbError, MessageStore, Recorded, StoreCall};
use crate::secrecy::Secret;
use crate::text::{string_from_chars, string_from_utf8};

verus! {

/// Why a chat message could not be sealed, opened or stored.
#[derive(Debug, PartialEq)]
pub enum ChatError {
    Crypto(CryptoError),
    Db(DbError),
    /// The UTF-8 text is longer than one 80-byte chunk; carries its byte length.
    PayloadTooLarge(usize),
    InvalidUtf8,
    BroadcastAckReqForbidden,
}

/// A sealed single-chunk message ready to be framed.
#[derive(Debug, Clone, PartialEq, Eq)]
pub struct EncryptedFramePayload {
    pub convo_id: String,
    pub dest_node_id: u32,
    pub flags: u16,
    pub msg_id: u32,
    pub counter: u64,
    pub ciphertext: [u8; CIPHERTEXT_LEN],
    pub status: MessageStatus,
}

/// The broadcast address.
pub const BROADCAST_NODE_ID: u32 = 0xFFFF_FFFF;

/// Index of the first NUL byte of `p` at or after `i`, or the length of `p` when none.
pub open spec fn first_nul_from(p: Seq<u8>, i: int) -> int
    decreases p.len() - i,
{
    if i >= p.len() || i < 0 {
        p.len() as int
    } else if p[i] == 0 {
        i
    } else {
        first_nul_from(p, i + 1)
    }
}

/// The text bytes of a zero-padded plaintext: everything before its first NUL byte.
pub open spec fn nul_trimmed(p: Seq<u8>) -> Seq<u8> {
    p.take(first_nul_from(p, 0))
}

/// What opening a chunk gives as text: an authentication failure, invalid UTF-8, or the
/// UTF-8 bytes of the text before the padding.
pub open spec fn opened_text(opened: Option<Seq<u8>>) -> Result<Seq<u8>, ChatError> {
    match opened {
        None => Err(ChatError::Crypto(CryptoError::AuthenticationFailed)),
        Some(p) => if valid_utf8(nul_trimmed(p)) {
            Ok(nul_trimmed(p))
        } else {
            Err(ChatError::InvalidUtf8)
        },
    }
}

/// The chain key after `n` ratchet steps from `k`.
pub open spec fn chain_key_after(k: Seq<u8>, n: nat) -> Seq<u8>
    decreases n,
{
    if n == 0 {
        k
    } else {
        chain_next_key(chain_key_after(k, (n - 1) as nat))
    }
}

/// The key of the direct message sealed at ratchet step `counter` of the chain seeded by
/// the pairwise shared secret.
pub open spec fn direct_message_key(shared: Seq<u8>, counter: u64) -> Seq<u8> {
    chain_message_key(chain_key_after(shared, counter as nat), counter)
}

/// Uppercase hexadecimal digit of a nibble.
pub open spec fn upper_hex_digit(d: u32) -> char {
    if d < 10 {
        (48 + d) as char
    } else {
        (55 + d) as char
    }
}

/// `0x` followed by the eight uppercase hexadecimal digits of `v`.
pub open spec fn hex_node_label(v: u32) -> Seq<char> {
    seq!['0', 'x'] + Seq::new(8, |i: int| upper_hex_digit(((v >> ((28 - 4 * i) as u32)) & 0xF) as u32))
}

pub(crate) fn upper_hex_char(d: u32) -> (c: char)
    requires
        d < 16,
    ensures
        c == upper_hex_digit(d),
{
    if d < 10 {
        ((48 + d) as u8) as char
    } else {
        ((55 + d) as u8) as char
    }
}

/// The conversation id of a direct conversation: `0x` and the peer's node id in eight
/// uppercase hexadecimal digits.
pub fn direct_convo_id(node_id: u32) -> (r: String)
    ensures
        r@ == hex_node_label(node_id),
{
    let mut cs: Vec<char> = Vec::new();
    cs.push('0');
    cs.push('x');
    let mut i: u32 = 0;
    while i < 8
        invariant
            i <= 8,
            cs@.len() == 2 + i,
            forall|k: int| 0 <= k < 2 + i ==> cs@[k] == #[trigger] hex_node_label(node_id)[k],
        decreases 8 - i,
    {
        let shift: u32 = 28 - 4 * i;
        let d: u32 = (node_id >> shift) & 0xF;
        assert(d < 16) by (bit_vector)
            requires
                d == (node_id >> shift) & 0xF,
        ;
        let c = upper_hex_char(d);
        cs.push(c);
        i = i + 1;
    }
    assert(cs@ =~= hex_node_label(node_id));
    string_from_chars(cs.as_slice())
}

/// The text of a zero-padded 80-byte plaintext: the bytes before the first NUL, as UTF-8.
fn text_of_plaintext(p: &[u8; PLAINTEXT_CHUNK_LEN]) -> (r: Result<String, ChatError>)
    ensures
        match opened_text(Some(p@)) {
            Ok(b) => r matches Ok(s) && encode_utf8(s@) == b,
            Err(e) => r == Err::<String, ChatError>(e),
        },
{
    let mut i: usize = 0;
    while i < PLAINTEXT_CHUNK_LEN && p[i] != 0
        invariant
            i <= PLAINTEXT_CHUNK_LEN,
            first_nul_from(p@, 0) == first_nul_from(p@, i as int),
        decreases PLAINTEXT_CHUNK_LEN - i,
    {
        i = i + 1;
    }
    assert(first_nul_from(p@, i as int) == i);
    let mut bytes: Vec<u8> = Vec::new();
    let mut j: usize = 0;
    while j < i
        invariant
            i <= PLAINTEXT_CHUNK_LEN,
            j <= i,
            bytes@ =~= p@.take(j as int),
        decreases i - j,
    {
        bytes.push(p[j]);
        j = j + 1;
    }
    assert(bytes@ =~= nul_trimmed(p@));
    match string_from_utf8(bytes) {
        Some(s) => Ok(s),
        None => Err(ChatError::InvalidUtf8),
    }
}

proof fn lemma_padding_trims_away(pt: Seq<u8>)
    requires
        pt.len() < PLAINTEXT_CHUNK_LEN,
        !pt.contains(0u8),
    ensures
        nul_trimmed(padded_chunk(pt)) == pt,
{
    let p = padded_chunk(pt);
    let n = pt.len() as int;
    assert forall|k: int| 0 <= k < n implies p[k] != 0 by {
        if p[k] == 0 {
            assert(pt[k] == 0);
            assert(pt.contains(0u8));
        }
    }
    lemma_first_nul_skips(p, 0, n);
    assert(p.take(pt.len() as int) =~= pt);
}

proof fn lemma_first_nul_skips(p: Seq<u8>, i: int, n: int)
    requires
        0 <= i <= n,
        n < p.len(),
        p[n] == 0,
        forall|k: int| i <= k < n ==> p[k] != 0,
    ensures
        first_nul_from(p, i) == n,
    decreases n - i,
{
    if i < n {
        lemma_first_nul_skips(p, i + 1, n);
    }
}

/// A text whose UTF-8 bytes hold no NUL and fit one chunk reads back from its padding.
proof fn lemma_text_roundtrip(t: Seq<char>)
    requires
        encode_utf8(t).len() <= PLAINTEXT_CHUNK_LEN,
        !encode_utf8(t).contains(0u8),
    ensures
        opened_text(Some(padded_chunk(encode_utf8(t)))) == Ok::<Seq<u8>, ChatError>(encode_utf8(t)),
{
    let b = encode_utf8(t);
    if b.len() < PLAINTEXT_CHUNK_LEN {
        lemma_padding_trims_away(b);
    } else {
        let p = padded_chunk(b);
        assert(p =~= b);
        lemma_first_nul_to_end(p, 0);
        assert(p.take(p.len() as int) =~= p);
    }
    encode_utf8_valid_utf8(t);
}

proof fn lemma_first_nul_to_end(p: Seq<u8>, i: int)
    requires
        0 <= i <= p.len(),
        !p.contains(0u8),
    ensures
        first_nul_from(p, i) == p.len(),
    decreases p.len() - i,
{
    if i < p.len() {
        assert(p[i] != 0) by {
            if p[i] == 0 {
                assert(p.contains(0u8));
            }
        }
        lemma_first_nul_to_end(p, i + 1);
    }
}

/// Encrypts an open broadcast for `#all` under the sender's subkey of the swarm key: the
/// frame carries `FLAG_GROUP` and never `FLAG_ACK_REQ`.
pub fn encrypt_swarm_broadcast(
    swarm_key: &Secret<[u8; 32]>,
    local_node_id: u32,
    msg_id: u32,
    text: &str,
) -> (r: Result<EncryptedFramePayload, ChatError>)
    ensures
        text.spec_bytes().len() > PLAINTEXT_CHUNK_LEN ==> r == Err::<EncryptedFramePayload, ChatError>(
            ChatError::PayloadTooLarge(text.spec_bytes().len() as usize),
        ),
        text.spec_bytes().len() <= PLAINTEXT_CHUNK_LEN ==> (r matches Ok(f) && {
            &&& f.convo_id@ == seq!['#', 'a', 'l', 'l']
            &&& f.dest_node_id == BROADCAST_NODE_ID
            &&& f.flags == FLAG_GROUP
            &&& f.msg_id == msg_id
            &&& f.counter == 0
            &&& f.ciphertext@ == chunk_ciphertext(
                sender_subkey(swarm_key.value()@, local_node_id),
                msg_id,
                0,
                0,
                text.spec_bytes(),
            )
            &&& f.status == MessageStatus::Transmitted
        }),
{
    let bytes = text.as_bytes();
    if bytes.len() > PLAINTEXT_CHUNK_LEN {
        return Err(ChatError::PayloadTooLarge(bytes.len()));
    }
    let subkey = derive_sender_subkey(swarm_key, local_node_id);
    let ciphertext = match encrypt_chunk(&subkey, msg_id, 0, 0, bytes) {
        Ok(c) => c,
        Err(e) => return Err(ChatError::Crypto(e)),
    };
    let flags = FLAG_GROUP;
    assert(0x0002u16 & 0x0010u16 == 0u16) by (bit_vector);
    if flags & FLAG_ACK_REQ != 0 {
        return Err(ChatError::BroadcastAckReqForbidden);
    }
    let mut convo_id: Vec<char> = Vec::new();
    convo_id.push('#');
    convo_id.push('a');
    convo_id.push('l');
    convo_id.push('l');
    assert(convo_id@ =~= seq!['#', 'a', 'l', 'l']);
    Ok(EncryptedFramePayload {
        convo_id: string_from_chars(convo_id.as_slice()),
        dest_node_id: BROADCAST_NODE_ID,
        flags,
        msg_id,
        counter: 0,
        ciphertext,
        status: MessageStatus::Transmitted,
    })
}

/// Decrypts a broadcast from `#all` sent by `src_node_id`; the text ends at the first NUL
/// of the padded plaintext. What `encrypt_swarm_broadcast` sealed for the same sender and
/// message id reads back as the same text when its bytes hold no NUL.
pub fn decrypt_swarm_broadcast(
    swarm_key: &Secret<[u8; 32]>,
    src_node_id: u32,
    msg_id: u32,
    ciphertext: &[u8; CIPHERTEXT_LEN],
) -> (r: Result<String, ChatError>)
    ensures
        ({
            let key = sender_subkey(swarm_key.value()@, src_node_id);
            match opened_text(chacha20poly1305_open(key, implicit_nonce(key, msg_id, 0, 0), ciphertext@)) {
                Ok(b) => r matches Ok(s) && encode_utf8(s@) == b,
                Err(e) => r == Err::<String, ChatError>(e),
            }
        }),
        forall|t: Seq<char>|
            encode_utf8(t).len() <= PLAINTEXT_CHUNK_LEN && !encode_utf8(t).contains(0u8) && ciphertext@
                == #[trigger] chunk_ciphertext(
                sender_subkey(swarm_key.value()@, src_node_id),
                msg_id,
                0,
                0,
                encode_utf8(t),
            ) ==> (r matches Ok(s) && s@ == t),
{
    let subkey = derive_sender_subkey(swarm_key, src_node_id);
    let plaintext = match decrypt_chunk(&subkey, msg_id, 0, 0, ciphertext) {
        Ok(p) => p,
        Err(e) => return Err(ChatError::Crypto(e)),
    };
    let r = text_of_plaintext(&plaintext);
    proof {
        assert forall|t: Seq<char>|
            encode_utf8(t).len() <= PLAINTEXT_CHUNK_LEN && !encode_utf8(t).contains(0u8) && ciphertext@
                == #[trigger] chunk_ciphertext(
                sender_subkey(swarm_key.value()@, src_node_id),
                msg_id,
                0,
                0,
                encode_utf8(t),
            ) implies (r matches Ok(s) && s@ == t) by {
            lemma_text_roundtrip(t);
            if let Ok(s) = r {
                encode_utf8_decode_utf8(s@);
                encode_utf8_decode_utf8(t);
            }
        }
    }
    r
}

/// Encrypts a direct message under the first key of the sender-key chain seeded by the
/// X25519 shared secret with the peer: the frame carries `FLAG_DIRECT | FLAG_ACK_REQ`, and
/// starts `Transmitted` when the peer is online, `Queued` otherwise.
pub fn encrypt_direct_message(
    local_keypair: &KeyPair,
    remote_pubkey: &[u8; 32],
    dest_node_id: u32,
    msg_id: u32,
    text: &str,
    is_peer_online: bool,
) -> (r: Result<EncryptedFramePayload, ChatError>)
    ensures
        text.spec_bytes().len() > PLAINTEXT_CHUNK_LEN ==> r == Err::<EncryptedFramePayload, ChatError>(
            ChatError::PayloadTooLarge(text.spec_bytes().len() as usize),
        ),
        text.spec_bytes().len() <= PLAINTEXT_CHUNK_LEN ==> (r matches Ok(f) && {
            &&& f.convo_id@ == hex_node_label(dest_node_id)
            &&& f.dest_node_id == dest_node_id
            &&& f.flags == FLAG_DIRECT | FLAG_ACK_REQ
            &&& f.msg_id == msg_id
            &&& f.counter == 0
            &&& f.ciphertext@ == chunk_ciphertext(
                direct_message_key(x25519_shared(local_keypair.secret(), remote_pubkey@), 0),
                msg_id,
                0,
                0,
                text.spec_bytes(),
            )
            &&& f.status == if is_peer_online {
                MessageStatus::Transmitted
            } else {
                MessageStatus::Queued
            }
        }),
{
    let bytes = text.as_bytes();
    if bytes.len() > PLAINTEXT_CHUNK_LEN {
        return Err(ChatError::PayloadTooLarge(bytes.len()));
    }
    let shared_secret = local_keypair.diffie_hellman(remote_pubkey);
    let mut chain = SenderKeyChain::new(shared_secret);
    let (msg_key, counter) = chain.step();
    let ciphertext = match encrypt_chunk(&msg_key, msg_id, 0, counter, bytes) {
        Ok(c) => c,
        Err(e) => return Err(ChatError::Crypto(e)),
    };
    let flags = FLAG_DIRECT | FLAG_ACK_REQ;
    let initial_status = if is_peer_online {
        MessageStatus::Transmitted
    } else {
        MessageStatus::Queued
    };
    Ok(EncryptedFramePayload {
        convo_id: direct_convo_id(dest_node_id),
        dest_node_id,
        flags,
        msg_id,
        counter,
        ciphertext,
        status: initial_status,
    })
}

/// Decrypts a direct message sealed at ratchet step `counter`: the chain seeded by the
/// shared secret with the sender is stepped `counter + 1` times. What the sender sealed
/// with the matching secret key reads back as the same text when its bytes hold no NUL.
pub fn decrypt_direct_message(
    local_keypair: &KeyPair,
    remote_pubkey: &[u8; 32],
    msg_id: u32,
    counter: u64,
    ciphertext: &[u8; CIPHERTEXT_LEN],
) -> (r: Result<String, ChatError>)
    ensures
        ({
            let key = direct_message_key(x25519_shared(local_keypair.secret(), remote_pubkey@), counter);
            match opened_text(chacha20poly1305_open(key, implicit_nonce(key, msg_id, 0, counter), ciphertext@)) {
                Ok(b) => r matches Ok(s) && encode_utf8(s@) == b,
                Err(e) => r == Err::<String, ChatError>(e),
            }
        }),
        forall|sender_secret: Seq<u8>, t: Seq<char>|
            sender_secret.len() == 32 && remote_pubkey@ == x25519_public(sender_secret) && encode_utf8(t).len()
                <= PLAINTEXT_CHUNK_LEN && !encode_utf8(t).contains(0u8) && ciphertext@ == #[trigger] chunk_ciphertext(
                direct_message_key(x25519_shared(sender_secret, local_keypair.public()), counter),
                msg_id,
                0,
                counter,
                encode_utf8(t),
            ) ==> (r matches Ok(s) && s@ == t),
{
    let shared_secret = local_keypair.diffie_hellman(remote_pubkey);
    let ghost shared = shared_secret.value()@;
    let mut chain = SenderKeyChain::new(shared_secret);
    let mut current_key = Secret::new([0u8; 32]);
    let mut i: u64 = 0;
    loop
        invariant_except_break
            i <= counter,
            chain.key() == chain_key_after(shared, i as nat),
            chain.steps() == i,
        ensures
            current_key.value()@ == direct_message_key(shared, counter),
        decreases counter - i,
    {
        let (k, _) = chain.step();
        current_key = k;
        if i == counter {
            break;
        }
        i = i + 1;
    }
    let plaintext = match decrypt_chunk(&current_key, msg_id, 0, counter, ciphertext) {
        Ok(p) => p,
        Err(e) => return Err(ChatError::Crypto(e)),
    };
    let r = text_of_plaintext(&plaintext);
    proof {
        assert forall|sender_secret: Seq<u8>, t: Seq<char>|
            sender_secret.len() == 32 && remote_pubkey@ == x25519_public(sender_secret) && encode_utf8(t).len()
                <= PLAINTEXT_CHUNK_LEN && !encode_utf8(t).contains(0u8) && ciphertext@ == #[trigger] chunk_ciphertext(
                direct_message_key(x25519_shared(sender_secret, local_keypair.public()), counter),
                msg_id,
                0,
                counter,
                encode_utf8(t),
            ) implies (r matches Ok(s) && s@ == t) by {
            lemma_text_roundtrip(t);
            if let Ok(s) = r {
                encode_utf8_decode_utf8(s@);
                encode_utf8_decode_utf8(t);
            }
        }
    }
    r
}

/// Whether `rec` is the chat message record with these fields.
pub open spec fn chat_record(
    rec: MessageRecord,
    id: Seq<char>,
    convo_id: Seq<char>,
    sender_node_id: u32,
    timestamp: i64,
    text: Seq<char>,
    status: MessageStatus,
) -> bool {
    &&& rec.id@ == id
    &&& rec.convo_id@ == convo_id
    &&& rec.sender_node_id == sender_node_id
    &&& rec.timestamp == timestamp
    &&& rec.text@ == text
    &&& rec.status == status
}

/// Stores a chat message and returns the stored record.
pub fn persist_chat_message<S: MessageStore>(
    db: &mut Recorded<S>,
    id: &str,
    convo_id: &str,
    sender_node_id: u32,
    timestamp: i64,
    text: &str,
    status: MessageStatus,
) -> (r: Result<MessageRecord, ChatError>)
    ensures
        final(db).inner() == old(db).inner(),
        final(db).calls().len() == old(db).calls().len() + 1,
        final(db).calls().drop_last() == old(db).calls(),
        final(db).calls().last() matches StoreCall::InsertMessage(rec, ans) && chat_record(
            rec,
            id@,
            convo_id@,
            sender_node_id,
            timestamp,
            text@,
            status,
        ) && r == match ans {
            Ok(()) => Ok::<MessageRecord, ChatError>(rec),
            Err(e) => Err(ChatError::Db(e)),
        },
{
    let rec = MessageRecord {
        id: id.to_owned(),
        convo_id: convo_id.to_owned(),
        sender_node_id,
        timestamp,
        text: text.to_owned(),
        status,
    };
    let ans = db.insert_message(&rec);
    assert(db.calls().drop_last() =~= old(db).calls());
    match ans {
        Ok(()) => Ok(rec),
        Err(e) => Err(ChatError::Db(e)),
    }
}

} // verus!
