//! Contact discovery, the trust state machine, and SAS / QR identity verification.
use vstd::prelude::*;
use bip39::Language;
use hkdf::Hkdf;
use qrcode::render::svg;
use qrcode::types::QrError;
use qrcode::QrCode;
use sha2::Sha256;
use crate::chat::{direct_convo_id, hex_node_label};
use crate::schema::{ContactRecord, TrustState};
use crate::store::{ContactStore, DbError, Recorded, StoreCall};
use crate::text::{str_chars, string_from_chars};
use vstd::utf8::encode_utf8;

verus! {

#[verifier::external_type_specification]
#[verifier::external_body]
pub struct ExQrError(QrError);

/// Why an identity operation failed.
#[derive(Debug, PartialEq)]
pub enum IdentityError {
    Db(DbError),
    Qr(QrError),
    ContactNotFound(u32),
}

/// HKDF info string of the short authentication string.
pub const SAS_INFO: [u8; 16] = [
    0x67, 0x69, 0x62, 0x62, 0x65, 0x72, 0x69, 0x73, 0x68, 0x2d, 0x73, 0x61, 0x73, 0x2d, 0x76, 0x31,
];

/// Output of HKDF-SHA256 with no salt: `len` bytes expanded from `ikm` under `info`.
pub uninterp spec fn hkdf_sha256(ikm: Seq<u8>, info: Seq<u8>, len: nat) -> Seq<u8>;

/// Word `index` of the BIP-39 English word list.
pub uninterp spec fn bip39_english_word(index: int) -> Seq<char>;

/// The SVG image of the QR code that encodes `data` (minimal version, medium error
/// correction), or none when the data does not fit a QR code.
pub uninterp spec fn qr_svg_image(data: Seq<u8>) -> Option<Seq<char>>;

/// Calls `Hkdf::<Sha256>::new(None, ikm)` and `expand(info, ..)` for eight bytes; the
/// expansion fails only for more than 255 * 32 bytes, so it succeeds here.
#[verifier::external_body]
fn hkdf_sha256_8(ikm: &[u8; 64], info: &[u8]) -> (r: Option<[u8; 8]>)
    ensures
        r is Some,
        r.unwrap()@ == hkdf_sha256(ikm@, info@, 8),
{
    let hk = Hkdf::<Sha256>::new(None, ikm);
    let mut okm = [0u8; 8];
    match hk.expand(info, &mut okm) {
        Ok(()) => Some(okm),
        Err(_) => None,
    }
}

/// Reads word `index` of `Language::English.word_list()`.
#[verifier::external_body]
fn english_word(index: usize) -> (r: String)
    requires
        index < 2048,
    ensures
        r@ == bip39_english_word(index as int),
{
    Language::English.word_list()[index].to_string()
}

/// Calls `QrCode::new(data)` and renders the code with `render::<svg::Color>().build()`.
#[verifier::external_body]
fn qr_svg(data: &[u8]) -> (r: Result<String, QrError>)
    ensures
        match qr_svg_image(data@) {
            Some(img) => r matches Ok(s) && s@ == img,
            None => r is Err,
        },
{
    match QrCode::new(data) {
        Ok(code) => Ok(code.render::<svg::Color>().build()),
        Err(e) => Err(e),
    }
}

/// Index of the first position from `i` at which two byte strings differ, or the length
/// of the first when none does.
pub open spec fn first_diff_from(a: Seq<u8>, b: Seq<u8>, i: int) -> int
    decreases a.len() - i,
{
    if i >= a.len() || i < 0 {
        a.len() as int
    } else if a[i] != b[i] {
        i
    } else {
        first_diff_from(a, b, i + 1)
    }
}

/// Lexicographic `a <= b` on byte strings of equal length.
pub open spec fn lex_le(a: Seq<u8>, b: Seq<u8>) -> bool {
    let k = first_diff_from(a, b, 0);
    k >= a.len() || a[k] < b[k]
}

/// The HKDF input of the SAS: the lexicographically smaller key, then the larger.
pub open spec fn sas_ikm(pk1: Seq<u8>, pk2: Seq<u8>) -> Seq<u8> {
    if lex_le(pk1, pk2) {
        pk1 + pk2
    } else {
        pk2 + pk1
    }
}

/// Word index `k` of the SAS: bytes `2k` and `2k + 1` of the key material, big-endian,
/// modulo 2048.
pub open spec fn sas_word_index(okm: Seq<u8>, k: int) -> int {
    (okm[2 * k] * 256 + okm[2 * k + 1]) % 2048
}

/// The four SAS words of a pair of public keys.
pub open spec fn sas_words(pk1: Seq<u8>, pk2: Seq<u8>) -> Seq<Seq<char>> {
    let okm = hkdf_sha256(sas_ikm(pk1, pk2), SAS_INFO@, 8);
    Seq::new(4, |k: int| bip39_english_word(sas_word_index(okm, k)))
}

proof fn lemma_first_diff_symmetric(a: Seq<u8>, b: Seq<u8>, i: int)
    requires
        a.len() == b.len(),
        0 <= i <= a.len(),
    ensures
        first_diff_from(a, b, i) == first_diff_from(b, a, i),
        i <= first_diff_from(a, b, i) <= a.len(),
        forall|k: int| i <= k < first_diff_from(a, b, i) ==> a[k] == b[k],
        first_diff_from(a, b, i) < a.len() ==> a[first_diff_from(a, b, i)] != b[first_diff_from(a, b, i)],
    decreases a.len() - i,
{
    if i < a.len() {
        lemma_first_diff_symmetric(a, b, i + 1);
    }
}

/// Both parties derive the same SAS words, whichever key each puts first.
pub proof fn lemma_sas_words_symmetric(pk1: Seq<u8>, pk2: Seq<u8>)
    requires
        pk1.len() == 32,
        pk2.len() == 32,
    ensures
        sas_words(pk1, pk2) == sas_words(pk2, pk1),
{
    lemma_first_diff_symmetric(pk1, pk2, 0);
    if lex_le(pk1, pk2) && lex_le(pk2, pk1) {
        assert(pk1 =~= pk2);
    }
    assert(lex_le(pk1, pk2) || lex_le(pk2, pk1));
    assert(sas_ikm(pk1, pk2) == sas_ikm(pk2, pk1));
}

/// Whether `a <= b` lexicographically.
fn key_le(a: &[u8; 32], b: &[u8; 32]) -> (r: bool)
    ensures
        r == lex_le(a@, b@),
{
    let mut i: usize = 0;
    while i < 32 && a[i] == b[i]
        invariant
            i <= 32,
            first_diff_from(a@, b@, 0) == first_diff_from(a@, b@, i as int),
        decreases 32 - i,
    {
        i = i + 1;
    }
    i == 32 || a[i] < b[i]
}

/// Derives the four-word short authentication string of two public keys:
/// HKDF-SHA256 over the smaller key then the larger, with info `gibberish-sas-v1`, eight
/// bytes read as four big-endian indices into the BIP-39 English word list.
pub fn derive_sas_words(pk1: &[u8; 32], pk2: &[u8; 32]) -> (r: [String; 4])
    ensures
        forall|k: int| 0 <= k < 4 ==> #[trigger] r@[k]@ == sas_words(pk1@, pk2@)[k],
{
    let swap = !key_le(pk1, pk2);
    let mut ikm = [0u8; 64];
    let mut i: usize = 0;
    while i < 32
        invariant
            i <= 32,
            swap == !lex_le(pk1@, pk2@),
            forall|k: int| 0 <= k < i ==> ikm@[k] == (if swap { pk2@[k] } else { pk1@[k] }),
            forall|k: int| 0 <= k < i ==> ikm@[32 + k] == (if swap { pk1@[k] } else { pk2@[k] }),
        decreases 32 - i,
    {
        if swap {
            ikm[i] = pk2[i];
            ikm[32 + i] = pk1[i];
        } else {
            ikm[i] = pk1[i];
            ikm[32 + i] = pk2[i];
        }
        i = i + 1;
    }
    assert(ikm@ =~= sas_ikm(pk1@, pk2@));
    let okm = hkdf_sha256_8(&ikm, SAS_INFO.as_slice()).unwrap();
    let idx0 = ((okm[0] as usize) * 256 + okm[1] as usize) % 2048;
    let idx1 = ((okm[2] as usize) * 256 + okm[3] as usize) % 2048;
    let idx2 = ((okm[4] as usize) * 256 + okm[5] as usize) % 2048;
    let idx3 = ((okm[6] as usize) * 256 + okm[7] as usize) % 2048;
    let r = [english_word(idx0), english_word(idx1), english_word(idx2), english_word(idx3)];
    assert(r@[0]@ == sas_words(pk1@, pk2@)[0]);
    assert(r@[1]@ == sas_words(pk1@, pk2@)[1]);
    assert(r@[2]@ == sas_words(pk1@, pk2@)[2]);
    assert(r@[3]@ == sas_words(pk1@, pk2@)[3]);
    r
}

fn push_chars(v: &mut Vec<char>, s: &str)
    ensures
        final(v)@ == old(v)@ + s@,
{
    let cs = str_chars(s);
    let n = cs.len();
    let mut i: usize = 0;
    while i < n
        invariant
            n == cs@.len(),
            cs@ == s@,
            i <= n,
            v@ == old(v)@ + s@.take(i as int),
        decreases n - i,
    {
        v.push(cs[i]);
        i = i + 1;
        assert(s@.take(i as int) =~= s@.take(i - 1) .push(cs@[i - 1]));
    }
    assert(s@.take(n as int) =~= s@);
}

/// The SAS words separated by single spaces.
pub open spec fn joined_sas(words: Seq<Seq<char>>) -> Seq<char> {
    words[0] + seq![' '] + words[1] + seq![' '] + words[2] + seq![' '] + words[3]
}

/// Formats the four SAS words as one space-separated line.
pub fn format_sas_words(words: &[String; 4]) -> (r: String)
    ensures
        r@ == joined_sas(Seq::new(4, |k: int| words@[k]@)),
{
    let mut cs: Vec<char> = Vec::new();
    push_chars(&mut cs, words[0].as_str());
    cs.push(' ');
    push_chars(&mut cs, words[1].as_str());
    cs.push(' ');
    push_chars(&mut cs, words[2].as_str());
    cs.push(' ');
    push_chars(&mut cs, words[3].as_str());
    assert(cs@ =~= joined_sas(Seq::new(4, |k: int| words@[k]@)));
    string_from_chars(cs.as_slice())
}

/// Lowercase hexadecimal digit of a nibble.
pub open spec fn lower_hex_digit(d: int) -> char {
    if d < 10 {
        (48 + d) as char
    } else {
        (87 + d) as char
    }
}

/// Two lowercase hexadecimal digits per byte.
pub open spec fn lower_hex(b: Seq<u8>) -> Seq<char> {
    Seq::new(
        2 * b.len(),
        |i: int| lower_hex_digit(if i % 2 == 0 { b[i / 2] / 16 } else { b[i / 2] % 16 } as int),
    )
}

fn lower_hex_char(d: u8) -> (c: char)
    requires
        d < 16,
    ensures
        c == lower_hex_digit(d as int),
{
    if d < 10 {
        (48 + d) as char
    } else {
        (87 + d) as char
    }
}

/// The verification link that the QR code carries.
pub open spec fn verification_uri(node_id: u32, alias: Seq<char>, pubkey: Seq<u8>) -> Seq<char> {
    "gibberish://verify?node_id="@ + hex_node_label(node_id) + "&alias="@ + alias + "&pubkey="@ + lower_hex(
        pubkey,
    )
}

/// Builds the verification link: the node id as `0x` and eight uppercase hexadecimal
/// digits, the alias as given, the public key in lowercase hexadecimal.
pub fn verification_link(node_id: u32, alias: &str, pubkey: &[u8; 32]) -> (r: String)
    ensures
        r@ == verification_uri(node_id, alias@, pubkey@),
{
    let mut cs: Vec<char> = Vec::new();
    push_chars(&mut cs, "gibberish://verify?node_id=");
    push_chars(&mut cs, direct_convo_id(node_id).as_str());
    push_chars(&mut cs, "&alias=");
    push_chars(&mut cs, alias);
    push_chars(&mut cs, "&pubkey=");
    let ghost start = cs@;
    let mut i: usize = 0;
    while i < 32
        invariant
            i <= 32,
            cs@ == start + lower_hex(pubkey@).take(2 * i),
        decreases 32 - i,
    {
        let b = pubkey[i];
        cs.push(lower_hex_char(b / 16));
        cs.push(lower_hex_char(b % 16));
        assert(lower_hex(pubkey@).take(2 * (i + 1)) =~= lower_hex(pubkey@).take(2 * i).push(
            lower_hex_digit((b / 16) as int),
        ).push(lower_hex_digit((b % 16) as int)));
        i = i + 1;
    }
    assert(lower_hex(pubkey@).take(64) =~= lower_hex(pubkey@));
    string_from_chars(cs.as_slice())
}

/// Renders the identity verification QR code as SVG; a link too long for a QR code is a
/// QR error.
pub fn generate_verification_qr_svg(node_id: u32, alias: &str, pubkey: &[u8; 32]) -> (r: Result<
    String,
    IdentityError,
>)
    ensures
        ({
            let data = encode_utf8(verification_uri(node_id, alias@, pubkey@));
            match qr_svg_image(data) {
                Some(img) => r matches Ok(s) && s@ == img,
                None => r matches Err(e) && e is Qr,
            }
        }),
{
    let link = verification_link(node_id, alias, pubkey);
    match qr_svg(link.as_str().as_bytes()) {
        Ok(s) => Ok(s),
        Err(e) => Err(IdentityError::Qr(e)),
    }
}

/// The contact an announcement beacon describes: a contact already stored keeps its
/// trust state; one that is new, or that the store failed to read, starts unverified.
pub fn contact_from_beacon(
    stored: Result<Option<ContactRecord>, DbError>,
    node_id: u32,
    alias: &str,
    pubkey: &[u8; 32],
    rssi: i16,
    lqi: u8,
    timestamp: i64,
) -> (r: ContactRecord)
    ensures
        r.node_id == node_id,
        r.alias@ == alias@,
        r.pubkey == *pubkey,
        r.last_seen == timestamp,
        r.rssi == rssi,
        r.lqi == lqi,
        r.trust_state == match stored {
            Ok(Some(c)) => c.trust_state,
            _ => TrustState::Unverified,
        },
{
    let trust_state = match stored {
        Ok(Some(existing)) => existing.trust_state,
        _ => TrustState::Unverified,
    };
    ContactRecord {
        node_id,
        alias: alias.to_owned(),
        pubkey: *pubkey,
        trust_state,
        last_seen: timestamp,
        rssi,
        lqi,
    }
}

/// The contact an announcement beacon describes, given what the store held under its node
/// id: the stored trust state is kept, and a new contact (or an unreadable one) starts
/// unverified.
pub open spec fn beacon_contact(
    c: ContactRecord,
    stored: Result<Option<ContactRecord>, DbError>,
    node_id: u32,
    alias: Seq<char>,
    pubkey: [u8; 32],
    rssi: i16,
    lqi: u8,
    timestamp: i64,
) -> bool {
    &&& c.node_id == node_id
    &&& c.alias@ == alias
    &&& c.pubkey == pubkey
    &&& c.last_seen == timestamp
    &&& c.rssi == rssi
    &&& c.lqi == lqi
    &&& c.trust_state == match stored {
        Ok(Some(s)) => s.trust_state,
        _ => TrustState::Unverified,
    }
}

/// Records a contact heard in an announcement beacon: it reads the contact stored under
/// the node id, then stores the beacon's contact, which keeps the stored trust state (a
/// newly discovered contact starts unverified), and returns it.
pub fn ingest_announcement_beacon<S: ContactStore>(
    db: &mut Recorded<S>,
    node_id: u32,
    alias: &str,
    pubkey: &[u8; 32],
    rssi: i16,
    lqi: u8,
    timestamp: i64,
) -> (r: Result<ContactRecord, IdentityError>)
    ensures
        final(db).inner() == old(db).inner(),
        final(db).calls().len() == old(db).calls().len() + 2,
        final(db).calls().take(old(db).calls().len() as int) == old(db).calls(),
        final(db).calls()[old(db).calls().len() as int] matches StoreCall::GetContact(n, stored) && n == node_id
            && (final(db).calls()[old(db).calls().len() as int + 1] matches StoreCall::UpsertContact(c, ans) && beacon_contact(
            c,
            stored,
            node_id,
            alias@,
            *pubkey,
            rssi,
            lqi,
            timestamp,
        ) && r == match ans {
            Ok(()) => Ok::<ContactRecord, IdentityError>(c),
            Err(e) => Err(IdentityError::Db(e)),
        }),
{
    let stored = db.get_contact(node_id);
    let contact = contact_from_beacon(stored, node_id, alias, pubkey, rssi, lqi, timestamp);
    let ans = db.upsert_contact(&contact);
    assert(db.calls().take(old(db).calls().len() as int) =~= old(db).calls());
    match ans {
        Ok(()) => Ok(contact),
        Err(e) => Err(IdentityError::Db(e)),
    }
}

/// Marks a stored contact verified: hands `Verified` to the store for the node id; an
/// unknown node id is `ContactNotFound`.
pub fn verify_contact_identity<S: ContactStore>(db: &mut Recorded<S>, node_id: u32) -> (r: Result<bool, IdentityError>)
    ensures
        final(db).inner() == old(db).inner(),
        final(db).calls().len() == old(db).calls().len() + 1,
        final(db).calls().drop_last() == old(db).calls(),
        final(db).calls().last() matches StoreCall::SetTrustState(n, t, ans) && n == node_id && t
            == TrustState::Verified && r == match ans {
            Ok(true) => Ok::<bool, IdentityError>(true),
            Ok(false) => Err(IdentityError::ContactNotFound(node_id)),
            Err(e) => Err(IdentityError::Db(e)),
        },
{
    let ans = db.set_trust_state(node_id, TrustState::Verified);
    assert(db.calls().drop_last() =~= old(db).calls());
    match ans {
        Ok(true) => Ok(true),
        Ok(false) => Err(IdentityError::ContactNotFound(node_id)),
        Err(e) => Err(IdentityError::Db(e)),
    }
}

} // verus!
