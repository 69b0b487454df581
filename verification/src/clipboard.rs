//! Clipboard sync provenance: which local clipboard changes are new, and suppression of
//! the echo of text that was just written from a remote peer.
use vstd::prelude::*;
use vstd::string::StringSliceAdditionalSpecFns;
use vstd::utf8::encode_utf8;
use crate::clock::{instant_now, millis_since};
use crate::secrecy::Secret;

verus! {

/// How long a remote write suppresses the same text coming back, in milliseconds.
pub const ECHO_SUPPRESSION_WINDOW_MS: u64 = 500;

/// BLAKE3 hash of a byte string (32 bytes).
pub uninterp spec fn blake3_digest(data: Seq<u8>) -> Seq<u8>;

/// Calls `blake3::hash` and returns the 32 bytes of the hash.
#[verifier::external_body]
fn blake3_hash(data: &[u8]) -> (r: [u8; 32])
    ensures
        r@ == blake3_digest(data@),
{
    *blake3::hash(data).as_bytes()
}

fn same_hash(a: &[u8; 32], b: &[u8; 32]) -> (r: bool)
    ensures
        r == (a@ == b@),
{
    let mut i: usize = 0;
    while i < 32
        invariant
            i <= 32,
            forall|k: int| 0 <= k < i ==> a@[k] == b@[k],
        decreases 32 - i,
    {
        if a[i] != b[i] {
            return false;
        }
        i = i + 1;
    }
    assert(a@ =~= b@);
    true
}

/// Provenance of clipboard contents: the hash of the last text seen or written, and the
/// hash of a remote write whose echo is suppressed until a deadline.
pub struct ClipboardManager {
    origin: std::time::Instant,
    last_hash: [u8; 32],
    suppress_until_ms: u64,
    suppressed_hash: [u8; 32],
}

impl ClipboardManager {
    /// Hash of the last text taken from or written to the clipboard.
    pub closed spec fn last(&self) -> Seq<u8> {
        self.last_hash@
    }

    /// Hash whose echo is suppressed.
    pub closed spec fn suppressed(&self) -> Seq<u8> {
        self.suppressed_hash@
    }

    /// End of the suppression window, in milliseconds on the manager's clock.
    pub closed spec fn until(&self) -> u64 {
        self.suppress_until_ms
    }

    /// No text seen, no suppression; the clock starts now.
    pub fn new() -> (r: Self)
        ensures
            r.last() == Seq::new(32, |i: int| 0u8),
            r.suppressed() == Seq::new(32, |i: int| 0u8),
            r.until() == 0,
    {
        let r = ClipboardManager {
            origin: instant_now(),
            last_hash: [0u8; 32],
            suppress_until_ms: 0,
            suppressed_hash: [0u8; 32],
        };
        assert(r.last_hash@ =~= Seq::new(32, |i: int| 0u8));
        r
    }

    /// Whether `text` read from the clipboard at `now_ms` is the echo of a remote write.
    pub fn is_suppressed_at(&self, now_ms: u64, text: &str) -> (r: bool)
        ensures
            r == (now_ms < self.until() && blake3_digest(text.spec_bytes()) == self.suppressed()),
    {
        let hash = blake3_hash(text.as_bytes());
        now_ms < self.suppress_until_ms && same_hash(&hash, &self.suppressed_hash)
    }

    /// `is_suppressed_at` on the manager's clock.
    pub fn is_suppressed(&self, text: &str) -> (r: bool)
        ensures
            exists|now: u64| r == #[trigger] is_echo(self.until(), self.suppressed(), text.spec_bytes(), now),
    {
        let now = millis_since(&self.origin);
        let r = self.is_suppressed_at(now, text);
        assert(r == is_echo(self.until(), self.suppressed(), text.spec_bytes(), now));
        r
    }

    /// Suppresses the echo of `text` for the window from `now_ms`.
    pub fn arm_suppression_at(&mut self, now_ms: u64, text: &str)
        ensures
            final(self).suppressed() == blake3_digest(text.spec_bytes()),
            final(self).until() == if now_ms + ECHO_SUPPRESSION_WINDOW_MS > u64::MAX { u64::MAX } else {
                (now_ms + ECHO_SUPPRESSION_WINDOW_MS) as u64
            },
            final(self).last() == old(self).last(),
    {
        self.suppressed_hash = blake3_hash(text.as_bytes());
        self.suppress_until_ms = now_ms.saturating_add(ECHO_SUPPRESSION_WINDOW_MS);
    }

    /// `arm_suppression_at` on the manager's clock.
    pub fn arm_suppression(&mut self, text: &str)
        ensures
            final(self).suppressed() == blake3_digest(text.spec_bytes()),
            final(self).last() == old(self).last(),
    {
        let now = millis_since(&self.origin);
        self.arm_suppression_at(now, text);
    }

    /// Records text about to be written from a remote peer: its echo is suppressed for the
    /// window, and it counts as already seen.
    pub fn note_remote_write_at(&mut self, now_ms: u64, text: &Secret<String>)
        ensures
            final(self).suppressed() == blake3_digest(encode_utf8(text.value()@)),
            final(self).last() == blake3_digest(encode_utf8(text.value()@)),
            final(self).until() == if now_ms + ECHO_SUPPRESSION_WINDOW_MS > u64::MAX { u64::MAX } else {
                (now_ms + ECHO_SUPPRESSION_WINDOW_MS) as u64
            },
    {
        let hash = blake3_hash(text.expose_secret().as_str().as_bytes());
        self.suppressed_hash = hash;
        self.suppress_until_ms = now_ms.saturating_add(ECHO_SUPPRESSION_WINDOW_MS);
        self.last_hash = hash;
    }

    /// `note_remote_write_at` on the manager's clock.
    pub fn note_remote_write(&mut self, text: &Secret<String>)
        ensures
            final(self).suppressed() == blake3_digest(encode_utf8(text.value()@)),
            final(self).last() == blake3_digest(encode_utf8(text.value()@)),
    {
        let now = millis_since(&self.origin);
        self.note_remote_write_at(now, text);
    }

    /// Decides about text read from the clipboard at `now_ms`: the echo of a remote write
    /// is dropped, text equal to the last seen is no change, anything else is a new local
    /// copy to sync and becomes the last seen.
    pub fn accept_local_copy_at(&mut self, now_ms: u64, text: String) -> (r: Option<Secret<String>>)
        ensures
            ({
                let h = blake3_digest(encode_utf8(text@));
                if now_ms < old(self).until() && h == old(self).suppressed() {
                    r is None && final(self).last() == old(self).last()
                } else if h != old(self).last() {
                    r matches Some(s) && s.value() == text && final(self).last() == h
                } else {
                    r is None && final(self).last() == old(self).last()
                }
            }),
            final(self).suppressed() == old(self).suppressed(),
            final(self).until() == old(self).until(),
    {
        let hash = blake3_hash(text.as_str().as_bytes());
        if now_ms < self.suppress_until_ms && same_hash(&hash, &self.suppressed_hash) {
            return None;
        }
        if !same_hash(&hash, &self.last_hash) {
            self.last_hash = hash;
            return Some(Secret::new(text));
        }
        None
    }

    /// `accept_local_copy_at` on the manager's clock.
    pub fn accept_local_copy(&mut self, text: String) -> (r: Option<Secret<String>>)
        ensures
            exists|now: u64| local_copy_taken(old(self).last(), old(self).suppressed(), old(self).until(), final(self).last(), text@, now, r),
            final(self).suppressed() == old(self).suppressed(),
            final(self).until() == old(self).until(),
    {
        let now = millis_since(&self.origin);
        let ghost t = text@;
        let r = self.accept_local_copy_at(now, text);
        assert(local_copy_taken(old(self).last(), old(self).suppressed(), old(self).until(), self.last(), t, now, r));
        r
    }
}

/// Whether text with these UTF-8 bytes, read at `now`, is the echo of the remote write
/// whose hash is suppressed until `until`.
pub open spec fn is_echo(until: u64, suppressed: Seq<u8>, bytes: Seq<u8>, now: u64) -> bool {
    now < until && blake3_digest(bytes) == suppressed
}

/// What reading `text` from the clipboard at `now` does, from the last-seen hash, the
/// suppressed hash and the suppression deadline: the echo of a remote write is dropped,
/// text equal to the last seen is no change, anything else is returned as a new local copy
/// and becomes the last seen.
pub open spec fn local_copy_taken(
    last: Seq<u8>,
    suppressed: Seq<u8>,
    until: u64,
    new_last: Seq<u8>,
    text: Seq<char>,
    now: u64,
    r: Option<Secret<String>>,
) -> bool {
    let h = blake3_digest(encode_utf8(text));
    if now < until && h == suppressed {
        r is None && new_last == last
    } else if h != last {
        r matches Some(s) && s.value()@ == text && new_last == h
    } else {
        r is None && new_last == last
    }
}

} // verus!
