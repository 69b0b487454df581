//! Records and status enums of the local message store.
use vstd::prelude::*;
use crate::text::str_eq;

verus! {

#[derive(Debug, Clone, Copy, PartialEq, Eq, Structural)]
pub enum TrustState {
    Unverified,
    Verified,
}

/// Stored name of a trust state.
pub open spec fn trust_state_name(t: TrustState) -> Seq<char> {
    match t {
        TrustState::Unverified => "unverified"@,
        TrustState::Verified => "verified"@,
    }
}

impl TrustState {
    pub fn as_str(&self) -> (r: &'static str)
        ensures
            r@ == trust_state_name(*self),
    {
        match self {
            TrustState::Unverified => "unverified",
            TrustState::Verified => "verified",
        }
    }

    /// Reads a stored name; anything but "verified" is unverified.
    pub fn from_str_val(s: &str) -> (r: Self)
        ensures
            r == (if s@ == "verified"@ { TrustState::Verified } else { TrustState::Unverified }),
    {
        if str_eq(s, "verified") {
            TrustState::Verified
        } else {
            TrustState::Unverified
        }
    }
}

/// Reading back the stored name of a trust state gives the state.
pub proof fn lemma_trust_state_name_roundtrip(t: TrustState)
    ensures
        (if trust_state_name(t) == "verified"@ { TrustState::Verified } else { TrustState::Unverified }) == t,
{
    reveal_strlit("verified");
    reveal_strlit("unverified");
    assert("verified"@.len() != "unverified"@.len());
}

#[derive(Debug, Clone, PartialEq, Eq)]
pub struct ContactRecord {
    pub node_id: u32,
    pub alias: String,
    pub pubkey: [u8; 32],
    pub trust_state: TrustState,
    pub last_seen: i64,
    pub rssi: i16,
    pub lqi: u8,
}

#[derive(Debug, Clone, Copy, PartialEq, Eq, Structural)]
pub enum MessageStatus {
    Transmitted,
    Delivered,
    Queued,
    Failed,
}

/// Stored name of a message status.
pub open spec fn message_status_name(m: MessageStatus) -> Seq<char> {
    match m {
        MessageStatus::Transmitted => "transmitted"@,
        MessageStatus::Delivered => "delivered"@,
        MessageStatus::Queued => "queued"@,
        MessageStatus::Failed => "failed"@,
    }
}

/// Status read from a stored name; anything unknown reads as transmitted.
pub open spec fn message_status_of_name(s: Seq<char>) -> MessageStatus {
    if s == "delivered"@ {
        MessageStatus::Delivered
    } else if s == "queued"@ {
        MessageStatus::Queued
    } else if s == "failed"@ {
        MessageStatus::Failed
    } else {
        MessageStatus::Transmitted
    }
}

/// Symbol shown next to a message.
pub open spec fn message_status_symbol(m: MessageStatus) -> Seq<char> {
    match m {
        MessageStatus::Transmitted => "*"@,
        MessageStatus::Delivered => "[OK]"@,
        MessageStatus::Queued => "[Q]"@,
        MessageStatus::Failed => "[!]"@,
    }
}

impl MessageStatus {
    pub fn as_str(&self) -> (r: &'static str)
        ensures
            r@ == message_status_name(*self),
    {
        match self {
            MessageStatus::Transmitted => "transmitted",
            MessageStatus::Delivered => "delivered",
            MessageStatus::Queued => "queued",
            MessageStatus::Failed => "failed",
        }
    }

    pub fn from_str_val(s: &str) -> (r: Self)
        ensures
            r == message_status_of_name(s@),
    {
        if str_eq(s, "delivered") {
            MessageStatus::Delivered
        } else if str_eq(s, "queued") {
            MessageStatus::Queued
        } else if str_eq(s, "failed") {
            MessageStatus::Failed
        } else {
            MessageStatus::Transmitted
        }
    }

    pub fn symbol(&self) -> (r: &'static str)
        ensures
            r@ == message_status_symbol(*self),
    {
        match self {
            MessageStatus::Transmitted => "*",
            MessageStatus::Delivered => "[OK]",
            MessageStatus::Queued => "[Q]",
            MessageStatus::Failed => "[!]",
        }
    }
}

/// Reading back the stored name of a message status gives the status.
pub proof fn lemma_message_status_name_roundtrip(m: MessageStatus)
    ensures
        message_status_of_name(message_status_name(m)) == m,
{
    reveal_strlit("transmitted");
    reveal_strlit("delivered");
    reveal_strlit("queued");
    reveal_strlit("failed");
    assert("transmitted"@.len() != "delivered"@.len());
    assert("transmitted"@.len() != "queued"@.len());
    assert("transmitted"@.len() != "failed"@.len());
    assert("delivered"@.len() != "queued"@.len());
    assert("delivered"@.len() != "failed"@.len());
    assert("queued"@[0] != "failed"@[0]);
}

#[derive(Debug, Clone, PartialEq, Eq)]
pub struct MessageRecord {
    pub id: String,
    pub convo_id: String,
    pub sender_node_id: u32,
    pub timestamp: i64,
    pub text: String,
    pub status: MessageStatus,
}

#[derive(Debug, Clone, Copy, PartialEq, Eq, Structural)]
pub enum OutboxStatus {
    Pending,
    Sending,
    Sent,
    Failed,
}

/// Stored name of an outbox status.
pub open spec fn outbox_status_name(o: OutboxStatus) -> Seq<char> {
    match o {
        OutboxStatus::Pending => "pending"@,
        OutboxStatus::Sending => "sending"@,
        OutboxStatus::Sent => "sent"@,
        OutboxStatus::Failed => "failed"@,
    }
}

/// Status read from a stored name; anything unknown reads as pending.
pub open spec fn outbox_status_of_name(s: Seq<char>) -> OutboxStatus {
    if s == "sending"@ {
        OutboxStatus::Sending
    } else if s == "sent"@ {
        OutboxStatus::Sent
    } else if s == "failed"@ {
        OutboxStatus::Failed
    } else {
        OutboxStatus::Pending
    }
}

impl OutboxStatus {
    pub fn as_str(&self) -> (r: &'static str)
        ensures
            r@ == outbox_status_name(*self),
    {
        match self {
            OutboxStatus::Pending => "pending",
            OutboxStatus::Sending => "sending",
            OutboxStatus::Sent => "sent",
            OutboxStatus::Failed => "failed",
        }
    }

    pub fn from_str_val(s: &str) -> (r: Self)
        ensures
            r == outbox_status_of_name(s@),
    {
        if str_eq(s, "sending") {
            OutboxStatus::Sending
        } else if str_eq(s, "sent") {
            OutboxStatus::Sent
        } else if str_eq(s, "failed") {
            OutboxStatus::Failed
        } else {
            OutboxStatus::Pending
        }
    }
}

/// Reading back the stored name of an outbox status gives the status.
pub proof fn lemma_outbox_status_name_roundtrip(o: OutboxStatus)
    ensures
        outbox_status_of_name(outbox_status_name(o)) == o,
{
    reveal_strlit("pending");
    reveal_strlit("sending");
    reveal_strlit("sent");
    reveal_strlit("failed");
    assert("pending"@[0] != "sending"@[0]);
    assert("pending"@.len() != "sent"@.len());
    assert("pending"@[0] != "failed"@[0]);
    assert("sending"@.len() != "sent"@.len());
    assert("sending"@[0] != "failed"@[0]);
    assert("sent"@.len() != "failed"@.len());
}

#[derive(Debug, Clone, PartialEq, Eq)]
pub struct OutboxRecord {
    pub id: String,
    pub dest_node_id: u32,
    pub payload: Vec<u8>,
    pub queued_at: i64,
    pub retry_count: u32,
    pub ttl_secs: u64,
    pub status: OutboxStatus,
}

} // verus!
