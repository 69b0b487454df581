//! The persistent stores that the client logic reads and writes.
use vstd::prelude::*;
use crate::schema::{ContactRecord, MessageRecord, TrustState};

verus! {

#[verifier::external_type_specification]
#[verifier::external_body]
pub struct ExSqliteError(rusqlite::Error);

/// Why a store operation failed.
#[derive(Debug, PartialEq)]
pub enum DbError {
    Sqlite(rusqlite::Error),
    LockPoisoned,
    /// A stored public key was not 32 bytes long; carries its length.
    InvalidPubkeyLength(usize),
}

/// Contacts by node id, with their trust state.
pub trait ContactStore {
    /// The contact stored under `node_id`, if any.
    fn get_contact(&self, node_id: u32) -> Result<Option<ContactRecord>, DbError>;

    /// Inserts the contact, or replaces the one stored under its node id.
    fn upsert_contact(&self, contact: &ContactRecord) -> Result<(), DbError>;

    /// Sets a stored contact's trust state; whether a contact was stored under `node_id`.
    fn set_trust_state(&self, node_id: u32, trust: TrustState) -> Result<bool, DbError>;
}

/// Chat messages by conversation.
pub trait MessageStore {
    fn insert_message(&self, msg: &MessageRecord) -> Result<(), DbError>;
}

/// One call made on a store, with what it answered.
pub enum StoreCall {
    /// `get_contact` for this node id.
    GetContact(u32, Result<Option<ContactRecord>, DbError>),
    /// `upsert_contact` with this contact.
    UpsertContact(ContactRecord, Result<(), DbError>),
    /// `set_trust_state` for this node id and trust state.
    SetTrustState(u32, TrustState, Result<bool, DbError>),
    /// `insert_message` with this record.
    InsertMessage(MessageRecord, Result<(), DbError>),
}

/// A store together with the calls the library made on it, oldest first.
pub struct Recorded<S> {
    store: S,
    calls: Ghost<Seq<StoreCall>>,
}

impl<S> Recorded<S> {
    /// `store`, with no calls made on it yet.
    pub fn new(store: S) -> (r: Self)
        ensures
            r.inner() == store,
            r.calls() == Seq::<StoreCall>::empty(),
    {
        Recorded { store, calls: Ghost(Seq::empty()) }
    }

    /// The store.
    pub closed spec fn inner(&self) -> S {
        self.store
    }

    /// The calls made on the store so far, oldest first, with its answers.
    pub closed spec fn calls(&self) -> Seq<StoreCall> {
        self.calls@
    }

    /// The store, to read it.
    pub fn store(&self) -> (r: &S)
        ensures
            *r == self.inner(),
    {
        &self.store
    }
}

impl<S: ContactStore> Recorded<S> {
    pub fn get_contact(&mut self, node_id: u32) -> (r: Result<Option<ContactRecord>, DbError>)
        ensures
            final(self).inner() == old(self).inner(),
            final(self).calls() == old(self).calls().push(StoreCall::GetContact(node_id, r)),
    {
        let r = self.store.get_contact(node_id);
        self.calls = Ghost(self.calls@.push(StoreCall::GetContact(node_id, r)));
        r
    }

    pub fn upsert_contact(&mut self, contact: &ContactRecord) -> (r: Result<(), DbError>)
        ensures
            final(self).inner() == old(self).inner(),
            final(self).calls() == old(self).calls().push(StoreCall::UpsertContact(*contact, r)),
    {
        let r = self.store.upsert_contact(contact);
        self.calls = Ghost(self.calls@.push(StoreCall::UpsertContact(*contact, r)));
        r
    }

    pub fn set_trust_state(&mut self, node_id: u32, trust: TrustState) -> (r: Result<bool, DbError>)
        ensures
            final(self).inner() == old(self).inner(),
            final(self).calls() == old(self).calls().push(StoreCall::SetTrustState(node_id, trust, r)),
    {
        let r = self.store.set_trust_state(node_id, trust);
        self.calls = Ghost(self.calls@.push(StoreCall::SetTrustState(node_id, trust, r)));
        r
    }
}

impl<S: MessageStore> Recorded<S> {
    pub fn insert_message(&mut self, msg: &MessageRecord) -> (r: Result<(), DbError>)
        ensures
            final(self).inner() == old(self).inner(),
            final(self).calls() == old(self).calls().push(StoreCall::InsertMessage(*msg, r)),
    {
        let r = self.store.insert_message(msg);
        self.calls = Ghost(self.calls@.push(StoreCall::InsertMessage(*msg, r)));
        r
    }
}

} // verus!
