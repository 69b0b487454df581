//! Monotonic message-counter allocation with write-ahead block reservation.
//!
//! Counters are handed out from a reserved block of 1,000; before a counter beyond the
//! reservation is issued, the next reservation is made durable through the store. A
//! restart resumes at the last reserved limit, so no counter is ever issued twice, and
//! the epoch never moves backwards even if the wall clock does.
use vstd::prelude::*;

verus! {

pub const NONCE_BLOCK_SIZE: u64 = 1000;

/// Durable storage of the reservation: the epoch in use and the first counter not yet
/// reserved. Implemented by the host (a JSON state file written with fsync).
pub trait NonceStore {
    type Error;

    fn persist_reservation(&mut self, epoch: u32, next_allocated_block: u64) -> Result<(), Self::Error>;
}

/// Epoch to start in: the wall-clock seconds, unless that is not past the last persisted
/// epoch, in which case one past it (saturating).
pub open spec fn safe_epoch(now_secs: u32, last_persisted_epoch: u32) -> u32 {
    if now_secs <= last_persisted_epoch {
        if last_persisted_epoch == u32::MAX { u32::MAX } else { (last_persisted_epoch + 1) as u32 }
    } else {
        now_secs
    }
}

/// The last reservation limit the store confirmed durable, in a list of reservations
/// handed to it (epoch, limit, whether it confirmed), oldest first.
pub open spec fn durable_limit(log: Seq<(u32, u64, bool)>) -> Option<u64>
    decreases log.len(),
{
    if log.len() == 0 {
        None
    } else if log.last().2 {
        Some(log.last().1)
    } else {
        durable_limit(log.drop_last())
    }
}

pub struct NonceManager<S: NonceStore> {
    store: S,
    current_epoch: u32,
    current_counter: u64,
    block_limit: u64,
    reservations: Ghost<Seq<(u32, u64, bool)>>,
}

/// Hands a reservation to the store and records it with the store's answer.
fn reserve<S: NonceStore>(store: &mut S, log: &mut Ghost<Seq<(u32, u64, bool)>>, epoch: u32, limit: u64) -> (r: Result<(), S::Error>)
    ensures
        final(log)@ == old(log)@.push((epoch, limit, r is Ok)),
{
    let r = store.persist_reservation(epoch, limit);
    *log = Ghost(log@.push((epoch, limit, r is Ok)));
    r
}

impl<S: NonceStore> NonceManager<S> {
    /// The next counter never lies beyond the reservation, and the reservation is the
    /// last one the store confirmed durable.
    pub closed spec fn well_formed(&self) -> bool {
        &&& self.current_counter <= self.block_limit
        &&& durable_limit(self.reservations@) == Some(self.block_limit)
    }

    /// The reservations handed to the store so far, oldest first: epoch, limit (the first
    /// counter not reserved) and whether the store confirmed it durable.
    pub closed spec fn reservations(&self) -> Seq<(u32, u64, bool)> {
        self.reservations@
    }

    /// Epoch used for every allocation.
    pub closed spec fn epoch(&self) -> u32 {
        self.current_epoch
    }

    /// Next counter to issue.
    pub closed spec fn counter(&self) -> u64 {
        self.current_counter
    }

    /// End of the current reservation: counters below it may be issued.
    pub closed spec fn limit(&self) -> u64 {
        self.block_limit
    }

    /// Starts from the persisted state: the epoch is made safe against clock rollback,
    /// counting resumes at the persisted reservation, and the first new reservation is made
    /// durable before the manager is returned.
    pub fn open(mut store: S, now_secs: u32, last_persisted_epoch: u32, next_allocated_block: u64) -> (r: Result<Self, S::Error>)
        requires
            next_allocated_block <= u64::MAX - NONCE_BLOCK_SIZE,
        ensures
            r matches Ok(m) ==> {
                &&& m.well_formed()
                &&& m.epoch() == safe_epoch(now_secs, last_persisted_epoch)
                &&& m.counter() == next_allocated_block
                &&& m.limit() == next_allocated_block + NONCE_BLOCK_SIZE
                &&& m.reservations() == seq![
                    (safe_epoch(now_secs, last_persisted_epoch), (next_allocated_block + NONCE_BLOCK_SIZE) as u64, true),
                ]
            },
    {
        let epoch = if now_secs <= last_persisted_epoch {
            last_persisted_epoch.saturating_add(1)
        } else {
            now_secs
        };
        let limit = next_allocated_block + NONCE_BLOCK_SIZE;
        let mut reservations: Ghost<Seq<(u32, u64, bool)>> = Ghost(Seq::empty());
        match reserve(&mut store, &mut reservations, epoch, limit) {
            Ok(()) => {
                assert(reservations@.drop_last() =~= Seq::<(u32, u64, bool)>::empty());
                assert(reservations@ =~= seq![(epoch, limit, true)]);
                Ok(NonceManager { store, current_epoch: epoch, current_counter: next_allocated_block, block_limit: limit, reservations })
            },
            Err(e) => Err(e),
        }
    }

    /// Issues the next counter with the epoch. When the reservation is used up it is first
    /// extended by a block and made durable; if that fails the error is returned, no
    /// counter is issued and the reservation stays as it was. Every counter issued lies
    /// below the last limit the store confirmed durable.
    pub fn allocate_msg(&mut self) -> (r: Result<(u32, u64), S::Error>)
        requires
            old(self).well_formed(),
            old(self).counter() < old(self).limit() || old(self).limit() <= u64::MAX - NONCE_BLOCK_SIZE,
        ensures
            final(self).well_formed(),
            final(self).epoch() == old(self).epoch(),
            r is Ok ==> final(self).limit() == if old(self).counter() < old(self).limit() { old(self).limit() } else {
                (old(self).limit() + NONCE_BLOCK_SIZE) as u64
            },
            r is Err ==> final(self).limit() == old(self).limit(),
            final(self).reservations() == if old(self).counter() < old(self).limit() {
                old(self).reservations()
            } else {
                old(self).reservations().push((old(self).epoch(), (old(self).limit() + NONCE_BLOCK_SIZE) as u64, r is Ok))
            },
            old(self).counter() < old(self).limit() ==> r is Ok,
            r matches Ok(v) ==> {
                &&& v == (old(self).epoch(), old(self).counter())
                &&& final(self).counter() == old(self).counter() + 1
                &&& v.1 < final(self).limit()
                &&& durable_limit(final(self).reservations()) == Some(final(self).limit())
            },
            r is Err ==> final(self).counter() == old(self).counter(),
            allocation_step(*old(self), *final(self), r),
    {
        if self.current_counter >= self.block_limit {
            let limit = self.block_limit + NONCE_BLOCK_SIZE;
            match reserve(&mut self.store, &mut self.reservations, self.current_epoch, limit) {
                Ok(()) => {
                    self.block_limit = limit;
                },
                Err(e) => {
                    assert(self.reservations@.drop_last() =~= old(self).reservations());
                    return Err(e);
                },
            }
        }
        let counter = self.current_counter;
        self.current_counter = counter + 1;
        Ok((self.current_epoch, counter))
    }

    /// Whether a counter can be allocated without the reservation limit overflowing.
    pub fn can_allocate(&self) -> (r: bool)
        ensures
            r == (self.counter() < self.limit() || self.limit() <= u64::MAX - NONCE_BLOCK_SIZE),
    {
        self.current_counter < self.block_limit || self.block_limit <= u64::MAX - NONCE_BLOCK_SIZE
    }

    pub fn current_epoch(&self) -> (r: u32)
        ensures
            r == self.epoch(),
    {
        self.current_epoch
    }
}

/// What one `allocate_msg` does (part of its contract): the manager stays well formed
/// with its epoch, the reservation never shrinks, a success issues the next counter below
/// the reservation, and a failure issues none.
pub open spec fn allocation_step<S: NonceStore>(
    b: NonceManager<S>,
    a: NonceManager<S>,
    r: Result<(u32, u64), S::Error>,
) -> bool {
    &&& a.well_formed()
    &&& a.epoch() == b.epoch()
    &&& a.limit() >= b.limit()
    &&& (r matches Ok(v) ==> v == (b.epoch(), b.counter()) && a.counter() == b.counter() + 1 && v.1 < a.limit())
    &&& (r is Err ==> a.counter() == b.counter())
}

/// How many of the results succeeded.
pub open spec fn successes<T, E>(rs: Seq<Result<T, E>>) -> nat
    decreases rs.len(),
{
    if rs.len() == 0 {
        0
    } else {
        successes(rs.drop_last()) + if rs.last() is Ok { 1nat } else { 0nat }
    }
}

#[verifier::rlimit(30)]
proof fn lemma_allocations_upto<S: NonceStore>(ms: Seq<NonceManager<S>>, rs: Seq<Result<(u32, u64), S::Error>>, k: int)
    requires
        ms.len() == rs.len() + 1,
        ms[0].well_formed(),
        forall|j: int| 0 <= j < rs.len() ==> #[trigger] allocation_step(ms[j], ms[j + 1], rs[j]),
        0 <= k <= rs.len(),
    ensures
        ms[k].counter() == ms[0].counter() + successes(rs.take(k)),
        ms[k].epoch() == ms[0].epoch(),
        ms[k].well_formed(),
        ms[k].limit() >= ms[0].limit(),
        forall|j: int|
            0 <= j < k ==> (#[trigger] rs[j] matches Ok(v) ==> v == (ms[0].epoch(), (ms[0].counter() + successes(
                rs.take(j),
            )) as u64) && v.1 < ms[k].limit()),
    decreases k,
{
    if k == 0 {
        assert(rs.take(0) =~= Seq::<Result<(u32, u64), S::Error>>::empty());
    } else {
        lemma_allocations_upto(ms, rs, k - 1);
        let b = ms[k - 1];
        let a = ms[k];
        assert(allocation_step(ms[k - 1], ms[k - 1 + 1], rs[k - 1]));
        assert(rs.take(k).drop_last() =~= rs.take(k - 1));
        assert(rs.take(k).last() == rs[k - 1]);
        assert(successes(rs.take(k)) == successes(rs.take(k - 1)) + if rs[k - 1] is Ok { 1nat } else { 0nat });
        assert forall|j: int|
            0 <= j < k implies (#[trigger] rs[j] matches Ok(v) ==> v == (ms[0].epoch(), (ms[0].counter() + successes(
                rs.take(j),
            )) as u64) && v.1 < ms[k].limit()) by {
            if j < k - 1 {
                assert(rs[j] matches Ok(v) ==> v.1 < b.limit());
            }
        }
    }
}

/// Counters are issued one after another without a gap or a repeat, under one epoch, and
/// every counter issued lies below the reservation the store last confirmed durable, so a
/// manager reopened from that reservation never issues it again: `ms[k + 1]` is the
/// manager after the `k`-th allocation, which gave `rs[k]`.
pub proof fn lemma_allocations<S: NonceStore>(ms: Seq<NonceManager<S>>, rs: Seq<Result<(u32, u64), S::Error>>)
    requires
        ms.len() == rs.len() + 1,
        ms[0].well_formed(),
        forall|j: int| 0 <= j < rs.len() ==> #[trigger] allocation_step(ms[j], ms[j + 1], rs[j]),
    ensures
        forall|j: int|
            0 <= j < rs.len() ==> (#[trigger] rs[j] matches Ok(v) ==> v == (ms[0].epoch(), (ms[0].counter() + successes(
                rs.take(j),
            )) as u64) && v.1 < ms.last().limit()),
        durable_limit(ms.last().reservations()) == Some(ms.last().limit()),
        ms.last().counter() == ms[0].counter() + successes(rs),
{
    lemma_allocations_upto(ms, rs, rs.len() as int);
    assert(rs.take(rs.len() as int) =~= rs);
}

} // verus!
