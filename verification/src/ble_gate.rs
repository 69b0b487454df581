//! Physical-button authorization gate for BLE pairing.
//!
//! An unbonded client that asks to pair gets a six-digit PIN on the display; the pairing
//! is granted only if the BOOT button is pressed before the prompt times out.
use vstd::prelude::*;

verus! {

/// How long a pairing prompt waits for the button.
pub const BLE_AUTH_TIMEOUT_MS: u32 = 30_000;

#[derive(Debug, Clone, Copy, PartialEq, Eq, Structural)]
pub enum BleAuthState {
    Idle,
    PairingRequested { pin: u32, remaining_ms: u32 },
    Authorized,
    Rejected,
}

/// The PIN shown for a pairing request: always six digits.
pub open spec fn pin_for_seed(random_seed: u32) -> u32 {
    (100_000 + random_seed % 900_000) as u32
}

/// State after `delta_ms` more milliseconds: an open prompt counts down and is rejected
/// once its time is used up; other states do not change.
pub open spec fn state_after_tick(s: BleAuthState, delta_ms: u32) -> BleAuthState {
    match s {
        BleAuthState::PairingRequested { pin, remaining_ms } => if delta_ms >= remaining_ms {
            BleAuthState::Rejected
        } else {
            BleAuthState::PairingRequested { pin, remaining_ms: (remaining_ms - delta_ms) as u32 }
        },
        _ => s,
    }
}

/// State after a sequence of ticks, applied in order.
pub open spec fn state_after_ticks(s: BleAuthState, deltas: Seq<u32>) -> BleAuthState
    decreases deltas.len(),
{
    if deltas.len() == 0 {
        s
    } else {
        state_after_tick(state_after_ticks(s, deltas.drop_last()), deltas.last())
    }
}

/// Total of a sequence of tick lengths.
pub open spec fn total_ms(deltas: Seq<u32>) -> int
    decreases deltas.len(),
{
    if deltas.len() == 0 {
        0
    } else {
        total_ms(deltas.drop_last()) + deltas.last()
    }
}

/// A pairing prompt that is not answered is rejected once the ticks add up to the time it
/// had left, and until then keeps its PIN and counts down by exactly the time elapsed.
pub proof fn lemma_unanswered_prompt_times_out(pin: u32, remaining_ms: u32, deltas: Seq<u32>)
    requires
        remaining_ms > 0,
    ensures
        total_ms(deltas) >= remaining_ms ==> state_after_ticks(
            BleAuthState::PairingRequested { pin, remaining_ms },
            deltas,
        ) == BleAuthState::Rejected,
        total_ms(deltas) < remaining_ms ==> state_after_ticks(
            BleAuthState::PairingRequested { pin, remaining_ms },
            deltas,
        ) == (BleAuthState::PairingRequested { pin, remaining_ms: (remaining_ms - total_ms(deltas)) as u32 }),
    decreases deltas.len(),
{
    if deltas.len() > 0 {
        lemma_unanswered_prompt_times_out(pin, remaining_ms, deltas.drop_last());
        lemma_total_nonneg(deltas.drop_last());
    }
}

proof fn lemma_total_nonneg(deltas: Seq<u32>)
    ensures
        total_ms(deltas) >= 0,
    decreases deltas.len(),
{
    if deltas.len() > 0 {
        lemma_total_nonneg(deltas.drop_last());
    }
}

/// Gate state: the pairing state and whether a client has been bonded.
pub struct BleSecurityGate {
    state: BleAuthState,
    bonded: bool,
}

impl View for BleSecurityGate {
    type V = (BleAuthState, bool);

    closed spec fn view(&self) -> (BleAuthState, bool) {
        (self.state, self.bonded)
    }
}

impl BleSecurityGate {
    pub fn new() -> (r: Self)
        ensures
            r@ == (BleAuthState::Idle, false),
    {
        BleSecurityGate { state: BleAuthState::Idle, bonded: false }
    }

    pub fn is_bonded(&self) -> (r: bool)
        ensures
            r == self@.1,
    {
        self.bonded
    }

    pub fn state(&self) -> (r: BleAuthState)
        ensures
            r == self@.0,
    {
        self.state
    }

    /// Opens a pairing prompt with a six-digit PIN derived from `random_seed` and the full
    /// timeout, and returns the PIN.
    pub fn request_pairing(&mut self, random_seed: u32) -> (pin: u32)
        ensures
            pin == pin_for_seed(random_seed),
            100_000 <= pin <= 999_999,
            final(self)@ == (BleAuthState::PairingRequested { pin, remaining_ms: BLE_AUTH_TIMEOUT_MS }, old(self)@.1),
    {
        let pin = 100_000 + (random_seed % 900_000);
        self.state = BleAuthState::PairingRequested { pin, remaining_ms: BLE_AUTH_TIMEOUT_MS };
        pin
    }

    /// Counts an open prompt down by `delta_ms`, rejecting it when its time runs out.
    pub fn tick(&mut self, delta_ms: u32)
        ensures
            final(self)@ == (state_after_tick(old(self)@.0, delta_ms), old(self)@.1),
    {
        if let BleAuthState::PairingRequested { pin, remaining_ms } = self.state {
            if delta_ms >= remaining_ms {
                self.state = BleAuthState::Rejected;
            } else {
                self.state = BleAuthState::PairingRequested { pin, remaining_ms: remaining_ms - delta_ms };
            }
        }
    }

    /// A button press authorizes and bonds an open prompt, and does nothing otherwise;
    /// returns whether it authorized.
    pub fn on_button_press(&mut self) -> (r: bool)
        ensures
            r == (old(self)@.0 is PairingRequested),
            r ==> final(self)@ == (BleAuthState::Authorized, true),
            !r ==> final(self)@ == old(self)@,
    {
        match self.state {
            BleAuthState::PairingRequested { .. } => {
                self.state = BleAuthState::Authorized;
                self.bonded = true;
                true
            },
            _ => false,
        }
    }

    /// Returns to idle; a bond is kept.
    pub fn reset(&mut self)
        ensures
            final(self)@ == (BleAuthState::Idle, old(self)@.1),
    {
        self.state = BleAuthState::Idle;
    }
}

} // verus!
