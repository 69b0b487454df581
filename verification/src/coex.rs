//! Time-division arbiter for the radio synthesizer shared by 802.15.4 and BLE.
//!
//! A 200 ms cycle: mesh for 0..168 ms, a retune guard band to 170 ms, BLE to 198 ms and a
//! second guard band to the end of the cycle. In desktop (USB) mode BLE sleeps and the
//! mesh has the radio all the time.
use vstd::prelude::*;

verus! {

pub const TDM_CYCLE_MS: u32 = 200;
pub const SLOT_A_END_MS: u32 = 168;
pub const GUARD_1_END_MS: u32 = 170;
pub const SLOT_B_END_MS: u32 = 198;

#[derive(Debug, Clone, Copy, PartialEq, Eq, Structural)]
pub enum RadioSlot {
    Ieee802154Mesh,
    GuardBand,
    BleCompanion,
}

/// The slot that owns the radio at offset `t` of the cycle.
pub open spec fn slot_at(t: u32) -> RadioSlot {
    if t < SLOT_A_END_MS {
        RadioSlot::Ieee802154Mesh
    } else if t < GUARD_1_END_MS {
        RadioSlot::GuardBand
    } else if t < SLOT_B_END_MS {
        RadioSlot::BleCompanion
    } else {
        RadioSlot::GuardBand
    }
}

pub struct TdmArbiter {
    current_time_ms: u32,
    usb_desktop_mode: bool,
    current_slot: RadioSlot,
}

impl View for TdmArbiter {
    /// Offset in the cycle, desktop mode, and the slot last handed out.
    type V = (u32, bool, RadioSlot);

    closed spec fn view(&self) -> (u32, bool, RadioSlot) {
        (self.current_time_ms, self.usb_desktop_mode, self.current_slot)
    }
}

impl TdmArbiter {
    #[verifier::type_invariant]
    spec fn offset_in_cycle(self) -> bool {
        self.current_time_ms < TDM_CYCLE_MS
    }

    pub fn new() -> (r: Self)
        ensures
            r@ == (0u32, false, RadioSlot::Ieee802154Mesh),
    {
        TdmArbiter { current_time_ms: 0, usb_desktop_mode: false, current_slot: RadioSlot::Ieee802154Mesh }
    }

    pub fn set_desktop_mode(&mut self, enabled: bool)
        ensures
            final(self)@ == (old(self)@.0, enabled, old(self)@.2),
    {
        proof { use_type_invariant(&*self); }
        self.usb_desktop_mode = enabled;
    }

    pub fn is_desktop_mode(&self) -> (r: bool)
        ensures
            r == self@.1,
    {
        self.usb_desktop_mode
    }

    /// Advances the cycle clock by `delta_ms` and returns the slot that owns the radio. In
    /// desktop mode the clock stands still and the mesh always has the radio.
    pub fn advance(&mut self, delta_ms: u32) -> (slot: RadioSlot)
        requires
            !old(self)@.1 ==> old(self)@.0 + delta_ms <= u32::MAX,
        ensures
            old(self)@.1 ==> slot == RadioSlot::Ieee802154Mesh && final(self)@ == (old(self)@.0, true, slot),
            !old(self)@.1 ==> {
                let t = ((old(self)@.0 + delta_ms) % (TDM_CYCLE_MS as int)) as u32;
                &&& slot == slot_at(t)
                &&& final(self)@ == (t, false, slot)
            },
            final(self)@.0 < TDM_CYCLE_MS,
    {
        proof { use_type_invariant(&*self); }
        if self.usb_desktop_mode {
            self.current_slot = RadioSlot::Ieee802154Mesh;
            return self.current_slot;
        }
        let t = (self.current_time_ms + delta_ms) % TDM_CYCLE_MS;
        let slot = if t < SLOT_A_END_MS {
            RadioSlot::Ieee802154Mesh
        } else if t < GUARD_1_END_MS {
            RadioSlot::GuardBand
        } else if t < SLOT_B_END_MS {
            RadioSlot::BleCompanion
        } else {
            RadioSlot::GuardBand
        };
        *self = TdmArbiter { current_time_ms: t, usb_desktop_mode: false, current_slot: slot };
        slot
    }

    pub fn current_slot(&self) -> (r: RadioSlot)
        ensures
            r == self@.2,
    {
        self.current_slot
    }
}

} // verus!
