//! The dongle's APA102 RGB status LED, driven by bit-banged clock and data lines.
use vstd::prelude::*;

verus! {

/// The LED's clock and data lines.
pub trait LedPins {
    fn set_data(&mut self, high: bool);
    fn set_clock(&mut self, high: bool);
}

/// One change of a line: the data line or the clock line set high or low.
pub enum PinOp {
    Data(bool),
    Clock(bool),
}

/// The bytes of one LED update: a start frame of zeros, the brightness byte (`111` and
/// five bits, at most 31), blue, green, red, and an end frame of ones.
pub open spec fn led_frame(rgb: Seq<u8>, brightness: u8) -> Seq<u8> {
    seq![
        0u8,
        0u8,
        0u8,
        0u8,
        (if brightness < 31 { brightness } else { 31u8 }) | 0xE0u8,
        rgb[2],
        rgb[1],
        rgb[0],
        0xFFu8,
        0xFFu8,
        0xFFu8,
        0xFFu8,
    ]
}

/// The line changes that shift a byte out, most significant bit first: for each bit, the
/// data line set to it, then a clock pulse (high, low).
pub open spec fn byte_ops(b: u8) -> Seq<PinOp> {
    Seq::new(
        24,
        |i: int|
            if i % 3 == 0 {
                PinOp::Data((b >> ((7 - i / 3) as u8)) & 1u8 == 1u8)
            } else if i % 3 == 1 {
                PinOp::Clock(true)
            } else {
                PinOp::Clock(false)
            },
    )
}

/// The line changes that shift bytes out, one after another.
pub open spec fn bytes_ops(bytes: Seq<u8>) -> Seq<PinOp>
    decreases bytes.len(),
{
    if bytes.len() == 0 {
        Seq::empty()
    } else {
        bytes_ops(bytes.drop_last()) + byte_ops(bytes.last())
    }
}

/// Builds the update bytes for a color and brightness.
pub fn apa102_frame(rgb: [u8; 3], brightness: u8) -> (r: [u8; 12])
    ensures
        r@ == led_frame(rgb@, brightness),
{
    let b = (if brightness < 31 { brightness } else { 31 }) | 0xE0;
    let r: [u8; 12] = [0, 0, 0, 0, b, rgb[2], rgb[1], rgb[0], 0xFF, 0xFF, 0xFF, 0xFF];
    assert(r@ =~= led_frame(rgb@, brightness));
    r
}

/// An APA102 LED.
pub struct Apa102<P: LedPins> {
    pins: P,
    sent: Ghost<Seq<PinOp>>,
}

impl<P: LedPins> Apa102<P> {
    /// The line changes made so far, oldest first.
    pub closed spec fn sent(&self) -> Seq<PinOp> {
        self.sent@
    }

    /// A driver over these pins that has changed no line yet.
    pub fn new(pins: P) -> (r: Self)
        ensures
            r.sent() == Seq::<PinOp>::empty(),
    {
        Apa102 { pins, sent: Ghost(Seq::empty()) }
    }

    /// Shifts a byte out, most significant bit first, one clock pulse per bit.
    fn write_byte(&mut self, byte: u8)
        ensures
            final(self).sent() == old(self).sent() + byte_ops(byte),
    {
        let mut bit: u8 = 8;
        while bit > 0
            invariant
                bit <= 8,
                self.sent@ == old(self).sent() + byte_ops(byte).take(3 * (8 - bit)),
            decreases bit,
        {
            bit = bit - 1;
            let high = (byte >> bit) & 1 == 1;
            self.pins.set_data(high);
            self.sent = Ghost(self.sent@.push(PinOp::Data(high)));
            self.pins.set_clock(true);
            self.sent = Ghost(self.sent@.push(PinOp::Clock(true)));
            self.pins.set_clock(false);
            self.sent = Ghost(self.sent@.push(PinOp::Clock(false)));
            proof {
                let k = 7 - bit;
                assert(3 * (8 - bit) == 3 * k + 3);
                assert((3 * k) / 3 == k && (3 * k) % 3 == 0);
                assert((3 * k + 1) / 3 == k && (3 * k + 1) % 3 == 1);
                assert((3 * k + 2) / 3 == k && (3 * k + 2) % 3 == 2);
                assert((7 - k) as u8 == bit);
                assert(self.sent@ =~= old(self).sent() + byte_ops(byte).take(3 * (8 - bit)));
            }
        }
        assert(byte_ops(byte).take(24) =~= byte_ops(byte));
    }

    /// Shows a color at a brightness from 0 to 31: shifts out the update bytes.
    pub fn set_pixel(&mut self, rgb: [u8; 3], brightness: u8)
        ensures
            final(self).sent() == old(self).sent() + bytes_ops(led_frame(rgb@, brightness)),
    {
        let frame = apa102_frame(rgb, brightness);
        let mut i: usize = 0;
        while i < 12
            invariant
                i <= 12,
                frame@ == led_frame(rgb@, brightness),
                self.sent@ == old(self).sent() + bytes_ops(frame@.take(i as int)),
            decreases 12 - i,
        {
            self.write_byte(frame[i]);
            proof {
                assert(frame@.take(i + 1).drop_last() =~= frame@.take(i as int));
                assert(frame@.take(i + 1).last() == frame@[i as int]);
                assert(bytes_ops(frame@.take(i + 1)) == bytes_ops(frame@.take(i as int)) + byte_ops(frame@[i as int]));
                assert(self.sent@ =~= old(self).sent() + bytes_ops(frame@.take(i + 1)));
            }
            i = i + 1;
        }
        assert(frame@.take(12) =~= frame@);
    }

    /// Amber pulse for a pending pairing, brightness stepping through 2 to 13.
    pub fn set_amber_pulse(&mut self, step: u8)
        ensures
            final(self).sent() == old(self).sent() + bytes_ops(led_frame(seq![255u8, 140u8, 0u8], (2 + step % 12) as u8)),
    {
        let b = 2 + (step % 12);
        let rgb: [u8; 3] = [255, 140, 0];
        assert(rgb@ =~= seq![255u8, 140u8, 0u8]);
        self.set_pixel(rgb, b);
    }

    /// Green at brightness 5.
    pub fn set_green(&mut self)
        ensures
            final(self).sent() == old(self).sent() + bytes_ops(led_frame(seq![0u8, 255u8, 0u8], 5)),
    {
        let rgb: [u8; 3] = [0, 255, 0];
        assert(rgb@ =~= seq![0u8, 255u8, 0u8]);
        self.set_pixel(rgb, 5);
    }

    /// Cyan at brightness 8.
    pub fn set_cyan(&mut self)
        ensures
            final(self).sent() == old(self).sent() + bytes_ops(led_frame(seq![0u8, 255u8, 255u8], 8)),
    {
        let rgb: [u8; 3] = [0, 255, 255];
        assert(rgb@ =~= seq![0u8, 255u8, 255u8]);
        self.set_pixel(rgb, 8);
    }

    /// Magenta at brightness 8.
    pub fn set_magenta(&mut self)
        ensures
            final(self).sent() == old(self).sent() + bytes_ops(led_frame(seq![255u8, 0u8, 255u8], 8)),
    {
        let rgb: [u8; 3] = [255, 0, 255];
        assert(rgb@ =~= seq![255u8, 0u8, 255u8]);
        self.set_pixel(rgb, 8);
    }

    /// Dim blue at brightness 2.
    pub fn set_idle_blue(&mut self)
        ensures
            final(self).sent() == old(self).sent() + bytes_ops(led_frame(seq![0u8, 40u8, 180u8], 2)),
    {
        let rgb: [u8; 3] = [0, 40, 180];
        assert(rgb@ =~= seq![0u8, 40u8, 180u8]);
        self.set_pixel(rgb, 2);
    }

    /// Off: black at brightness 0.
    pub fn turn_off(&mut self)
        ensures
            final(self).sent() == old(self).sent() + bytes_ops(led_frame(seq![0u8, 0u8, 0u8], 0)),
    {
        let rgb: [u8; 3] = [0, 0, 0];
        assert(rgb@ =~= seq![0u8, 0u8, 0u8]);
        self.set_pixel(rgb, 0);
    }
}

} // verus!
