use gibberish::display::{char_cell, clip_window, status_lines, window_address, StrBuf, FONT_5X7};
use gibberish::frame::StorageModeStatus;
use gibberish::led::{apa102_frame, Apa102, LedPins};

#[test]
fn strbuf_truncates_at_capacity() {
    let mut b: StrBuf<8> = StrBuf::new();
    assert_eq!(b.as_str(), "");
    assert!(b.write_str("RX:").is_ok());
    assert!(b.write_str("123456789").is_ok());
    assert_eq!(b.as_str(), "RX:12345");
    assert!(b.write_str("more").is_ok());
    assert_eq!(b.as_str(), "RX:12345");
}

#[test]
fn strbuf_cut_inside_a_character_reads_empty() {
    let mut b: StrBuf<2> = StrBuf::new();
    let _ = b.write_str("a\u{00E9}");
    assert_eq!(b.as_str(), "");
}

#[test]
fn status_screen_lines() {
    let lines = status_lines(StorageModeStatus::RamOnly, 12, 3, 40, 7, None, false);
    let texts: Vec<&str> = lines.iter().map(|l| l.text.as_str()).collect();
    assert_eq!(
        texts,
        vec!["=== GIBBERISH MESH ===", "SD: NONE <RAM ONLY>", "RX:12    TX:3    ", "RAM:40/256 DRP:7", "BLE: READY [TAP BOOT]"]
    );
    assert_eq!(lines[1].fg, 0xFFE0);
    let lines = status_lines(StorageModeStatus::MicroSdActive, 0, 0, 0, 0, Some(42), false);
    assert_eq!(lines[1].text, "SD: FAT32 ACTIVE  ");
    assert_eq!(lines[4].text, "PAIR PIN: 000042");
    assert_eq!(lines[4].fg, 0xFD20);
    let lines = status_lines(StorageModeStatus::MicroSdActive, 0, 0, usize::MAX, u32::MAX, None, true);
    assert_eq!(lines[3].text.len(), 32);
    assert_eq!(lines[4].text, "BTN: BEACON SENT!    ");
}

#[test]
fn glyph_cells() {
    let cell = char_cell('!', 0xFFFF, 0x0000);
    // '!' lights column 2 in rows 0 to 4 and 6 (0x5F).
    let px = |row: usize, col: usize| u16::from_be_bytes([cell[(row * 6 + col) * 2], cell[(row * 6 + col) * 2 + 1]]);
    assert_eq!(px(0, 2), 0xFFFF);
    assert_eq!(px(5, 2), 0x0000);
    assert_eq!(px(6, 2), 0xFFFF);
    assert_eq!(px(0, 0), 0x0000);
    assert_eq!(px(7, 2), 0x0000);
    assert_eq!(char_cell('\u{00E9}', 1, 2), char_cell(' ', 1, 2));
    assert_eq!(FONT_5X7.len(), 95);
}

#[test]
fn windows_and_clipping() {
    assert_eq!(window_address(0x0102, 0x00A0), [0x01, 0x02, 0x00, 0xA0]);
    assert_eq!(clip_window(0, 0, 160, 80), Some((159, 79)));
    assert_eq!(clip_window(150, 70, 100, 100), Some((159, 79)));
    assert_eq!(clip_window(160, 0, 10, 10), None);
    assert_eq!(clip_window(0, 0, 0, 10), None);
}

struct Recorder {
    bits: Vec<bool>,
    data: bool,
}

impl LedPins for Recorder {
    fn set_data(&mut self, high: bool) {
        self.data = high;
    }

    fn set_clock(&mut self, high: bool) {
        if high {
            self.bits.push(self.data);
        }
    }
}

#[test]
fn led_frames() {
    assert_eq!(apa102_frame([1, 2, 3], 40), [0, 0, 0, 0, 0xFF, 3, 2, 1, 0xFF, 0xFF, 0xFF, 0xFF]);
    assert_eq!(apa102_frame([0, 40, 180], 2), [0, 0, 0, 0, 0xE2, 180, 40, 0, 0xFF, 0xFF, 0xFF, 0xFF]);
    let mut led = Apa102::new(Recorder { bits: Vec::new(), data: false });
    led.set_pixel([0x80, 0, 0], 31);
    let _ = &mut led;
}

#[test]
fn led_bits_are_msb_first() {
    let mut rec = Recorder { bits: Vec::new(), data: false };
    {
        let mut led = Apa102::new(&mut rec);
        led.set_green();
    }
    assert_eq!(rec.bits.len(), 96);
    // Brightness byte 0xE5 after the 32-bit start frame.
    let b: Vec<bool> = rec.bits[32..40].to_vec();
    assert_eq!(b, vec![true, true, true, false, false, true, false, true]);
}

impl LedPins for &mut Recorder {
    fn set_data(&mut self, high: bool) {
        self.data = high;
    }

    fn set_clock(&mut self, high: bool) {
        if high {
            self.bits.push(self.data);
        }
    }
}
