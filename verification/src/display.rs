//! The dongle's 160x80 ST7735 status display: text layout, the 5x7 font, and the
//! panel's command sequence.
use vstd::prelude::*;
use vstd::slice::slice_subrange;
use vstd::string::StringSliceAdditionalSpecFns;
use vstd::utf8::valid_utf8;
use crate::fmt::{dec_string, push_nat, push_str};
use crate::frame::StorageModeStatus;
use crate::text::{str_chars, str_from_utf8, string_from_chars};

verus! {

#[verifier::external_type_specification]
#[verifier::external_body]
pub struct ExFmtError(core::fmt::Error);

pub const LCD_WIDTH: u16 = 160;
pub const LCD_HEIGHT: u16 = 80;
pub const COL_OFFSET: u16 = 1;
pub const ROW_OFFSET: u16 = 26;

/// Bytes left in a buffer of capacity `n` holding `len`.
pub open spec fn room(n: usize, len: nat) -> int {
    if len >= n { 0 } else { n - len }
}

/// A text buffer of at most `N` bytes; writes beyond the capacity are cut off.
pub struct StrBuf<const N: usize> {
    buf: Vec<u8>,
}

impl<const N: usize> StrBuf<N> {
    /// The bytes written so far.
    pub closed spec fn bytes(&self) -> Seq<u8> {
        self.buf@
    }

    /// An empty buffer.
    pub fn new() -> (r: Self)
        ensures
            r.bytes() == Seq::<u8>::empty(),
    {
        StrBuf { buf: Vec::new() }
    }

    /// The text written so far; empty when the cut-off left it invalid UTF-8.
    pub fn as_str(&self) -> (r: &str)
        ensures
            valid_utf8(self.bytes()) ==> r.spec_bytes() == self.bytes(),
            !valid_utf8(self.bytes()) ==> r@ == Seq::<char>::empty(),
    {
        match str_from_utf8(self.buf.as_slice()) {
            Some(s) => s,
            None => {
                proof {
                    reveal_strlit("");
                }
                ""
            },
        }
    }

    /// Appends as much of `s` as fits; never fails.
    pub fn write_str(&mut self, s: &str) -> (r: Result<(), core::fmt::Error>)
        ensures
            r is Ok,
            final(self).bytes() == old(self).bytes() + s.spec_bytes().take(
                if s.spec_bytes().len() <= room(N, old(self).bytes().len()) {
                    s.spec_bytes().len() as int
                } else {
                    room(N, old(self).bytes().len())
                },
            ),
    {
        let bytes = s.as_bytes();
        let avail = if self.buf.len() >= N { 0 } else { N - self.buf.len() };
        let to_copy = if bytes.len() <= avail { bytes.len() } else { avail };
        let ghost start = self.buf@;
        let mut i: usize = 0;
        while i < to_copy
            invariant
                to_copy <= bytes@.len(),
                i <= to_copy,
                self.buf@ =~= start + bytes@.take(i as int),
            decreases to_copy - i,
        {
            self.buf.push(bytes[i]);
            i = i + 1;
        }
        Ok(())
    }
}

/// `{:<w}`: the text followed by spaces up to `w` characters.
pub open spec fn pad_right(s: Seq<char>, w: nat) -> Seq<char> {
    if s.len() < w {
        s + Seq::new((w - s.len()) as nat, |i: int| ' ')
    } else {
        s
    }
}

/// `{:0w}` of a non-negative number: its digits after zeros up to `w` characters.
pub open spec fn pad_zeros(s: Seq<char>, w: nat) -> Seq<char> {
    if s.len() < w {
        Seq::new((w - s.len()) as nat, |i: int| '0') + s
    } else {
        s
    }
}

/// At most the first `n` characters.
pub open spec fn cut(s: Seq<char>, n: nat) -> Seq<char> {
    if s.len() <= n {
        s
    } else {
        s.take(n as int)
    }
}

/// A line of the status screen and its RGB565 color.
pub struct TextLine {
    pub text: String,
    pub fg: u16,
}

/// The five lines of the status screen: banner, storage mode, packet counts, ring use and
/// drops, and the pairing PIN, a beacon notice or the BLE idle hint; each formatted line
/// holds at most 32 characters.
pub open spec fn status_texts(
    storage_mode: StorageModeStatus,
    rx_count: u32,
    tx_count: u32,
    sram_used: usize,
    dropped: u32,
    ble_pin: Option<u32>,
    btn_active: bool,
) -> Seq<(Seq<char>, u16)> {
    seq![
        ("=== GIBBERISH MESH ==="@, 0x07FFu16),
        match storage_mode {
            StorageModeStatus::RamOnly => ("SD: NONE <RAM ONLY>"@, 0xFFE0u16),
            StorageModeStatus::MicroSdActive => ("SD: FAT32 ACTIVE  "@, 0x07E0u16),
        },
        (cut("RX:"@ + pad_right(dec_string(rx_count as int), 5) + " TX:"@ + pad_right(dec_string(tx_count as int), 5), 32), 0xFFFFu16),
        (cut("RAM:"@ + dec_string(sram_used as int) + "/256 DRP:"@ + dec_string(dropped as int), 32), 0xCE79u16),
        match ble_pin {
            Some(pin) => (cut("PAIR PIN: "@ + pad_zeros(dec_string(pin as int), 6), 32), 0xFD20u16),
            None => if btn_active {
                ("BTN: BEACON SENT!    "@, 0x07E0u16)
            } else {
                ("BLE: READY [TAP BOOT]"@, 0xAD55u16)
            },
        },
    ]
}

fn push_pad_right(out: &mut Vec<char>, s: &Vec<char>, w: usize)
    ensures
        final(out)@ == old(out)@ + pad_right(s@, w as nat),
{
    let n = s.len();
    let mut i: usize = 0;
    while i < n
        invariant
            n == s@.len(),
            i <= n,
            out@ =~= old(out)@ + s@.take(i as int),
        decreases n - i,
    {
        out.push(s[i]);
        i = i + 1;
    }
    let ghost mid = out@;
    let mut k: usize = n;
    while k < w
        invariant
            n <= k <= w || (k == n && n >= w),
            mid == old(out)@ + s@,
            out@ =~= mid + Seq::new((k - n) as nat, |j: int| ' '),
        decreases w - k,
    {
        out.push(' ');
        k = k + 1;
    }
    assert(s@.take(n as int) =~= s@);
}

fn push_pad_zeros(out: &mut Vec<char>, s: &Vec<char>, w: usize)
    ensures
        final(out)@ == old(out)@ + pad_zeros(s@, w as nat),
{
    let n = s.len();
    let mut k: usize = n;
    while k < w
        invariant
            n <= k <= w || (k == n && n >= w),
            out@ =~= old(out)@ + Seq::new((k - n) as nat, |j: int| '0'),
        decreases w - k,
    {
        out.push('0');
        k = k + 1;
    }
    let ghost mid = out@;
    let mut i: usize = 0;
    while i < n
        invariant
            n == s@.len(),
            i <= n,
            out@ =~= mid + s@.take(i as int),
        decreases n - i,
    {
        out.push(s[i]);
        i = i + 1;
    }
    assert(s@.take(n as int) =~= s@);
}

fn cut_to_string(cs: &Vec<char>, n: usize) -> (r: String)
    ensures
        r@ == cut(cs@, n as nat),
{
    let len = if cs.len() <= n { cs.len() } else { n };
    let part = crate::lexer::copy_range(cs.as_slice(), 0, len);
    assert(part@ =~= cut(cs@, n as nat));
    string_from_chars(part.as_slice())
}

fn decimal_chars(v: u64) -> (r: Vec<char>)
    ensures
        r@ == dec_string(v as int),
{
    let mut cs: Vec<char> = Vec::new();
    push_nat(&mut cs, v);
    cs
}

/// The lines of the status screen.
pub fn status_lines(
    storage_mode: StorageModeStatus,
    rx_count: u32,
    tx_count: u32,
    sram_used: usize,
    dropped: u32,
    ble_pin: Option<u32>,
    btn_active: bool,
) -> (r: Vec<TextLine>)
    ensures
        r@.len() == 5,
        forall|k: int| 0 <= k < 5 ==> (#[trigger] r@[k]).text@ == status_texts(
            storage_mode,
            rx_count,
            tx_count,
            sram_used,
            dropped,
            ble_pin,
            btn_active,
        )[k].0 && r@[k].fg == status_texts(
            storage_mode,
            rx_count,
            tx_count,
            sram_used,
            dropped,
            ble_pin,
            btn_active,
        )[k].1,
{
    let mut lines: Vec<TextLine> = Vec::new();
    lines.push(TextLine { text: "=== GIBBERISH MESH ===".to_owned(), fg: 0x07FF });
    match storage_mode {
        StorageModeStatus::RamOnly => lines.push(TextLine { text: "SD: NONE <RAM ONLY>".to_owned(), fg: 0xFFE0 }),
        StorageModeStatus::MicroSdActive => lines.push(TextLine { text: "SD: FAT32 ACTIVE  ".to_owned(), fg: 0x07E0 }),
    }
    let mut l2: Vec<char> = Vec::new();
    push_str(&mut l2, "RX:");
    push_pad_right(&mut l2, &decimal_chars(rx_count as u64), 5);
    push_str(&mut l2, " TX:");
    push_pad_right(&mut l2, &decimal_chars(tx_count as u64), 5);
    lines.push(TextLine { text: cut_to_string(&l2, 32), fg: 0xFFFF });
    let mut l3: Vec<char> = Vec::new();
    push_str(&mut l3, "RAM:");
    push_nat(&mut l3, sram_used as u64);
    push_str(&mut l3, "/256 DRP:");
    push_nat(&mut l3, dropped as u64);
    lines.push(TextLine { text: cut_to_string(&l3, 32), fg: 0xCE79 });
    match ble_pin {
        Some(pin) => {
            let mut l4: Vec<char> = Vec::new();
            push_str(&mut l4, "PAIR PIN: ");
            push_pad_zeros(&mut l4, &decimal_chars(pin as u64), 6);
            lines.push(TextLine { text: cut_to_string(&l4, 32), fg: 0xFD20 });
        },
        None => {
            if btn_active {
                lines.push(TextLine { text: "BTN: BEACON SENT!    ".to_owned(), fg: 0x07E0 });
            } else {
                lines.push(TextLine { text: "BLE: READY [TAP BOOT]".to_owned(), fg: 0xAD55 });
            }
        },
    }
    lines
}

/// The 5x7 font, ASCII 32 to 126; each glyph is five columns, bit `r` of a column being
/// row `r`.
pub const FONT_5X7: [[u8; 5]; 95] = [
    [0x00, 0x00, 0x00, 0x00, 0x00],
    [0x00, 0x00, 0x5F, 0x00, 0x00],
    [0x00, 0x07, 0x00, 0x07, 0x00],
    [0x14, 0x7F, 0x14, 0x7F, 0x14],
    [0x24, 0x2A, 0x7F, 0x2A, 0x12],
    [0x23, 0x13, 0x08, 0x64, 0x62],
    [0x36, 0x49, 0x55, 0x22, 0x50],
    [0x00, 0x05, 0x03, 0x00, 0x00],
    [0x00, 0x1C, 0x22, 0x41, 0x00],
    [0x00, 0x41, 0x22, 0x1C, 0x00],
    [0x14, 0x08, 0x3E, 0x08, 0x14],
    [0x08, 0x08, 0x3E, 0x08, 0x08],
    [0x00, 0x50, 0x30, 0x00, 0x00],
    [0x08, 0x08, 0x08, 0x08, 0x08],
    [0x00, 0x60, 0x60, 0x00, 0x00],
    [0x20, 0x10, 0x08, 0x04, 0x02],
    [0x3E, 0x51, 0x49, 0x45, 0x3E],
    [0x00, 0x42, 0x7F, 0x40, 0x00],
    [0x42, 0x61, 0x51, 0x49, 0x46],
    [0x21, 0x41, 0x45, 0x4B, 0x31],
    [0x18, 0x14, 0x12, 0x7F, 0x10],
    [0x27, 0x45, 0x45, 0x45, 0x39],
    [0x3C, 0x4A, 0x49, 0x49, 0x30],
    [0x01, 0x71, 0x09, 0x05, 0x03],
    [0x36, 0x49, 0x49, 0x49, 0x36],
    [0x06, 0x49, 0x49, 0x29, 0x1E],
    [0x00, 0x36, 0x36, 0x00, 0x00],
    [0x00, 0x56, 0x36, 0x00, 0x00],
    [0x08, 0x14, 0x22, 0x41, 0x00],
    [0x14, 0x14, 0x14, 0x14, 0x14],
    [0x00, 0x41, 0x22, 0x14, 0x08],
    [0x02, 0x01, 0x51, 0x09, 0x06],
    [0x32, 0x49, 0x79, 0x41, 0x3E],
    [0x7E, 0x11, 0x11, 0x11, 0x7E],
    [0x7F, 0x49, 0x49, 0x49, 0x36],
    [0x3E, 0x41, 0x41, 0x41, 0x22],
    [0x7F, 0x41, 0x41, 0x22, 0x1C],
    [0x7F, 0x49, 0x49, 0x49, 0x41],
    [0x7F, 0x09, 0x09, 0x09, 0x01],
    [0x3E, 0x41, 0x49, 0x49, 0x7A],
    [0x7F, 0x08, 0x08, 0x08, 0x7F],
    [0x00, 0x41, 0x7F, 0x41, 0x00],
    [0x20, 0x40, 0x41, 0x3F, 0x01],
    [0x7F, 0x08, 0x14, 0x22, 0x41],
    [0x7F, 0x40, 0x40, 0x40, 0x40],
    [0x7F, 0x02, 0x0C, 0x02, 0x7F],
    [0x7F, 0x04, 0x08, 0x10, 0x7F],
    [0x3E, 0x41, 0x41, 0x41, 0x3E],
    [0x7F, 0x09, 0x09, 0x09, 0x06],
    [0x3E, 0x41, 0x51, 0x21, 0x5E],
    [0x7F, 0x09, 0x19, 0x29, 0x46],
    [0x46, 0x49, 0x49, 0x49, 0x31],
    [0x01, 0x01, 0x7F, 0x01, 0x01],
    [0x3F, 0x40, 0x40, 0x40, 0x3F],
    [0x1F, 0x20, 0x40, 0x20, 0x1F],
    [0x3F, 0x40, 0x38, 0x40, 0x3F],
    [0x63, 0x14, 0x08, 0x14, 0x63],
    [0x07, 0x08, 0x70, 0x08, 0x07],
    [0x61, 0x51, 0x49, 0x45, 0x43],
    [0x00, 0x7F, 0x41, 0x41, 0x00],
    [0x02, 0x04, 0x08, 0x10, 0x20],
    [0x00, 0x41, 0x41, 0x7F, 0x00],
    [0x04, 0x02, 0x01, 0x02, 0x04],
    [0x40, 0x40, 0x40, 0x40, 0x40],
    [0x00, 0x01, 0x02, 0x04, 0x00],
    [0x20, 0x54, 0x54, 0x54, 0x78],
    [0x7F, 0x48, 0x44, 0x44, 0x38],
    [0x38, 0x44, 0x44, 0x44, 0x20],
    [0x38, 0x44, 0x44, 0x48, 0x7F],
    [0x38, 0x54, 0x54, 0x54, 0x18],
    [0x08, 0x7E, 0x09, 0x01, 0x02],
    [0x0C, 0x52, 0x52, 0x52, 0x3E],
    [0x7F, 0x08, 0x04, 0x04, 0x78],
    [0x00, 0x44, 0x7D, 0x40, 0x00],
    [0x20, 0x40, 0x44, 0x3D, 0x00],
    [0x7F, 0x10, 0x28, 0x44, 0x00],
    [0x00, 0x41, 0x7F, 0x40, 0x00],
    [0x7C, 0x04, 0x18, 0x04, 0x78],
    [0x7C, 0x08, 0x04, 0x04, 0x78],
    [0x38, 0x44, 0x44, 0x44, 0x38],
    [0x7C, 0x14, 0x14, 0x14, 0x08],
    [0x08, 0x14, 0x14, 0x18, 0x7C],
    [0x7C, 0x08, 0x04, 0x04, 0x08],
    [0x48, 0x54, 0x54, 0x54, 0x20],
    [0x04, 0x3F, 0x44, 0x40, 0x20],
    [0x3C, 0x40, 0x40, 0x20, 0x7C],
    [0x1C, 0x20, 0x40, 0x20, 0x1C],
    [0x3C, 0x40, 0x30, 0x40, 0x3C],
    [0x44, 0x28, 0x10, 0x28, 0x44],
    [0x0C, 0x50, 0x50, 0x50, 0x3C],
    [0x44, 0x64, 0x54, 0x4C, 0x44],
    [0x00, 0x08, 0x36, 0x41, 0x00],
    [0x00, 0x00, 0x7F, 0x00, 0x00],
    [0x00, 0x41, 0x36, 0x08, 0x00],
    [0x08, 0x08, 0x2A, 0x1C, 0x08],
];

/// The glyph index of a character: printable ASCII maps to its glyph, anything else to
/// the blank.
pub open spec fn font_index(c: char) -> int {
    if 32 <= (c as u32) <= 126 {
        (c as u32) - 32
    } else {
        0
    }
}

/// Whether pixel `(row, col)` of a 6x8 character cell is lit.
pub open spec fn glyph_lit(glyph: Seq<u8>, row: int, col: int) -> bool {
    col < 5 && row < 7 && (glyph[col] & (1u8 << (row as u8))) != 0
}

/// The RGB565 pixels of a character cell, row by row, each big-endian.
pub open spec fn cell_bytes(glyph: Seq<u8>, fg: u16, bg: u16) -> Seq<u8> {
    Seq::new(
        96,
        |i: int|
            {
                let px = if glyph_lit(glyph, (i / 2) / 6, (i / 2) % 6) { fg } else { bg };
                if i % 2 == 0 {
                    (px >> 8u16) as u8
                } else {
                    (px & 0xFFu16) as u8
                }
            },
    )
}

/// Renders a character cell: the glyph's lit pixels in `fg`, the rest in `bg`.
pub fn char_cell(c: char, fg: u16, bg: u16) -> (r: [u8; 96])
    ensures
        r@ == cell_bytes(FONT_5X7@[font_index(c)]@, fg, bg),
{
    let code = c as u32;
    let idx: usize = if code >= 32 && code <= 126 { (code - 32) as usize } else { 0 };
    let glyph = FONT_5X7[idx];
    let mut buf = [0u8; 96];
    let mut row: usize = 0;
    while row < 8
        invariant
            row <= 8,
            glyph@ == FONT_5X7@[font_index(c)]@,
            forall|i: int| 0 <= i < 12 * row ==> buf@[i] == #[trigger] cell_bytes(glyph@, fg, bg)[i],
        decreases 8 - row,
    {
        let mut col: usize = 0;
        while col < 6
            invariant
                row < 8,
                col <= 6,
                glyph@ == FONT_5X7@[font_index(c)]@,
                forall|i: int| 0 <= i < 12 * row + 2 * col ==> buf@[i] == #[trigger] cell_bytes(glyph@, fg, bg)[i],
            decreases 6 - col,
        {
            let lit = if col < 5 && row < 7 {
                (glyph[col] & (1u8 << (row as u8))) != 0
            } else {
                false
            };
            let px = if lit { fg } else { bg };
            let idx2 = 12 * row + 2 * col;
            buf[idx2] = (px >> 8) as u8;
            buf[idx2 + 1] = (px & 0xFF) as u8;
            proof {
                assert((idx2 as int / 2) / 6 == row as int);
                assert((idx2 as int / 2) % 6 == col as int);
                assert(((idx2 + 1) as int / 2) / 6 == row as int);
                assert(((idx2 + 1) as int / 2) % 6 == col as int);
            }
            col = col + 1;
        }
        row = row + 1;
    }
    assert(buf@ =~= cell_bytes(glyph@, fg, bg));
    buf
}

/// The two big-endian coordinates of a panel address window.
pub open spec fn window_bytes(start: u16, end: u16) -> Seq<u8> {
    seq![(start >> 8u16) as u8, (start & 0xFFu16) as u8, (end >> 8u16) as u8, (end & 0xFFu16) as u8]
}

/// The last column and row that a rectangle covers on screen, or none when it is empty
/// or starts off screen.
pub open spec fn clip_rect(x: u16, y: u16, w: u16, h: u16) -> Option<(u16, u16)> {
    if w == 0 || h == 0 || x >= LCD_WIDTH || y >= LCD_HEIGHT {
        None
    } else {
        Some((
            if x + w - 1 < LCD_WIDTH - 1 { (x + w - 1) as u16 } else { (LCD_WIDTH - 1) as u16 },
            if y + h - 1 < LCD_HEIGHT - 1 { (y + h - 1) as u16 } else { (LCD_HEIGHT - 1) as u16 },
        ))
    }
}

/// The columns where the characters of a line start: six pixels apart from `x`, as many
/// as fit on the 160-pixel line.
pub open spec fn text_columns(x: u16, n: nat) -> Seq<u16> {
    Seq::new(
        if x + 6 > 160 { 0 } else if n <= (160 - x) / 6 { n } else { ((160 - x) / 6) as nat },
        |k: int| (x + 6 * k) as u16,
    )
}

/// The panel's wires: SPI data, chip select, data/command select, reset, backlight, and
/// a delay source.
pub trait LcdBus {
    fn set_cs(&mut self, high: bool);
    fn set_dc(&mut self, high: bool);
    fn set_rst(&mut self, high: bool);
    fn set_backlight_pin(&mut self, high: bool);
    fn write(&mut self, bytes: &[u8]);
    fn delay_ms(&mut self, ms: u32);
}

/// One thing done on the panel's wires.
pub enum LcdOp {
    Cs(bool),
    Dc(bool),
    Rst(bool),
    Backlight(bool),
    Write(Seq<u8>),
    Delay(u32),
}

/// A command byte: data/command low, chip selected, the byte, chip released.
pub open spec fn cmd_ops(cmd: u8) -> Seq<LcdOp> {
    seq![LcdOp::Dc(false), LcdOp::Cs(false), LcdOp::Write(seq![cmd]), LcdOp::Cs(true)]
}

/// Parameter bytes: data/command high, chip selected, the bytes, chip released.
pub open spec fn data_ops(data: Seq<u8>) -> Seq<LcdOp> {
    seq![LcdOp::Dc(true), LcdOp::Cs(false), LcdOp::Write(data), LcdOp::Cs(true)]
}

/// Setting the address window to columns `x0..=x1`, rows `y0..=y1`, panel offsets added.
pub open spec fn window_ops(x0: u16, y0: u16, x1: u16, y1: u16) -> Seq<LcdOp> {
    cmd_ops(0x2A) + data_ops(window_bytes((x0 + COL_OFFSET) as u16, (x1 + COL_OFFSET) as u16)) + cmd_ops(0x2B)
        + data_ops(window_bytes((y0 + ROW_OFFSET) as u16, (y1 + ROW_OFFSET) as u16))
}

/// The start of a pixel write: chip selected, the memory-write command, then data mode.
pub open spec fn ram_write_ops() -> Seq<LcdOp> {
    seq![LcdOp::Cs(false), LcdOp::Dc(false), LcdOp::Write(seq![0x2Cu8]), LcdOp::Dc(true)]
}

/// `count` pixels of one color, two bytes each (`hi`, `lo`).
pub open spec fn pixel_run(count: nat, hi: u8, lo: u8) -> Seq<u8> {
    Seq::new(2 * count, |i: int| if i % 2 == 0 { hi } else { lo })
}

/// `count` pixels of one color written in runs of at most 32.
pub open spec fn pixel_writes(count: nat, hi: u8, lo: u8) -> Seq<LcdOp>
    decreases count,
{
    if count == 0 {
        Seq::empty()
    } else {
        let c: nat = if count < 32 { count } else { 32 };
        seq![LcdOp::Write(pixel_run(c, hi, lo))] + pixel_writes((count - c) as nat, hi, lo)
    }
}

/// Filling a rectangle, clipped to the screen, with one RGB565 color; nothing when it is
/// empty or starts off screen.
pub open spec fn fill_ops(x: u16, y: u16, w: u16, h: u16, color: u16) -> Seq<LcdOp> {
    match clip_rect(x, y, w, h) {
        None => Seq::empty(),
        Some((x1, y1)) => window_ops(x, y, x1, y1) + ram_write_ops() + pixel_writes(
            ((x1 - x + 1) * (y1 - y + 1)) as nat,
            (color >> 8u16) as u8,
            (color & 0xFFu16) as u8,
        ) + seq![LcdOp::Cs(true)],
    }
}

/// Drawing a character cell at `(x, y)`; nothing when it does not fit on screen.
pub open spec fn char_ops(x: u16, y: u16, c: char, fg: u16, bg: u16) -> Seq<LcdOp> {
    if x + 6 > LCD_WIDTH || y + 8 > LCD_HEIGHT {
        Seq::empty()
    } else {
        window_ops(x, y, (x + 5) as u16, (y + 7) as u16) + ram_write_ops() + seq![
            LcdOp::Write(cell_bytes(FONT_5X7@[font_index(c)]@, fg, bg)),
            LcdOp::Cs(true),
        ]
    }
}

/// Drawing characters from `(x, y)`, six pixels apart, up to the right edge.
pub open spec fn text_ops(x: u16, y: u16, cs: Seq<char>, fg: u16, bg: u16) -> Seq<LcdOp>
    decreases cs.len(),
{
    if cs.len() == 0 || x + 6 > LCD_WIDTH {
        Seq::empty()
    } else {
        char_ops(x, y, cs[0], fg, bg) + text_ops((x + 6) as u16, y, cs.drop_first(), fg, bg)
    }
}

/// The power-up sequence: reset pulse, software reset, wake, frame rates, inversion,
/// power and VCOM settings, inversion on, 16-bit color, landscape, normal display on,
/// the screen cleared to black, and the (active-low) backlight on.
pub open spec fn init_ops() -> Seq<LcdOp> {
    seq![
        LcdOp::Backlight(true),
        LcdOp::Rst(true),
        LcdOp::Delay(5),
        LcdOp::Rst(false),
        LcdOp::Delay(20),
        LcdOp::Rst(true),
        LcdOp::Delay(150),
    ] + cmd_ops(0x01) + seq![LcdOp::Delay(150)] + cmd_ops(0x11) + seq![LcdOp::Delay(120)] + cmd_ops(0xB1) + data_ops(
        seq![0x01u8, 0x2Cu8, 0x2Du8],
    ) + cmd_ops(0xB2) + data_ops(seq![0x01u8, 0x2Cu8, 0x2Du8]) + cmd_ops(0xB3) + data_ops(
        seq![0x01u8, 0x2Cu8, 0x2Du8, 0x01u8, 0x2Cu8, 0x2Du8],
    ) + cmd_ops(0xB4) + data_ops(seq![0x07u8]) + cmd_ops(0xC0) + data_ops(seq![0xA2u8, 0x02u8, 0x84u8]) + cmd_ops(0xC1)
        + data_ops(seq![0xC5u8]) + cmd_ops(0xC2) + data_ops(seq![0x0Au8, 0x00u8]) + cmd_ops(0xC3) + data_ops(
        seq![0x8Au8, 0x2Au8],
    ) + cmd_ops(0xC4) + data_ops(seq![0x8Au8, 0xEEu8]) + cmd_ops(0xC5) + data_ops(seq![0x0Eu8]) + cmd_ops(0x21)
        + cmd_ops(0x3A) + data_ops(seq![0x05u8]) + cmd_ops(0x36) + data_ops(seq![0x60u8]) + cmd_ops(0x13) + seq![
        LcdOp::Delay(10),
    ] + cmd_ops(0x29) + seq![LcdOp::Delay(100)] + fill_ops(0, 0, LCD_WIDTH, LCD_HEIGHT, 0x0000) + seq![
        LcdOp::Backlight(false),
    ]
}

/// Drawing the five status lines, left-aligned at column 4, 14 pixels apart from row 4,
/// each in its color on black.
pub open spec fn status_ops(
    storage_mode: StorageModeStatus,
    rx_count: u32,
    tx_count: u32,
    sram_used: usize,
    dropped: u32,
    ble_pin: Option<u32>,
    btn_active: bool,
) -> Seq<LcdOp> {
    let t = status_texts(storage_mode, rx_count, tx_count, sram_used, dropped, ble_pin, btn_active);
    text_ops(4, 4, t[0].0, t[0].1, 0) + text_ops(4, 18, t[1].0, t[1].1, 0) + text_ops(4, 32, t[2].0, t[2].1, 0)
        + text_ops(4, 46, t[3].0, t[3].1, 0) + text_ops(4, 60, t[4].0, t[4].1, 0)
}

/// An ST7735 panel in landscape.
pub struct St7735<B: LcdBus> {
    bus: B,
    sent: Ghost<Seq<LcdOp>>,
}

impl<B: LcdBus> St7735<B> {
    /// What has been done on the panel's wires so far, oldest first.
    pub closed spec fn sent(&self) -> Seq<LcdOp> {
        self.sent@
    }

    /// A driver over this bus that has done nothing on it yet.
    pub fn new(bus: B) -> (r: Self)
        ensures
            r.sent() == Seq::<LcdOp>::empty(),
    {
        St7735 { bus, sent: Ghost(Seq::empty()) }
    }

    fn cs(&mut self, high: bool)
        ensures
            final(self).sent() == old(self).sent().push(LcdOp::Cs(high)),
    {
        self.bus.set_cs(high);
        self.sent = Ghost(self.sent@.push(LcdOp::Cs(high)));
    }

    fn dc(&mut self, high: bool)
        ensures
            final(self).sent() == old(self).sent().push(LcdOp::Dc(high)),
    {
        self.bus.set_dc(high);
        self.sent = Ghost(self.sent@.push(LcdOp::Dc(high)));
    }

    fn rst(&mut self, high: bool)
        ensures
            final(self).sent() == old(self).sent().push(LcdOp::Rst(high)),
    {
        self.bus.set_rst(high);
        self.sent = Ghost(self.sent@.push(LcdOp::Rst(high)));
    }

    fn backlight_pin(&mut self, high: bool)
        ensures
            final(self).sent() == old(self).sent().push(LcdOp::Backlight(high)),
    {
        self.bus.set_backlight_pin(high);
        self.sent = Ghost(self.sent@.push(LcdOp::Backlight(high)));
    }

    fn write(&mut self, bytes: &[u8])
        ensures
            final(self).sent() == old(self).sent().push(LcdOp::Write(bytes@)),
    {
        self.bus.write(bytes);
        self.sent = Ghost(self.sent@.push(LcdOp::Write(bytes@)));
    }

    fn delay(&mut self, ms: u32)
        ensures
            final(self).sent() == old(self).sent().push(LcdOp::Delay(ms)),
    {
        self.bus.delay_ms(ms);
        self.sent = Ghost(self.sent@.push(LcdOp::Delay(ms)));
    }

    /// Turns the active-low backlight on or off.
    pub fn set_backlight(&mut self, on: bool)
        ensures
            final(self).sent() == old(self).sent().push(LcdOp::Backlight(!on)),
    {
        self.backlight_pin(!on);
    }

    fn write_cmd(&mut self, cmd: u8)
        ensures
            final(self).sent() == old(self).sent() + cmd_ops(cmd),
    {
        self.dc(false);
        self.cs(false);
        let c: [u8; 1] = [cmd];
        self.write(c.as_slice());
        self.cs(true);
        assert(c@ =~= seq![cmd]);
        assert(self.sent@ =~= old(self).sent() + cmd_ops(cmd));
    }

    fn write_data(&mut self, data: &[u8])
        ensures
            final(self).sent() == old(self).sent() + data_ops(data@),
    {
        self.dc(true);
        self.cs(false);
        self.write(data);
        self.cs(true);
        assert(self.sent@ =~= old(self).sent() + data_ops(data@));
    }

    fn cmd_with(&mut self, cmd: u8, data: &[u8])
        ensures
            final(self).sent() == old(self).sent() + cmd_ops(cmd) + data_ops(data@),
    {
        self.write_cmd(cmd);
        self.write_data(data);
    }

    /// Resets the panel, runs its power-up sequence (frame rate, power, 16-bit color,
    /// landscape), clears it to black and turns the backlight on.
    #[verifier::rlimit(50)]
    pub fn init(&mut self)
        ensures
            final(self).sent() == old(self).sent() + init_ops(),
    {
        self.backlight_pin(true);
        self.rst(true);
        self.delay(5);
        self.rst(false);
        self.delay(20);
        self.rst(true);
        self.delay(150);
        self.write_cmd(0x01);
        self.delay(150);
        self.write_cmd(0x11);
        self.delay(120);
        let frame_rate: [u8; 3] = [0x01, 0x2C, 0x2D];
        assert(frame_rate@ =~= seq![0x01u8, 0x2Cu8, 0x2Du8]);
        self.cmd_with(0xB1, frame_rate.as_slice());
        self.cmd_with(0xB2, frame_rate.as_slice());
        let frame_rate_partial: [u8; 6] = [0x01, 0x2C, 0x2D, 0x01, 0x2C, 0x2D];
        assert(frame_rate_partial@ =~= seq![0x01u8, 0x2Cu8, 0x2Du8, 0x01u8, 0x2Cu8, 0x2Du8]);
        self.cmd_with(0xB3, frame_rate_partial.as_slice());
        let inversion: [u8; 1] = [0x07];
        assert(inversion@ =~= seq![0x07u8]);
        self.cmd_with(0xB4, inversion.as_slice());
        let pw1: [u8; 3] = [0xA2, 0x02, 0x84];
        assert(pw1@ =~= seq![0xA2u8, 0x02u8, 0x84u8]);
        self.cmd_with(0xC0, pw1.as_slice());
        let pw2: [u8; 1] = [0xC5];
        assert(pw2@ =~= seq![0xC5u8]);
        self.cmd_with(0xC1, pw2.as_slice());
        let pw3: [u8; 2] = [0x0A, 0x00];
        assert(pw3@ =~= seq![0x0Au8, 0x00u8]);
        self.cmd_with(0xC2, pw3.as_slice());
        let pw4: [u8; 2] = [0x8A, 0x2A];
        assert(pw4@ =~= seq![0x8Au8, 0x2Au8]);
        self.cmd_with(0xC3, pw4.as_slice());
        let pw5: [u8; 2] = [0x8A, 0xEE];
        assert(pw5@ =~= seq![0x8Au8, 0xEEu8]);
        self.cmd_with(0xC4, pw5.as_slice());
        let vcom: [u8; 1] = [0x0E];
        assert(vcom@ =~= seq![0x0Eu8]);
        self.cmd_with(0xC5, vcom.as_slice());
        self.write_cmd(0x21);
        let colmod: [u8; 1] = [0x05];
        assert(colmod@ =~= seq![0x05u8]);
        self.cmd_with(0x3A, colmod.as_slice());
        let madctl: [u8; 1] = [0x60];
        assert(madctl@ =~= seq![0x60u8]);
        self.cmd_with(0x36, madctl.as_slice());
        self.write_cmd(0x13);
        self.delay(10);
        self.write_cmd(0x29);
        self.delay(100);
        self.fill_rect(0, 0, LCD_WIDTH, LCD_HEIGHT, 0x0000);
        self.backlight_pin(false);
        assert(self.sent@ =~= old(self).sent() + init_ops());
    }

    /// Sets the panel's address window to columns `x0..=x1`, rows `y0..=y1` (panel
    /// offsets added).
    pub fn set_window(&mut self, x0: u16, y0: u16, x1: u16, y1: u16)
        requires
            x0 + COL_OFFSET <= u16::MAX,
            x1 + COL_OFFSET <= u16::MAX,
            y0 + ROW_OFFSET <= u16::MAX,
            y1 + ROW_OFFSET <= u16::MAX,
        ensures
            final(self).sent() == old(self).sent() + window_ops(x0, y0, x1, y1),
    {
        let xs = window_address(x0 + COL_OFFSET, x1 + COL_OFFSET);
        let ys = window_address(y0 + ROW_OFFSET, y1 + ROW_OFFSET);
        self.write_cmd(0x2A);
        self.write_data(xs.as_slice());
        self.write_cmd(0x2B);
        self.write_data(ys.as_slice());
        assert(self.sent@ =~= old(self).sent() + window_ops(x0, y0, x1, y1));
    }

    fn ram_write(&mut self)
        ensures
            final(self).sent() == old(self).sent() + ram_write_ops(),
    {
        self.cs(false);
        self.dc(false);
        let ram_write: [u8; 1] = [0x2C];
        assert(ram_write@ =~= seq![0x2Cu8]);
        self.write(ram_write.as_slice());
        self.dc(true);
        assert(self.sent@ =~= old(self).sent() + ram_write_ops());
    }

    /// Fills a rectangle, clipped to the screen, with one RGB565 color.
    pub fn fill_rect(&mut self, x: u16, y: u16, w: u16, h: u16, color_rgb565: u16)
        requires
            w == 0 || h == 0 || x >= LCD_WIDTH || y >= LCD_HEIGHT || (x + w <= u16::MAX && y + h <= u16::MAX),
        ensures
            final(self).sent() == old(self).sent() + fill_ops(x, y, w, h, color_rgb565),
    {
        let (x1, y1) = match clip_window(x, y, w, h) {
            Some(c) => c,
            None => {
                assert(self.sent@ =~= old(self).sent() + fill_ops(x, y, w, h, color_rgb565));
                return;
            },
        };
        self.set_window(x, y, x1, y1);
        self.ram_write();
        let cols: usize = (x1 - x + 1) as usize;
        let rows: usize = (y1 - y + 1) as usize;
        assert(cols * rows <= 160 * 80) by (nonlinear_arith)
            requires
                cols <= 160,
                rows <= 80,
        ;
        let count: usize = cols * rows;
        let b1 = #[verifier::truncate] ((color_rgb565 >> 8) as u8);
        let b2 = #[verifier::truncate] ((color_rgb565 & 0xFF) as u8);
        assert(b1 == (color_rgb565 >> 8u16) as u8 && b2 == (color_rgb565 & 0xFFu16) as u8);
        let mut buf = [0u8; 64];
        let mut i: usize = 0;
        while i < 32
            invariant
                i <= 32,
                forall|j: int| 0 <= j < 2 * i ==> buf@[j] == if j % 2 == 0 { b1 } else { b2 },
            decreases 32 - i,
        {
            buf[i * 2] = b1;
            buf[i * 2 + 1] = b2;
            i = i + 1;
        }
        let ghost goal = self.sent@ + pixel_writes(count as nat, b1, b2);
        let mut remaining = count;
        while remaining > 0
            invariant
                remaining <= count,
                forall|j: int| 0 <= j < 64 ==> buf@[j] == if j % 2 == 0 { b1 } else { b2 },
                self.sent@ + pixel_writes(remaining as nat, b1, b2) == goal,
            decreases remaining,
        {
            let chunk = if remaining < 32 { remaining } else { 32 };
            let run = slice_subrange(buf.as_slice(), 0, chunk * 2);
            assert(run@ =~= pixel_run(chunk as nat, b1, b2));
            self.write(run);
            assert(pixel_writes(remaining as nat, b1, b2) == seq![LcdOp::Write(pixel_run(chunk as nat, b1, b2))]
                + pixel_writes((remaining - chunk) as nat, b1, b2));
            remaining = remaining - chunk;
            assert(self.sent@ + pixel_writes(remaining as nat, b1, b2) =~= goal);
        }
        self.cs(true);
        assert(self.sent@ =~= old(self).sent() + fill_ops(x, y, w, h, color_rgb565));
    }

    /// Draws a character cell at `(x, y)` when it fits on screen.
    pub fn draw_char(&mut self, x: u16, y: u16, c: char, fg: u16, bg: u16)
        requires
            x + 6 <= u16::MAX,
            y + 8 <= u16::MAX,
        ensures
            final(self).sent() == old(self).sent() + char_ops(x, y, c, fg, bg),
    {
        if x + 6 > LCD_WIDTH || y + 8 > LCD_HEIGHT {
            assert(self.sent@ =~= old(self).sent() + char_ops(x, y, c, fg, bg));
            return;
        }
        let cell = char_cell(c, fg, bg);
        self.set_window(x, y, x + 5, y + 7);
        self.ram_write();
        self.write(cell.as_slice());
        self.cs(true);
        assert(self.sent@ =~= old(self).sent() + char_ops(x, y, c, fg, bg));
    }

    /// Draws a line of text from `(x, y)`, six pixels per character, up to the right
    /// edge.
    pub fn draw_text(&mut self, x: u16, y: u16, text: &str, fg: u16, bg: u16)
        requires
            x + 6 <= u16::MAX,
            y + 8 <= u16::MAX,
        ensures
            final(self).sent() == old(self).sent() + text_ops(x, y, text@, fg, bg),
    {
        let cs = str_chars(text);
        let n = cs.len();
        let mut cx = x;
        let mut i: usize = 0;
        assert(cs@.skip(0) =~= text@);
        while i < n
            invariant
                n == cs@.len(),
                cs@ == text@,
                i <= n,
                cx + 6 <= u16::MAX,
                y + 8 <= u16::MAX,
                self.sent@ + text_ops(cx, y, cs@.skip(i as int), fg, bg) == old(self).sent() + text_ops(x, y, text@, fg, bg),
            ensures
                i == n || cx + 6 > LCD_WIDTH,
            decreases n - i,
        {
            if cx + 6 > LCD_WIDTH {
                break;
            }
            let ghost before = self.sent@;
            self.draw_char(cx, y, cs[i], fg, bg);
            assert(cs@.skip(i as int)[0] == cs@[i as int]);
            assert(cs@.skip(i as int).drop_first() =~= cs@.skip(i + 1));
            assert(text_ops(cx, y, cs@.skip(i as int), fg, bg) == char_ops(cx, y, cs@[i as int], fg, bg) + text_ops(
                (cx + 6) as u16,
                y,
                cs@.skip(i + 1),
                fg,
                bg,
            ));
            cx = cx + 6;
            i = i + 1;
            assert(self.sent@ + text_ops(cx, y, cs@.skip(i as int), fg, bg) =~= before + text_ops(
                (cx - 6) as u16,
                y,
                cs@.skip(i - 1),
                fg,
                bg,
            ));
        }
        assert(text_ops(cx, y, cs@.skip(i as int), fg, bg) =~= Seq::<LcdOp>::empty());
        assert(self.sent@ =~= self.sent@ + Seq::<LcdOp>::empty());
    }

    /// Draws the status screen.
    pub fn render_status(
        &mut self,
        storage_mode: StorageModeStatus,
        rx_count: u32,
        tx_count: u32,
        sram_used: usize,
        dropped: u32,
        ble_pin: Option<u32>,
        btn_active: bool,
    )
        ensures
            final(self).sent() == old(self).sent() + status_ops(
                storage_mode,
                rx_count,
                tx_count,
                sram_used,
                dropped,
                ble_pin,
                btn_active,
            ),
    {
        let lines = status_lines(storage_mode, rx_count, tx_count, sram_used, dropped, ble_pin, btn_active);
        let ghost t = status_texts(storage_mode, rx_count, tx_count, sram_used, dropped, ble_pin, btn_active);
        assert(lines@[0].text@ == t[0].0 && lines@[0].fg == t[0].1);
        assert(lines@[1].text@ == t[1].0 && lines@[1].fg == t[1].1);
        assert(lines@[2].text@ == t[2].0 && lines@[2].fg == t[2].1);
        assert(lines@[3].text@ == t[3].0 && lines@[3].fg == t[3].1);
        assert(lines@[4].text@ == t[4].0 && lines@[4].fg == t[4].1);
        self.draw_text(4, 4, lines[0].text.as_str(), lines[0].fg, 0x0000);
        self.draw_text(4, 18, lines[1].text.as_str(), lines[1].fg, 0x0000);
        self.draw_text(4, 32, lines[2].text.as_str(), lines[2].fg, 0x0000);
        self.draw_text(4, 46, lines[3].text.as_str(), lines[3].fg, 0x0000);
        self.draw_text(4, 60, lines[4].text.as_str(), lines[4].fg, 0x0000);
        assert(self.sent@ =~= old(self).sent() + status_ops(
            storage_mode,
            rx_count,
            tx_count,
            sram_used,
            dropped,
            ble_pin,
            btn_active,
        ));
    }
}

/// The four bytes of an address window from `start` to `end`.
pub fn window_address(start: u16, end: u16) -> (r: [u8; 4])
    ensures
        r@ == window_bytes(start, end),
{
    let r: [u8; 4] = [(start >> 8) as u8, (start & 0xFF) as u8, (end >> 8) as u8, (end & 0xFF) as u8];
    assert(r@ =~= window_bytes(start, end));
    r
}

/// Clips a rectangle to the screen.
pub fn clip_window(x: u16, y: u16, w: u16, h: u16) -> (r: Option<(u16, u16)>)
    requires
        w == 0 || h == 0 || x >= LCD_WIDTH || y >= LCD_HEIGHT || (x + w <= u16::MAX && y + h <= u16::MAX),
    ensures
        r == clip_rect(x, y, w, h),
{
    if w == 0 || h == 0 || x >= LCD_WIDTH || y >= LCD_HEIGHT {
        return None;
    }
    let xe = x + w - 1;
    let ye = y + h - 1;
    let x1 = if xe < LCD_WIDTH - 1 { xe } else { LCD_WIDTH - 1 };
    let y1 = if ye < LCD_HEIGHT - 1 { ye } else { LCD_HEIGHT - 1 };
    Some((x1, y1))
}

} // verus!
