use gibberish::fat32_container::{BlockDevice, StorageError, SECTOR_SIZE};
use gibberish::sd_driver::{card_address_of, sd_command, SdSpiBus, SpiSdBlockDevice};
use std::collections::{HashMap, VecDeque};

/// A simulated SD card on the bus.
struct SimCard {
    present: bool,
    v2: bool,
    block_addressed: bool,
    replies: VecDeque<u8>,
    commands: Vec<(u8, u32)>,
    pending_write: Option<u32>,
    expect_data: bool,
    pending_read: Option<u32>,
    blocks: HashMap<u32, [u8; SECTOR_SIZE]>,
    clock_khz: u32,
}

impl SimCard {
    fn new(present: bool, v2: bool, block_addressed: bool) -> Self {
        SimCard {
            present,
            v2,
            block_addressed,
            replies: VecDeque::new(),
            commands: Vec::new(),
            pending_write: None,
            expect_data: false,
            pending_read: None,
            blocks: HashMap::new(),
            clock_khz: 0,
        }
    }
}

impl SdSpiBus for SimCard {
    fn select(&mut self, _selected: bool) {}

    fn write(&mut self, bytes: &[u8]) -> Result<(), ()> {
        if !self.present {
            return Ok(());
        }
        if bytes.len() == 6 && bytes[0] & 0xC0 == 0x40 {
            let cmd = bytes[0] & 0x3F;
            let arg = u32::from_be_bytes([bytes[1], bytes[2], bytes[3], bytes[4]]);
            assert_eq!(bytes[5] & 1, 1, "stop bit");
            self.commands.push((cmd, arg));
            self.replies.clear();
            match cmd {
                0 => self.replies.push_back(0x01),
                8 => {
                    if self.v2 {
                        self.replies.extend([0x01, 0x00, 0x00, 0x01, 0xAA]);
                    } else {
                        self.replies.push_back(0x05);
                    }
                }
                55 => self.replies.push_back(0x01),
                41 => self.replies.push_back(0x00),
                58 => self.replies.extend([0x00, if self.block_addressed { 0xC0 } else { 0x80 }, 0xFF, 0x80, 0x00]),
                16 => self.replies.push_back(0x00),
                17 => {
                    self.replies.extend([0x00, 0xFE]);
                    self.pending_read = Some(arg);
                }
                24 => {
                    self.replies.push_back(0x00);
                    self.pending_write = Some(arg);
                }
                _ => self.replies.push_back(0x04),
            }
        } else if bytes == [0xFF, 0xFE] && self.pending_write.is_some() {
            self.expect_data = true;
        } else if bytes.len() == SECTOR_SIZE && self.expect_data {
            let mut b = [0u8; SECTOR_SIZE];
            b.copy_from_slice(bytes);
            let addr = self.pending_write.take().unwrap();
            self.blocks.insert(addr, b);
            self.expect_data = false;
            self.replies.extend([0x05]);
        }
        Ok(())
    }

    fn exchange(&mut self) -> u8 {
        self.replies.pop_front().unwrap_or(0xFF)
    }

    fn read_sector(&mut self, buf: &mut [u8; SECTOR_SIZE]) -> Result<(), ()> {
        let addr = self.pending_read.take().ok_or(())?;
        *buf = self.blocks.get(&addr).copied().unwrap_or([0u8; SECTOR_SIZE]);
        Ok(())
    }

    fn set_clock_khz(&mut self, khz: u32) -> Result<(), ()> {
        self.clock_khz = khz;
        Ok(())
    }

    fn delay_ms(&mut self, _ms: u32) {}
}

#[test]
fn command_frames_carry_crc7() {
    assert_eq!(sd_command(0, 0), [0x40, 0, 0, 0, 0, 0x95]);
    assert_eq!(sd_command(8, 0x1AA), [0x48, 0, 0, 0x01, 0xAA, 0x87]);
    assert_eq!(sd_command(55, 0)[0], 0x77);
}

#[test]
fn card_addresses() {
    assert_eq!(card_address_of(true, 9), 9);
    assert_eq!(card_address_of(false, 9), 9 * 512);
    assert_eq!(card_address_of(false, u32::MAX), u32::MAX);
}

#[test]
fn absent_card_is_a_device_error() {
    let r = SpiSdBlockDevice::new(SimCard::new(false, true, true));
    assert!(matches!(r, Err(StorageError::DeviceError)));
}

#[test]
fn sdhc_card_reads_back_what_was_written() {
    let mut dev = match SpiSdBlockDevice::new(SimCard::new(true, true, true)) {
        Ok(d) => d,
        Err(_) => panic!("init failed"),
    };
    let mut data = [0u8; SECTOR_SIZE];
    for (i, b) in data.iter_mut().enumerate() {
        *b = (i % 251) as u8;
    }
    dev.write_block(42, &data).expect("write");
    let mut back = [0u8; SECTOR_SIZE];
    dev.read_block(42, &mut back).expect("read");
    assert_eq!(back[..], data[..]);
}

#[test]
fn legacy_card_uses_byte_addresses() {
    let mut dev = match SpiSdBlockDevice::new(SimCard::new(true, false, false)) {
        Ok(d) => d,
        Err(_) => panic!("init failed"),
    };
    let data = [0x5Au8; SECTOR_SIZE];
    dev.write_block(3, &data).expect("write");
    let mut back = [0u8; SECTOR_SIZE];
    dev.read_block(3, &mut back).expect("read");
    assert_eq!(back[..], data[..]);
}
