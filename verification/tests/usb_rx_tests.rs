use gibberish::fmt::format_ts;
use gibberish::frame::{MeshHeader, MeshPacket, DEFAULT_NETWORK_TAG, FLAG_ACK_REQ};
use gibberish::nonce::{NonceManager, NonceStore, NONCE_BLOCK_SIZE};
use gibberish::transport::frame_for_dongle;
use gibberish::usb_rx::{UsbFrameParser, UsbRxState};

fn packet(tag: u64) -> MeshPacket {
    MeshPacket {
        header: MeshHeader {
            network_tag: tag,
            msg_id: 0x0102_0304,
            chunk_idx: 1,
            total_chunks: 2,
            ttl: 3,
            hop_count: 0,
            flags: FLAG_ACK_REQ,
        },
        payload: [0xAB; 96],
    }
}

#[test]
fn framed_packets_are_read_back() {
    let p = packet(DEFAULT_NETWORK_TAG);
    let mut parser = UsbFrameParser::new();
    let mut out = Vec::new();
    // Noise and a false start before the frame.
    for b in [0x00u8, 0xAA, 0x01, 0xAA, 0xAA] {
        assert!(parser.feed(b).is_none());
    }
    for b in frame_for_dongle(&p) {
        if let Some(q) = parser.feed(b) {
            out.push(q);
        }
    }
    assert_eq!(out, vec![p]);
    for b in frame_for_dongle(&p) {
        if let Some(q) = parser.feed(b) {
            out.push(q);
        }
    }
    assert_eq!(out.len(), 2);
}

#[test]
fn frames_with_foreign_tags_are_dropped() {
    let p = packet(0x1234);
    let mut parser = UsbFrameParser::new();
    for b in frame_for_dongle(&p) {
        assert!(parser.feed(b).is_none());
    }
    let good = packet(DEFAULT_NETWORK_TAG);
    let mut got = None;
    for b in frame_for_dongle(&good) {
        if let Some(q) = parser.feed(b) {
            got = Some(q);
        }
    }
    assert_eq!(got, Some(good));
}

#[test]
fn wrong_length_byte_resynchronises() {
    let mut parser = UsbFrameParser::new();
    for b in [0xAAu8, 0x55, 0x71] {
        assert!(parser.feed(b).is_none());
    }
    let p = packet(DEFAULT_NETWORK_TAG);
    let mut got = None;
    for b in frame_for_dongle(&p) {
        if let Some(q) = parser.feed(b) {
            got = Some(q);
        }
    }
    assert_eq!(got, Some(p));
    assert_ne!(UsbRxState::Sync0, UsbRxState::Payload);
}

#[test]
fn time_of_day_labels() {
    assert_eq!(format_ts(0), "00:00:00");
    assert_eq!(format_ts(3661), "01:01:01");
    assert_eq!(format_ts(86_400 + 59), "00:00:59");
    assert_eq!(format_ts(-1), "00:00:-1");
    assert_eq!(format_ts(-3661), "-1:-1:-1");
}

struct Disk {
    epoch: u32,
    next: u64,
    writes: usize,
    fail: bool,
}

impl NonceStore for Disk {
    type Error = String;

    fn persist_reservation(&mut self, epoch: u32, next_allocated_block: u64) -> Result<(), String> {
        if self.fail {
            return Err("disk full".to_string());
        }
        self.epoch = epoch;
        self.next = next_allocated_block;
        self.writes += 1;
        Ok(())
    }
}

#[test]
fn test_nonce_manager_lifecycle_and_durability() {
    let disk = Disk { epoch: 0, next: 0, writes: 0, fail: false };
    let mut mgr = NonceManager::open(disk, 1_700_000_000, 0, 0).unwrap();
    let (epoch1, c0) = mgr.allocate_msg().unwrap();
    assert_eq!(c0, 0);
    assert!(epoch1 > 0);
    let (_epoch2, c1) = mgr.allocate_msg().unwrap();
    assert_eq!(c1, 1);

    // Reopening from what was made durable skips past the reserved block.
    let saved = Disk { epoch: 0, next: 0, writes: 0, fail: false };
    let mut mgr2 = NonceManager::open(saved, 1_700_000_001, 1_700_000_000, NONCE_BLOCK_SIZE).unwrap();
    let (_epoch, next_counter) = mgr2.allocate_msg().unwrap();
    assert_eq!(next_counter, 1000);
}

#[test]
fn test_clock_rollback_protection() {
    let future_epoch = 2_000_000_000u32;
    let disk = Disk { epoch: future_epoch, next: 5000, writes: 0, fail: false };
    let mgr = NonceManager::open(disk, 1_700_000_000, future_epoch, 5000).unwrap();
    assert!(mgr.current_epoch() > future_epoch);
    assert_eq!(mgr.current_epoch(), future_epoch + 1);
}

#[test]
fn reservation_is_extended_before_the_block_runs_out() {
    let disk = Disk { epoch: 0, next: 0, writes: 0, fail: false };
    let mut mgr = NonceManager::open(disk, 10, 0, 0).unwrap();
    for expected in 0..(NONCE_BLOCK_SIZE + 5) {
        let (epoch, c) = mgr.allocate_msg().unwrap();
        assert_eq!(epoch, 10);
        assert_eq!(c, expected);
    }
}

#[test]
fn failed_first_reservation_fails_open() {
    let disk = Disk { epoch: 0, next: 0, writes: 0, fail: true };
    assert!(NonceManager::open(disk, 10, 0, 0).is_err());
}

struct FlakyDisk {
    writes: usize,
    fail_on: usize,
}

impl NonceStore for FlakyDisk {
    type Error = String;

    fn persist_reservation(&mut self, _epoch: u32, _next_allocated_block: u64) -> Result<(), String> {
        self.writes += 1;
        if self.writes == self.fail_on {
            return Err("write failed".to_string());
        }
        Ok(())
    }
}

#[test]
fn failed_reservation_issues_nothing_and_is_retried() {
    let disk = FlakyDisk { writes: 0, fail_on: 2 };
    let mut mgr = NonceManager::open(disk, 10, 0, 0).unwrap();
    for expected in 0..NONCE_BLOCK_SIZE {
        assert_eq!(mgr.allocate_msg().unwrap(), (10, expected));
    }
    // The second reservation fails: no counter is issued.
    assert!(mgr.allocate_msg().is_err());
    // The next call makes the same reservation again and issues the next counter.
    assert_eq!(mgr.allocate_msg().unwrap(), (10, NONCE_BLOCK_SIZE));
}
