//! MicroSD card driver over SPI: card initialisation and single-block reads and writes.
use vstd::prelude::*;
use crate::bytes::be4;
use crate::fat32_container::{crc7, crc7_bits, BlockDevice, StorageError, SECTOR_SIZE};

verus! {

/// The SPI bus, chip-select line and delay source that the card hangs on.
pub trait SdSpiBus {
    /// Drives chip select: low (card selected) when `selected`, else high.
    fn select(&mut self, selected: bool);

    /// Clocks bytes out to the card.
    fn write(&mut self, bytes: &[u8]) -> Result<(), ()>;

    /// Clocks out one `0xFF` byte and returns the byte clocked in.
    fn exchange(&mut self) -> u8;

    /// Clocks out `0xFF` bytes while reading one sector.
    fn read_sector(&mut self, buf: &mut [u8; SECTOR_SIZE]) -> Result<(), ()>;

    /// Sets the bus clock in kHz, SPI mode 0.
    fn set_clock_khz(&mut self, khz: u32) -> Result<(), ()>;

    /// Waits `ms` milliseconds.
    fn delay_ms(&mut self, ms: u32);
}

/// Bus clock allowed while a card initialises.
pub const INIT_CLOCK_KHZ: u32 = 400;
/// Bus clock in operation.
pub const RUN_CLOCK_KHZ: u32 = 16_000;

/// Two idle bytes that end a transaction and release MISO.
pub const TRAILING_CLOCKS: [u8; 2] = [0xFF, 0xFF];
/// Eighty clocks with chip select high that wake a card.
pub const WAKE_CLOCKS: [u8; 10] = [0xFF, 0xFF, 0xFF, 0xFF, 0xFF, 0xFF, 0xFF, 0xFF, 0xFF, 0xFF];
/// A gap byte, then the start token of a data block.
pub const DATA_START: [u8; 2] = [0xFF, 0xFE];

/// The six bytes of an SPI-mode command: start bits and index, the argument big-endian,
/// then the CRC-7 with the stop bit.
pub open spec fn command_frame(cmd: u8, arg: u32) -> Seq<u8> {
    let head = seq![0x40u8 | (cmd & 0x3F)] + be4(arg);
    head.push(crc7_bits(head, 40) | 1u8)
}

/// Builds the six bytes of command `cmd` with argument `arg`.
pub fn sd_command(cmd: u8, arg: u32) -> (r: [u8; 6])
    ensures
        r@ == command_frame(cmd, arg),
{
    let mut buf: [u8; 6] = [
        0x40 | (cmd & 0x3F),
        (arg >> 24) as u8,
        (arg >> 16) as u8,
        (arg >> 8) as u8,
        arg as u8,
        0,
    ];
    let head: [u8; 5] = [buf[0], buf[1], buf[2], buf[3], buf[4]];
    assert(head@ =~= seq![0x40u8 | (cmd & 0x3F)] + be4(arg));
    buf[5] = crc7(head.as_slice());
    assert(buf@ =~= command_frame(cmd, arg));
    buf
}

/// The card address of a block: the block number on block-addressed (SDHC/SDXC) cards,
/// its byte offset (saturating) on byte-addressed ones.
pub open spec fn card_address(block_addressed: bool, lba: u32) -> u32 {
    if block_addressed {
        lba
    } else if lba * 512 > u32::MAX {
        u32::MAX
    } else {
        (lba * 512) as u32
    }
}

/// Address of block `lba` on the card.
pub fn card_address_of(block_addressed: bool, lba: u32) -> (r: u32)
    ensures
        r == card_address(block_addressed, lba),
{
    if block_addressed {
        lba
    } else if lba > u32::MAX / 512 {
        u32::MAX
    } else {
        lba * 512
    }
}

/// Whether an R7 answer to CMD8 echoes the check pattern with the 2.7-3.6 V range.
pub open spec fn r7_confirms_v2(r7: Seq<u8>) -> bool {
    r7[3] == 0xAA && r7[2] & 0x0F == 0x01
}

/// Whether a data response token says the block was accepted.
pub open spec fn data_accepted(token: u8) -> bool {
    token & 0x1F == 0x05
}

/// One thing done on the card's bus, with what came back.
pub enum SdOp {
    /// Chip select driven: the card selected, or released.
    Select(bool),
    /// Bytes clocked out, and whether the bus took them.
    Write(Seq<u8>, bool),
    /// One `0xFF` clocked out and this byte clocked in.
    Exchange(u8),
    /// A sector clocked in, and whether the bus completed it.
    ReadSector(Seq<u8>, bool),
    /// The bus clock set to this many kHz, and whether the bus took it.
    Clock(u32, bool),
    /// A wait of this many milliseconds.
    Delay(u32),
}

/// What a poll of the card waits for.
pub enum Wait {
    /// `0xFF`: the card is not busy.
    Ready,
    /// An R1 answer: top bit clear.
    R1,
    /// Any byte but `0xFF`: a token or data response.
    Answer,
}

/// Whether byte `b` ends a wait for `w`.
pub open spec fn ends_wait(w: Wait, b: u8) -> bool {
    match w {
        Wait::Ready => b == 0xFF,
        Wait::R1 => b & 0x80 == 0,
        Wait::Answer => b != 0xFF,
    }
}

/// The bus steps that clock in the bytes `bs`, one at a time.
pub open spec fn exchanges(bs: Seq<u8>) -> Seq<SdOp> {
    Seq::new(bs.len(), |i: int| SdOp::Exchange(bs[i]))
}

/// Whether the bytes `bs` are a poll for `w` of at most `limit` bytes: it stops at the
/// first byte that ends the wait, or after `limit` bytes.
pub open spec fn polled(bs: Seq<u8>, limit: int, w: Wait) -> bool {
    &&& bs.len() <= limit
    &&& forall|i: int| 0 <= i < bs.len() - 1 ==> !ends_wait(w, #[trigger] bs[i])
    &&& (bs.len() == limit || hit(bs, w))
}

/// Whether a poll for `w` ended on a byte that ends the wait.
pub open spec fn hit(bs: Seq<u8>, w: Wait) -> bool {
    bs.len() > 0 && ends_wait(w, bs.last())
}

/// Whether `op` clocked out the bytes `bytes`.
pub open spec fn wrote(op: SdOp, bytes: Seq<u8>) -> bool {
    op matches SdOp::Write(b, _) && b == bytes
}

/// Whether `ops` end a transaction: chip select high, then the two idle bytes.
pub open spec fn released(ops: Seq<SdOp>) -> bool {
    &&& ops.len() == 2
    &&& ops[0] == SdOp::Select(false)
    &&& wrote(ops[1], TRAILING_CLOCKS@)
}

proof fn lemma_exchanges_push(bs: Seq<u8>, b: u8)
    ensures
        exchanges(bs.push(b)) == exchanges(bs).push(SdOp::Exchange(b)),
{
    assert(exchanges(bs.push(b)) =~= exchanges(bs).push(SdOp::Exchange(b)));
}

fn bus_select<B: SdSpiBus>(bus: &mut B, log: &mut Ghost<Seq<SdOp>>, selected: bool)
    ensures
        final(log)@ == old(log)@.push(SdOp::Select(selected)),
{
    bus.select(selected);
    *log = Ghost(log@.push(SdOp::Select(selected)));
}

fn bus_write<B: SdSpiBus>(bus: &mut B, log: &mut Ghost<Seq<SdOp>>, bytes: &[u8]) -> (r: Result<(), ()>)
    ensures
        final(log)@ == old(log)@.push(SdOp::Write(bytes@, r is Ok)),
{
    let r = bus.write(bytes);
    *log = Ghost(log@.push(SdOp::Write(bytes@, r is Ok)));
    r
}

fn bus_exchange<B: SdSpiBus>(bus: &mut B, log: &mut Ghost<Seq<SdOp>>) -> (b: u8)
    ensures
        final(log)@ == old(log)@.push(SdOp::Exchange(b)),
{
    let b = bus.exchange();
    *log = Ghost(log@.push(SdOp::Exchange(b)));
    b
}

fn bus_read_sector<B: SdSpiBus>(bus: &mut B, log: &mut Ghost<Seq<SdOp>>, buf: &mut [u8; SECTOR_SIZE]) -> (r: Result<(), ()>)
    ensures
        final(log)@ == old(log)@.push(SdOp::ReadSector(final(buf)@, r is Ok)),
{
    let r = bus.read_sector(buf);
    *log = Ghost(log@.push(SdOp::ReadSector(buf@, r is Ok)));
    r
}

fn bus_clock<B: SdSpiBus>(bus: &mut B, log: &mut Ghost<Seq<SdOp>>, khz: u32) -> (r: Result<(), ()>)
    ensures
        final(log)@ == old(log)@.push(SdOp::Clock(khz, r is Ok)),
{
    let r = bus.set_clock_khz(khz);
    *log = Ghost(log@.push(SdOp::Clock(khz, r is Ok)));
    r
}

fn bus_delay<B: SdSpiBus>(bus: &mut B, log: &mut Ghost<Seq<SdOp>>, ms: u32)
    ensures
        final(log)@ == old(log)@.push(SdOp::Delay(ms)),
{
    bus.delay_ms(ms);
    *log = Ghost(log@.push(SdOp::Delay(ms)));
}

/// Sends one command frame.
fn send_cmd<B: SdSpiBus>(bus: &mut B, log: &mut Ghost<Seq<SdOp>>, cmd: u8, arg: u32)
    ensures
        final(log)@ == old(log)@.push(final(log)@.last()),
        wrote(final(log)@.last(), command_frame(cmd, arg)),
{
    let frame = sd_command(cmd, arg);
    let _ = bus_write(bus, log, frame.as_slice());
}

/// Polls up to `max_attempts` bytes for an R1 answer (top bit clear).
fn wait_r1<B: SdSpiBus>(bus: &mut B, log: &mut Ghost<Seq<SdOp>>, max_attempts: usize) -> (r: Result<u8, StorageError>)
    ensures
        exists|bs: Seq<u8>|
            #[trigger] polled(bs, max_attempts as int, Wait::R1)
            && final(log)@ == old(log)@ + exchanges(bs)
            && r == (if hit(bs, Wait::R1) { Ok(bs.last()) } else { Err(StorageError::DeviceError) }),
{
    let ghost mut bs: Seq<u8> = Seq::empty();
    let mut i: usize = 0;
    assert(log@ =~= old(log)@ + exchanges(bs));
    while i < max_attempts
        invariant
            i <= max_attempts,
            bs.len() == i,
            forall|j: int| 0 <= j < bs.len() ==> !ends_wait(Wait::R1, #[trigger] bs[j]),
            log@ == old(log)@ + exchanges(bs),
        decreases max_attempts - i,
    {
        let b = bus_exchange(bus, log);
        proof {
            lemma_exchanges_push(bs, b);
            bs = bs.push(b);
            assert(log@ =~= old(log)@ + exchanges(bs));
        }
        if b & 0x80 == 0 {
            assert(polled(bs, max_attempts as int, Wait::R1));
            return Ok(b);
        }
        i = i + 1;
    }
    assert(polled(bs, max_attempts as int, Wait::R1));
    Err(StorageError::DeviceError)
}

/// Polls up to `max_attempts` bytes for one other than `0xFF`.
fn wait_answer<B: SdSpiBus>(bus: &mut B, log: &mut Ghost<Seq<SdOp>>, max_attempts: u32) -> (r: Option<u8>)
    ensures
        exists|bs: Seq<u8>|
            #[trigger] polled(bs, max_attempts as int, Wait::Answer)
            && final(log)@ == old(log)@ + exchanges(bs)
            && r == (if hit(bs, Wait::Answer) { Some(bs.last()) } else { None::<u8> }),
{
    let ghost mut bs: Seq<u8> = Seq::empty();
    let mut i: u32 = 0;
    assert(log@ =~= old(log)@ + exchanges(bs));
    while i < max_attempts
        invariant
            i <= max_attempts,
            bs.len() == i,
            forall|j: int| 0 <= j < bs.len() ==> !ends_wait(Wait::Answer, #[trigger] bs[j]),
            log@ == old(log)@ + exchanges(bs),
        decreases max_attempts - i,
    {
        let b = bus_exchange(bus, log);
        proof {
            lemma_exchanges_push(bs, b);
            bs = bs.push(b);
            assert(log@ =~= old(log)@ + exchanges(bs));
        }
        if b != 0xFF {
            assert(polled(bs, max_attempts as int, Wait::Answer));
            return Some(b);
        }
        i = i + 1;
    }
    assert(polled(bs, max_attempts as int, Wait::Answer));
    None
}

/// Ends a transaction: chip select high, then two idle bytes.
fn release<B: SdSpiBus>(bus: &mut B, log: &mut Ghost<Seq<SdOp>>)
    ensures
        final(log)@ == old(log)@ + seq![SdOp::Select(false), final(log)@.last()],
        released(seq![SdOp::Select(false), final(log)@.last()]),
{
    bus_select(bus, log, false);
    let _ = bus_write(bus, log, TRAILING_CLOCKS.as_slice());
    assert(log@ =~= old(log)@ + seq![SdOp::Select(false), log@.last()]);
}

/// Polls up to `max_attempts` bytes until the card answers `0xFF` (not busy).
fn wait_ready<B: SdSpiBus>(bus: &mut B, log: &mut Ghost<Seq<SdOp>>, max_attempts: usize) -> (r: bool)
    ensures
        exists|bs: Seq<u8>|
            #[trigger] polled(bs, max_attempts as int, Wait::Ready)
            && final(log)@ == old(log)@ + exchanges(bs)
            && r == hit(bs, Wait::Ready),
{
    let ghost mut bs: Seq<u8> = Seq::empty();
    let mut i: usize = 0;
    assert(log@ =~= old(log)@ + exchanges(bs));
    while i < max_attempts
        invariant
            i <= max_attempts,
            bs.len() == i,
            forall|j: int| 0 <= j < bs.len() ==> !ends_wait(Wait::Ready, #[trigger] bs[j]),
            log@ == old(log)@ + exchanges(bs),
        decreases max_attempts - i,
    {
        let b = bus_exchange(bus, log);
        proof {
            lemma_exchanges_push(bs, b);
            bs = bs.push(b);
            assert(log@ =~= old(log)@ + exchanges(bs));
        }
        if b == 0xFF {
            assert(polled(bs, max_attempts as int, Wait::Ready));
            return true;
        }
        i = i + 1;
    }
    assert(polled(bs, max_attempts as int, Wait::Ready));
    false
}

/// A CMD17 session: the card selected, a wait of at most 2000 bytes for it to be ready,
/// then the command (see `read_command`); a card that stays busy ends it with a device error.
pub open spec fn read_session(ops: Seq<SdOp>, addr: u32, r: Result<(), StorageError>, data: Seq<u8>) -> bool {
    exists|bs: Seq<u8>, rest: Seq<SdOp>| #[trigger] read_wait_parts(ops, addr, bs, rest, r, data)
}

/// `read_session` with its ready poll `bs` and the steps `rest` after it.
pub open spec fn read_wait_parts(
    ops: Seq<SdOp>,
    addr: u32,
    bs: Seq<u8>,
    rest: Seq<SdOp>,
    r: Result<(), StorageError>,
    data: Seq<u8>,
) -> bool {
    &&& ops == seq![SdOp::Select(true)] + exchanges(bs) + rest
    &&& polled(bs, 2000, Wait::Ready)
    &&& if hit(bs, Wait::Ready) {
        read_command(rest, addr, r, data)
    } else {
        released(rest) && r == Err::<(), StorageError>(StorageError::DeviceError)
    }
}

/// CMD17 for address `addr` and a wait of at most 1000 bytes for its R1; an R1 other than
/// 0, or none, ends it with a device error, else the data phase follows (see `read_data`).
pub open spec fn read_command(ops: Seq<SdOp>, addr: u32, r: Result<(), StorageError>, data: Seq<u8>) -> bool {
    exists|c: SdOp, bs: Seq<u8>, rest: Seq<SdOp>| #[trigger] read_r1_parts(ops, addr, c, bs, rest, r, data)
}

/// `read_command` with the command step `c`, the R1 poll `bs` and the steps `rest` after it.
pub open spec fn read_r1_parts(
    ops: Seq<SdOp>,
    addr: u32,
    c: SdOp,
    bs: Seq<u8>,
    rest: Seq<SdOp>,
    r: Result<(), StorageError>,
    data: Seq<u8>,
) -> bool {
    &&& ops == seq![c] + exchanges(bs) + rest
    &&& wrote(c, command_frame(17, addr))
    &&& polled(bs, 1000, Wait::R1)
    &&& if hit(bs, Wait::R1) && bs.last() == 0 {
        read_data(rest, r, data)
    } else {
        released(rest) && r == Err::<(), StorageError>(StorageError::DeviceError)
    }
}

/// A wait of at most 100000 bytes for the start token `0xFE`; any other answer, or none,
/// ends it with a device error. Then the sector, two CRC bytes and the release; the read
/// succeeds with the sector's bytes exactly when the bus completed the sector.
pub open spec fn read_data(ops: Seq<SdOp>, r: Result<(), StorageError>, data: Seq<u8>) -> bool {
    exists|bs: Seq<u8>, rest: Seq<SdOp>| #[trigger] read_token_parts(ops, bs, rest, r, data)
}

/// `read_data` with the token poll `bs` and the steps `rest` after it.
pub open spec fn read_token_parts(
    ops: Seq<SdOp>,
    bs: Seq<u8>,
    rest: Seq<SdOp>,
    r: Result<(), StorageError>,
    data: Seq<u8>,
) -> bool {
    &&& ops == exchanges(bs) + rest
    &&& polled(bs, 100_000, Wait::Answer)
    &&& if hit(bs, Wait::Answer) && bs.last() == 0xFE {
        &&& rest.len() > 0
        &&& rest[0] matches SdOp::ReadSector(d, ok)
        &&& if ok {
            &&& rest.len() == 5
            &&& rest[1] is Exchange
            &&& rest[2] is Exchange
            &&& released(rest.skip(3))
            &&& r == Ok::<(), StorageError>(())
            &&& data == d
        } else {
            released(rest.skip(1)) && r == Err::<(), StorageError>(StorageError::DeviceError)
        }
    } else {
        released(rest) && r == Err::<(), StorageError>(StorageError::DeviceError)
    }
}

/// A CMD24 session writing `data`: the card selected, a wait of at most 5000 bytes for it
/// to be ready, then the command (see `write_command`); a card that stays busy ends it
/// with a device error.
pub open spec fn write_session(ops: Seq<SdOp>, addr: u32, data: Seq<u8>, r: Result<(), StorageError>) -> bool {
    exists|bs: Seq<u8>, rest: Seq<SdOp>| #[trigger] write_wait_parts(ops, addr, data, bs, rest, r)
}

/// `write_session` with its ready poll `bs` and the steps `rest` after it.
pub open spec fn write_wait_parts(
    ops: Seq<SdOp>,
    addr: u32,
    data: Seq<u8>,
    bs: Seq<u8>,
    rest: Seq<SdOp>,
    r: Result<(), StorageError>,
) -> bool {
    &&& ops == seq![SdOp::Select(true)] + exchanges(bs) + rest
    &&& polled(bs, 5000, Wait::Ready)
    &&& if hit(bs, Wait::Ready) {
        write_command(rest, addr, data, r)
    } else {
        released(rest) && r == Err::<(), StorageError>(StorageError::DeviceError)
    }
}

/// CMD24 for address `addr` and a wait of at most 1000 bytes for its R1; an R1 other than
/// 0, or none, ends it with a device error. Then the start token and the sector; a sector
/// the bus refused ends it with a device error, else the CRC bytes and the data response
/// follow (see `write_response`).
pub open spec fn write_command(ops: Seq<SdOp>, addr: u32, data: Seq<u8>, r: Result<(), StorageError>) -> bool {
    exists|c: SdOp, bs: Seq<u8>, rest: Seq<SdOp>| #[trigger] write_r1_parts(ops, addr, data, c, bs, rest, r)
}

/// `write_command` with the command step `c`, the R1 poll `bs` and the steps `rest` after it.
pub open spec fn write_r1_parts(
    ops: Seq<SdOp>,
    addr: u32,
    data: Seq<u8>,
    c: SdOp,
    bs: Seq<u8>,
    rest: Seq<SdOp>,
    r: Result<(), StorageError>,
) -> bool {
    &&& ops == seq![c] + exchanges(bs) + rest
    &&& wrote(c, command_frame(24, addr))
    &&& polled(bs, 1000, Wait::R1)
    &&& if hit(bs, Wait::R1) && bs.last() == 0 {
        &&& rest.len() >= 2
        &&& wrote(rest[0], DATA_START@)
        &&& rest[1] matches SdOp::Write(b, ok)
        &&& b == data
        &&& if ok {
            rest.len() >= 3 && wrote(rest[2], TRAILING_CLOCKS@) && write_response(rest.skip(3), r)
        } else {
            released(rest.skip(2)) && r == Err::<(), StorageError>(StorageError::DeviceError)
        }
    } else {
        released(rest) && r == Err::<(), StorageError>(StorageError::DeviceError)
    }
}

/// A wait of at most 200 bytes for the data response; none, or one that does not accept
/// the block, ends it with a device error. Then a wait of at most 250000 bytes while the
/// card programs the block, and the release: the write succeeds exactly when the card
/// came ready.
pub open spec fn write_response(ops: Seq<SdOp>, r: Result<(), StorageError>) -> bool {
    exists|bs: Seq<u8>, busy: Seq<u8>, rest: Seq<SdOp>| #[trigger] write_response_parts(ops, bs, busy, rest, r)
}

/// `write_response` with the response poll `bs`, the busy poll `busy` and the release `rest`.
pub open spec fn write_response_parts(
    ops: Seq<SdOp>,
    bs: Seq<u8>,
    busy: Seq<u8>,
    rest: Seq<SdOp>,
    r: Result<(), StorageError>,
) -> bool {
    &&& polled(bs, 200, Wait::Answer)
    &&& if hit(bs, Wait::Answer) && data_accepted(bs.last()) {
        &&& ops == exchanges(bs) + exchanges(busy) + rest
        &&& polled(busy, 250_000, Wait::Ready)
        &&& released(rest)
        &&& r == (if hit(busy, Wait::Ready) {
            Ok::<(), StorageError>(())
        } else {
            Err::<(), StorageError>(StorageError::DeviceError)
        })
    } else {
        ops == exchanges(bs) + rest && released(rest) && r == Err::<(), StorageError>(StorageError::DeviceError)
    }
}

/// One command transaction on the bus: what was done, the R1 poll's bytes, and the answer
/// bytes read after the R1.
pub struct Txn {
    pub ops: Seq<SdOp>,
    pub bs: Seq<u8>,
    pub extra: Seq<u8>,
}

/// The R1 a transaction got: the byte that ended its poll, or none.
pub open spec fn reply(t: Txn) -> Option<u8> {
    if hit(t.bs, Wait::R1) {
        Some(t.bs.last())
    } else {
        None
    }
}

/// Whether `t` is command `cmd` with argument `arg`: the card selected, the command's
/// frame, a poll of at most `limit` bytes for the R1, four more answer bytes when the R1
/// is `extra_on`, and the release.
pub open spec fn txn_ok(t: Txn, cmd: u8, arg: u32, limit: int, extra_on: Option<u8>) -> bool {
    &&& polled(t.bs, limit, Wait::R1)
    &&& t.extra.len() == (if extra_on is Some && reply(t) == extra_on { 4int } else { 0int })
    &&& t.ops.len() == t.bs.len() + t.extra.len() + 4
    &&& t.ops == seq![SdOp::Select(true), t.ops[1]] + exchanges(t.bs) + exchanges(t.extra) + seq![
        SdOp::Select(false),
        t.ops.last(),
    ]
    &&& wrote(t.ops[1], command_frame(cmd, arg))
    &&& wrote(t.ops.last(), TRAILING_CLOCKS@)
}

/// Whether the card answered CMD8 as an SD v2 card: idle, and an R7 that echoes the check
/// pattern with the voltage range.
pub open spec fn answers_v2(t: Txn) -> bool {
    reply(t) == Some(1u8) && r7_confirms_v2(t.extra)
}

/// Whether a CMD8 answer lets initialisation go on: an SD v2 card, or an illegal-command
/// R1 (an older card).
pub open spec fn cmd8_accepted(t: Txn) -> bool {
    answers_v2(t) || (reply(t) matches Some(b) && b != 1 && b & 0x04 != 0)
}

/// Whether a CMD58 answer reports a block-addressed (high capacity) card.
pub open spec fn ocr_block_addressed(t: Txn) -> bool {
    reply(t) == Some(0u8) && t.extra[0] & 0x40 != 0
}

/// The command transactions of one initialisation.
pub struct InitRun {
    /// CMD0 tries that did not leave the card idle.
    pub cmd0_fails: Seq<Txn>,
    pub cmd0: Txn,
    pub cmd8: Txn,
    /// CMD55 and ACMD41 tries that did not find the card ready.
    pub acmd_fails: Seq<(Txn, Txn)>,
    pub cmd55: Txn,
    pub cmd41: Txn,
    pub cmd58: Option<Txn>,
    pub cmd16: Option<Txn>,
}

/// Whether every try in `f` is a CMD0 that did not leave the card idle.
pub open spec fn cmd0_fails_ok(f: Seq<Txn>) -> bool {
    forall|i: int| 0 <= i < f.len() ==> txn_ok(#[trigger] f[i], 0, 0, 50, None) && reply(f[i]) != Some(1u8)
}

/// Whether every try in `f` is a CMD55 and an ACMD41 (argument `hcs`) that did not find
/// the card ready.
pub open spec fn acmd_fails_ok(f: Seq<(Txn, Txn)>, hcs: u32) -> bool {
    forall|i: int|
        0 <= i < f.len() ==> txn_ok(#[trigger] f[i].0, 55, 0, 100, None) && txn_ok(f[i].1, 41, hcs, 100, None) && reply(
            f[i].1,
        ) != Some(0u8)
}

/// The bus steps of failed CMD0 tries, each followed by a 2 ms wait.
pub open spec fn cmd0_fail_ops(f: Seq<Txn>) -> Seq<SdOp>
    decreases f.len(),
{
    if f.len() == 0 {
        Seq::empty()
    } else {
        cmd0_fail_ops(f.drop_last()) + f.last().ops + seq![SdOp::Delay(2)]
    }
}

/// The bus steps of failed ACMD41 tries, each followed by a 5 ms wait.
pub open spec fn acmd_fail_ops(f: Seq<(Txn, Txn)>) -> Seq<SdOp>
    decreases f.len(),
{
    if f.len() == 0 {
        Seq::empty()
    } else {
        acmd_fail_ops(f.drop_last()) + f.last().0.ops + f.last().1.ops + seq![SdOp::Delay(5)]
    }
}

/// The bus steps of a transaction that may not have happened.
pub open spec fn opt_ops(t: Option<Txn>) -> Seq<SdOp> {
    match t {
        Some(t) => t.ops,
        None => Seq::empty(),
    }
}

/// The opening of an initialisation: chip select high, the 400 kHz clock taken, 10 ms,
/// and `wake` (the wake clocks).
pub open spec fn init_head(wake: SdOp) -> Seq<SdOp> {
    seq![SdOp::Select(false), SdOp::Clock(INIT_CLOCK_KHZ, true), SdOp::Delay(10), wake]
}

/// The bus steps of an initialisation's commands, after the opening `head`.
pub open spec fn init_ops(head: Seq<SdOp>, run: InitRun) -> Seq<SdOp> {
    head + cmd0_fail_ops(run.cmd0_fails) + run.cmd0.ops + run.cmd8.ops + acmd_fail_ops(run.acmd_fails) + run.cmd55.ops
        + run.cmd41.ops + opt_ops(run.cmd58) + opt_ops(run.cmd16)
}

/// The ACMD41 argument: the high-capacity bit on an SD v2 card.
pub open spec fn hcs_of(cmd8: Txn) -> u32 {
    if answers_v2(cmd8) { 0x4000_0000 } else { 0 }
}

/// Whether the transactions of `run` are those of an initialisation that came through its
/// commands, and `sdhc` whether they found a block-addressed card: up to four CMD0 tries
/// that failed and one that left the card idle; CMD8, answered as by an SD v2 card or an
/// older one; up to 199 failed ACMD41 tries and one that found the card ready (with the
/// high-capacity bit on a v2 card); on a v2 card CMD58, whose OCR says whether blocks are
/// addressed; on a byte-addressed card CMD16 for 512-byte blocks.
pub open spec fn init_commands_ok(run: InitRun, sdhc: bool) -> bool {
    let v2 = answers_v2(run.cmd8);
    let hcs = hcs_of(run.cmd8);
    &&& run.cmd0_fails.len() < 5
    &&& cmd0_fails_ok(run.cmd0_fails)
    &&& txn_ok(run.cmd0, 0, 0, 50, None) && reply(run.cmd0) == Some(1u8)
    &&& txn_ok(run.cmd8, 8, 0x1AA, 100, Some(1u8)) && cmd8_accepted(run.cmd8)
    &&& run.acmd_fails.len() < 200
    &&& acmd_fails_ok(run.acmd_fails, hcs)
    &&& txn_ok(run.cmd55, 55, 0, 100, None)
    &&& txn_ok(run.cmd41, 41, hcs, 100, None) && reply(run.cmd41) == Some(0u8)
    &&& (v2 <==> run.cmd58 is Some)
    &&& (run.cmd58 matches Some(t) ==> txn_ok(t, 58, 0, 100, Some(0u8)))
    &&& sdhc == (run.cmd58 matches Some(t) && ocr_block_addressed(t))
    &&& (!sdhc <==> run.cmd16 is Some)
    &&& (run.cmd16 matches Some(t) ==> txn_ok(t, 16, 512, 100, None))
}

/// Whether `ops` are a successful initialisation made of the transactions of `run`, and
/// `sdhc` whether it found a block-addressed card (see `init_commands_ok`): the opening,
/// the commands, then the 16 MHz clock taken and the release.
pub open spec fn init_run(ops: Seq<SdOp>, sdhc: bool, run: InitRun) -> bool {
    &&& init_commands_ok(run, sdhc)
    &&& ops.len() >= 7
    &&& ops == init_ops(init_head(ops[3]), run) + seq![SdOp::Clock(RUN_CLOCK_KHZ, true), SdOp::Select(false), ops.last()]
    &&& wrote(ops[3], WAKE_CLOCKS@)
    &&& wrote(ops.last(), TRAILING_CLOCKS@)
}

/// Whether `ops` are a successful initialisation that found a block-addressed card
/// exactly when `sdhc` (see `init_run`).
pub open spec fn init_session(ops: Seq<SdOp>, sdhc: bool) -> bool {
    exists|run: InitRun| #[trigger] init_run(ops, sdhc, run)
}

/// Where an initialisation stopped, with the transactions it made up to there.
pub enum InitFailure {
    /// The bus refused the 400 kHz clock.
    Clock,
    /// Five CMD0 tries, none of which left the card idle.
    NoIdle(Seq<Txn>),
    /// CMD8 answered neither as by an SD v2 card nor with an illegal-command R1.
    Cmd8(Seq<Txn>, Txn, Txn),
    /// Two hundred ACMD41 tries, none of which found the card ready.
    NotReady(Seq<Txn>, Txn, Txn, Seq<(Txn, Txn)>),
    /// The commands came through, then the bus refused the 16 MHz clock.
    RunClock(InitRun, bool),
}

/// Whether `op` sets the bus back to the operating clock (whether or not the bus took it).
pub open spec fn run_clock(op: SdOp) -> bool {
    op matches SdOp::Clock(k, _) && k == RUN_CLOCK_KHZ
}

/// Whether `ops` are an initialisation that stopped as `f` says, the card's answers being
/// what made it stop; each way out ends by setting the operating clock.
pub open spec fn init_failed(ops: Seq<SdOp>, f: InitFailure) -> bool {
    &&& ops.len() >= 3
    &&& run_clock(ops.last())
    &&& match f {
        InitFailure::Clock => ops =~= seq![SdOp::Select(false), SdOp::Clock(INIT_CLOCK_KHZ, false), ops.last()],
        InitFailure::NoIdle(fs) => {
            &&& ops.len() >= 5
            &&& fs.len() == 5
            &&& cmd0_fails_ok(fs)
            &&& wrote(ops[3], WAKE_CLOCKS@)
            &&& ops == init_head(ops[3]) + cmd0_fail_ops(fs) + seq![ops.last()]
        },
        InitFailure::Cmd8(fs, t0, t8) => {
            &&& ops.len() >= 5
            &&& fs.len() < 5
            &&& cmd0_fails_ok(fs)
            &&& txn_ok(t0, 0, 0, 50, None) && reply(t0) == Some(1u8)
            &&& txn_ok(t8, 8, 0x1AA, 100, Some(1u8)) && !cmd8_accepted(t8)
            &&& wrote(ops[3], WAKE_CLOCKS@)
            &&& ops == init_head(ops[3]) + cmd0_fail_ops(fs) + t0.ops + t8.ops + seq![ops.last()]
        },
        InitFailure::NotReady(fs, t0, t8, fa) => {
            &&& ops.len() >= 5
            &&& fs.len() < 5
            &&& cmd0_fails_ok(fs)
            &&& txn_ok(t0, 0, 0, 50, None) && reply(t0) == Some(1u8)
            &&& txn_ok(t8, 8, 0x1AA, 100, Some(1u8)) && cmd8_accepted(t8)
            &&& fa.len() == 200
            &&& acmd_fails_ok(fa, hcs_of(t8))
            &&& wrote(ops[3], WAKE_CLOCKS@)
            &&& ops == init_head(ops[3]) + cmd0_fail_ops(fs) + t0.ops + t8.ops + acmd_fail_ops(fa) + seq![ops.last()]
        },
        InitFailure::RunClock(run, sdhc) => {
            &&& ops.len() >= 6
            &&& init_commands_ok(run, sdhc)
            &&& wrote(ops[3], WAKE_CLOCKS@)
            &&& ops == init_ops(init_head(ops[3]), run) + seq![SdOp::Clock(RUN_CLOCK_KHZ, false), ops.last()]
        },
    }
}

/// What an initialisation with the bus steps `ops` gives: a card that addresses blocks
/// (`Ok(true)`) or bytes (`Ok(false)`) when its answers made a successful initialisation,
/// and a device error exactly where its answers made it stop.
pub open spec fn init_outcome(ops: Seq<SdOp>, r: Result<bool, StorageError>) -> bool {
    match r {
        Ok(sdhc) => init_session(ops, sdhc),
        Err(e) => e == StorageError::DeviceError && exists|f: InitFailure| #[trigger] init_failed(ops, f),
    }
}

/// One command transaction: selects the card, sends the command, polls up to `limit`
/// bytes for its R1, reads four more answer bytes when the R1 is `extra_on`, releases.
fn command_txn<B: SdSpiBus>(
    bus: &mut B,
    log: &mut Ghost<Seq<SdOp>>,
    cmd: u8,
    arg: u32,
    limit: usize,
    extra_on: Option<u8>,
) -> (r: (Result<u8, StorageError>, [u8; 4]))
    ensures
        exists|t: Txn|
            #[trigger] txn_ok(t, cmd, arg, limit as int, extra_on) && final(log)@ == old(log)@ + t.ops && r.0 == (match reply(
                t,
            ) {
                Some(b) => Ok::<u8, StorageError>(b),
                None => Err(StorageError::DeviceError),
            }) && (t.extra.len() == 4 ==> r.1@ == t.extra),
{
    let ghost s0 = log@;
    bus_select(bus, log, true);
    send_cmd(bus, log, cmd, arg);
    let ghost c = log@.last();
    let ghost s1 = log@;
    let r1 = wait_r1(bus, log, limit);
    let ghost bs = choose|bs: Seq<u8>|
        #[trigger] polled(bs, limit as int, Wait::R1) && log@ == s1 + exchanges(bs) && r1 == (if hit(bs, Wait::R1) {
            Ok(bs.last())
        } else {
            Err(StorageError::DeviceError)
        });
    let ghost s2 = log@;
    let want = match (extra_on, r1) {
        (Some(e), Ok(b)) => e == b,
        _ => false,
    };
    let mut extra: [u8; 4] = [0xFF; 4];
    let ghost mut ex: Seq<u8> = Seq::empty();
    if want {
        let e0 = bus_exchange(bus, log);
        let e1 = bus_exchange(bus, log);
        let e2 = bus_exchange(bus, log);
        let e3 = bus_exchange(bus, log);
        extra = [e0, e1, e2, e3];
        proof {
            ex = extra@;
            assert(exchanges(ex) =~= seq![SdOp::Exchange(e0), SdOp::Exchange(e1), SdOp::Exchange(e2), SdOp::Exchange(e3)]);
            assert(log@ =~= s2 + exchanges(ex));
        }
    } else {
        assert(log@ =~= s2 + exchanges(ex));
    }
    let ghost s3 = log@;
    release(bus, log);
    proof {
        let w = log@.last();
        let t = Txn {
            ops: seq![SdOp::Select(true), c] + exchanges(bs) + exchanges(ex) + seq![SdOp::Select(false), w],
            bs,
            extra: ex,
        };
        assert(t.ops[1] == c);
        assert(t.ops.last() == w);
        assert(log@ =~= s0 + t.ops);
        assert(txn_ok(t, cmd, arg, limit as int, extra_on));
    }
    (r1, extra)
}

/// Probes and initialises a card over `bus` (see `SpiSdBlockDevice::new`), recording the
/// bus steps: gives whether the card addresses blocks when its answers make a successful
/// initialisation, and a device error exactly where they make it stop.
#[verifier::rlimit(80)]
#[verifier::spinoff_prover]
fn init_card<B: SdSpiBus>(bus: &mut B, log: &mut Ghost<Seq<SdOp>>) -> (r: Result<bool, StorageError>)
    requires
        old(log)@ == Seq::<SdOp>::empty(),
    ensures
        init_outcome(final(log)@, r),
{
    bus_select(bus, log, false);
    if bus_clock(bus, log, INIT_CLOCK_KHZ).is_err() {
        let _ = bus_clock(bus, log, RUN_CLOCK_KHZ);
        assert(init_failed(log@, InitFailure::Clock));
        return Err(StorageError::DeviceError);
    }
    bus_delay(bus, log, 10);
    let _ = bus_write(bus, log, WAKE_CLOCKS.as_slice());
    let ghost head = log@;
    assert(head =~= seq![SdOp::Select(false), SdOp::Clock(INIT_CLOCK_KHZ, true), SdOp::Delay(10), head[3]]);
    assert(wrote(head[3], WAKE_CLOCKS@));

    let ghost mut fails0: Seq<Txn> = Seq::empty();
    let ghost mut t0: Txn = Txn { ops: Seq::empty(), bs: Seq::empty(), extra: Seq::empty() };
    let mut in_idle = false;
    let mut attempt: u32 = 0;
    assert(log@ =~= head + cmd0_fail_ops(fails0));
    while attempt < 5
        invariant_except_break
            log@ == head + cmd0_fail_ops(fails0),
            !in_idle,
        invariant
            attempt <= 5,
            fails0.len() == attempt,
            cmd0_fails_ok(fails0),
        ensures
            in_idle ==> attempt < 5 && txn_ok(t0, 0, 0, 50, None) && reply(t0) == Some(1u8) && log@ == head
                + cmd0_fail_ops(fails0) + t0.ops,
            !in_idle ==> log@ == head + cmd0_fail_ops(fails0) && fails0.len() == 5,
        decreases 5 - attempt,
    {
        let ghost before = log@;
        let (r1, _) = command_txn(bus, log, 0, 0, 50, None);
        let ghost t = choose|t: Txn|
            #[trigger] txn_ok(t, 0, 0, 50, None) && log@ == before + t.ops && r1 == (match reply(t) {
                Some(b) => Ok::<u8, StorageError>(b),
                None => Err(StorageError::DeviceError),
            });
        if let Ok(0x01) = r1 {
            proof {
                t0 = t;
            }
            in_idle = true;
            break;
        }
        bus_delay(bus, log, 2);
        proof {
            let f2 = fails0.push(t);
            assert(f2.drop_last() =~= fails0);
            assert forall|i: int| 0 <= i < f2.len() implies txn_ok(#[trigger] f2[i], 0, 0, 50, None) && reply(f2[i])
                != Some(1u8) by {
                if i < fails0.len() {
                    assert(f2[i] == fails0[i]);
                }
            }
            assert(log@ =~= head + cmd0_fail_ops(f2));
            fails0 = f2;
        }
        attempt = attempt + 1;
    }
    if !in_idle {
        let _ = bus_clock(bus, log, RUN_CLOCK_KHZ);
        proof {
            assert(log@ =~= init_head(head[3]) + cmd0_fail_ops(fails0) + seq![log@.last()]);
            assert(log@[3] == head[3]);
            assert(init_failed(log@, InitFailure::NoIdle(fails0)));
        }
        return Err(StorageError::DeviceError);
    }
    let ghost p0 = log@;

    let mut is_v2 = false;
    let (r1, r7) = command_txn(bus, log, 8, 0x0000_01AA, 100, Some(0x01));
    let ghost t8 = choose|t: Txn|
        #[trigger] txn_ok(t, 8, 0x1AA, 100, Some(1u8)) && log@ == p0 + t.ops && r1 == (match reply(t) {
            Some(b) => Ok::<u8, StorageError>(b),
            None => Err(StorageError::DeviceError),
        }) && (t.extra.len() == 4 ==> r7@ == t.extra);
    let cmd8_ok = match r1 {
        Ok(r1) => {
            if r1 == 0x01 {
                if r7[3] == 0xAA && (r7[2] & 0x0F) == 0x01 {
                    is_v2 = true;
                    true
                } else {
                    false
                }
            } else if (r1 & 0x04) != 0 {
                true
            } else {
                false
            }
        },
        Err(_) => false,
    };
    assert(is_v2 == answers_v2(t8));
    assert(cmd8_ok == cmd8_accepted(t8));
    if !cmd8_ok {
        let _ = bus_clock(bus, log, RUN_CLOCK_KHZ);
        proof {
            assert(log@ =~= init_head(head[3]) + cmd0_fail_ops(fails0) + t0.ops + t8.ops + seq![log@.last()]);
            assert(log@[3] == head[3]);
            assert(init_failed(log@, InitFailure::Cmd8(fails0, t0, t8)));
        }
        return Err(StorageError::DeviceError);
    }
    let ghost p1 = log@;

    let hcs_arg: u32 = if is_v2 { 0x4000_0000 } else { 0 };
    let ghost mut fails41: Seq<(Txn, Txn)> = Seq::empty();
    let ghost mut t55: Txn = Txn { ops: Seq::empty(), bs: Seq::empty(), extra: Seq::empty() };
    let ghost mut t41: Txn = Txn { ops: Seq::empty(), bs: Seq::empty(), extra: Seq::empty() };
    let mut ready = false;
    let mut tries: u32 = 0;
    assert(log@ =~= p1 + acmd_fail_ops(fails41));
    while tries < 200
        invariant_except_break
            log@ == p1 + acmd_fail_ops(fails41),
            !ready,
        invariant
            tries <= 200,
            fails41.len() == tries,
            acmd_fails_ok(fails41, hcs_arg),
        ensures
            ready ==> tries < 200 && txn_ok(t55, 55, 0, 100, None) && txn_ok(t41, 41, hcs_arg, 100, None) && reply(t41)
                == Some(0u8) && log@ == p1 + acmd_fail_ops(fails41) + t55.ops + t41.ops,
            !ready ==> log@ == p1 + acmd_fail_ops(fails41) && fails41.len() == 200,
        decreases 200 - tries,
    {
        let ghost before = log@;
        let (r55, _) = command_txn(bus, log, 55, 0, 100, None);
        let ghost ta = choose|t: Txn|
            #[trigger] txn_ok(t, 55, 0, 100, None) && log@ == before + t.ops && r55 == (match reply(t) {
                Some(b) => Ok::<u8, StorageError>(b),
                None => Err(StorageError::DeviceError),
            });
        let ghost mid = log@;
        let (r1, _) = command_txn(bus, log, 41, hcs_arg, 100, None);
        let ghost tb = choose|t: Txn|
            #[trigger] txn_ok(t, 41, hcs_arg, 100, None) && log@ == mid + t.ops && r1 == (match reply(t) {
                Some(b) => Ok::<u8, StorageError>(b),
                None => Err(StorageError::DeviceError),
            });
        if let Ok(0x00) = r1 {
            proof {
                t55 = ta;
                t41 = tb;
                assert(log@ =~= p1 + acmd_fail_ops(fails41) + t55.ops + t41.ops);
            }
            ready = true;
            break;
        }
        bus_delay(bus, log, 5);
        proof {
            let f2 = fails41.push((ta, tb));
            assert(f2.drop_last() =~= fails41);
            assert(log@ =~= p1 + acmd_fail_ops(f2));
            assert(reply(tb) != Some(0u8));
            assert forall|i: int| 0 <= i < f2.len() implies txn_ok(#[trigger] f2[i].0, 55, 0, 100, None) && txn_ok(
                f2[i].1,
                41,
                hcs_arg,
                100,
                None,
            ) && reply(f2[i].1) != Some(0u8) by {
                if i < fails41.len() {
                    assert(f2[i] == fails41[i]);
                }
            }
            assert(acmd_fails_ok(f2, hcs_arg));
            fails41 = f2;
        }
        tries = tries + 1;
    }
    if !ready {
        let _ = bus_clock(bus, log, RUN_CLOCK_KHZ);
        proof {
            assert(hcs_arg == hcs_of(t8));
            assert(log@ =~= init_head(head[3]) + cmd0_fail_ops(fails0) + t0.ops + t8.ops + acmd_fail_ops(fails41) + seq![
                log@.last(),
            ]);
            assert(log@[3] == head[3]);
            assert(init_failed(log@, InitFailure::NotReady(fails0, t0, t8, fails41)));
        }
        return Err(StorageError::DeviceError);
    }
    let ghost p2 = log@;

    let mut is_sdhc = false;
    let ghost mut t58: Option<Txn> = None;
    if is_v2 {
        let (r1, ocr) = command_txn(bus, log, 58, 0, 100, Some(0x00));
        let ghost t = choose|t: Txn|
            #[trigger] txn_ok(t, 58, 0, 100, Some(0u8)) && log@ == p2 + t.ops && r1 == (match reply(t) {
                Some(b) => Ok::<u8, StorageError>(b),
                None => Err(StorageError::DeviceError),
            }) && (t.extra.len() == 4 ==> ocr@ == t.extra);
        if let Ok(0x00) = r1 {
            if (ocr[0] & 0x40) != 0 {
                is_sdhc = true;
            }
        }
        proof {
            t58 = Some(t);
        }
        assert(is_sdhc == ocr_block_addressed(t));
    }
    assert(log@ =~= p2 + opt_ops(t58));
    let ghost p3 = log@;
    let ghost mut t16: Option<Txn> = None;
    if !is_sdhc {
        let (_r1, _) = command_txn(bus, log, 16, 512, 100, None);
        let ghost t = choose|t: Txn| #[trigger] txn_ok(t, 16, 512, 100, None) && log@ == p3 + t.ops;
        proof {
            t16 = Some(t);
        }
    }
    assert(log@ =~= p3 + opt_ops(t16));

    let ghost run = InitRun {
        cmd0_fails: fails0,
        cmd0: t0,
        cmd8: t8,
        acmd_fails: fails41,
        cmd55: t55,
        cmd41: t41,
        cmd58: t58,
        cmd16: t16,
    };
    proof {
        let v2 = answers_v2(run.cmd8);
        assert(v2 == is_v2);
        assert(hcs_arg == hcs_of(t8));
        assert(txn_ok(run.cmd0, 0, 0, 50, None) && reply(run.cmd0) == Some(1u8));
        assert(txn_ok(run.cmd8, 8, 0x1AA, 100, Some(1u8)) && cmd8_accepted(run.cmd8));
        assert(txn_ok(run.cmd55, 55, 0, 100, None));
        assert(txn_ok(run.cmd41, 41, hcs_arg, 100, None) && reply(run.cmd41) == Some(0u8));
        assert(v2 <==> run.cmd58 is Some);
        assert(is_sdhc == (run.cmd58 matches Some(t) && ocr_block_addressed(t)));
        assert(!is_sdhc <==> run.cmd16 is Some);
        assert(init_commands_ok(run, is_sdhc));
        assert(log@ =~= init_ops(init_head(head[3]), run));
    }
    let ghost body_ops = log@;
    if bus_clock(bus, log, RUN_CLOCK_KHZ).is_err() {
        let _ = bus_clock(bus, log, RUN_CLOCK_KHZ);
        proof {
            assert(log@ =~= body_ops + seq![SdOp::Clock(RUN_CLOCK_KHZ, false), log@.last()]);
            assert(log@[3] == head[3]);
            assert(init_failed(log@, InitFailure::RunClock(run, is_sdhc)));
        }
        return Err(StorageError::DeviceError);
    }
    release(bus, log);
    proof {
        let ops = log@;
        assert(ops =~= body_ops + seq![SdOp::Clock(RUN_CLOCK_KHZ, true), SdOp::Select(false), ops.last()]);
        assert(ops[3] == head[3]);
        assert(init_run(ops, is_sdhc, run));
    }
    Ok(is_sdhc)
}

/// A MicroSD card in SPI mode.
pub struct SpiSdBlockDevice<B: SdSpiBus> {
    bus: B,
    is_sdhc: bool,
    log: Ghost<Seq<SdOp>>,
}

impl<B: SdSpiBus> SpiSdBlockDevice<B> {
    /// Whether the card addresses blocks rather than bytes.
    pub closed spec fn block_addressed(&self) -> bool {
        self.is_sdhc
    }

    /// What was done on the bus so far, oldest first, with what came back.
    pub closed spec fn sent(&self) -> Seq<SdOp> {
        self.log@
    }

    /// Probes and initialises a card: CMD0 into SPI mode (five tries), CMD8 for SD v2,
    /// ACMD41 until the card is ready (200 tries), CMD58 for block addressing, CMD16 for a
    /// 512-byte block on byte-addressed cards. The bus ends at the operating clock in
    /// every outcome; every failure is a device error. A card that came up has the whole
    /// initialisation as its transcript, and addresses blocks exactly when its answers
    /// say so (see `init_run`); which answers make it fail is `init_card`'s contract.
    pub fn new(bus: B) -> (r: Result<Self, StorageError>)
        ensures
            r matches Err(e) ==> e == StorageError::DeviceError,
            r matches Ok(dev) ==> init_session(dev.sent(), dev.block_addressed()),
    {
        let mut bus = bus;
        let mut log: Ghost<Seq<SdOp>> = Ghost(Seq::empty());
        match init_card(&mut bus, &mut log) {
            Ok(is_sdhc) => Ok(SpiSdBlockDevice { bus, is_sdhc, log }),
            Err(e) => Err(e),
        }
    }
}

impl<B: SdSpiBus> BlockDevice for SpiSdBlockDevice<B> {
    /// Reads one block with CMD17: waits for the card, expects R1 0 and the data start
    /// token, then reads the sector and its two CRC bytes.
    #[verifier::spinoff_prover]
    fn read_block(&mut self, lba: u32, buf: &mut [u8; SECTOR_SIZE]) -> (r: Result<(), StorageError>)
        ensures
            final(self).block_addressed() == old(self).block_addressed(),
            exists|ops: Seq<SdOp>|
                final(self).sent() == old(self).sent() + ops
                && #[trigger] read_session(ops, card_address(old(self).block_addressed(), lba), r, final(buf)@),
    {
        let addr = card_address_of(self.is_sdhc, lba);
        let ghost s0 = self.log@;
        bus_select(&mut self.bus, &mut self.log, true);
        let ghost s1 = self.log@;
        let ready = wait_ready(&mut self.bus, &mut self.log, 2000);
        let ghost b1 = choose|bs: Seq<u8>|
            #[trigger] polled(bs, 2000, Wait::Ready) && self.log@ == s1 + exchanges(bs) && ready == hit(bs, Wait::Ready);
        let ghost s2 = self.log@;
        if !ready {
            release(&mut self.bus, &mut self.log);
            proof {
                let rest = seq![SdOp::Select(false), self.log@.last()];
                let ops = seq![SdOp::Select(true)] + exchanges(b1) + rest;
                assert(self.log@ =~= s0 + ops);
                assert(read_wait_parts(ops, addr, b1, rest, Err(StorageError::DeviceError), buf@));
                assert(read_session(ops, addr, Err(StorageError::DeviceError), buf@));
                assert(self.sent() == old(self).sent() + ops && read_session(ops, card_address(old(self).block_addressed(), lba), Err(StorageError::DeviceError), buf@));
            }
            return Err(StorageError::DeviceError);
        }
        send_cmd(&mut self.bus, &mut self.log, 17, addr);
        let ghost c = self.log@.last();
        let ghost s3 = self.log@;
        let r1 = wait_r1(&mut self.bus, &mut self.log, 1000);
        let ghost b2 = choose|bs: Seq<u8>|
            #[trigger] polled(bs, 1000, Wait::R1) && self.log@ == s3 + exchanges(bs)
            && r1 == (if hit(bs, Wait::R1) { Ok(bs.last()) } else { Err(StorageError::DeviceError) });
        let ghost s4 = self.log@;
        match r1 {
            Ok(0x00) => {},
            _ => {
                release(&mut self.bus, &mut self.log);
                proof {
                    let rest2 = seq![SdOp::Select(false), self.log@.last()];
                    let rest1 = seq![c] + exchanges(b2) + rest2;
                    let ops = seq![SdOp::Select(true)] + exchanges(b1) + rest1;
                    assert(self.log@ =~= s0 + ops);
                    assert(read_r1_parts(rest1, addr, c, b2, rest2, Err(StorageError::DeviceError), buf@));
                    assert(read_wait_parts(ops, addr, b1, rest1, Err(StorageError::DeviceError), buf@));
                    assert(read_session(ops, addr, Err(StorageError::DeviceError), buf@));
                    assert(self.sent() == old(self).sent() + ops && read_session(ops, card_address(old(self).block_addressed(), lba), Err(StorageError::DeviceError), buf@));
                }
                return Err(StorageError::DeviceError);
            },
        }
        let tok = wait_answer(&mut self.bus, &mut self.log, 100_000);
        let ghost b3 = choose|bs: Seq<u8>|
            #[trigger] polled(bs, 100_000, Wait::Answer) && self.log@ == s4 + exchanges(bs)
            && tok == (if hit(bs, Wait::Answer) { Some(bs.last()) } else { None::<u8> });
        let token_found = match tok {
            Some(b) => b == 0xFE,
            None => false,
        };
        if !token_found {
            release(&mut self.bus, &mut self.log);
            proof {
                let rest3 = seq![SdOp::Select(false), self.log@.last()];
                let rest2 = exchanges(b3) + rest3;
                let rest1 = seq![c] + exchanges(b2) + rest2;
                let ops = seq![SdOp::Select(true)] + exchanges(b1) + rest1;
                assert(self.log@ =~= s0 + ops);
                assert(read_token_parts(rest2, b3, rest3, Err(StorageError::DeviceError), buf@));
                assert(read_r1_parts(rest1, addr, c, b2, rest2, Err(StorageError::DeviceError), buf@));
                assert(read_wait_parts(ops, addr, b1, rest1, Err(StorageError::DeviceError), buf@));
                assert(read_session(ops, addr, Err(StorageError::DeviceError), buf@));
                assert(self.sent() == old(self).sent() + ops && read_session(ops, card_address(old(self).block_addressed(), lba), Err(StorageError::DeviceError), buf@));
            }
            return Err(StorageError::DeviceError);
        }
        let ghost s5 = self.log@;
        let mut k: usize = 0;
        while k < SECTOR_SIZE
            decreases SECTOR_SIZE - k,
        {
            buf[k] = 0xFF;
            k = k + 1;
        }
        let rs = bus_read_sector(&mut self.bus, &mut self.log, buf);
        let ghost op_rs = self.log@.last();
        if rs.is_err() {
            release(&mut self.bus, &mut self.log);
            proof {
                let rest3 = seq![op_rs, SdOp::Select(false), self.log@.last()];
                let rest2 = exchanges(b3) + rest3;
                let rest1 = seq![c] + exchanges(b2) + rest2;
                let ops = seq![SdOp::Select(true)] + exchanges(b1) + rest1;
                assert(self.log@ =~= s0 + ops);
                assert(rest3.skip(1) =~= seq![SdOp::Select(false), self.log@.last()]);
                assert(read_token_parts(rest2, b3, rest3, Err(StorageError::DeviceError), buf@));
                assert(read_r1_parts(rest1, addr, c, b2, rest2, Err(StorageError::DeviceError), buf@));
                assert(read_wait_parts(ops, addr, b1, rest1, Err(StorageError::DeviceError), buf@));
                assert(read_session(ops, addr, Err(StorageError::DeviceError), buf@));
                assert(self.sent() == old(self).sent() + ops && read_session(ops, card_address(old(self).block_addressed(), lba), Err(StorageError::DeviceError), buf@));
            }
            return Err(StorageError::DeviceError);
        }
        let c1 = bus_exchange(&mut self.bus, &mut self.log);
        let c2 = bus_exchange(&mut self.bus, &mut self.log);
        release(&mut self.bus, &mut self.log);
        proof {
            let rest3 = seq![op_rs, SdOp::Exchange(c1), SdOp::Exchange(c2), SdOp::Select(false), self.log@.last()];
            let rest2 = exchanges(b3) + rest3;
            let rest1 = seq![c] + exchanges(b2) + rest2;
            let ops = seq![SdOp::Select(true)] + exchanges(b1) + rest1;
            assert(self.log@ =~= s0 + ops);
            assert(rest3.skip(3) =~= seq![SdOp::Select(false), self.log@.last()]);
            assert(read_token_parts(rest2, b3, rest3, Ok(()), buf@));
            assert(read_r1_parts(rest1, addr, c, b2, rest2, Ok(()), buf@));
            assert(read_wait_parts(ops, addr, b1, rest1, Ok(()), buf@));
            assert(read_session(ops, addr, Ok(()), buf@));
            assert(self.sent() == old(self).sent() + ops && read_session(ops, card_address(old(self).block_addressed(), lba), Ok(()), buf@));
        }
        Ok(())
    }

    /// Writes one block with CMD24: waits for the card, expects R1 0, sends the start
    /// token, the sector and two CRC bytes, expects an accepting data response, then
    /// waits out the card's busy time.
    #[verifier::rlimit(40)]
    #[verifier::spinoff_prover]
    fn write_block(&mut self, lba: u32, buf: &[u8; SECTOR_SIZE]) -> (r: Result<(), StorageError>)
        ensures
            final(self).block_addressed() == old(self).block_addressed(),
            exists|ops: Seq<SdOp>|
                final(self).sent() == old(self).sent() + ops
                && #[trigger] write_session(ops, card_address(old(self).block_addressed(), lba), buf@, r),
    {
        let addr = card_address_of(self.is_sdhc, lba);
        let ghost s0 = self.log@;
        bus_select(&mut self.bus, &mut self.log, true);
        let ghost s1 = self.log@;
        let ready = wait_ready(&mut self.bus, &mut self.log, 5000);
        let ghost b1 = choose|bs: Seq<u8>|
            #[trigger] polled(bs, 5000, Wait::Ready) && self.log@ == s1 + exchanges(bs) && ready == hit(bs, Wait::Ready);
        if !ready {
            release(&mut self.bus, &mut self.log);
            proof {
                let rest = seq![SdOp::Select(false), self.log@.last()];
                let ops = seq![SdOp::Select(true)] + exchanges(b1) + rest;
                assert(self.log@ =~= s0 + ops);
                assert(write_wait_parts(ops, addr, buf@, b1, rest, Err(StorageError::DeviceError)));
                assert(write_session(ops, addr, buf@, Err(StorageError::DeviceError)));
                assert(self.sent() == old(self).sent() + ops && write_session(ops, card_address(old(self).block_addressed(), lba), buf@, Err(StorageError::DeviceError)));
            }
            return Err(StorageError::DeviceError);
        }
        send_cmd(&mut self.bus, &mut self.log, 24, addr);
        let ghost c = self.log@.last();
        let ghost s3 = self.log@;
        let r1 = wait_r1(&mut self.bus, &mut self.log, 1000);
        let ghost b2 = choose|bs: Seq<u8>|
            #[trigger] polled(bs, 1000, Wait::R1) && self.log@ == s3 + exchanges(bs)
            && r1 == (if hit(bs, Wait::R1) { Ok(bs.last()) } else { Err(StorageError::DeviceError) });
        match r1 {
            Ok(0x00) => {},
            _ => {
                release(&mut self.bus, &mut self.log);
                proof {
                    let rest2 = seq![SdOp::Select(false), self.log@.last()];
                    let rest1 = seq![c] + exchanges(b2) + rest2;
                    let ops = seq![SdOp::Select(true)] + exchanges(b1) + rest1;
                    assert(self.log@ =~= s0 + ops);
                    assert(write_r1_parts(rest1, addr, buf@, c, b2, rest2, Err(StorageError::DeviceError)));
                    assert(write_wait_parts(ops, addr, buf@, b1, rest1, Err(StorageError::DeviceError)));
                    assert(write_session(ops, addr, buf@, Err(StorageError::DeviceError)));
                    assert(self.sent() == old(self).sent() + ops && write_session(ops, card_address(old(self).block_addressed(), lba), buf@, Err(StorageError::DeviceError)));
                }
                return Err(StorageError::DeviceError);
            },
        }
        let _ = bus_write(&mut self.bus, &mut self.log, DATA_START.as_slice());
        let ghost w_start = self.log@.last();
        let wr = bus_write(&mut self.bus, &mut self.log, buf.as_slice());
        let ghost w_data = self.log@.last();
        if wr.is_err() {
            release(&mut self.bus, &mut self.log);
            proof {
                let rest2 = seq![w_start, w_data, SdOp::Select(false), self.log@.last()];
                let rest1 = seq![c] + exchanges(b2) + rest2;
                let ops = seq![SdOp::Select(true)] + exchanges(b1) + rest1;
                assert(self.log@ =~= s0 + ops);
                assert(rest2.skip(2) =~= seq![SdOp::Select(false), self.log@.last()]);
                assert(write_r1_parts(rest1, addr, buf@, c, b2, rest2, Err(StorageError::DeviceError)));
                assert(write_wait_parts(ops, addr, buf@, b1, rest1, Err(StorageError::DeviceError)));
                assert(write_session(ops, addr, buf@, Err(StorageError::DeviceError)));
                assert(self.sent() == old(self).sent() + ops && write_session(ops, card_address(old(self).block_addressed(), lba), buf@, Err(StorageError::DeviceError)));
            }
            return Err(StorageError::DeviceError);
        }
        let _ = bus_write(&mut self.bus, &mut self.log, TRAILING_CLOCKS.as_slice());
        let ghost w_trail = self.log@.last();
        let ghost s6 = self.log@;
        let resp = wait_answer(&mut self.bus, &mut self.log, 200);
        let ghost b3 = choose|bs: Seq<u8>|
            #[trigger] polled(bs, 200, Wait::Answer) && self.log@ == s6 + exchanges(bs)
            && resp == (if hit(bs, Wait::Answer) { Some(bs.last()) } else { None::<u8> });
        let accepted = match resp {
            Some(t) => (t & 0x1F) == 0x05,
            None => false,
        };
        if !accepted {
            release(&mut self.bus, &mut self.log);
            proof {
                let rest3 = seq![SdOp::Select(false), self.log@.last()];
                let rest2 = seq![w_start, w_data, w_trail] + (exchanges(b3) + rest3);
                let rest1 = seq![c] + exchanges(b2) + rest2;
                let ops = seq![SdOp::Select(true)] + exchanges(b1) + rest1;
                assert(self.log@ =~= s0 + ops);
                assert(rest2.skip(3) =~= exchanges(b3) + rest3);
                assert(write_response_parts(rest2.skip(3), b3, Seq::empty(), rest3, Err(StorageError::DeviceError)));
                assert(write_r1_parts(rest1, addr, buf@, c, b2, rest2, Err(StorageError::DeviceError)));
                assert(write_wait_parts(ops, addr, buf@, b1, rest1, Err(StorageError::DeviceError)));
                assert(write_session(ops, addr, buf@, Err(StorageError::DeviceError)));
                assert(self.sent() == old(self).sent() + ops && write_session(ops, card_address(old(self).block_addressed(), lba), buf@, Err(StorageError::DeviceError)));
            }
            return Err(StorageError::DeviceError);
        }
        let ghost s7 = self.log@;
        let write_finished = wait_ready(&mut self.bus, &mut self.log, 250_000);
        let ghost b4 = choose|bs: Seq<u8>|
            #[trigger] polled(bs, 250_000, Wait::Ready) && self.log@ == s7 + exchanges(bs)
            && write_finished == hit(bs, Wait::Ready);
        release(&mut self.bus, &mut self.log);
        let r: Result<(), StorageError> = if !write_finished {
            Err(StorageError::DeviceError)
        } else {
            Ok(())
        };
        proof {
            let rest3 = seq![SdOp::Select(false), self.log@.last()];
            let tail = exchanges(b3) + exchanges(b4) + rest3;
            let rest2 = seq![w_start, w_data, w_trail] + tail;
            let rest1 = seq![c] + exchanges(b2) + rest2;
            let ops = seq![SdOp::Select(true)] + exchanges(b1) + rest1;
            assert(self.log@ =~= s0 + ops);
            assert(rest2.skip(3) =~= tail);
            assert(write_response_parts(tail, b3, b4, rest3, r));
            assert(write_r1_parts(rest1, addr, buf@, c, b2, rest2, r));
            assert(write_wait_parts(ops, addr, buf@, b1, rest1, r));
            assert(write_session(ops, addr, buf@, r));
            assert(self.sent() == old(self).sent() + ops && write_session(ops, card_address(old(self).block_addressed(), lba), buf@, r));
        }
        r
    }
}

} // verus!
