//! Host side of the serial link to the dongle: the binary host-to-dongle framing, the
//! ASCII `#PKT#` lines the dongle sends back, and node-id detection in its log lines.
use vstd::prelude::*;
use crate::frame::{packet_bytes, packet_denoted, MeshPacket, StorageModeStatus};
use crate::fmt::{dec_string, push_nat, push_str};
use crate::lexer::{
    char_is_whitespace, find_first, find_token_end, first_occurrence, occurs_at, parse_radix16, parse_hex_digits, hex_digits_value, radix16, skip_whitespace,
    skip_ws, token_end, is_ws, all_hex, hex_value, hex_digit,
};
use crate::text::{str_chars, str_from_utf8, string_from_chars};
use crate::chat::{direct_convo_id, hex_node_label, upper_hex_char, upper_hex_digit};
use crate::ipc::{lemma_label_digits_read, lemma_upper_hex_digit};
use crate::lexer::{trim, trim_chars};
use vstd::utf8::{decode_utf8, encode_utf8_decode_utf8, valid_utf8};

verus! {

/// Longest line accepted from the dongle before the buffer is resynchronised.
pub const DONGLE_TO_HOST_LINE_LIMIT: usize = 1024;
/// Header of a host-to-dongle frame (the last byte is the payload length, 114).
pub const HOST_TO_DONGLE_FRAME_HEADER: [u8; 3] = [0xAA, 0x55, 0x72];
/// Header and wire packet.
pub const HOST_TO_DONGLE_TOTAL_LEN: usize = 117;

/// A packet the dongle received over the air, with the sender's node id.
#[derive(Debug, Clone, PartialEq, Eq)]
pub struct ReceivedWirePacket {
    pub src_node_id: u32,
    pub packet: MeshPacket,
}

/// Frames a packet for the dongle: the three header bytes, then the 114 wire bytes.
pub fn frame_for_dongle(packet: &MeshPacket) -> (r: [u8; HOST_TO_DONGLE_TOTAL_LEN])
    ensures
        r@ == HOST_TO_DONGLE_FRAME_HEADER@ + packet_bytes(*packet),
{
    let mut wire = [0u8; 114];
    packet.serialize_payload(&mut wire);
    let mut framed = [0u8; HOST_TO_DONGLE_TOTAL_LEN];
    framed[0] = HOST_TO_DONGLE_FRAME_HEADER[0];
    framed[1] = HOST_TO_DONGLE_FRAME_HEADER[1];
    framed[2] = HOST_TO_DONGLE_FRAME_HEADER[2];
    let mut i: usize = 0;
    while i < 114
        invariant
            i <= 114,
            wire@ == packet_bytes(*packet),
            framed@[0] == 0xAA && framed@[1] == 0x55 && framed@[2] == 0x72,
            forall|k: int| 0 <= k < i ==> framed@[3 + k] == wire@[k],
        decreases 114 - i,
    {
        framed[3 + i] = wire[i];
        i = i + 1;
    }
    assert(framed@ =~= HOST_TO_DONGLE_FRAME_HEADER@ + packet_bytes(*packet));
    framed
}

/// The prefix of a packet line.
pub open spec fn pkt_prefix() -> Seq<char> {
    seq!['#', 'P', 'K', 'T', '#', ' ']
}

/// The 114 bytes that 228 hexadecimal digits spell, two digits per byte; any other
/// character (a sign too) spells nothing.
pub open spec fn wire_hex_bytes(hex: Seq<char>) -> Option<Seq<u8>> {
    if hex.len() == 228 && forall|k: int| 0 <= k < 114 ==> (#[trigger] hex_digits_value(hex.subrange(2 * k, 2 * k + 2))) is Some {
        Some(Seq::new(114, |k: int| hex_digits_value(hex.subrange(2 * k, 2 * k + 2))->0 as u8))
    } else {
        None
    }
}

/// What a line `#PKT# <8 hex node id> <228 hex wire bytes>` holds: the node id and the
/// wire bytes; any other line, including one with a third token, holds nothing.
/// (Lengths are counted in characters: a token with a character outside ASCII never
/// reads as hexadecimal, so this agrees with counting bytes.)
pub open spec fn pkt_line_fields(line: Seq<char>) -> Option<(u32, Seq<u8>)> {
    if line.len() < 6 || line.subrange(0, 6) != pkt_prefix() {
        None
    } else {
        let r = line.skip(6);
        let a0 = skip_ws(r, 0);
        let a1 = token_end(r, a0, Seq::empty());
        let b0 = skip_ws(r, a1);
        let b1 = token_end(r, b0, Seq::empty());
        let c0 = skip_ws(r, b1);
        if a0 >= r.len() || b0 >= r.len() || c0 < r.len() {
            None
        } else {
            let a = r.subrange(a0, a1);
            let b = r.subrange(b0, b1);
            if a.len() == 8 && hex_digits_value(a) is Some && wire_hex_bytes(b) is Some {
                Some((hex_digits_value(a)->0 as u32, wire_hex_bytes(b)->0))
            } else {
                None
            }
        }
    }
}

/// Reads the 114 wire bytes of 228 hexadecimal characters.
fn parse_wire_hex(hex: &[char]) -> (r: Option<[u8; 114]>)
    ensures
        r is Some <==> wire_hex_bytes(hex@) is Some,
        r matches Some(w) ==> w@ == wire_hex_bytes(hex@)->0,
{
    if hex.len() != 228 {
        return None;
    }
    let mut wire = [0u8; 114];
    let mut k: usize = 0;
    while k < 114
        invariant
            k <= 114,
            hex@.len() == 228,
            forall|j: int| 0 <= j < k ==> (#[trigger] hex_digits_value(hex@.subrange(2 * j, 2 * j + 2))) is Some
                && wire@[j] == hex_digits_value(hex@.subrange(2 * j, 2 * j + 2))->0 as u8,
        decreases 114 - k,
    {
        let pair = [hex[2 * k], hex[2 * k + 1]];
        assert(pair@ =~= hex@.subrange(2 * k as int, 2 * k + 2));
        match parse_hex_digits(pair.as_slice()) {
            Some(v) => {
                wire[k] = v as u8;
            },
            None => {
                return None;
            },
        }
        k = k + 1;
    }
    assert(wire@ =~= wire_hex_bytes(hex@)->0);
    Some(wire)
}

/// Parses a packet line from the dongle: `#PKT# `, the sender's node id in eight
/// hexadecimal digits and the packet's 114 wire bytes in 228 hexadecimal digits (digits
/// only: a sign or any other character rejects the line), separated by whitespace, with
/// nothing after.
pub fn parse_pkt_line(line: &str) -> (r: Option<ReceivedWirePacket>)
    ensures
        pkt_line_fields(line@) is None ==> r is None,
        pkt_line_fields(line@) matches Some((id, wire)) ==> (r matches Some(p) && p.src_node_id == id && packet_denoted(
            wire,
            p.packet,
        )),
{
    let cs = str_chars(line);
    let n = cs.len();
    if n < 6 || cs[0] != '#' || cs[1] != 'P' || cs[2] != 'K' || cs[3] != 'T' || cs[4] != '#' || cs[5] != ' ' {
        proof {
            if n >= 6 && line@.subrange(0, 6) == pkt_prefix() {
                assert(line@.subrange(0, 6)[0] == line@[0]);
                assert(line@.subrange(0, 6)[1] == line@[1]);
                assert(line@.subrange(0, 6)[2] == line@[2]);
                assert(line@.subrange(0, 6)[3] == line@[3]);
                assert(line@.subrange(0, 6)[4] == line@[4]);
                assert(line@.subrange(0, 6)[5] == line@[5]);
            }
        }
        return None;
    }
    assert(line@.subrange(0, 6) =~= pkt_prefix());
    let mut rest: Vec<char> = Vec::new();
    let mut i: usize = 6;
    while i < n
        invariant
            6 <= i <= n,
            n == cs@.len(),
            cs@ == line@,
            rest@ == line@.subrange(6, i as int),
        decreases n - i,
    {
        rest.push(cs[i]);
        i = i + 1;
        assert(rest@ =~= line@.subrange(6, i as int));
    }
    assert(rest@ =~= line@.skip(6));
    let r = rest.as_slice();
    let no_stops: [char; 0] = [];
    assert(no_stops@ =~= Seq::<char>::empty());
    let a0 = skip_whitespace(r, 0);
    let a1 = find_token_end(r, a0, no_stops.as_slice());
    let b0 = skip_whitespace(r, a1);
    let b1 = find_token_end(r, b0, no_stops.as_slice());
    let c0 = skip_whitespace(r, b1);
    if a0 >= r.len() || b0 >= r.len() || c0 < r.len() {
        return None;
    }
    if a1 - a0 != 8 {
        return None;
    }
    let mut a: Vec<char> = Vec::new();
    let mut j: usize = a0;
    while j < a1
        invariant
            a0 <= j <= a1,
            a1 <= r@.len(),
            a@ == r@.subrange(a0 as int, j as int),
        decreases a1 - j,
    {
        a.push(r[j]);
        j = j + 1;
        assert(a@ =~= r@.subrange(a0 as int, j as int));
    }
    let mut b: Vec<char> = Vec::new();
    let mut j: usize = b0;
    while j < b1
        invariant
            b0 <= j <= b1,
            b1 <= r@.len(),
            b@ == r@.subrange(b0 as int, j as int),
        decreases b1 - j,
    {
        b.push(r[j]);
        j = j + 1;
        assert(b@ =~= r@.subrange(b0 as int, j as int));
    }
    let src_node_id = match parse_hex_digits(a.as_slice()) {
        Some(v) => v,
        None => return None,
    };
    let wire = match parse_wire_hex(b.as_slice()) {
        Some(w) => w,
        None => return None,
    };
    let packet = MeshPacket::deserialize_payload(&wire);
    Some(ReceivedWirePacket { src_node_id, packet })
}

/// The node id at `start`: the characters up to the first whitespace or `stop`, if they
/// are eight and read as hexadecimal.
pub open spec fn node_id_at(line: Seq<char>, start: int, stop: char) -> Option<u32> {
    let hex = line.subrange(start, token_end(line, start, seq![stop]));
    if hex.len() == 8 && radix16(hex) is Some { Some(radix16(hex)->0 as u32) } else { None }
}

/// The node id after the first occurrence of `marker`.
pub open spec fn node_id_after(line: Seq<char>, marker: Seq<char>, stop: char) -> Option<u32> {
    match first_occurrence(line, marker) {
        None => None,
        Some(pos) => node_id_at(line, pos + marker.len(), stop),
    }
}

/// The node id a dongle log line announces: after the first `[Node ` (up to `]` or
/// whitespace), else after the first `Node ID: ` (up to `(` or whitespace).
pub open spec fn announced_node_id(line: Seq<char>) -> Option<u32> {
    match node_id_after(line, seq!['[', 'N', 'o', 'd', 'e', ' '], ']') {
        Some(id) => Some(id),
        None => node_id_after(line, seq!['N', 'o', 'd', 'e', ' ', 'I', 'D', ':', ' '], '('),
    }
}

/// Reads the node id at `start`.
fn id_at(cs: &[char], start: usize, stop: char) -> (r: Option<u32>)
    requires
        start <= cs@.len(),
    ensures
        r == node_id_at(cs@, start as int, stop),
{
    let stops = [stop];
    assert(stops@ =~= seq![stop]);
    let end = find_token_end(cs, start, stops.as_slice());
    if end - start != 8 {
        return None;
    }
    let mut hex: Vec<char> = Vec::new();
    let mut j: usize = start;
    while j < end
        invariant
            start <= j <= end,
            end <= cs@.len(),
            hex@ == cs@.subrange(start as int, j as int),
        decreases end - j,
    {
        hex.push(cs[j]);
        j = j + 1;
        assert(hex@ =~= cs@.subrange(start as int, j as int));
    }
    parse_radix16(hex.as_slice())
}

/// Reads the node id after the first occurrence of `marker`.
fn id_after_marker(cs: &[char], marker: &[char], stop: char) -> (r: Option<u32>)
    ensures
        r == node_id_after(cs@, marker@, stop),
{
    match find_first(cs, marker) {
        None => None,
        Some(pos) => {
            let m = marker.len();
            let n = cs.len();
            assert(occurs_at(cs@, marker@, pos as int));
            assert(pos + m <= cs@.len());
            id_at(cs, pos + m, stop)
        },
    }
}

/// Parses a dongle's node id from its banner (`Node ID: BEBD82B4 (MAC: ...)`) or its
/// telemetry lines (`[Node BEBD82B4] Uptime: ...`).
pub fn parse_dongle_node_id(line: &str) -> (r: Option<u32>)
    ensures
        r == announced_node_id(line@),
{
    let cs = str_chars(line);
    let bracket = ['[', 'N', 'o', 'd', 'e', ' '];
    assert(bracket@ =~= seq!['[', 'N', 'o', 'd', 'e', ' ']);
    if let Some(id) = id_after_marker(cs.as_slice(), bracket.as_slice(), ']') {
        return Some(id);
    }
    let banner = ['N', 'o', 'd', 'e', ' ', 'I', 'D', ':', ' '];
    assert(banner@ =~= seq!['N', 'o', 'd', 'e', ' ', 'I', 'D', ':', ' ']);
    id_after_marker(cs.as_slice(), banner.as_slice(), '(')
}

} // verus!

verus! {

/// Index of the first newline byte of `b` at or after `i`, or the length of `b`.
pub open spec fn first_newline(b: Seq<u8>, i: int) -> int
    decreases b.len() - i,
{
    if i < 0 || i >= b.len() {
        b.len() as int
    } else if b[i] == 0x0A {
        i
    } else {
        first_newline(b, i + 1)
    }
}

/// The receive buffer after the line cap: a buffer over 1,024 bytes loses everything up
/// to and including its first newline, or everything when it holds none.
pub open spec fn capped(b: Seq<u8>) -> Seq<u8> {
    if b.len() > DONGLE_TO_HOST_LINE_LIMIT {
        let p = first_newline(b, 0);
        if p < b.len() {
            b.skip(p + 1)
        } else {
            Seq::empty()
        }
    } else {
        b
    }
}

/// The texts of a sequence of strings.
pub open spec fn string_views(v: Seq<String>) -> Seq<Seq<char>> {
    v.map_values(|s: String| s@)
}

/// What one line from the dongle yields.
pub enum LineYield {
    /// A packet line: the sender's node id and the wire bytes.
    Packet(u32, Seq<u8>),
    /// Any other non-blank line, trimmed.
    Log(Seq<char>),
    /// A blank line or one that is not UTF-8.
    Nothing,
}

/// What the bytes of a line (newline included) yield.
pub open spec fn line_yield(line: Seq<u8>) -> LineYield {
    if valid_utf8(line) {
        let t = trim(decode_utf8(line));
        if t.len() == 0 {
            LineYield::Nothing
        } else {
            match pkt_line_fields(t) {
                Some((id, w)) => LineYield::Packet(id, w),
                None => LineYield::Log(t),
            }
        }
    } else {
        LineYield::Nothing
    }
}

/// The complete lines of a buffer in order, and the incomplete rest.
pub open spec fn drain_lines(b: Seq<u8>) -> (Seq<LineYield>, Seq<u8>)
    decreases b.len(),
{
    let p = first_newline(b, 0);
    if p >= b.len() {
        (Seq::empty(), b)
    } else {
        proof {
            lemma_first_newline_range(b, 0);
        }
        let (ys, rest) = drain_lines(b.skip(p + 1));
        (seq![line_yield(b.take(p + 1))] + ys, rest)
    }
}

/// The packets among the yields, in order.
pub open spec fn packet_yields(ys: Seq<LineYield>) -> Seq<(u32, Seq<u8>)>
    decreases ys.len(),
{
    if ys.len() == 0 {
        Seq::empty()
    } else {
        let rest = packet_yields(ys.drop_first());
        match ys[0] {
            LineYield::Packet(id, w) => seq![(id, w)] + rest,
            _ => rest,
        }
    }
}

/// The log lines among the yields, in order.
pub open spec fn log_yields(ys: Seq<LineYield>) -> Seq<Seq<char>>
    decreases ys.len(),
{
    if ys.len() == 0 {
        Seq::empty()
    } else {
        let rest = log_yields(ys.drop_first());
        match ys[0] {
            LineYield::Log(t) => seq![t] + rest,
            _ => rest,
        }
    }
}

proof fn lemma_yields_single(y: LineYield)
    ensures
        packet_yields(seq![y]) == (match y {
            LineYield::Packet(id, w) => seq![(id, w)],
            _ => Seq::<(u32, Seq<u8>)>::empty(),
        }),
        log_yields(seq![y]) == (match y {
            LineYield::Log(t) => seq![t],
            _ => Seq::<Seq<char>>::empty(),
        }),
{
    assert(seq![y].drop_first() =~= Seq::<LineYield>::empty());
    assert(packet_yields(Seq::<LineYield>::empty()) == Seq::<(u32, Seq<u8>)>::empty());
    assert(log_yields(Seq::<LineYield>::empty()) == Seq::<Seq<char>>::empty());
    match y {
        LineYield::Packet(id, w) => {
            assert(seq![(id, w)] + Seq::<(u32, Seq<u8>)>::empty() =~= seq![(id, w)]);
        },
        LineYield::Log(t) => {
            assert(seq![t] + Seq::<Seq<char>>::empty() =~= seq![t]);
        },
        LineYield::Nothing => {},
    }
}

proof fn lemma_yields_push(ys: Seq<LineYield>, y: LineYield)
    ensures
        packet_yields(ys.push(y)) == packet_yields(ys) + packet_yields(seq![y]),
        log_yields(ys.push(y)) == log_yields(ys) + log_yields(seq![y]),
    decreases ys.len(),
{
    if ys.len() == 0 {
        assert(ys.push(y) =~= seq![y]);
        assert(packet_yields(seq![y]).len() >= 0);
        assert(Seq::<(u32, Seq<u8>)>::empty() + packet_yields(seq![y]) =~= packet_yields(seq![y]));
        assert(Seq::<Seq<char>>::empty() + log_yields(seq![y]) =~= log_yields(seq![y]));
    } else {
        assert(ys.push(y).drop_first() =~= ys.drop_first().push(y));
        lemma_yields_push(ys.drop_first(), y);
        assert(seq![y].drop_first() =~= Seq::<LineYield>::empty());
        match ys[0] {
            LineYield::Packet(id, w) => {
                assert(seq![(id, w)] + (packet_yields(ys.drop_first()) + packet_yields(seq![y])) =~= (seq![(id, w)]
                    + packet_yields(ys.drop_first())) + packet_yields(seq![y]));
            },
            LineYield::Log(t) => {
                assert(seq![t] + (log_yields(ys.drop_first()) + log_yields(seq![y])) =~= (seq![t] + log_yields(
                    ys.drop_first(),
                )) + log_yields(seq![y]));
            },
            LineYield::Nothing => {},
        }
    }
}

/// What one line is read as.
enum LineRead {
    Packet(ReceivedWirePacket),
    Log(String),
    Nothing,
}

fn read_line(line: &[u8]) -> (r: LineRead)
    ensures
        match line_yield(line@) {
            LineYield::Packet(id, w) => r matches LineRead::Packet(p) && p.src_node_id == id && packet_denoted(w, p.packet),
            LineYield::Log(t) => r matches LineRead::Log(s) && s@ == t,
            LineYield::Nothing => r is Nothing,
        },
{
    match str_from_utf8(line) {
        None => LineRead::Nothing,
        Some(s) => {
            proof {
                encode_utf8_decode_utf8(s@);
            }
            let cs = str_chars(s);
            let t = trim_chars(cs.as_slice());
            if t.len() == 0 {
                return LineRead::Nothing;
            }
            let text = string_from_chars(t.as_slice());
            match parse_pkt_line(text.as_str()) {
                Some(p) => LineRead::Packet(p),
                None => LineRead::Log(text),
            }
        },
    }
}

/// Bytes from the dongle that do not yet end in a newline.
pub struct DongleLineBuffer {
    buf: Vec<u8>,
}

impl DongleLineBuffer {
    /// The bytes held.
    pub closed spec fn held(&self) -> Seq<u8> {
        self.buf@
    }

    /// An empty buffer.
    pub fn new() -> (r: Self)
        ensures
            r.held() == Seq::<u8>::empty(),
    {
        DongleLineBuffer { buf: Vec::new() }
    }

    /// Takes in bytes read from the dongle: the buffer is capped at 1,024 bytes (dropping
    /// through its first newline, or everything), then every complete line is read, in
    /// order, as a packet line or a log line; blank and non-UTF-8 lines are skipped, and
    /// the incomplete rest stays held.
    pub fn absorb(&mut self, bytes: &[u8]) -> (r: (Vec<ReceivedWirePacket>, Vec<String>))
        ensures
            final(self).held() == drain_lines(capped(old(self).held() + bytes@)).1,
            reads_as(r.0@, r.1@, drain_lines(capped(old(self).held() + bytes@)).0),
    {
        let mut b: Vec<u8> = Vec::new();
        push_bytes(&mut b, self.buf.as_slice());
        push_bytes(&mut b, bytes);
        let ghost full = b@;
        assert(full =~= old(self).held() + bytes@);
        // The line cap.
        let n = b.len();
        let mut start: usize = 0;
        if n > DONGLE_TO_HOST_LINE_LIMIT {
            let p = find_newline(&b, 0);
            start = if p < n { p + 1 } else { n };
        }
        let ghost c = b@.skip(start as int);
        proof {
            if n > DONGLE_TO_HOST_LINE_LIMIT {
                if first_newline(full, 0) >= full.len() {
                    assert(c =~= Seq::<u8>::empty());
                }
            } else {
                assert(c =~= full);
            }
            assert(c == capped(full));
        }
        let mut packets: Vec<ReceivedWirePacket> = Vec::new();
        let mut logs: Vec<String> = Vec::new();
        let ghost mut ys: Seq<LineYield> = Seq::empty();
        assert(string_views(logs@) =~= log_yields(ys));
        proof {
            reveal(reads_as);
        }
        loop
            invariant
                n == b@.len(),
                start <= n,
                b@ == full,
                c == capped(full),
                drain_lines(c) == (ys + drain_lines(b@.skip(start as int)).0, drain_lines(b@.skip(start as int)).1),
                reads_as(packets@, logs@, ys),
            ensures
                first_newline(b@.skip(start as int), 0) >= b@.skip(start as int).len(),
            decreases n - start,
        {
            let p = find_newline(&b, start);
            let ghost s = b@.skip(start as int);
            proof {
                lemma_first_newline_shift(b@, start as int, start as int);
            }
            if p >= n {
                break;
            }
            let line = copy_bytes(&b, start, p + 1);
            assert(line@ =~= s.take(p + 1 - start));
            assert(s.skip(p + 1 - start) =~= b@.skip(p + 1));
            record_line(line.as_slice(), &mut packets, &mut logs, Ghost(ys));
            proof {
                assert(ys.push(line_yield(line@)) + drain_lines(b@.skip(p + 1)).0 =~= ys + (seq![line_yield(line@)]
                    + drain_lines(b@.skip(p + 1)).0));
                ys = ys.push(line_yield(line@));
            }
            start = p + 1;
        }
        let rest = copy_bytes(&b, start, n);
        assert(rest@ =~= b@.skip(start as int));
        self.buf = rest;
        proof {
            assert(ys + Seq::<LineYield>::empty() =~= ys);
        }
        (packets, logs)
    }
}

/// The packets and log lines read are those of the yields, in order.
#[verifier::opaque]
pub open spec fn reads_as(packets: Seq<ReceivedWirePacket>, logs: Seq<String>, ys: Seq<LineYield>) -> bool {
    let pk = packet_yields(ys);
    &&& string_views(logs) == log_yields(ys)
    &&& packets.len() == pk.len()
    &&& forall|k: int|
        0 <= k < packets.len() ==> #[trigger] packets[k].src_node_id == pk[k].0 && packet_denoted(
            pk[k].1,
            packets[k].packet,
        )
}

proof fn lemma_reads_as_packet(
    packets: Seq<ReceivedWirePacket>,
    logs: Seq<String>,
    ys: Seq<LineYield>,
    yl: LineYield,
    pkt: ReceivedWirePacket,
)
    requires
        reads_as(packets, logs, ys),
        yl matches LineYield::Packet(id, w) && pkt.src_node_id == id && packet_denoted(w, pkt.packet),
    ensures
        reads_as(packets.push(pkt), logs, ys.push(yl)),
{
    reveal(reads_as);
    lemma_yields_push(ys, yl);
    lemma_yields_single(yl);
    assert(log_yields(ys) + Seq::<Seq<char>>::empty() =~= log_yields(ys));
    if let LineYield::Packet(id, w) = yl {
        let pk = packet_yields(ys);
        let pk2 = packet_yields(ys.push(yl));
        assert(pk2 =~= pk + seq![(id, w)]);
        let after = packets.push(pkt);
        let n = after.len() as int;
        assert forall|k: int| 0 <= k < n implies #[trigger] after[k].src_node_id == pk2[k].0
            && packet_denoted(pk2[k].1, after[k].packet) by {
            if k < n - 1 {
                assert(after[k] == packets[k]);
                assert(pk2[k] == pk[k]);
            } else {
                assert(after[k] == pkt);
                assert(pk2[k] == (id, w));
            }
        }
    }
}

#[verifier::spinoff_prover]
#[verifier::rlimit(30)]
fn record_line(
    line: &[u8],
    packets: &mut Vec<ReceivedWirePacket>,
    logs: &mut Vec<String>,
    Ghost(ys): Ghost<Seq<LineYield>>,
)
    requires
        reads_as(old(packets)@, old(logs)@, ys),
    ensures
        reads_as(final(packets)@, final(logs)@, ys.push(line_yield(line@))),
{
    let y = read_line(line);
    let ghost yl = line_yield(line@);
    proof {
        lemma_yields_push(ys, yl);
        lemma_yields_single(yl);
    }
    match y {
        LineRead::Packet(pkt) => {
            proof {
                lemma_reads_as_packet(packets@, logs@, ys, yl, pkt);
            }
            packets.push(pkt);
        },
        LineRead::Log(text) => {
            logs.push(text);
            proof {
                reveal(reads_as);
                assert(packet_yields(ys) + Seq::<(u32, Seq<u8>)>::empty() =~= packet_yields(ys));
                assert(string_views(logs@) =~= log_yields(ys) + log_yields(seq![yl]));
            }
        },
        LineRead::Nothing => {
            proof {
                reveal(reads_as);
                assert(packet_yields(ys) + Seq::<(u32, Seq<u8>)>::empty() =~= packet_yields(ys));
                assert(log_yields(ys) + Seq::<Seq<char>>::empty() =~= log_yields(ys));
            }
        },
    }
}

pub proof fn lemma_first_newline_range(b: Seq<u8>, i: int)
    requires
        0 <= i,
    ensures
        i <= b.len() ==> i <= first_newline(b, i) <= b.len(),
        first_newline(b, i) < b.len() ==> b[first_newline(b, i)] == 0x0A,
    decreases b.len() - i,
{
    if i < b.len() && b[i] != 0x0A {
        lemma_first_newline_range(b, i + 1);
    }
}

proof fn lemma_first_newline_shift(b: Seq<u8>, s: int, i: int)
    requires
        0 <= s <= i <= b.len(),
    ensures
        first_newline(b.skip(s), i - s) + s == first_newline(b, i),
    decreases b.len() - i,
{
    if i < b.len() {
        assert(b.skip(s)[i - s] == b[i]);
        if b[i] != 0x0A {
            lemma_first_newline_shift(b, s, i + 1);
        }
    }
}

fn find_newline(b: &Vec<u8>, from: usize) -> (r: usize)
    requires
        from <= b@.len(),
    ensures
        r == first_newline(b@, from as int),
        from <= r <= b@.len(),
{
    let n = b.len();
    let mut i = from;
    while i < n && b[i] != 0x0A
        invariant
            n == b@.len(),
            from <= i <= n,
            first_newline(b@, from as int) == first_newline(b@, i as int),
        decreases n - i,
    {
        i = i + 1;
    }
    i
}

fn copy_bytes(b: &Vec<u8>, from: usize, to: usize) -> (r: Vec<u8>)
    requires
        from <= to <= b@.len(),
    ensures
        r@ == b@.subrange(from as int, to as int),
{
    let mut out: Vec<u8> = Vec::new();
    let mut i = from;
    while i < to
        invariant
            from <= i <= to,
            to <= b@.len(),
            out@ =~= b@.subrange(from as int, i as int),
        decreases to - i,
    {
        out.push(b[i]);
        i = i + 1;
    }
    out
}

fn push_bytes(out: &mut Vec<u8>, src: &[u8])
    ensures
        final(out)@ == old(out)@ + src@,
{
    let n = src.len();
    let mut i: usize = 0;
    while i < n
        invariant
            n == src@.len(),
            i <= n,
            out@ =~= old(out)@ + src@.take(i as int),
        decreases n - i,
    {
        out.push(src[i]);
        i = i + 1;
    }
    assert(src@.take(n as int) =~= src@);
}

/// Bytes in uppercase hexadecimal, two digits per byte, high nibble first.
pub open spec fn byte_hex(b: Seq<u8>) -> Seq<char> {
    Seq::new(
        2 * b.len(),
        |i: int|
            if i % 2 == 0 {
                upper_hex_digit((b[i / 2] >> 4u8) as u32)
            } else {
                upper_hex_digit((b[i / 2] & 0xFu8) as u32)
            },
    )
}

/// The line a dongle prints for a packet it heard: `#PKT# `, the sender's node id in
/// eight uppercase hexadecimal digits, a space, and the wire bytes in uppercase
/// hexadecimal.
pub open spec fn pkt_line(src: u32, wire: Seq<u8>) -> Seq<char> {
    pkt_prefix() + hex_node_label(src).skip(2) + seq![' '] + byte_hex(wire)
}

/// Formats the line a dongle prints for a packet it heard from `src_node_id`.
pub fn format_pkt_line(src_node_id: u32, packet: &MeshPacket) -> (r: String)
    ensures
        r@ == pkt_line(src_node_id, packet_bytes(*packet)),
{
    let mut wire = [0u8; 114];
    packet.serialize_payload(&mut wire);
    let mut cs: Vec<char> = Vec::new();
    cs.push('#');
    cs.push('P');
    cs.push('K');
    cs.push('T');
    cs.push('#');
    cs.push(' ');
    let label = direct_convo_id(src_node_id);
    let digits = str_chars(label.as_str());
    let mut i: usize = 2;
    while i < 10
        invariant
            2 <= i <= 10,
            digits@ == hex_node_label(src_node_id),
            cs@ == pkt_prefix() + hex_node_label(src_node_id).subrange(2, i as int),
        decreases 10 - i,
    {
        cs.push(digits[i]);
        i = i + 1;
        assert(cs@ =~= pkt_prefix() + hex_node_label(src_node_id).subrange(2, i as int));
    }
    assert(hex_node_label(src_node_id).subrange(2, 10) =~= hex_node_label(src_node_id).skip(2));
    cs.push(' ');
    let ghost head = cs@;
    let mut k: usize = 0;
    while k < 114
        invariant
            k <= 114,
            wire@ == packet_bytes(*packet),
            cs@ == head + byte_hex(wire@).take(2 * k as int),
        decreases 114 - k,
    {
        let b = wire[k];
        assert(b >> 4 < 16 && b & 0xF < 16) by (bit_vector);
        cs.push(upper_hex_char((b >> 4) as u32));
        cs.push(upper_hex_char((b & 0xF) as u32));
        k = k + 1;
        assert(cs@ =~= head + byte_hex(wire@).take(2 * k as int));
    }
    assert(byte_hex(wire@).take(228) =~= byte_hex(wire@));
    string_from_chars(cs.as_slice())
}

proof fn lemma_token_run(s: Seq<char>, i: int, j: int, stops: Seq<char>)
    requires
        0 <= i <= j <= s.len(),
        forall|k: int| i <= k < j ==> !is_ws(#[trigger] s[k]) && !stops.contains(s[k]),
        j == s.len() || is_ws(s[j]) || stops.contains(s[j]),
    ensures
        token_end(s, i, stops) == j,
    decreases j - i,
{
    if i < j {
        assert(!is_ws(s[i]) && !stops.contains(s[i]));
        lemma_token_run(s, i + 1, j, stops);
    }
}

proof fn lemma_byte_pair(b: u8)
    ensures
        radix16(seq![upper_hex_digit((b >> 4u8) as u32), upper_hex_digit((b & 0xFu8) as u32)]) == Some(b as int),
        hex_digits_value(seq![upper_hex_digit((b >> 4u8) as u32), upper_hex_digit((b & 0xFu8) as u32)]) == Some(b as int),
        !is_ws(upper_hex_digit((b >> 4u8) as u32)),
        !is_ws(upper_hex_digit((b & 0xFu8) as u32)),
{
    let hi = (b >> 4u8) as u32;
    let lo = (b & 0xFu8) as u32;
    assert(b >> 4u8 < 16 && b & 0xFu8 < 16 && (b >> 4u8) * 16 + (b & 0xFu8) == b) by (bit_vector);
    lemma_upper_hex_digit(hi);
    lemma_upper_hex_digit(lo);
    let pair = seq![upper_hex_digit(hi), upper_hex_digit(lo)];
    assert(pair.drop_last() =~= seq![upper_hex_digit(hi)]);
    assert(seq![upper_hex_digit(hi)].drop_last() =~= Seq::<char>::empty());
    assert(all_hex(pair));
    assert(hex_value(Seq::<char>::empty()) == 0);
    assert(seq![upper_hex_digit(hi)].last() == upper_hex_digit(hi));
    assert(hex_value(seq![upper_hex_digit(hi)]) == hi as int);
    assert(pair.last() == upper_hex_digit(lo));
    assert(hex_value(pair) == hi * 16 + lo);
}

/// The line a dongle prints for a packet reads back as that sender and those wire bytes.
pub proof fn lemma_pkt_line_reads_back(src: u32, wire: Seq<u8>)
    requires
        wire.len() == 114,
    ensures
        pkt_line_fields(pkt_line(src, wire)) == Some((src, wire)),
{
    let line = pkt_line(src, wire);
    let h = hex_node_label(src).skip(2);
    let x = byte_hex(wire);
    lemma_label_digits_read(src);
    assert(line.subrange(0, 6) =~= pkt_prefix());
    let r = line.skip(6);
    assert(r =~= h + seq![' '] + x);
    assert(r.len() == 237);
    assert forall|i: int| 0 <= i < 114 implies #[trigger] x.subrange(2 * i, 2 * i + 2) =~= seq![
        upper_hex_digit((wire[i] >> 4u8) as u32),
        upper_hex_digit((wire[i] & 0xFu8) as u32),
    ] by {
        assert((2 * i) / 2 == i && (2 * i) % 2 == 0);
        assert((2 * i + 1) / 2 == i && (2 * i + 1) % 2 == 1);
    }
    assert forall|k: int| 0 <= k < 228 implies !is_ws(#[trigger] x[k]) by {
        lemma_byte_pair(wire[k / 2]);
    }
    assert forall|k: int| 0 <= k < 8 implies !is_ws(#[trigger] r[k]) && !Seq::<char>::empty().contains(r[k]) by {
        assert(r[k] == h[k]);
        assert(hex_digit(h[k]) is Some);
    }
    assert forall|k: int| 9 <= k < 237 implies !is_ws(#[trigger] r[k]) && !Seq::<char>::empty().contains(r[k]) by {
        assert(r[k] == x[k - 9]);
    }
    assert(r[8] == ' ');
    assert(is_ws(' '));
    assert(skip_ws(r, 0) == 0);
    lemma_token_run(r, 0, 8, Seq::empty());
    assert(skip_ws(r, 9) == 9);
    assert(skip_ws(r, 8) == 9);
    lemma_token_run(r, 9, 237, Seq::empty());
    assert(skip_ws(r, 237) == 237);
    assert(r.subrange(0, 8) =~= h);
    assert(r.subrange(9, 237) =~= x);
    assert forall|k: int| 0 <= k < 114 implies (#[trigger] hex_digits_value(x.subrange(2 * k, 2 * k + 2))) == Some(
        wire[k] as int,
    ) by {
        lemma_byte_pair(wire[k]);
    }
    assert(wire_hex_bytes(x) is Some);
    assert(wire_hex_bytes(x)->0 =~= wire);
}

/// How a storage mode is printed (`{:?}`).
pub open spec fn storage_debug_name(m: StorageModeStatus) -> Seq<char> {
    match m {
        StorageModeStatus::RamOnly => "RamOnly"@,
        StorageModeStatus::MicroSdActive => "MicroSdActive"@,
    }
}

/// The heartbeat a dongle prints every other second: its node id, uptime, storage mode,
/// ring occupancy and drops.
pub open spec fn heartbeat_line(node_id: u32, uptime_secs: u32, mode: StorageModeStatus, sram_len: usize, drops: u32) -> Seq<char> {
    "[Node "@ + hex_node_label(node_id).skip(2) + "] Uptime: "@ + dec_string(uptime_secs as int) + "s | Storage: "@
        + storage_debug_name(mode) + " | SRAM: "@ + dec_string(sram_len as int) + "/256 pkts | Drops: "@ + dec_string(
        drops as int,
    )
}

/// Formats a dongle's heartbeat line.
pub fn format_heartbeat_line(node_id: u32, uptime_secs: u32, mode: StorageModeStatus, sram_len: usize, drops: u32) -> (r:
    String)
    ensures
        r@ == heartbeat_line(node_id, uptime_secs, mode, sram_len, drops),
{
    let mut cs: Vec<char> = Vec::new();
    push_str(&mut cs, "[Node ");
    let label = direct_convo_id(node_id);
    let digits = str_chars(label.as_str());
    let ghost head = cs@;
    let mut i: usize = 2;
    while i < 10
        invariant
            2 <= i <= 10,
            digits@ == hex_node_label(node_id),
            cs@ == head + hex_node_label(node_id).subrange(2, i as int),
        decreases 10 - i,
    {
        cs.push(digits[i]);
        i = i + 1;
        assert(cs@ =~= head + hex_node_label(node_id).subrange(2, i as int));
    }
    assert(hex_node_label(node_id).subrange(2, 10) =~= hex_node_label(node_id).skip(2));
    push_str(&mut cs, "] Uptime: ");
    push_nat(&mut cs, uptime_secs as u64);
    push_str(&mut cs, "s | Storage: ");
    match mode {
        StorageModeStatus::RamOnly => push_str(&mut cs, "RamOnly"),
        StorageModeStatus::MicroSdActive => push_str(&mut cs, "MicroSdActive"),
    }
    push_str(&mut cs, " | SRAM: ");
    push_nat(&mut cs, sram_len as u64);
    push_str(&mut cs, "/256 pkts | Drops: ");
    push_nat(&mut cs, drops as u64);
    string_from_chars(cs.as_slice())
}

proof fn lemma_found_at_start(s: Seq<char>, pat: Seq<char>)
    requires
        occurs_at(s, pat, 0),
    ensures
        first_occurrence(s, pat) == Some(0int),
{
    reveal(first_occurrence);
    let i = choose|i: int| occurs_at(s, pat, i) && forall|j: int| 0 <= j < i ==> !occurs_at(s, pat, j);
    assert(occurs_at(s, pat, 0) && forall|j: int| 0 <= j < 0 ==> !occurs_at(s, pat, j));
    if i > 0 {
        assert(!occurs_at(s, pat, 0));
    }
}

/// A line that begins with `[Node `, a node's eight-digit id and `]` announces that node.
pub proof fn lemma_node_tag_announces(node_id: u32, rest: Seq<char>)
    ensures
        announced_node_id(seq!['[', 'N', 'o', 'd', 'e', ' '] + hex_node_label(node_id).skip(2) + seq![']'] + rest)
            == Some(node_id),
{
    let marker = seq!['[', 'N', 'o', 'd', 'e', ' '];
    let h = hex_node_label(node_id).skip(2);
    let line = marker + h + seq![']'] + rest;
    lemma_label_digits_read(node_id);
    assert(line.subrange(0, 6) =~= marker);
    assert(occurs_at(line, marker, 0));
    lemma_found_at_start(line, marker);
    assert(line.subrange(6, 14) =~= h);
    assert(line[14] == ']');
    assert(seq![']'].contains(line[14])) by {
        assert(seq![']'][0] == ']');
    }
    assert forall|k: int| 6 <= k < 14 implies !is_ws(#[trigger] line[k]) && !seq![']'].contains(line[k]) by {
        assert(line[k] == h[k - 6]);
        assert(hex_digit(h[k - 6]) is Some);
        if seq![']'].contains(line[k]) {
            assert(line[k] == ']');
        }
    }
    lemma_token_run(line, 6, 14, seq![']']);
}

/// A dongle's heartbeat line announces its node id: the daemon reads it back from the line.
pub proof fn lemma_heartbeat_announces_node(node_id: u32, uptime_secs: u32, mode: StorageModeStatus, sram_len: usize, drops: u32)
    ensures
        announced_node_id(heartbeat_line(node_id, uptime_secs, mode, sram_len, drops)) == Some(node_id),
{
    reveal_strlit("[Node ");
    reveal_strlit("] Uptime: ");
    reveal_strlit(" Uptime: ");
    let h = hex_node_label(node_id).skip(2);
    let tail = dec_string(uptime_secs as int) + "s | Storage: "@ + storage_debug_name(mode) + " | SRAM: "@ + dec_string(
        sram_len as int,
    ) + "/256 pkts | Drops: "@ + dec_string(drops as int);
    assert(heartbeat_line(node_id, uptime_secs, mode, sram_len, drops) =~= seq!['[', 'N', 'o', 'd', 'e', ' '] + h
        + seq![']'] + (" Uptime: "@ + tail));
    lemma_node_tag_announces(node_id, " Uptime: "@ + tail);
}

} // verus!
