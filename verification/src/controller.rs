//! Client UI state: the station roster, the conversations and the status panels, and
//! how each UI event changes them.
use vstd::prelude::*;
use vstd::string::StringSliceAdditionalSpecFns;
use vstd::utf8::encode_utf8;
use crate::bytes::be4;
use crate::fmt::{dec_string, pad2, push_decimal, push_pad2, push_str, quot, rem};
use crate::identity::{
    derive_sas_words, format_sas_words, generate_verification_qr_svg, joined_sas, qr_svg_image, sas_words,
    verification_uri,
};
use crate::lexer::{decimal, hex_u32, parse_decimal, parse_node_label, strip_hex_prefix, trim, trim_chars};
use crate::ratchet::{x25519_public, KeyPair};
use crate::text::{str_chars, str_eq, string_from_chars};

verus! {

/// An opaque 8-bit ARGB color.
#[derive(Debug, Clone, Copy, PartialEq, Eq, Structural)]
pub struct ArgbColor {
    pub a: u8,
    pub r: u8,
    pub g: u8,
    pub b: u8,
}

/// The opaque color with these red, green and blue components.
pub open spec fn opaque_rgb(r: u8, g: u8, b: u8) -> ArgbColor {
    ArgbColor { a: 255, r, g, b }
}

/// Rolling hash of a sender name: `h * 31 + byte` over its UTF-8 bytes, modulo 2^32.
pub open spec fn name_hash(b: Seq<u8>) -> u32
    decreases b.len(),
{
    if b.len() == 0 {
        0
    } else {
        ((name_hash(b.drop_last()) * 31 + b.last()) % 0x1_0000_0000) as u32
    }
}

/// Display color of a sender: cyan for our own messages, otherwise one of five palette
/// colors picked by the name hash.
pub open spec fn sender_color(sender: Seq<char>, is_outgoing: bool) -> ArgbColor {
    if is_outgoing {
        opaque_rgb(0x38, 0xbd, 0xf8)
    } else {
        let k = name_hash(encode_utf8(sender)) % 5;
        if k == 0 {
            opaque_rgb(0xa3, 0xe6, 0x35)
        } else if k == 1 {
            opaque_rgb(0x81, 0x8c, 0xf8)
        } else if k == 2 {
            opaque_rgb(0xc0, 0x84, 0xfc)
        } else if k == 3 {
            opaque_rgb(0xe8, 0x79, 0xf9)
        } else {
            opaque_rgb(0xf4, 0x72, 0xb6)
        }
    }
}

/// Derives the deterministic display color of a message sender.
pub fn derive_sender_color(sender: &str, is_outgoing: bool) -> (r: ArgbColor)
    ensures
        r == sender_color(sender@, is_outgoing),
{
    if is_outgoing {
        return ArgbColor { a: 255, r: 0x38, g: 0xbd, b: 0xf8 };
    }
    let bytes = sender.as_bytes();
    let n = bytes.len();
    let mut h: u64 = 0;
    let mut i: usize = 0;
    while i < n
        invariant
            n == bytes@.len(),
            bytes@ == encode_utf8(sender@),
            i <= n,
            h == name_hash(bytes@.take(i as int)),
        decreases n - i,
    {
        assert(bytes@.take(i + 1).drop_last() =~= bytes@.take(i as int));
        h = (h * 31 + bytes[i] as u64) % 0x1_0000_0000;
        i = i + 1;
    }
    assert(bytes@.take(n as int) =~= bytes@);
    match h % 5 {
        0 => ArgbColor { a: 255, r: 0xa3, g: 0xe6, b: 0x35 },
        1 => ArgbColor { a: 255, r: 0x81, g: 0x8c, b: 0xf8 },
        2 => ArgbColor { a: 255, r: 0xc0, g: 0x84, b: 0xfc },
        3 => ArgbColor { a: 255, r: 0xe8, g: 0x79, b: 0xf9 },
        _ => ArgbColor { a: 255, r: 0xf4, g: 0x72, b: 0xb6 },
    }
}

/// The text with every `dBm` removed, scanning left to right (`str::replace`).
pub open spec fn without_dbm(s: Seq<char>) -> Seq<char>
    decreases s.len(),
{
    if s.len() == 0 {
        s
    } else if s.len() >= 3 && s[0] == 'd' && s[1] == 'B' && s[2] == 'm' {
        without_dbm(s.skip(3))
    } else {
        seq![s[0]] + without_dbm(s.skip(1))
    }
}

/// Signal bars of an RSSI reading such as `-72 dBm`: 4 from -70 dBm up, 3 from -80, 2
/// from -90, else 1; 3 when the reading is not an `i32`.
pub open spec fn signal_bars(rssi: Seq<char>) -> i32 {
    match decimal(trim(without_dbm(rssi)), true) {
        Some(v) => if v < -0x8000_0000 || v > 0x7fff_ffff {
            3
        } else if v >= -70 {
            4
        } else if v >= -80 {
            3
        } else if v >= -90 {
            2
        } else {
            1
        },
        None => 3,
    }
}

/// Signal bars shown for a station's RSSI text.
pub fn compute_signal_bars(rssi_str: &str) -> (r: i32)
    ensures
        r == signal_bars(rssi_str@),
{
    let cs = str_chars(rssi_str);
    let n = cs.len();
    let mut out: Vec<char> = Vec::new();
    let mut i: usize = 0;
    assert(cs@.skip(0) =~= cs@);
    while i < n
        invariant
            n == cs@.len(),
            cs@ == rssi_str@,
            i <= n,
            out@ + without_dbm(cs@.skip(i as int)) == without_dbm(rssi_str@),
        decreases n - i,
    {
        if n - i >= 3 && cs[i] == 'd' && cs[i + 1] == 'B' && cs[i + 2] == 'm' {
            assert(cs@.skip(i as int).skip(3) =~= cs@.skip(i + 3));
            i = i + 3;
        } else {
            assert(cs@.skip(i as int).skip(1) =~= cs@.skip(i + 1));
            let c = cs[i];
            out.push(c);
            i = i + 1;
            assert(out@ + without_dbm(cs@.skip(i as int)) =~= out@.drop_last() + (seq![c] + without_dbm(
                cs@.skip(i as int),
            )));
        }
    }
    assert(without_dbm(cs@.skip(n as int)) =~= Seq::<char>::empty());
    assert(out@ =~= without_dbm(rssi_str@));
    let clean = trim_chars(out.as_slice());
    match parse_decimal(clean.as_slice(), true, -0x8000_0000, 0x7fff_ffff) {
        Some(num) => {
            if num >= -70 {
                4
            } else if num >= -80 {
                3
            } else if num >= -90 {
                2
            } else {
                1
            }
        },
        None => 3,
    }
}


/// A row of the station roster.
#[derive(Debug, Clone, PartialEq)]
pub struct StationItem {
    pub node_id: String,
    pub alias: String,
    pub rssi: String,
    pub lqi: String,
    pub trust_state: String,
    pub signal_bars: i32,
    pub selected: bool,
}

/// A chat message as the conversation view shows it.
#[derive(Debug, Clone, PartialEq)]
pub struct ChatMessageItem {
    pub id: String,
    pub convo_id: String,
    pub sender: String,
    pub text: String,
    pub timestamp: String,
    pub status: String,
    pub is_outgoing: bool,
    pub sender_color: ArgbColor,
}

/// What happened, as the UI learns it.
#[derive(Debug, Clone)]
pub enum UiEvent {
    StationDiscovered { node_id: String, alias: String, rssi: String, lqi: String, trust_state: String },
    StationMetricsUpdated { node_id: String, rssi: String, lqi: String },
    StationTrustChanged { node_id: String, trust_state: String },
    MessageReceived(ChatMessageItem),
    MessageStatusUpdated { id: String, status: String },
    TelemetryUpdated {
        node_id: String,
        storage_mode: String,
        storage_stats: String,
        tx: i32,
        rx: i32,
        channel: i32,
        avg_lqi: i32,
        status: String,
    },
    ShowVerificationModal { node_id: String, alias: String, sas_words: String, qr_svg: Option<String> },
    HideVerificationModal,
}

/// The messages cached for one conversation, in arrival order.
pub struct ConvoHistory {
    pub convo_id: String,
    pub messages: Vec<ChatMessageItem>,
}

/// The window's single-valued properties.
#[derive(Debug, Clone)]
pub struct UiPanels {
    pub active_convo_id: String,
    pub active_alias: String,
    pub active_trust_state: String,
    pub local_node_id: String,
    pub storage_mode: String,
    pub storage_stats: String,
    pub tx_packets: i32,
    pub rx_packets: i32,
    pub mesh_channel: i32,
    pub avg_lqi: i32,
    pub dongle_status: String,
    pub verify_node_id: String,
    pub verify_alias: String,
    pub verify_sas_words: String,
    /// The SVG of the verification QR code last shown.
    pub verify_qr_svg: Option<String>,
    pub show_verification_modal: bool,
}

/// Everything the client window shows.
pub struct UiState {
    pub stations: Vec<StationItem>,
    /// The messages of the active conversation.
    pub messages: Vec<ChatMessageItem>,
    /// Every conversation's cached messages.
    pub history: Vec<ConvoHistory>,
    pub panels: UiPanels,
}

/// Index of the first item from `i` on that satisfies `p`.
pub open spec fn first_match<T>(s: Seq<T>, p: spec_fn(T) -> bool, i: int) -> Option<int>
    decreases s.len() - i,
{
    if i < 0 || i >= s.len() {
        None
    } else if p(s[i]) {
        Some(i)
    } else {
        first_match(s, p, i + 1)
    }
}

proof fn lemma_first_match_found<T>(s: Seq<T>, p: spec_fn(T) -> bool, i: int, k: int)
    requires
        0 <= i <= k < s.len(),
        p(s[k]),
        forall|j: int| i <= j < k ==> !p(s[j]),
    ensures
        first_match(s, p, i) == Some(k),
    decreases k - i,
{
    if i < k {
        lemma_first_match_found(s, p, i + 1, k);
    }
}

proof fn lemma_first_match_none<T>(s: Seq<T>, p: spec_fn(T) -> bool, i: int)
    requires
        0 <= i <= s.len(),
        forall|j: int| i <= j < s.len() ==> !p(s[j]),
    ensures
        first_match(s, p, i) is None,
    decreases s.len() - i,
{
    if i < s.len() {
        lemma_first_match_none(s, p, i + 1);
    }
}

proof fn lemma_first_match_range<T>(s: Seq<T>, p: spec_fn(T) -> bool, i: int)
    requires
        0 <= i,
    ensures
        first_match(s, p, i) matches Some(k) ==> i <= k < s.len() && p(s[k]),
    decreases s.len() - i,
{
    if i < s.len() && !p(s[i]) {
        lemma_first_match_range(s, p, i + 1);
    }
}

/// The roster row of a node.
pub open spec fn station_is(id: Seq<char>) -> spec_fn(StationItem) -> bool {
    |s: StationItem| s.node_id@ == id
}

/// The message with an id.
pub open spec fn message_is(id: Seq<char>) -> spec_fn(ChatMessageItem) -> bool {
    |m: ChatMessageItem| m.id@ == id
}

/// The history entry of a conversation.
pub open spec fn convo_is(id: Seq<char>) -> spec_fn((Seq<char>, Seq<ChatMessageItem>)) -> bool {
    |h: (Seq<char>, Seq<ChatMessageItem>)| h.0 == id
}

/// The message with its status replaced.
pub open spec fn with_status(m: ChatMessageItem, status: String) -> ChatMessageItem {
    ChatMessageItem { status, ..m }
}

/// The history as conversation ids and message sequences.
pub open spec fn history_view(h: Seq<ConvoHistory>) -> Seq<(Seq<char>, Seq<ChatMessageItem>)> {
    h.map_values(|e: ConvoHistory| (e.convo_id@, e.messages@))
}

/// The roster after an event.
pub open spec fn stations_after(rows: Seq<StationItem>, e: UiEvent) -> Seq<StationItem> {
    match e {
        UiEvent::StationDiscovered { node_id, alias, rssi, lqi, trust_state } => match first_match(
            rows,
            station_is(node_id@),
            0,
        ) {
            Some(i) => rows.update(
                i,
                StationItem {
                    alias,
                    rssi,
                    lqi,
                    trust_state,
                    signal_bars: signal_bars(rssi@),
                    ..rows[i]
                },
            ),
            None => rows.push(
                StationItem { node_id, alias, rssi, lqi, trust_state, signal_bars: signal_bars(rssi@), selected: false },
            ),
        },
        UiEvent::StationMetricsUpdated { node_id, rssi, lqi } => match first_match(rows, station_is(node_id@), 0) {
            Some(i) => rows.update(i, StationItem { rssi, lqi, signal_bars: signal_bars(rssi@), ..rows[i] }),
            None => rows,
        },
        UiEvent::StationTrustChanged { node_id, trust_state } => match first_match(
            rows,
            station_is(node_id@),
            0,
        ) {
            Some(i) => rows.update(i, StationItem { trust_state, ..rows[i] }),
            None => rows,
        },
        _ => rows,
    }
}

/// The active conversation's messages after an event.
pub open spec fn messages_after(rows: Seq<ChatMessageItem>, active: Seq<char>, e: UiEvent) -> Seq<ChatMessageItem> {
    match e {
        UiEvent::MessageReceived(msg) => if active == msg.convo_id@ && first_match(rows, message_is(msg.id@), 0) is None {
            rows.push(msg)
        } else {
            rows
        },
        UiEvent::MessageStatusUpdated { id, status } => match first_match(rows, message_is(id@), 0) {
            Some(i) => rows.update(i, with_status(rows[i], status)),
            None => rows,
        },
        _ => rows,
    }
}

/// The per-conversation history after an event: a new message joins its conversation
/// unless one with its id is there; a status update reaches every cached copy.
pub open spec fn history_after(h: Seq<(Seq<char>, Seq<ChatMessageItem>)>, e: UiEvent) -> Seq<(Seq<char>, Seq<ChatMessageItem>)> {
    match e {
        UiEvent::MessageReceived(msg) => match first_match(h, convo_is(msg.convo_id@), 0) {
            Some(k) => if first_match(h[k].1, message_is(msg.id@), 0) is None {
                h.update(k, (h[k].0, h[k].1.push(msg)))
            } else {
                h
            },
            None => h.push((msg.convo_id@, seq![msg])),
        },
        UiEvent::MessageStatusUpdated { id, status } => h.map_values(
            |c: (Seq<char>, Seq<ChatMessageItem>)| restatus_convo(c, id@, status),
        ),
        _ => h,
    }
}

/// The window properties after an event.
pub open spec fn panels_after(p: UiPanels, e: UiEvent) -> UiPanels {
    match e {
        UiEvent::StationTrustChanged { node_id, trust_state } => if p.active_convo_id@ == node_id@ {
            UiPanels { active_trust_state: trust_state, ..p }
        } else {
            p
        },
        UiEvent::TelemetryUpdated { node_id, storage_mode, storage_stats, tx, rx, channel, avg_lqi, status } => UiPanels {
            local_node_id: node_id,
            storage_mode,
            storage_stats,
            tx_packets: tx,
            rx_packets: rx,
            mesh_channel: channel,
            avg_lqi,
            dongle_status: status,
            ..p
        },
        UiEvent::ShowVerificationModal { node_id, alias, sas_words, qr_svg } => UiPanels {
            verify_node_id: node_id,
            verify_alias: alias,
            verify_sas_words: sas_words,
            verify_qr_svg: if qr_svg is Some { qr_svg } else { p.verify_qr_svg },
            show_verification_modal: true,
            ..p
        },
        UiEvent::HideVerificationModal => UiPanels { show_verification_modal: false, ..p },
        _ => p,
    }
}

/// A copy of a string equal to it.
fn copy_string(s: &String) -> (r: String)
    ensures
        r == *s,
{
    s.clone()
}

/// A copy of a message equal to it.
pub fn copy_message(m: &ChatMessageItem) -> (r: ChatMessageItem)
    ensures
        r == *m,
{
    ChatMessageItem {
        id: copy_string(&m.id),
        convo_id: copy_string(&m.convo_id),
        sender: copy_string(&m.sender),
        text: copy_string(&m.text),
        timestamp: copy_string(&m.timestamp),
        status: copy_string(&m.status),
        is_outgoing: m.is_outgoing,
        sender_color: m.sender_color,
    }
}

fn find_station(rows: &Vec<StationItem>, id: &str) -> (r: Option<usize>)
    ensures
        r is None <==> first_match(rows@, station_is(id@), 0) is None,
        r matches Some(i) ==> first_match(rows@, station_is(id@), 0) == Some(i as int),
        r matches Some(i) ==> i < rows@.len() && station_is(id@)(rows@[i as int]),
{
    proof {
        lemma_first_match_range(rows@, station_is(id@), 0);
    }
    let n = rows.len();
    let mut i: usize = 0;
    while i < n
        invariant
            n == rows@.len(),
            i <= n,
            first_match(rows@, station_is(id@), 0) == first_match(rows@, station_is(id@), i as int),
        decreases n - i,
    {
        if str_eq(rows[i].node_id.as_str(), id) {
            return Some(i);
        }
        i = i + 1;
    }
    None
}

fn find_message(rows: &Vec<ChatMessageItem>, id: &str) -> (r: Option<usize>)
    ensures
        r is None <==> first_match(rows@, message_is(id@), 0) is None,
        r matches Some(i) ==> first_match(rows@, message_is(id@), 0) == Some(i as int),
        r matches Some(i) ==> i < rows@.len() && message_is(id@)(rows@[i as int]),
{
    proof {
        lemma_first_match_range(rows@, message_is(id@), 0);
    }
    let n = rows.len();
    let mut i: usize = 0;
    while i < n
        invariant
            n == rows@.len(),
            i <= n,
            first_match(rows@, message_is(id@), 0) == first_match(rows@, message_is(id@), i as int),
        decreases n - i,
    {
        if str_eq(rows[i].id.as_str(), id) {
            return Some(i);
        }
        i = i + 1;
    }
    None
}

fn find_convo(h: &Vec<ConvoHistory>, id: &str) -> (r: Option<usize>)
    ensures
        r is None <==> first_match(history_view(h@), convo_is(id@), 0) is None,
        r matches Some(i) ==> first_match(history_view(h@), convo_is(id@), 0) == Some(i as int),
        r matches Some(i) ==> i < history_view(h@).len() && convo_is(id@)(history_view(h@)[i as int]),
{
    proof {
        lemma_first_match_range(history_view(h@), convo_is(id@), 0);
    }
    let n = h.len();
    let mut i: usize = 0;
    while i < n
        invariant
            n == h@.len(),
            i <= n,
            first_match(history_view(h@), convo_is(id@), 0) == first_match(history_view(h@), convo_is(id@), i as int),
        decreases n - i,
    {
        if str_eq(h[i].convo_id.as_str(), id) {
            assert(history_view(h@)[i as int] == (h@[i as int].convo_id@, h@[i as int].messages@));
            return Some(i);
        }
        i = i + 1;
    }
    None
}


/// The message with the status replaced wherever its id is `id`.
pub open spec fn restatus(m: ChatMessageItem, id: Seq<char>, status: String) -> ChatMessageItem {
    if m.id@ == id {
        with_status(m, status)
    } else {
        m
    }
}

/// A conversation with every copy of message `id` given the status.
pub open spec fn restatus_convo(c: (Seq<char>, Seq<ChatMessageItem>), id: Seq<char>, status: String) -> (Seq<char>, Seq<ChatMessageItem>) {
    (c.0, c.1.map_values(|m: ChatMessageItem| restatus(m, id, status)))
}

fn restatus_all(msgs: &Vec<ChatMessageItem>, id: &str, status: &String) -> (r: Vec<ChatMessageItem>)
    ensures
        r@ == msgs@.map_values(|m: ChatMessageItem| restatus(m, id@, *status)),
{
    let n = msgs.len();
    let mut out: Vec<ChatMessageItem> = Vec::new();
    let mut i: usize = 0;
    while i < n
        invariant
            n == msgs@.len(),
            i <= n,
            out@ =~= msgs@.take(i as int).map_values(|m: ChatMessageItem| restatus(m, id@, *status)),
        decreases n - i,
    {
        let m = &msgs[i];
        let c = if str_eq(m.id.as_str(), id) {
            ChatMessageItem {
                id: copy_string(&m.id),
                convo_id: copy_string(&m.convo_id),
                sender: copy_string(&m.sender),
                text: copy_string(&m.text),
                timestamp: copy_string(&m.timestamp),
                status: copy_string(status),
                is_outgoing: m.is_outgoing,
                sender_color: m.sender_color,
            }
        } else {
            copy_message(m)
        };
        out.push(c);
        i = i + 1;
        assert(msgs@.take(i as int) =~= msgs@.take(i - 1).push(msgs@[i - 1]));
    }
    assert(msgs@.take(n as int) =~= msgs@);
    out
}

fn copy_messages(msgs: &Vec<ChatMessageItem>) -> (r: Vec<ChatMessageItem>)
    ensures
        r@ == msgs@,
{
    let n = msgs.len();
    let mut out: Vec<ChatMessageItem> = Vec::new();
    let mut i: usize = 0;
    while i < n
        invariant
            n == msgs@.len(),
            i <= n,
            out@ =~= msgs@.take(i as int),
        decreases n - i,
    {
        out.push(copy_message(&msgs[i]));
        i = i + 1;
    }
    out
}

impl UiState {
    /// An empty window: no stations, no messages, every property empty or zero.
    pub fn new() -> (r: Self)
        ensures
            r.stations@.len() == 0,
            r.messages@.len() == 0,
            r.history@.len() == 0,
            r.panels.active_convo_id@.len() == 0,
            r.panels.verify_qr_svg is None,
            !r.panels.show_verification_modal,
    {
        UiState {
            stations: Vec::new(),
            messages: Vec::new(),
            history: Vec::new(),
            panels: UiPanels {
                active_convo_id: String::new(),
                active_alias: String::new(),
                active_trust_state: String::new(),
                local_node_id: String::new(),
                storage_mode: String::new(),
                storage_stats: String::new(),
                tx_packets: 0,
                rx_packets: 0,
                mesh_channel: 0,
                avg_lqi: 0,
                dongle_status: String::new(),
                verify_node_id: String::new(),
                verify_alias: String::new(),
                verify_sas_words: String::new(),
                verify_qr_svg: None,
                show_verification_modal: false,
            },
        }
    }

    fn record_in_history(&mut self, msg: &ChatMessageItem)
        ensures
            history_view(final(self).history@) == history_after(
                history_view(old(self).history@),
                UiEvent::MessageReceived(*msg),
            ),
            final(self).stations == old(self).stations,
            final(self).messages == old(self).messages,
            final(self).panels == old(self).panels,
    {
        let ghost h = history_view(self.history@);
        match find_convo(&self.history, msg.convo_id.as_str()) {
            Some(k) => {
                assert(h[k as int].1 == self.history@[k as int].messages@);
                let ghost ev = UiEvent::MessageReceived(*msg);
                assert(first_match(h, convo_is(msg.convo_id@), 0) == Some(k as int));
                if find_message(&self.history[k].messages, msg.id.as_str()).is_none() {
                    let mut msgs = copy_messages(&self.history[k].messages);
                    msgs.push(copy_message(msg));
                    let cid = copy_string(&self.history[k].convo_id);
                    self.history.set(k, ConvoHistory { convo_id: cid, messages: msgs });
                    assert(history_view(self.history@) =~= h.update(k as int, (h[k as int].0, h[k as int].1.push(*msg))));
                    assert(first_match(h[k as int].1, message_is(msg.id@), 0) is None);
                    assert(history_view(self.history@) == history_after(h, ev));
                } else {
                    assert(first_match(h[k as int].1, message_is(msg.id@), 0) is Some);
                    assert(history_view(self.history@) == history_after(h, ev));
                }
            },
            None => {
                let mut msgs: Vec<ChatMessageItem> = Vec::new();
                msgs.push(copy_message(msg));
                let cid = copy_string(&msg.convo_id);
                self.history.push(ConvoHistory { convo_id: cid, messages: msgs });
                assert(history_view(self.history@) =~= h.push((msg.convo_id@, seq![*msg])));
            },
        }
    }

    fn restatus_history(&mut self, id: &String, status: &String)
        ensures
            history_view(final(self).history@) == history_after(
                history_view(old(self).history@),
                UiEvent::MessageStatusUpdated { id: *id, status: *status },
            ),
            final(self).stations == old(self).stations,
            final(self).messages == old(self).messages,
            final(self).panels == old(self).panels,
    {
        let ghost h = history_view(self.history@);
        let n = self.history.len();
        let mut k: usize = 0;
        while k < n
            invariant
                n == self.history@.len(),
                h.len() == n,
                k <= n,
                forall|j: int| 0 <= j < k ==> #[trigger] history_view(self.history@)[j] == restatus_convo(h[j], id@, *status),
                forall|j: int| k <= j < n ==> #[trigger] history_view(self.history@)[j] == h[j],
                self.stations == old(self).stations,
                self.messages == old(self).messages,
                self.panels == old(self).panels,
            decreases n - k,
        {
            let msgs = restatus_all(&self.history[k].messages, id.as_str(), status);
            let cid = copy_string(&self.history[k].convo_id);
            let ghost before = self.history@;
            proof {
                assert(h[k as int] == history_view(self.history@)[k as int]);
                assert(msgs@ =~= restatus_convo(h[k as int], id@, *status).1);
            }
            self.history.set(k, ConvoHistory { convo_id: cid, messages: msgs });
            assert(history_view(self.history@) =~= history_view(before).update(
                k as int,
                restatus_convo(h[k as int], id@, *status),
            ));
            k = k + 1;
        }
        assert(history_view(self.history@) =~= h.map_values(
            |c: (Seq<char>, Seq<ChatMessageItem>)| restatus_convo(c, id@, *status),
        ));
    }

    /// Applies one UI event: roster rows are found by node id, messages by id; a message
    /// joins the conversation view only when its conversation is the active one.
    pub fn apply_event(&mut self, event: UiEvent)
        ensures
            final(self).stations@ == stations_after(old(self).stations@, event),
            final(self).messages@ == messages_after(old(self).messages@, old(self).panels.active_convo_id@, event),
            history_view(final(self).history@) == history_after(history_view(old(self).history@), event),
            final(self).panels == panels_after(old(self).panels, event),
    {
        let ghost e = event;
        match event {
            UiEvent::StationDiscovered { node_id, alias, rssi, lqi, trust_state } => {
                let bars = compute_signal_bars(rssi.as_str());
                match find_station(&self.stations, node_id.as_str()) {
                    Some(i) => {
                        let id = copy_string(&self.stations[i].node_id);
                        let selected = self.stations[i].selected;
                        self.stations.set(
                            i,
                            StationItem { node_id: id, alias, rssi, lqi, trust_state, signal_bars: bars, selected },
                        );
                    },
                    None => {
                        self.stations.push(
                            StationItem { node_id, alias, rssi, lqi, trust_state, signal_bars: bars, selected: false },
                        );
                    },
                }
            },
            UiEvent::StationMetricsUpdated { node_id, rssi, lqi } => {
                if let Some(i) = find_station(&self.stations, node_id.as_str()) {
                    let bars = compute_signal_bars(rssi.as_str());
                    let old_row = &self.stations[i];
                    let row = StationItem {
                        node_id: copy_string(&old_row.node_id),
                        alias: copy_string(&old_row.alias),
                        rssi,
                        lqi,
                        trust_state: copy_string(&old_row.trust_state),
                        signal_bars: bars,
                        selected: old_row.selected,
                    };
                    self.stations.set(i, row);
                }
            },
            UiEvent::StationTrustChanged { node_id, trust_state } => {
                if let Some(i) = find_station(&self.stations, node_id.as_str()) {
                    let old_row = &self.stations[i];
                    let row = StationItem {
                        node_id: copy_string(&old_row.node_id),
                        alias: copy_string(&old_row.alias),
                        rssi: copy_string(&old_row.rssi),
                        lqi: copy_string(&old_row.lqi),
                        trust_state: copy_string(&trust_state),
                        signal_bars: old_row.signal_bars,
                        selected: old_row.selected,
                    };
                    self.stations.set(i, row);
                }
                if str_eq(self.panels.active_convo_id.as_str(), node_id.as_str()) {
                    self.panels.active_trust_state = trust_state;
                }
            },
            UiEvent::MessageReceived(msg) => {
                self.record_in_history(&msg);
                if str_eq(self.panels.active_convo_id.as_str(), msg.convo_id.as_str()) && find_message(
                    &self.messages,
                    msg.id.as_str(),
                ).is_none() {
                    self.messages.push(msg);
                }
            },
            UiEvent::MessageStatusUpdated { id, status } => {
                self.restatus_history(&id, &status);
                if let Some(i) = find_message(&self.messages, id.as_str()) {
                    let m = &self.messages[i];
                    let row = ChatMessageItem {
                        id: copy_string(&m.id),
                        convo_id: copy_string(&m.convo_id),
                        sender: copy_string(&m.sender),
                        text: copy_string(&m.text),
                        timestamp: copy_string(&m.timestamp),
                        status,
                        is_outgoing: m.is_outgoing,
                        sender_color: m.sender_color,
                    };
                    self.messages.set(i, row);
                }
            },
            UiEvent::TelemetryUpdated { node_id, storage_mode, storage_stats, tx, rx, channel, avg_lqi, status } => {
                self.panels.local_node_id = node_id;
                self.panels.storage_mode = storage_mode;
                self.panels.storage_stats = storage_stats;
                self.panels.tx_packets = tx;
                self.panels.rx_packets = rx;
                self.panels.mesh_channel = channel;
                self.panels.avg_lqi = avg_lqi;
                self.panels.dongle_status = status;
            },
            UiEvent::ShowVerificationModal { node_id, alias, sas_words, qr_svg } => {
                self.panels.verify_node_id = node_id;
                self.panels.verify_alias = alias;
                self.panels.verify_sas_words = sas_words;
                if qr_svg.is_some() {
                    self.panels.verify_qr_svg = qr_svg;
                }
                self.panels.show_verification_modal = true;
            },
            UiEvent::HideVerificationModal => {
                self.panels.show_verification_modal = false;
            },
        }
    }
}


/// The conversation id of the swarm broadcast channel.
pub open spec fn swarm_convo() -> Seq<char> {
    seq!['#', 'a', 'l', 'l']
}

fn is_swarm_convo(id: &str) -> (r: bool)
    ensures
        r == (id@ == swarm_convo()),
{
    let cs = str_chars(id);
    cs.len() == 4 && cs[0] == '#' && cs[1] == 'a' && cs[2] == 'l' && cs[3] == 'l' && {
        assert(cs@ =~= swarm_convo());
        true
    }
}

/// The roster with exactly the rows of node `id` selected.
pub open spec fn rows_selected(rows: Seq<StationItem>, id: Seq<char>) -> Seq<StationItem> {
    rows.map_values(|s: StationItem| StationItem { selected: s.node_id@ == id, ..s })
}

/// The cached messages of a conversation, none when it has no cache entry.
pub open spec fn cached_messages(h: Seq<(Seq<char>, Seq<ChatMessageItem>)>, id: Seq<char>) -> Seq<ChatMessageItem> {
    match first_match(h, convo_is(id), 0) {
        Some(k) => h[k].1,
        None => Seq::empty(),
    }
}

impl UiState {
    /// Opens a conversation: it becomes active, its title and trust come from the roster
    /// (the swarm channel is always verified), its roster row alone is selected, and the
    /// view shows its cached messages.
    pub fn select_conversation(&mut self, id: String)
        ensures
            final(self).panels.active_convo_id == id,
            id@ == swarm_convo() ==> final(self).panels.active_alias@ == "Swarm Broadcast"@
                && final(self).panels.active_trust_state@ == "verified"@,
            id@ != swarm_convo() ==> match first_match(old(self).stations@, station_is(id@), 0) {
                Some(i) => final(self).panels.active_alias == old(self).stations@[i].alias
                    && final(self).panels.active_trust_state == old(self).stations@[i].trust_state,
                None => final(self).panels.active_alias == old(self).panels.active_alias
                    && final(self).panels.active_trust_state == old(self).panels.active_trust_state,
            },
            final(self).panels == (UiPanels {
                active_convo_id: final(self).panels.active_convo_id,
                active_alias: final(self).panels.active_alias,
                active_trust_state: final(self).panels.active_trust_state,
                ..old(self).panels
            }),
            final(self).stations@ == rows_selected(old(self).stations@, id@),
            final(self).messages@ == cached_messages(history_view(old(self).history@), id@),
            final(self).history == old(self).history,
    {
        if is_swarm_convo(id.as_str()) {
            self.panels.active_alias = "Swarm Broadcast".to_owned();
            self.panels.active_trust_state = "verified".to_owned();
        } else {
            match find_station(&self.stations, id.as_str()) {
                Some(i) => {
                    self.panels.active_alias = copy_string(&self.stations[i].alias);
                    self.panels.active_trust_state = copy_string(&self.stations[i].trust_state);
                },
                None => {},
            }
        }
        let ghost rows = self.stations@;
        let ghost panels = self.panels;
        let n = self.stations.len();
        let mut i: usize = 0;
        while i < n
            invariant
                n == self.stations@.len(),
                self.panels == panels,
                self.history == old(self).history,
                rows.len() == n,
                i <= n,
                forall|j: int| 0 <= j < i ==> #[trigger] self.stations@[j] == (StationItem {
                    selected: rows[j].node_id@ == id@,
                    ..rows[j]
                }),
                forall|j: int| i <= j < n ==> #[trigger] self.stations@[j] == rows[j],
            decreases n - i,
        {
            let sel = str_eq(self.stations[i].node_id.as_str(), id.as_str());
            let old_row = &self.stations[i];
            let row = StationItem {
                node_id: copy_string(&old_row.node_id),
                alias: copy_string(&old_row.alias),
                rssi: copy_string(&old_row.rssi),
                lqi: copy_string(&old_row.lqi),
                trust_state: copy_string(&old_row.trust_state),
                signal_bars: old_row.signal_bars,
                selected: sel,
            };
            self.stations.set(i, row);
            i = i + 1;
        }
        assert(self.stations@ =~= rows_selected(rows, id@));
        let msgs = match find_convo(&self.history, id.as_str()) {
            Some(k) => copy_messages(&self.history[k].messages),
            None => Vec::new(),
        };
        self.messages = msgs;
        self.panels.active_convo_id = id;
    }
}


/// `HH:MM:SS` of a local echo, from `now % 86400`, `now % 3600` and `now % 60`.
pub open spec fn echo_clock(now: int) -> Seq<char> {
    pad2(quot(rem(now, 86400), 3600)) + seq![':'] + pad2(quot(rem(now, 3600), 60)) + seq![':'] + pad2(rem(now, 60))
}

/// The message shown locally when a send could not go to the daemon: ours, queued
/// (`[Q]`) for a direct conversation and `*` on the swarm channel.
pub fn local_echo_message(convo: String, text: String, now: i64) -> (r: ChatMessageItem)
    ensures
        r.id@ == "local-"@ + dec_string(now as int),
        r.convo_id == convo,
        r.sender@ == "Me"@,
        r.text == text,
        r.timestamp@ == echo_clock(now as int),
        r.status@ == if convo@ == swarm_convo() { "*"@ } else { "[Q]"@ },
        r.is_outgoing,
        r.sender_color == sender_color("Me"@, true),
{
    let mut id: Vec<char> = Vec::new();
    push_str(&mut id, "local-");
    push_decimal(&mut id, now);
    let mut ts: Vec<char> = Vec::new();
    push_pad2(&mut ts, (now % 86400) / 3600);
    ts.push(':');
    push_pad2(&mut ts, (now % 3600) / 60);
    ts.push(':');
    push_pad2(&mut ts, now % 60);
    assert(ts@ =~= echo_clock(now as int));
    let status = if is_swarm_convo(convo.as_str()) {
        "*".to_owned()
    } else {
        "[Q]".to_owned()
    };
    ChatMessageItem {
        id: string_from_chars(id.as_slice()),
        convo_id: convo,
        sender: "Me".to_owned(),
        text,
        timestamp: string_from_chars(ts.as_slice()),
        status,
        is_outgoing: true,
        sender_color: derive_sender_color("Me", true),
    }
}

/// Where a message typed into a conversation goes.
#[derive(Debug, Clone, Copy, PartialEq, Eq, Structural)]
pub enum SendRoute {
    /// The swarm channel.
    Swarm,
    /// A direct message to this node.
    Direct(u32),
    /// A conversation id that names no node.
    Unroutable,
}

/// The route of a conversation id: `#all` is the swarm, otherwise the id is a node label.
pub open spec fn route_of(convo: Seq<char>) -> SendRoute {
    if convo == swarm_convo() {
        SendRoute::Swarm
    } else {
        match hex_u32(strip_hex_prefix(convo)) {
            Some(d) => SendRoute::Direct(d),
            None => SendRoute::Unroutable,
        }
    }
}

/// Routes a message typed into conversation `convo`.
pub fn send_route(convo: &str) -> (r: SendRoute)
    ensures
        r == route_of(convo@),
{
    if is_swarm_convo(convo) {
        SendRoute::Swarm
    } else {
        match parse_node_label(convo) {
            Some(d) => SendRoute::Direct(d),
            None => SendRoute::Unroutable,
        }
    }
}

/// The events of a confirmed verification: the station turns verified, the modal closes.
pub fn confirmation_events(node_id: String) -> (r: Vec<UiEvent>)
    ensures
        r@.len() == 2,
        r@[0] matches UiEvent::StationTrustChanged { node_id: n, trust_state: t } && n == node_id && t@
            == "verified"@,
        r@[1] matches UiEvent::HideVerificationModal,
{
    let mut v: Vec<UiEvent> = Vec::new();
    v.push(UiEvent::StationTrustChanged { node_id, trust_state: "verified".to_owned() });
    v.push(UiEvent::HideVerificationModal);
    v
}

/// Public keys of contacts by node label.
pub struct PubkeyCache {
    entries: Vec<(String, [u8; 32])>,
}

/// The labels of the cache entries.
pub open spec fn cache_keys(entries: Seq<(String, [u8; 32])>) -> Seq<Seq<char>> {
    entries.map_values(|e: (String, [u8; 32])| e.0@)
}

/// The label that equals `k`.
pub open spec fn key_is(k: Seq<char>) -> spec_fn(Seq<char>) -> bool {
    |x: Seq<char>| x == k
}

proof fn lemma_first_match_push<T>(s: Seq<T>, p: spec_fn(T) -> bool, x: T, i: int)
    requires
        0 <= i <= s.len(),
    ensures
        first_match(s, p, i) is Some ==> first_match(s.push(x), p, i) == first_match(s, p, i),
        first_match(s, p, i) is None ==> first_match(s.push(x), p, i) == if p(x) { Some(s.len() as int) } else { None::<int> },
    decreases s.len() - i,
{
    if i < s.len() {
        assert(s.push(x)[i] == s[i]);
        lemma_first_match_push(s, p, x, i + 1);
    } else {
        assert(first_match(s.push(x), p, i + 1) is None);
    }
}

impl PubkeyCache {
    /// The key stored for a label.
    pub closed spec fn lookup(&self, k: Seq<char>) -> Option<Seq<u8>> {
        match first_match(cache_keys(self.entries@), key_is(k), 0) {
            Some(i) => Some(self.entries@[i].1@),
            None => None,
        }
    }

    /// An empty cache.
    pub fn new() -> (r: Self)
        ensures
            forall|k: Seq<char>| #[trigger] r.lookup(k) is None,
    {
        PubkeyCache { entries: Vec::new() }
    }

    /// Stores the public key of a node, replacing any earlier one; other labels keep
    /// their keys.
    pub fn register_contact_pubkey(&mut self, node_id: &str, pubkey: [u8; 32])
        ensures
            final(self).lookup(node_id@) == Some(pubkey@),
            forall|k: Seq<char>| k != node_id@ ==> #[trigger] final(self).lookup(k) == old(self).lookup(k),
    {
        let ghost keys = cache_keys(self.entries@);
        let n = self.entries.len();
        let mut i: usize = 0;
        while i < n
            invariant
                n == self.entries@.len(),
                keys == cache_keys(self.entries@),
                self.entries@ == old(self).entries@,
                i <= n,
                first_match(keys, key_is(node_id@), 0) == first_match(keys, key_is(node_id@), i as int),
            decreases n - i,
        {
            if str_eq(self.entries[i].0.as_str(), node_id) {
                let key = copy_string(&self.entries[i].0);
                let ghost before = self.entries@;
                self.entries.set(i, (key, pubkey));
                assert(cache_keys(self.entries@) =~= keys);
                assert forall|k: Seq<char>| k != node_id@ implies #[trigger] self.lookup(k) == old(self).lookup(k) by {
                    lemma_first_match_range(keys, key_is(k), 0);
                    if let Some(j) = first_match(keys, key_is(k), 0) {
                        assert(keys[j] == k);
                        assert(keys[i as int] == node_id@);
                        assert(self.entries@[j] == before[j]);
                    }
                }
                return;
            }
            i = i + 1;
        }
        let ghost before = self.entries@;
        self.entries.push((node_id.to_owned(), pubkey));
        assert(cache_keys(self.entries@) =~= keys.push(node_id@));
        proof {
            lemma_first_match_push(keys, key_is(node_id@), node_id@, 0);
            assert forall|k: Seq<char>| k != node_id@ implies #[trigger] self.lookup(k) == old(self).lookup(k) by {
                lemma_first_match_push(keys, key_is(k), node_id@, 0);
                lemma_first_match_range(keys, key_is(k), 0);
                if let Some(j) = first_match(keys, key_is(k), 0) {
                    assert(self.entries@[j] == before[j]);
                }
            }
        }
    }

    /// The public key stored for a node.
    pub fn get(&self, node_id: &str) -> (r: Option<[u8; 32]>)
        ensures
            match self.lookup(node_id@) {
                Some(pk) => r matches Some(x) && x@ == pk,
                None => r is None,
            },
    {
        let ghost keys = cache_keys(self.entries@);
        let n = self.entries.len();
        let mut i: usize = 0;
        while i < n
            invariant
                n == self.entries@.len(),
                keys == cache_keys(self.entries@),
                i <= n,
                first_match(keys, key_is(node_id@), 0) == first_match(keys, key_is(node_id@), i as int),
            decreases n - i,
        {
            if str_eq(self.entries[i].0.as_str(), node_id) {
                return Some(self.entries[i].1);
            }
            i = i + 1;
        }
        None
    }
}

/// The key assumed for a node without a stored one: its id big-endian, then zeros.
pub open spec fn fallback_pubkey(node_id: u32) -> Seq<u8> {
    be4(node_id) + Seq::new(28, |i: int| 0u8)
}

/// The secret key bytes of this client's identity.
pub open spec fn local_identity_secret() -> Seq<u8> {
    Seq::new(32, |i: int| 0x42u8)
}

/// The peer key that a verification of `node_label` compares against.
pub open spec fn verification_peer_key(cache: PubkeyCache, node_label: Seq<char>) -> Seq<u8> {
    match cache.lookup(node_label) {
        Some(pk) => pk,
        None => fallback_pubkey(node_id_or_zero(node_label)),
    }
}

/// The node id a label names, 0 when it names none.
pub open spec fn node_id_or_zero(node_label: Seq<char>) -> u32 {
    match hex_u32(strip_hex_prefix(node_label)) {
        Some(v) => v,
        None => 0,
    }
}

impl UiState {
    /// The verification modal of a node: its roster alias (its label when not on the
    /// roster), the SAS words of this client's key and the peer's, and the QR code of the
    /// verification link when one can be drawn.
    pub fn verification_request(&self, node_id: String, cache: &PubkeyCache) -> (r: UiEvent)
        ensures
            r matches UiEvent::ShowVerificationModal { node_id: n, alias: a, sas_words: w, qr_svg: q } && {
                let alias = match first_match(self.stations@, station_is(node_id@), 0) {
                    Some(i) => self.stations@[i].alias@,
                    None => node_id@,
                };
                let peer = verification_peer_key(*cache, node_id@);
                &&& n == node_id
                &&& a@ == alias
                &&& w@ == joined_sas(sas_words(x25519_public(local_identity_secret()), peer))
                &&& match qr_svg_image(encode_utf8(verification_uri(node_id_or_zero(node_id@), alias, peer))) {
                    Some(img) => q matches Some(t) && t@ == img,
                    None => q is None,
                }
            },
    {
        let alias = match find_station(&self.stations, node_id.as_str()) {
            Some(i) => copy_string(&self.stations[i].alias),
            None => copy_string(&node_id),
        };
        let id_num = match parse_node_label(node_id.as_str()) {
            Some(v) => v,
            None => 0,
        };
        let peer = match cache.get(node_id.as_str()) {
            Some(pk) => pk,
            None => {
                let mut pk = [0u8; 32];
                pk[0] = (id_num >> 24) as u8;
                pk[1] = (id_num >> 16) as u8;
                pk[2] = (id_num >> 8) as u8;
                pk[3] = id_num as u8;
                assert(pk@ =~= fallback_pubkey(id_num));
                pk
            },
        };
        let local = KeyPair::from_secret_bytes([0x42u8; 32]);
        assert(local.secret() =~= local_identity_secret());
        let words = derive_sas_words(local.public_key(), &peer);
        assert(Seq::new(4, |k: int| words@[k]@) =~= sas_words(x25519_public(local_identity_secret()), peer@));
        let sas = format_sas_words(&words);
        let qr = match generate_verification_qr_svg(id_num, alias.as_str(), &peer) {
            Ok(svg) => Some(svg),
            Err(_) => None,
        };
        UiEvent::ShowVerificationModal { node_id, alias, sas_words: sas, qr_svg: qr }
    }
}


/// A chat message with its texts as character sequences.
pub struct MessageView {
    pub id: Seq<char>,
    pub convo_id: Seq<char>,
    pub sender: Seq<char>,
    pub text: Seq<char>,
    pub timestamp: Seq<char>,
    pub status: Seq<char>,
    pub is_outgoing: bool,
    pub sender_color: ArgbColor,
}

/// The message's texts as character sequences.
pub open spec fn message_view(m: ChatMessageItem) -> MessageView {
    MessageView {
        id: m.id@,
        convo_id: m.convo_id@,
        sender: m.sender@,
        text: m.text@,
        timestamp: m.timestamp@,
        status: m.status@,
        is_outgoing: m.is_outgoing,
        sender_color: m.sender_color,
    }
}

/// A UI event with its texts as character sequences.
pub enum EventView {
    StationDiscovered(Seq<char>, Seq<char>, Seq<char>, Seq<char>, Seq<char>),
    StationMetricsUpdated(Seq<char>, Seq<char>, Seq<char>),
    StationTrustChanged(Seq<char>, Seq<char>),
    MessageReceived(MessageView),
    MessageStatusUpdated(Seq<char>, Seq<char>),
    TelemetryUpdated(Seq<char>, Seq<char>, Seq<char>, i32, i32, i32, i32, Seq<char>),
    ShowVerificationModal(Seq<char>, Seq<char>, Seq<char>, Option<Seq<char>>),
    HideVerificationModal,
}

/// The event's texts as character sequences.
pub open spec fn event_view(e: UiEvent) -> EventView {
    match e {
        UiEvent::StationDiscovered { node_id, alias, rssi, lqi, trust_state } => EventView::StationDiscovered(
            node_id@,
            alias@,
            rssi@,
            lqi@,
            trust_state@,
        ),
        UiEvent::StationMetricsUpdated { node_id, rssi, lqi } => EventView::StationMetricsUpdated(node_id@, rssi@, lqi@),
        UiEvent::StationTrustChanged { node_id, trust_state } => EventView::StationTrustChanged(node_id@, trust_state@),
        UiEvent::MessageReceived(m) => EventView::MessageReceived(message_view(m)),
        UiEvent::MessageStatusUpdated { id, status } => EventView::MessageStatusUpdated(id@, status@),
        UiEvent::TelemetryUpdated { node_id, storage_mode, storage_stats, tx, rx, channel, avg_lqi, status } =>
            EventView::TelemetryUpdated(node_id@, storage_mode@, storage_stats@, tx, rx, channel, avg_lqi, status@),
        UiEvent::ShowVerificationModal { node_id, alias, sas_words, qr_svg } => EventView::ShowVerificationModal(
            node_id@,
            alias@,
            sas_words@,
            match qr_svg {
                Some(q) => Some(q@),
                None => None,
            },
        ),
        UiEvent::HideVerificationModal => EventView::HideVerificationModal,
    }
}


/// How many UI events may wait for the UI thread.
pub const UI_EVENT_CAPACITY: usize = 512;

/// Events waiting for the UI thread, with the latch that says a wake-up is already due.
pub struct UiEventQueue {
    events: std::collections::VecDeque<UiEvent>,
    wake_pending: bool,
}

impl UiEventQueue {
    /// The waiting events, oldest first.
    pub closed spec fn pending(&self) -> Seq<UiEvent> {
        self.events@
    }

    /// Whether a wake-up of the UI thread is already due.
    pub closed spec fn wake_due(&self) -> bool {
        self.wake_pending
    }

    /// No events, no wake-up due.
    pub fn new() -> (r: Self)
        ensures
            r.pending() == Seq::<UiEvent>::empty(),
            !r.wake_due(),
    {
        UiEventQueue { events: std::collections::VecDeque::new(), wake_pending: false }
    }

    /// Queues an event unless 512 are already waiting. `Ok(true)` means this send must
    /// wake the UI thread; later sends before that wake-up is served coalesce into it.
    pub fn send(&mut self, event: UiEvent) -> (r: Result<bool, &'static str>)
        ensures
            old(self).pending().len() >= UI_EVENT_CAPACITY ==> r is Err && final(self).pending() == old(self).pending()
                && final(self).wake_due() == old(self).wake_due(),
            old(self).pending().len() < UI_EVENT_CAPACITY ==> r == Ok::<bool, &'static str>(!old(self).wake_due())
                && final(self).pending() == old(self).pending().push(event) && final(self).wake_due(),
    {
        if self.events.len() >= UI_EVENT_CAPACITY {
            return Err("UI event channel capacity exceeded");
        }
        self.events.push_back(event);
        let wake = !self.wake_pending;
        self.wake_pending = true;
        Ok(wake)
    }

    /// Whether no event waits.
    pub fn is_empty(&self) -> (r: bool)
        ensures
            r == (self.pending().len() == 0),
    {
        self.events.len() == 0
    }
}

/// What the window shows, as sequences.
pub struct UiSnapshot {
    pub stations: Seq<StationItem>,
    pub messages: Seq<ChatMessageItem>,
    pub history: Seq<(Seq<char>, Seq<ChatMessageItem>)>,
    pub panels: UiPanels,
}

/// The window's contents.
pub open spec fn snapshot(s: UiState) -> UiSnapshot {
    UiSnapshot { stations: s.stations@, messages: s.messages@, history: history_view(s.history@), panels: s.panels }
}

/// The window after one event.
pub open spec fn snapshot_after(s: UiSnapshot, e: UiEvent) -> UiSnapshot {
    UiSnapshot {
        stations: stations_after(s.stations, e),
        messages: messages_after(s.messages, s.panels.active_convo_id@, e),
        history: history_after(s.history, e),
        panels: panels_after(s.panels, e),
    }
}

/// The window after a sequence of events, applied in order.
pub open spec fn snapshot_after_all(s: UiSnapshot, evs: Seq<UiEvent>) -> UiSnapshot
    decreases evs.len(),
{
    if evs.len() == 0 {
        s
    } else {
        snapshot_after(snapshot_after_all(s, evs.drop_last()), evs.last())
    }
}

/// Applies every waiting event to the window, oldest first, and clears the wake-up
/// latch so that the next send wakes the UI thread again.
pub fn drain_and_apply_queue(ui: &mut UiState, queue: &mut UiEventQueue)
    ensures
        snapshot(*final(ui)) == snapshot_after_all(snapshot(*old(ui)), old(queue).pending()),
        final(queue).pending() == Seq::<UiEvent>::empty(),
        !final(queue).wake_due(),
{
    let ghost all = queue.events@;
    let ghost s0 = snapshot(*ui);
    assert(all.len() == queue.events.len());
    let mut k: usize = 0;
    assert(all.take(0) =~= Seq::<UiEvent>::empty());
    assert(all.skip(0) =~= all);
    loop
        invariant
            k <= all.len(),
            all.len() <= usize::MAX,
            queue.events@ == all.skip(k as int),
            snapshot(*ui) == snapshot_after_all(s0, all.take(k as int)),
        ensures
            k == all.len(),
            snapshot(*ui) == snapshot_after_all(s0, all.take(k as int)),
            queue.events@ == Seq::<UiEvent>::empty(),
        decreases all.len() - k,
    {
        let next = queue.events.pop_front();
        let ev = match next {
            Some(ev) => ev,
            None => {
                assert(all.skip(k as int).len() == 0);
                break;
            },
        };
        proof {
            assert(all.skip(k as int).len() > 0);
            assert(ev == all[k as int]);
            assert(all.take(k + 1).drop_last() =~= all.take(k as int));
            assert(all.skip(k as int).subrange(1, all.skip(k as int).len() as int) =~= all.skip(k + 1));
        }
        ui.apply_event(ev);
        k = k + 1;
    }
    assert(all.take(k as int) =~= all);
    queue.wake_pending = false;
}

} // verus!
