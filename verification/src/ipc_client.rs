//! The desktop client's side of the daemon connection: what each notification or answer
//! from the daemon turns into on screen.
use vstd::prelude::*;
use crate::chat::{direct_convo_id, hex_node_label};
use crate::controller::{
    derive_sender_color, event_view, sender_color, ChatMessageItem, EventView, MessageView, UiEvent,
};
use crate::ipc::{
    is_delivery_ack, is_node_discovered, is_rx_message, is_status_result, is_telemetry_update, lemma_node_label_reads_back,
    rpc_plan, RpcPlan,
};
use crate::fmt::{clock_label, dec_string, format_ts, hex_width8, push_decimal, push_hex_width8, push_nat, push_str};
use crate::json::{
    as_bool, as_i64, as_str, as_u64, json_bool, json_flag, json_get, json_i64, json_member, json_str, json_text, json_u64,
    json_unsigned, member_index, object_keys, opt_val, unsigned_number, JsonMember, JsonValue,
};
use crate::text::{str_eq, string_from_chars};

verus! {

/// A text frame from the daemon, as far as its JSON-RPC shape goes.
#[derive(Debug, PartialEq)]
pub enum InboundMessage {
    /// A notification: a method name and its parameters.
    Notification { method: String, params: JsonValue },
    /// An answer to one of our requests, with its result if it has one.
    Response { result: Option<JsonValue> },
    /// Neither.
    Unrecognized,
}

/// The text of a string value, or `d`.
pub open spec fn str_or(v: Option<JsonValue>, d: Seq<char>) -> Seq<char> {
    match json_str(v) {
        Some(s) => s,
        None => d,
    }
}

/// A number read as `u64`, or `d`.
pub open spec fn u64_or(v: Option<JsonValue>, d: u64) -> u64 {
    match json_u64(v) {
        Some(n) => n,
        None => d,
    }
}

/// A number read as `i64`, or `d`.
pub open spec fn i64_or(v: Option<JsonValue>, d: i64) -> i64 {
    match json_i64(v) {
        Some(n) => n,
        None => d,
    }
}

/// A boolean, or `d`.
pub open spec fn bool_or(v: Option<JsonValue>, d: bool) -> bool {
    match json_bool(v) {
        Some(b) => b,
        None => d,
    }
}

/// How a sender is shown: `Me` for node 0 (this node), else `0x` and at least eight
/// uppercase hexadecimal digits.
pub open spec fn sender_label(sender: u64) -> Seq<char> {
    if sender == 0 {
        "Me"@
    } else {
        "0x"@ + hex_width8(sender as nat)
    }
}

/// The message that a message object describes, under id `id`.
pub open spec fn message_from(p: JsonValue, id: Seq<char>) -> EventView {
    let sender = u64_or(json_get(p, "sender_node_id"@), 0);
    EventView::MessageReceived(
        MessageView {
            id,
            convo_id: str_or(json_get(p, "convo_id"@), "#all"@),
            sender: sender_label(sender),
            text: str_or(json_get(p, "text"@), ""@),
            timestamp: clock_label(i64_or(json_get(p, "timestamp"@), 0) as int),
            status: str_or(json_get(p, "status"@), "*"@),
            is_outgoing: sender == 0,
            sender_color: sender_color(sender_label(sender), sender == 0),
        },
    )
}

/// The roster entry that a contact object describes.
pub open spec fn station_from(p: JsonValue) -> EventView {
    EventView::StationDiscovered(
        hex_node_label(u64_or(json_get(p, "node_id"@), 0) as u32),
        str_or(json_get(p, "alias"@), ""@),
        dec_string(i64_or(json_get(p, "rssi"@), -80i64) as i16 as int) + " dBm"@,
        "LQI "@ + dec_string(u64_or(json_get(p, "lqi"@), 150) as u8 as int),
        str_or(json_get(p, "trust_state"@), "unverified"@),
    )
}

/// The id given to a message notification without one: `m-`, its timestamp, `-` and a
/// counter.
pub open spec fn fallback_message_id(ts: i64, counter: u64) -> Seq<char> {
    "m-"@ + dec_string(ts as int) + "-"@ + dec_string(counter as int)
}

/// The events of a notification, and the fallback counter after it.
pub open spec fn notification_events(method: Seq<char>, p: JsonValue, counter: u64) -> (Seq<EventView>, u64) {
    if method == "rx_message"@ {
        match json_str(json_get(p, "id"@)) {
            Some(id) => (seq![message_from(p, id)], counter),
            None => (
                seq![message_from(p, fallback_message_id(i64_or(json_get(p, "timestamp"@), 0), counter))],
                if counter == u64::MAX { 0 } else { (counter + 1) as u64 },
            ),
        }
    } else if method == "node_discovered"@ {
        (seq![station_from(p)], counter)
    } else if method == "delivery_ack"@ {
        (
            seq![
                EventView::MessageStatusUpdated(
                    str_or(json_get(p, "message_id"@), ""@),
                    str_or(json_get(p, "status"@), "[OK]"@),
                ),
            ],
            counter,
        )
    } else if method == "telemetry_update"@ {
        (
            seq![
                EventView::TelemetryUpdated(
                    str_or(json_get(p, "node_id"@), "0xBEBD82B4"@),
                    str_or(json_get(p, "storage_mode"@), "SD ACTIVE"@),
                    "SRAM: 40/256 KB"@,
                    i64_or(json_get(p, "tx_packets"@), 0) as i32,
                    i64_or(json_get(p, "rx_packets"@), 0) as i32,
                    15,
                    i64_or(json_get(p, "lqi"@), 200) as i32,
                    "CONNECTED"@,
                ),
            ],
            counter,
        )
    } else {
        (Seq::empty(), counter)
    }
}

/// The event of one item of an answer's list: a contact, a message, or nothing.
pub open spec fn item_events(item: JsonValue) -> Seq<EventView> {
    if json_get(item, "node_id"@) is Some {
        seq![station_from(item)]
    } else if json_get(item, "text"@) is Some {
        seq![message_from(item, str_or(json_get(item, "id"@), ""@))]
    } else {
        Seq::empty()
    }
}

/// The events of a list of items, in order.
pub open spec fn items_events(items: Seq<JsonValue>) -> Seq<EventView>
    decreases items.len(),
{
    if items.len() == 0 {
        Seq::empty()
    } else {
        items_events(items.drop_last()) + item_events(items.last())
    }
}

/// The event of a status answer: its node id (`local_node_id`, else `node_id`), its
/// storage mode (`storage_mode`, else `dongle_mode`) and whether a dongle is attached.
pub open spec fn status_events(obj: JsonValue) -> Seq<EventView> {
    let id = match json_get(obj, "local_node_id"@) {
        Some(v) => Some(v),
        None => json_get(obj, "node_id"@),
    };
    match id {
        None => Seq::empty(),
        Some(v) => {
            let mode = match json_get(obj, "storage_mode"@) {
                Some(m) => Some(m),
                None => json_get(obj, "dongle_mode"@),
            };
            seq![
                EventView::TelemetryUpdated(
                    str_or(Some(v), "0xBEBD82B4"@),
                    str_or(mode, "SD ACTIVE"@),
                    "SRAM: 40/256 KB"@,
                    0,
                    0,
                    15,
                    200,
                    if bool_or(json_get(obj, "dongle_attached"@), true) { "CONNECTED"@ } else { "NO DONGLE"@ },
                ),
            ]
        },
    }
}

/// The events of an answer's result.
pub open spec fn response_events(result: Option<JsonValue>) -> Seq<EventView> {
    match result {
        Some(JsonValue::Object(m)) => status_events(JsonValue::Object(m)),
        Some(JsonValue::Array(items)) => items_events(items@),
        _ => Seq::empty(),
    }
}

/// The events of a frame from the daemon, and the fallback counter after it.
pub open spec fn inbound_events_of(msg: InboundMessage, counter: u64) -> (Seq<EventView>, u64) {
    match msg {
        InboundMessage::Notification { method, params } => notification_events(method@, params, counter),
        InboundMessage::Response { result } => (response_events(result), counter),
        InboundMessage::Unrecognized => (Seq::empty(), counter),
    }
}

fn string_or(v: Option<&JsonValue>, d: &str) -> (r: String)
    ensures
        r@ == str_or(opt_val(v), d@),
{
    match as_str(v) {
        Some(s) => s.to_owned(),
        None => d.to_owned(),
    }
}

fn u64_or_default(v: Option<&JsonValue>, d: u64) -> (r: u64)
    ensures
        r == u64_or(opt_val(v), d),
{
    match as_u64(v) {
        Some(n) => n,
        None => d,
    }
}

fn i64_or_default(v: Option<&JsonValue>, d: i64) -> (r: i64)
    ensures
        r == i64_or(opt_val(v), d),
{
    match as_i64(v) {
        Some(n) => n,
        None => d,
    }
}

fn label_of_sender(sender: u64) -> (r: String)
    ensures
        r@ == sender_label(sender),
{
    if sender == 0 {
        "Me".to_owned()
    } else {
        let mut cs: Vec<char> = Vec::new();
        push_str(&mut cs, "0x");
        push_hex_width8(&mut cs, sender);
        string_from_chars(cs.as_slice())
    }
}

fn message_event(p: &JsonValue, id: String) -> (r: UiEvent)
    ensures
        event_view(r) == message_from(*p, id@),
{
    let sender = u64_or_default(p.get("sender_node_id"), 0);
    let label = label_of_sender(sender);
    let color = derive_sender_color(label.as_str(), sender == 0);
    UiEvent::MessageReceived(
        ChatMessageItem {
            id,
            convo_id: string_or(p.get("convo_id"), "#all"),
            sender: label,
            text: string_or(p.get("text"), ""),
            timestamp: format_ts(i64_or_default(p.get("timestamp"), 0)),
            status: string_or(p.get("status"), "*"),
            is_outgoing: sender == 0,
            sender_color: color,
        },
    )
}

fn station_event(p: &JsonValue) -> (r: UiEvent)
    ensures
        event_view(r) == station_from(*p),
{
    let node_id = #[verifier::truncate] (u64_or_default(p.get("node_id"), 0) as u32);
    let rssi = #[verifier::truncate] (i64_or_default(p.get("rssi"), -80) as i16);
    let lqi = #[verifier::truncate] (u64_or_default(p.get("lqi"), 150) as u8);
    let mut rssi_text: Vec<char> = Vec::new();
    push_decimal(&mut rssi_text, rssi as i64);
    push_str(&mut rssi_text, " dBm");
    let mut lqi_text: Vec<char> = Vec::new();
    push_str(&mut lqi_text, "LQI ");
    push_nat(&mut lqi_text, lqi as u64);
    UiEvent::StationDiscovered {
        node_id: direct_convo_id(node_id),
        alias: string_or(p.get("alias"), ""),
        rssi: string_from_chars(rssi_text.as_slice()),
        lqi: string_from_chars(lqi_text.as_slice()),
        trust_state: string_or(p.get("trust_state"), "unverified"),
    }
}

fn notification_to_events(method: &str, p: &JsonValue, counter: &mut u64) -> (r: Vec<UiEvent>)
    ensures
        r@.map_values(|e: UiEvent| event_view(e)) == notification_events(method@, *p, *old(counter)).0,
        *final(counter) == notification_events(method@, *p, *old(counter)).1,
{
    let mut out: Vec<UiEvent> = Vec::new();
    if str_eq(method, "rx_message") {
        let id = match as_str(p.get("id")) {
            Some(s) => s.to_owned(),
            None => {
                let ts = i64_or_default(p.get("timestamp"), 0);
                let c = *counter;
                *counter = c.wrapping_add(1);
                let mut cs: Vec<char> = Vec::new();
                push_str(&mut cs, "m-");
                push_decimal(&mut cs, ts);
                push_str(&mut cs, "-");
                push_nat(&mut cs, c);
                string_from_chars(cs.as_slice())
            },
        };
        out.push(message_event(p, id));
    } else if str_eq(method, "node_discovered") {
        out.push(station_event(p));
    } else if str_eq(method, "delivery_ack") {
        out.push(
            UiEvent::MessageStatusUpdated {
                id: string_or(p.get("message_id"), ""),
                status: string_or(p.get("status"), "[OK]"),
            },
        );
    } else if str_eq(method, "telemetry_update") {
        out.push(
            UiEvent::TelemetryUpdated {
                node_id: string_or(p.get("node_id"), "0xBEBD82B4"),
                storage_mode: string_or(p.get("storage_mode"), "SD ACTIVE"),
                storage_stats: "SRAM: 40/256 KB".to_owned(),
                tx: #[verifier::truncate] (i64_or_default(p.get("tx_packets"), 0) as i32),
                rx: #[verifier::truncate] (i64_or_default(p.get("rx_packets"), 0) as i32),
                channel: 15,
                avg_lqi: #[verifier::truncate] (i64_or_default(p.get("lqi"), 200) as i32),
                status: "CONNECTED".to_owned(),
            },
        );
    }
    assert(out@.map_values(|e: UiEvent| event_view(e)) =~= notification_events(method@, *p, *old(counter)).0);
    out
}

fn status_to_events(obj: &JsonValue) -> (r: Vec<UiEvent>)
    ensures
        r@.map_values(|e: UiEvent| event_view(e)) == status_events(*obj),
{
    let mut out: Vec<UiEvent> = Vec::new();
    let id = match obj.get("local_node_id") {
        Some(v) => Some(v),
        None => obj.get("node_id"),
    };
    if let Some(v) = id {
        let mode = match obj.get("storage_mode") {
            Some(m) => Some(m),
            None => obj.get("dongle_mode"),
        };
        let attached = match as_bool(obj.get("dongle_attached")) {
            Some(b) => b,
            None => true,
        };
        out.push(
            UiEvent::TelemetryUpdated {
                node_id: string_or(Some(v), "0xBEBD82B4"),
                storage_mode: string_or(mode, "SD ACTIVE"),
                storage_stats: "SRAM: 40/256 KB".to_owned(),
                tx: 0,
                rx: 0,
                channel: 15,
                avg_lqi: 200,
                status: if attached {
                    "CONNECTED".to_owned()
                } else {
                    "NO DONGLE".to_owned()
                },
            },
        );
    }
    assert(out@.map_values(|e: UiEvent| event_view(e)) =~= status_events(*obj));
    out
}

fn items_to_events(items: &Vec<JsonValue>) -> (r: Vec<UiEvent>)
    ensures
        r@.map_values(|e: UiEvent| event_view(e)) == items_events(items@),
{
    let mut out: Vec<UiEvent> = Vec::new();
    let n = items.len();
    let mut i: usize = 0;
    while i < n
        invariant
            n == items@.len(),
            i <= n,
            out@.map_values(|e: UiEvent| event_view(e)) == items_events(items@.take(i as int)),
        decreases n - i,
    {
        let item = &items[i];
        let ghost before = out@;
        if item.get("node_id").is_some() {
            out.push(station_event(item));
        } else if item.get("text").is_some() {
            let id = string_or(item.get("id"), "");
            out.push(message_event(item, id));
        }
        proof {
            assert(items@.take(i + 1).drop_last() =~= items@.take(i as int));
            assert(items@.take(i + 1).last() == items@[i as int]);
            assert(out@.map_values(|e: UiEvent| event_view(e)) =~= before.map_values(|e: UiEvent| event_view(e))
                + item_events(items@[i as int]));
        }
        i = i + 1;
    }
    assert(items@.take(n as int) =~= items@);
    out
}

/// The UI events of a frame from the daemon. A message notification without an id takes
/// one from the fallback counter, which then moves on (wrapping).
pub fn inbound_events(msg: &InboundMessage, fallback_counter: &mut u64) -> (r: Vec<UiEvent>)
    ensures
        r@.map_values(|e: UiEvent| event_view(e)) == inbound_events_of(*msg, *old(fallback_counter)).0,
        *final(fallback_counter) == inbound_events_of(*msg, *old(fallback_counter)).1,
{
    match msg {
        InboundMessage::Notification { method, params } => notification_to_events(method.as_str(), params, fallback_counter),
        InboundMessage::Response { result } => match result {
            Some(v) => match v {
                JsonValue::Object(_) => status_to_events(v),
                JsonValue::Array(items) => items_to_events(items),
                _ => Vec::new(),
            },
            None => Vec::new(),
        },
        InboundMessage::Unrecognized => Vec::new(),
    }
}

/// A message notification that the daemon sends is shown as that message: its id,
/// conversation, text, status, time of day, and its sender (`Me` for this node).
pub proof fn lemma_rx_message_shown(
    p: JsonValue,
    id: Seq<char>,
    convo_id: Seq<char>,
    sender_node_id: u32,
    text: Seq<char>,
    timestamp: i64,
    status: Seq<char>,
    counter: u64,
)
    requires
        is_rx_message(p, id, convo_id, sender_node_id, text, timestamp, status),
    ensures
        notification_events("rx_message"@, p, counter) == (
            seq![
                EventView::MessageReceived(
                    MessageView {
                        id,
                        convo_id,
                        sender: sender_label(sender_node_id as u64),
                        text,
                        timestamp: clock_label(timestamp as int),
                        status,
                        is_outgoing: sender_node_id == 0,
                        sender_color: sender_color(sender_label(sender_node_id as u64), sender_node_id == 0),
                    },
                ),
            ],
            counter,
        ),
{
}

/// A discovery notification that the daemon sends is shown as that station: its label,
/// alias, signal strength, link quality and trust state.
pub proof fn lemma_node_discovered_shown(
    p: JsonValue,
    node_id: u32,
    alias: Seq<char>,
    trust_state: Seq<char>,
    rssi: i16,
    lqi: u8,
    counter: u64,
)
    requires
        is_node_discovered(p, node_id, alias, trust_state, rssi, lqi),
    ensures
        notification_events("node_discovered"@, p, counter) == (
            seq![
                EventView::StationDiscovered(
                    hex_node_label(node_id),
                    alias,
                    dec_string(rssi as int) + " dBm"@,
                    "LQI "@ + dec_string(lqi as int),
                    trust_state,
                ),
            ],
            counter,
        ),
{
    reveal_strlit("rx_message");
    reveal_strlit("node_discovered");
    assert("rx_message"@.len() != "node_discovered"@.len());
}

/// A delivery notification that the daemon sends is shown as that message's new status.
pub proof fn lemma_delivery_ack_shown(p: JsonValue, message_id: Seq<char>, status: Seq<char>, counter: u64)
    requires
        is_delivery_ack(p, message_id, status),
    ensures
        notification_events("delivery_ack"@, p, counter) == (
            seq![EventView::MessageStatusUpdated(message_id, status)],
            counter,
        ),
{
    reveal_strlit("rx_message");
    reveal_strlit("node_discovered");
    reveal_strlit("delivery_ack");
    assert("rx_message"@.len() != "delivery_ack"@.len());
    assert("node_discovered"@.len() != "delivery_ack"@.len());
}

/// A telemetry notification that the daemon sends about its own dongle is shown in the
/// status panel: the node's label, its storage mode and packet counts, and the link
/// quality.
pub proof fn lemma_telemetry_shown(
    p: JsonValue,
    node_label: Seq<char>,
    storage_mode: Seq<char>,
    rx_packets: u32,
    tx_packets: u32,
    lqi: u8,
    rssi: i8,
    counter: u64,
)
    requires
        is_telemetry_update(p, node_label, storage_mode, rx_packets, tx_packets, lqi, rssi),
    ensures
        notification_events("telemetry_update"@, p, counter) == (
            seq![
                EventView::TelemetryUpdated(
                    node_label,
                    storage_mode,
                    "SRAM: 40/256 KB"@,
                    (tx_packets as i64) as i32,
                    (rx_packets as i64) as i32,
                    15,
                    lqi as i32,
                    "CONNECTED"@,
                ),
            ],
            counter,
        ),
{
    reveal_strlit("rx_message");
    reveal_strlit("node_discovered");
    reveal_strlit("delivery_ack");
    reveal_strlit("telemetry_update");
    assert("rx_message"@.len() != "telemetry_update"@.len());
    assert("node_discovered"@.len() != "telemetry_update"@.len());
    assert("delivery_ack"@.len() != "telemetry_update"@.len());
}

/// The daemon's answer to `status` is shown in the status panel: its node label and
/// storage mode, and whether a dongle is connected.
pub proof fn lemma_status_shown(p: JsonValue, node_label: Seq<char>, mode: Seq<char>, attached: bool)
    requires
        is_status_result(p, node_label, mode, attached),
    ensures
        response_events(Some(p)) == seq![
            EventView::TelemetryUpdated(
                node_label,
                mode,
                "SRAM: 40/256 KB"@,
                0,
                0,
                15,
                200,
                if attached { "CONNECTED"@ } else { "NO DONGLE"@ },
            ),
        ],
{
    assert(p is Object);
}

/// The parameters of a `send_swarm` request.
pub open spec fn is_send_swarm_request(p: JsonValue, text: Seq<char>) -> bool {
    &&& object_keys(p) == seq!["text"@]
    &&& json_str(json_get(p, "text"@)) == Some(text)
}

/// The parameters of a `send_dm` request: the recipient's label and the text.
pub open spec fn is_send_dm_request(p: JsonValue, dest_node_id: u32, text: Seq<char>) -> bool {
    &&& object_keys(p) == seq!["dest_node_id"@, "text"@]
    &&& json_str(json_get(p, "dest_node_id"@)) == Some(hex_node_label(dest_node_id))
    &&& json_str(json_get(p, "text"@)) == Some(text)
}

/// The parameters of a `verify_contact` request: the node's label and the trust asked for.
pub open spec fn is_verify_contact_request(p: JsonValue, node_id: u32, verified: bool) -> bool {
    &&& object_keys(p) == seq!["node_id"@, "verified"@]
    &&& json_str(json_get(p, "node_id"@)) == Some(hex_node_label(node_id))
    &&& json_bool(json_get(p, "verified"@)) == Some(verified)
}

/// The parameters of a `list_messages` request: the conversation and the page.
pub open spec fn is_list_messages_request(p: JsonValue, convo_id: Seq<char>, limit: usize, offset: usize) -> bool {
    &&& object_keys(p) == seq!["convo_id"@, "limit"@, "offset"@]
    &&& json_str(json_get(p, "convo_id"@)) == Some(convo_id)
    &&& json_get(p, "limit"@) == Some(JsonValue::Number(unsigned_number(limit as u64)))
    &&& json_get(p, "offset"@) == Some(JsonValue::Number(unsigned_number(offset as u64)))
}

/// The parameters of a `send_swarm` request.
pub fn send_swarm_request(text: &str) -> (r: JsonValue)
    ensures
        is_send_swarm_request(r, text@),
{
    let mut ms: Vec<JsonMember> = Vec::new();
    ms.push(json_member("text", json_text(text)));
    let r = JsonValue::Object(ms);
    proof {
        reveal_with_fuel(member_index, 2);
        assert(object_keys(r) =~= seq!["text"@]);
    }
    r
}

/// The parameters of a `send_dm` request.
pub fn send_dm_request(dest_node_id: u32, text: &str) -> (r: JsonValue)
    ensures
        is_send_dm_request(r, dest_node_id, text@),
{
    let label = direct_convo_id(dest_node_id);
    let mut ms: Vec<JsonMember> = Vec::new();
    ms.push(json_member("dest_node_id", json_text(label.as_str())));
    ms.push(json_member("text", json_text(text)));
    let r = JsonValue::Object(ms);
    proof {
        reveal_strlit("dest_node_id");
        reveal_strlit("text");
        reveal_with_fuel(member_index, 3);
        assert(object_keys(r) =~= seq!["dest_node_id"@, "text"@]);
        assert("dest_node_id"@.len() == 12);
        assert("text"@.len() == 4);
        assert(ms@[0].key@ == "dest_node_id"@);
        assert(ms@[1].key@ == "text"@);
    }
    r
}

/// The parameters of a `verify_contact` request.
pub fn verify_contact_request(node_id: u32, verified: bool) -> (r: JsonValue)
    ensures
        is_verify_contact_request(r, node_id, verified),
{
    let label = direct_convo_id(node_id);
    let mut ms: Vec<JsonMember> = Vec::new();
    ms.push(json_member("node_id", json_text(label.as_str())));
    ms.push(json_member("verified", json_flag(verified)));
    let r = JsonValue::Object(ms);
    proof {
        reveal_strlit("node_id");
        reveal_strlit("verified");
        reveal_with_fuel(member_index, 3);
        assert(object_keys(r) =~= seq!["node_id"@, "verified"@]);
        assert("node_id"@.len() == 7);
        assert("verified"@.len() == 8);
        assert(ms@[0].key@ == "node_id"@);
        assert(ms@[1].key@ == "verified"@);
    }
    r
}

/// The parameters of a `list_messages` request.
pub fn list_messages_request(convo_id: &str, limit: usize, offset: usize) -> (r: JsonValue)
    ensures
        is_list_messages_request(r, convo_id@, limit, offset),
{
    let mut ms: Vec<JsonMember> = Vec::new();
    ms.push(json_member("convo_id", json_text(convo_id)));
    ms.push(json_member("limit", json_unsigned(limit as u64)));
    ms.push(json_member("offset", json_unsigned(offset as u64)));
    let r = JsonValue::Object(ms);
    proof {
        reveal_strlit("convo_id");
        reveal_strlit("limit");
        reveal_strlit("offset");
        reveal_with_fuel(member_index, 4);
        assert(object_keys(r) =~= seq!["convo_id"@, "limit"@, "offset"@]);
        assert("convo_id"@.len() == 8);
        assert("limit"@.len() == 5);
        assert("offset"@.len() == 6);
        assert(ms@[0].key@ == "convo_id"@);
        assert(ms@[1].key@ == "limit"@);
        assert(ms@[2].key@ == "offset"@);
    }
    r
}

proof fn lemma_method_names_differ()
    ensures
        "send_swarm"@ != "status"@,
        "send_swarm"@ != "version"@,
        "send_swarm"@ != "send_dm"@,
        "send_dm"@ != "status"@,
        "send_dm"@ != "version"@,
        "verify_contact"@ != "status"@,
        "verify_contact"@ != "version"@,
        "verify_contact"@ != "send_dm"@,
        "verify_contact"@ != "send_swarm"@,
        "verify_contact"@ != "list_contacts"@,
        "list_messages"@ != "status"@,
        "list_messages"@ != "version"@,
        "list_messages"@ != "send_dm"@,
        "list_messages"@ != "send_swarm"@,
        "list_messages"@ != "list_contacts"@,
        "list_messages"@ != "verify_contact"@,
{
    reveal_strlit("status");
    reveal_strlit("version");
    reveal_strlit("send_dm");
    reveal_strlit("send_swarm");
    reveal_strlit("list_contacts");
    reveal_strlit("verify_contact");
    reveal_strlit("list_messages");
    assert("status"@.len() == 6);
    assert("version"@.len() == 7);
    assert("send_dm"@.len() == 7);
    assert("send_swarm"@.len() == 10);
    assert("list_contacts"@.len() == 13);
    assert("verify_contact"@.len() == 14);
    assert("list_messages"@.len() == 13);
    assert("send_dm"@[0] != "version"@[0]);
    assert("list_messages"@[5] != "list_contacts"@[5]);
}

/// A broadcast the client sends is routed by the daemon as a broadcast of that text.
pub proof fn lemma_send_swarm_routed(p: JsonValue, text: Seq<char>)
    requires
        is_send_swarm_request(p, text),
    ensures
        rpc_plan("send_swarm"@, Some(p)) == RpcPlan::SendSwarm(text),
{
    lemma_method_names_differ();
}

/// A direct message the client sends is routed by the daemon to that recipient, with
/// that text.
pub proof fn lemma_send_dm_routed(p: JsonValue, dest_node_id: u32, text: Seq<char>)
    requires
        is_send_dm_request(p, dest_node_id, text),
    ensures
        rpc_plan("send_dm"@, Some(p)) == RpcPlan::SendDm(dest_node_id, text),
{
    lemma_method_names_differ();
    lemma_node_label_reads_back(dest_node_id);
}

/// A verification the client sends is routed by the daemon to that node, with the trust
/// asked for.
pub proof fn lemma_verify_contact_routed(p: JsonValue, node_id: u32, verified: bool)
    requires
        is_verify_contact_request(p, node_id, verified),
    ensures
        rpc_plan("verify_contact"@, Some(p)) == RpcPlan::VerifyContact(node_id, verified),
{
    lemma_method_names_differ();
    lemma_node_label_reads_back(node_id);
}

/// A history request the client sends is routed by the daemon to that conversation and
/// page.
pub proof fn lemma_list_messages_routed(p: JsonValue, convo_id: Seq<char>, limit: usize, offset: usize)
    requires
        is_list_messages_request(p, convo_id, limit, offset),
    ensures
        rpc_plan("list_messages"@, Some(p)) == RpcPlan::ListMessages(convo_id, limit, offset),
{
    lemma_method_names_differ();
}

/// The telemetry panel update the client shows when its link to the daemon comes up
/// (`connected`) or drops: the fixed local-node figures, link quality 200 or 0, and the
/// status `CONNECTED` or `DISCONNECTED`.
pub fn link_status_event(connected: bool) -> (r: UiEvent)
    ensures
        r matches UiEvent::TelemetryUpdated { node_id, storage_mode, storage_stats, tx, rx, channel, avg_lqi, status } && {
            &&& node_id@ == "0xBEBD82B4"@
            &&& storage_mode@ == "SD ACTIVE"@
            &&& storage_stats@ == "SRAM: 40/256 KB"@
            &&& tx == 0 && rx == 0 && channel == 15
            &&& avg_lqi == if connected { 200i32 } else { 0i32 }
            &&& status@ == if connected { "CONNECTED"@ } else { "DISCONNECTED"@ }
        },
{
    UiEvent::TelemetryUpdated {
        node_id: "0xBEBD82B4".to_string(),
        storage_mode: "SD ACTIVE".to_string(),
        storage_stats: "SRAM: 40/256 KB".to_string(),
        tx: 0,
        rx: 0,
        channel: 15,
        avg_lqi: if connected { 200 } else { 0 },
        status: if connected { "CONNECTED".to_string() } else { "DISCONNECTED".to_string() },
    }
}

} // verus!
