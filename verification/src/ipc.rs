//! The daemon's JSON-RPC methods: how a request's parameters are read and checked, and
//! the records a send produces.
use vstd::prelude::*;
use vstd::utf8::encode_utf8;
use vstd::string::StringSliceAdditionalSpecFns;
use crate::chat::{direct_convo_id, hex_node_label, upper_hex_digit};
use crate::controller::swarm_convo;
use crate::fleet::NodeTelemetry;
use crate::fmt::{dec_string, push_nat, push_str};
use crate::json::{
    as_bool, as_str, as_u64, json_bool, json_flag, json_get, json_member, json_signed, json_str, json_text, json_u64, json_unsigned,
    member_index, object_keys, opt_val, signed_number, unsigned_number, JsonMember, JsonValue,
};
use crate::lexer::{all_hex, hex_digit, hex_digits_value, hex_u32, hex_value, is_ws, parse_node_label, radix16, strip_hex_prefix};
use crate::schema::{MessageRecord, MessageStatus, OutboxRecord, OutboxStatus};
use crate::text::{str_eq, string_from_chars};

verus! {

/// JSON-RPC error code of invalid parameters.
pub const INVALID_PARAMS: i32 = -32602;
/// JSON-RPC error code of an unknown method.
pub const METHOD_NOT_FOUND: i32 = -32601;
/// JSON-RPC error code of a request that is not a JSON-RPC request.
pub const INVALID_REQUEST: i32 = -32600;

/// How long a queued direct message waits for its recipient, in seconds.
pub const DM_OUTBOX_TTL_SECS: u64 = 48 * 3600;

/// A message handed to the radio pipeline: its conversation, its recipient (none for a
/// swarm broadcast), its text and its id.
#[derive(Debug, Clone, PartialEq, Eq)]
pub struct OutboundMeshMessage {
    pub convo_id: String,
    pub dest_node_id: Option<u32>,
    pub text: String,
    pub message_id: String,
}

/// A request whose parameters passed their checks.
#[derive(Debug, Clone, PartialEq, Eq)]
pub enum RpcCall {
    Status,
    Version,
    SendDm { dest_node_id: u32, text: String },
    SendSwarm { text: String },
    ListContacts,
    VerifyContact { node_id: u32, verified: bool },
    ListMessages { convo_id: String, limit: usize, offset: usize },
}

/// A JSON-RPC error answer.
#[derive(Debug, Clone, PartialEq, Eq)]
pub struct RpcError {
    pub code: i32,
    pub message: String,
}

/// What a request comes to, with texts as character sequences.
pub enum RpcPlan {
    Status,
    Version,
    SendDm(u32, Seq<char>),
    SendSwarm(Seq<char>),
    ListContacts,
    VerifyContact(u32, bool),
    ListMessages(Seq<char>, usize, usize),
    Reject(i32, Seq<char>),
}

/// The plan that a routing result stands for.
pub open spec fn plan_of(r: Result<RpcCall, RpcError>) -> RpcPlan {
    match r {
        Ok(RpcCall::Status) => RpcPlan::Status,
        Ok(RpcCall::Version) => RpcPlan::Version,
        Ok(RpcCall::SendDm { dest_node_id, text }) => RpcPlan::SendDm(dest_node_id, text@),
        Ok(RpcCall::SendSwarm { text }) => RpcPlan::SendSwarm(text@),
        Ok(RpcCall::ListContacts) => RpcPlan::ListContacts,
        Ok(RpcCall::VerifyContact { node_id, verified }) => RpcPlan::VerifyContact(node_id, verified),
        Ok(RpcCall::ListMessages { convo_id, limit, offset }) => RpcPlan::ListMessages(convo_id@, limit, offset),
        Err(e) => RpcPlan::Reject(e.code, e.message@),
    }
}

/// A node id parameter: a number (its low 32 bits) or a node label (`0x` prefixes
/// stripped, radix 16, 0 when unreadable); `None` for any other JSON value.
pub open spec fn node_id_param(v: JsonValue) -> Option<u32> {
    match json_u64(Some(v)) {
        Some(n) => Some(n as u32),
        None => match json_str(Some(v)) {
            Some(s) => Some(
                match hex_u32(strip_hex_prefix(s)) {
                    Some(x) => x,
                    None => 0,
                },
            ),
            None => None,
        },
    }
}

/// The rejection of a request.
pub open spec fn reject(msg: Seq<char>) -> RpcPlan {
    RpcPlan::Reject(INVALID_PARAMS, msg)
}

/// The plan of a `send_dm` request.
pub open spec fn send_dm_plan(params: Option<JsonValue>) -> RpcPlan {
    match params {
        None => reject("Missing params for send_dm"@),
        Some(p) => match json_get(p, "dest_node_id"@) {
            None => reject("dest_node_id required for send_dm"@),
            Some(d) => match node_id_param(d) {
                None => reject("Invalid dest_node_id in send_dm"@),
                Some(dest) => match json_str(json_get(p, "text"@)) {
                    None => reject("text required for send_dm"@),
                    Some(t) => RpcPlan::SendDm(dest, t),
                },
            },
        },
    }
}

/// The plan of a `send_swarm` request.
pub open spec fn send_swarm_plan(params: Option<JsonValue>) -> RpcPlan {
    match params {
        None => reject("Missing params for send_swarm"@),
        Some(p) => match json_str(json_get(p, "text"@)) {
            None => reject("text required for send_swarm"@),
            Some(t) => RpcPlan::SendSwarm(t),
        },
    }
}

/// The plan of a `verify_contact` request; `verified` defaults to true.
pub open spec fn verify_contact_plan(params: Option<JsonValue>) -> RpcPlan {
    match params {
        None => reject("Missing params for verify_contact"@),
        Some(p) => match json_get(p, "node_id"@) {
            None => reject("node_id required for verify_contact"@),
            Some(d) => match node_id_param(d) {
                None => reject("Invalid node_id in verify_contact"@),
                Some(id) => RpcPlan::VerifyContact(
                    id,
                    match json_bool(json_get(p, "verified"@)) {
                        Some(b) => b,
                        None => true,
                    },
                ),
            },
        },
    }
}

/// The plan of a `list_messages` request; the page defaults to 50 messages from 0.
pub open spec fn list_messages_plan(params: Option<JsonValue>) -> RpcPlan {
    match params {
        None => reject("Missing params for list_messages"@),
        Some(p) => match json_str(json_get(p, "convo_id"@)) {
            None => reject("convo_id required for list_messages"@),
            Some(c) => RpcPlan::ListMessages(
                c,
                match json_u64(json_get(p, "limit"@)) {
                    Some(l) => l as usize,
                    None => 50,
                },
                match json_u64(json_get(p, "offset"@)) {
                    Some(o) => o as usize,
                    None => 0,
                },
            ),
        },
    }
}

/// The plan of a request for `method` with these parameters.
pub open spec fn rpc_plan(method: Seq<char>, params: Option<JsonValue>) -> RpcPlan {
    if method == "status"@ {
        RpcPlan::Status
    } else if method == "version"@ {
        RpcPlan::Version
    } else if method == "send_dm"@ {
        send_dm_plan(params)
    } else if method == "send_swarm"@ {
        send_swarm_plan(params)
    } else if method == "list_contacts"@ {
        RpcPlan::ListContacts
    } else if method == "verify_contact"@ {
        verify_contact_plan(params)
    } else if method == "list_messages"@ {
        list_messages_plan(params)
    } else {
        RpcPlan::Reject(METHOD_NOT_FOUND, "Method not found: '"@ + method + "'"@)
    }
}

fn invalid(msg: &str) -> (r: Result<RpcCall, RpcError>)
    ensures
        plan_of(r) == reject(msg@),
{
    Err(RpcError { code: INVALID_PARAMS, message: msg.to_owned() })
}

fn read_node_id(v: &JsonValue) -> (r: Option<u32>)
    ensures
        r == node_id_param(*v),
{
    match as_u64(Some(v)) {
        Some(n) => Some(n as u32),
        None => match as_str(Some(v)) {
            Some(s) => Some(
                match parse_node_label(s) {
                    Some(x) => x,
                    None => 0,
                },
            ),
            None => None,
        },
    }
}

fn route_send_dm(params: Option<&JsonValue>) -> (r: Result<RpcCall, RpcError>)
    ensures
        plan_of(r) == send_dm_plan(opt_val(params)),
{
    let p = match params {
        Some(p) => p,
        None => return invalid("Missing params for send_dm"),
    };
    let dest = match p.get("dest_node_id") {
        Some(d) => match read_node_id(d) {
            Some(x) => x,
            None => return invalid("Invalid dest_node_id in send_dm"),
        },
        None => return invalid("dest_node_id required for send_dm"),
    };
    let text = match as_str(p.get("text")) {
        Some(t) => t.to_owned(),
        None => return invalid("text required for send_dm"),
    };
    Ok(RpcCall::SendDm { dest_node_id: dest, text })
}

fn route_send_swarm(params: Option<&JsonValue>) -> (r: Result<RpcCall, RpcError>)
    ensures
        plan_of(r) == send_swarm_plan(opt_val(params)),
{
    let p = match params {
        Some(p) => p,
        None => return invalid("Missing params for send_swarm"),
    };
    let text = match as_str(p.get("text")) {
        Some(t) => t.to_owned(),
        None => return invalid("text required for send_swarm"),
    };
    Ok(RpcCall::SendSwarm { text })
}

fn route_verify_contact(params: Option<&JsonValue>) -> (r: Result<RpcCall, RpcError>)
    ensures
        plan_of(r) == verify_contact_plan(opt_val(params)),
{
    let p = match params {
        Some(p) => p,
        None => return invalid("Missing params for verify_contact"),
    };
    let node_id = match p.get("node_id") {
        Some(d) => match read_node_id(d) {
            Some(x) => x,
            None => return invalid("Invalid node_id in verify_contact"),
        },
        None => return invalid("node_id required for verify_contact"),
    };
    let verified = match as_bool(p.get("verified")) {
        Some(b) => b,
        None => true,
    };
    Ok(RpcCall::VerifyContact { node_id, verified })
}

fn route_list_messages(params: Option<&JsonValue>) -> (r: Result<RpcCall, RpcError>)
    ensures
        plan_of(r) == list_messages_plan(opt_val(params)),
{
    let p = match params {
        Some(p) => p,
        None => return invalid("Missing params for list_messages"),
    };
    let convo_id = match as_str(p.get("convo_id")) {
        Some(c) => c.to_owned(),
        None => return invalid("convo_id required for list_messages"),
    };
    let limit = match as_u64(p.get("limit")) {
        Some(l) => l as usize,
        None => 50,
    };
    let offset = match as_u64(p.get("offset")) {
        Some(o) => o as usize,
        None => 0,
    };
    Ok(RpcCall::ListMessages { convo_id, limit, offset })
}

/// Reads and checks a request: the method picks the call, and a missing or ill-typed
/// parameter is an invalid-params error naming it; an unknown method is method-not-found.
pub fn route_rpc(method: &str, params: Option<&JsonValue>) -> (r: Result<RpcCall, RpcError>)
    ensures
        plan_of(r) == rpc_plan(method@, opt_val(params)),
{
    if str_eq(method, "status") {
        Ok(RpcCall::Status)
    } else if str_eq(method, "version") {
        Ok(RpcCall::Version)
    } else if str_eq(method, "send_dm") {
        route_send_dm(params)
    } else if str_eq(method, "send_swarm") {
        route_send_swarm(params)
    } else if str_eq(method, "list_contacts") {
        Ok(RpcCall::ListContacts)
    } else if str_eq(method, "verify_contact") {
        route_verify_contact(params)
    } else if str_eq(method, "list_messages") {
        route_list_messages(params)
    } else {
        let mut cs: Vec<char> = Vec::new();
        push_str(&mut cs, "Method not found: '");
        push_str(&mut cs, method);
        push_str(&mut cs, "'");
        Err(RpcError { code: METHOD_NOT_FOUND, message: string_from_chars(cs.as_slice()) })
    }
}

/// The daemon's node id as the status answer gives it: `0x` and eight uppercase
/// hexadecimal digits, or `UNKNOWN` before the dongle has reported one.
pub fn node_hex_label(node_id: u32) -> (r: String)
    ensures
        r@ == if node_id != 0 { hex_node_label(node_id) } else { "UNKNOWN"@ },
{
    if node_id != 0 {
        direct_convo_id(node_id)
    } else {
        "UNKNOWN".to_owned()
    }
}

/// The id of an outgoing message: `dm-` or `swarm-` and the daemon's message counter.
pub fn outbound_message_id(direct: bool, counter: u64) -> (r: String)
    ensures
        r@ == (if direct { "dm-"@ } else { "swarm-"@ }) + dec_string(counter as int),
{
    let mut cs: Vec<char> = Vec::new();
    if direct {
        push_str(&mut cs, "dm-");
    } else {
        push_str(&mut cs, "swarm-");
    }
    push_nat(&mut cs, counter);
    string_from_chars(cs.as_slice())
}

/// The records a direct message is stored as: the message itself, queued in the
/// conversation with its recipient, and an outbox record that waits 48 hours for it.
pub fn direct_message_records(msg_id: &str, dest_node_id: u32, text: &str, now: i64) -> (r: (MessageRecord, OutboxRecord))
    ensures
        r.0.id@ == msg_id@,
        r.0.convo_id@ == hex_node_label(dest_node_id),
        r.0.sender_node_id == 0,
        r.0.timestamp == now,
        r.0.text@ == text@,
        r.0.status == MessageStatus::Queued,
        r.1.id@ == msg_id@,
        r.1.dest_node_id == dest_node_id,
        r.1.payload@ == encode_utf8(text@),
        r.1.queued_at == now,
        r.1.retry_count == 0,
        r.1.ttl_secs == DM_OUTBOX_TTL_SECS,
        r.1.status == OutboxStatus::Pending,
{
    let msg = MessageRecord {
        id: msg_id.to_owned(),
        convo_id: direct_convo_id(dest_node_id),
        sender_node_id: 0,
        timestamp: now,
        text: text.to_owned(),
        status: MessageStatus::Queued,
    };
    let mut payload: Vec<u8> = Vec::new();
    crate::bytes::push_all(&mut payload, text.as_bytes());
    let outbox = OutboxRecord {
        id: msg_id.to_owned(),
        dest_node_id,
        payload,
        queued_at: now,
        retry_count: 0,
        ttl_secs: DM_OUTBOX_TTL_SECS,
        status: OutboxStatus::Pending,
    };
    (msg, outbox)
}

/// The record a swarm broadcast is stored as: transmitted, in `#all`.
pub fn swarm_message_record(msg_id: &str, text: &str, now: i64) -> (r: MessageRecord)
    ensures
        r.id@ == msg_id@,
        r.convo_id@ == swarm_convo(),
        r.sender_node_id == 0,
        r.timestamp == now,
        r.text@ == text@,
        r.status == MessageStatus::Transmitted,
{
    let mut cs: Vec<char> = Vec::new();
    cs.push('#');
    cs.push('a');
    cs.push('l');
    cs.push('l');
    assert(cs@ =~= swarm_convo());
    MessageRecord {
        id: msg_id.to_owned(),
        convo_id: string_from_chars(cs.as_slice()),
        sender_node_id: 0,
        timestamp: now,
        text: text.to_owned(),
        status: MessageStatus::Transmitted,
    }
}

/// The parameters of an `rx_message` notification: the message's id, conversation,
/// sender, text, timestamp and status, in that order.
pub open spec fn is_rx_message(
    p: JsonValue,
    id: Seq<char>,
    convo_id: Seq<char>,
    sender_node_id: u32,
    text: Seq<char>,
    timestamp: i64,
    status: Seq<char>,
) -> bool {
    &&& object_keys(p) == seq!["id"@, "convo_id"@, "sender_node_id"@, "text"@, "timestamp"@, "status"@]
    &&& json_str(json_get(p, "id"@)) == Some(id)
    &&& json_str(json_get(p, "convo_id"@)) == Some(convo_id)
    &&& json_get(p, "sender_node_id"@) == Some(JsonValue::Number(unsigned_number(sender_node_id as u64)))
    &&& json_str(json_get(p, "text"@)) == Some(text)
    &&& json_get(p, "timestamp"@) == Some(JsonValue::Number(signed_number(timestamp)))
    &&& json_str(json_get(p, "status"@)) == Some(status)
}

/// The parameters of a `node_discovered` notification: the node, its alias, its trust
/// state and the signal it was heard with, in that order.
pub open spec fn is_node_discovered(
    p: JsonValue,
    node_id: u32,
    alias: Seq<char>,
    trust_state: Seq<char>,
    rssi: i16,
    lqi: u8,
) -> bool {
    &&& object_keys(p) == seq!["node_id"@, "alias"@, "trust_state"@, "rssi"@, "lqi"@]
    &&& json_get(p, "node_id"@) == Some(JsonValue::Number(unsigned_number(node_id as u64)))
    &&& json_str(json_get(p, "alias"@)) == Some(alias)
    &&& json_str(json_get(p, "trust_state"@)) == Some(trust_state)
    &&& json_get(p, "rssi"@) == Some(JsonValue::Number(signed_number(rssi as i64)))
    &&& json_get(p, "lqi"@) == Some(JsonValue::Number(unsigned_number(lqi as u64)))
}

/// The parameters of a `delivery_ack` notification: the message's id and its new status.
pub open spec fn is_delivery_ack(p: JsonValue, message_id: Seq<char>, status: Seq<char>) -> bool {
    &&& object_keys(p) == seq!["message_id"@, "status"@]
    &&& json_str(json_get(p, "message_id"@)) == Some(message_id)
    &&& json_str(json_get(p, "status"@)) == Some(status)
}

/// The parameters of an `rx_message` notification.
pub fn rx_message_params(
    id: &str,
    convo_id: &str,
    sender_node_id: u32,
    text: &str,
    timestamp: i64,
    status: &str,
) -> (r: JsonValue)
    ensures
        is_rx_message(r, id@, convo_id@, sender_node_id, text@, timestamp, status@),
{
    let mut ms: Vec<JsonMember> = Vec::new();
    ms.push(json_member("id", json_text(id)));
    ms.push(json_member("convo_id", json_text(convo_id)));
    ms.push(json_member("sender_node_id", json_unsigned(sender_node_id as u64)));
    ms.push(json_member("text", json_text(text)));
    ms.push(json_member("timestamp", json_signed(timestamp)));
    ms.push(json_member("status", json_text(status)));
    let r = JsonValue::Object(ms);
    proof {
        reveal_strlit("id");
        reveal_strlit("convo_id");
        reveal_strlit("sender_node_id");
        reveal_strlit("text");
        reveal_strlit("timestamp");
        reveal_strlit("status");
        reveal_with_fuel(member_index, 7);
        assert(object_keys(r) =~= seq!["id"@, "convo_id"@, "sender_node_id"@, "text"@, "timestamp"@, "status"@]);
        assert("id"@.len() == 2);
        assert("convo_id"@.len() == 8);
        assert("sender_node_id"@.len() == 14);
        assert("text"@.len() == 4);
        assert("timestamp"@.len() == 9);
        assert("status"@.len() == 6);
        assert(ms@[0].key@ == "id"@);
        assert(ms@[1].key@ == "convo_id"@);
        assert(ms@[2].key@ == "sender_node_id"@);
        assert(ms@[3].key@ == "text"@);
        assert(ms@[4].key@ == "timestamp"@);
        assert(ms@[5].key@ == "status"@);
        assert(is_rx_message(r, id@, convo_id@, sender_node_id, text@, timestamp, status@));
    }
    r
}

/// The parameters of a `node_discovered` notification.
pub fn node_discovered_params(node_id: u32, alias: &str, trust_state: &str, rssi: i16, lqi: u8) -> (r: JsonValue)
    ensures
        is_node_discovered(r, node_id, alias@, trust_state@, rssi, lqi),
{
    let mut ms: Vec<JsonMember> = Vec::new();
    ms.push(json_member("node_id", json_unsigned(node_id as u64)));
    ms.push(json_member("alias", json_text(alias)));
    ms.push(json_member("trust_state", json_text(trust_state)));
    ms.push(json_member("rssi", json_signed(rssi as i64)));
    ms.push(json_member("lqi", json_unsigned(lqi as u64)));
    let r = JsonValue::Object(ms);
    proof {
        reveal_strlit("node_id");
        reveal_strlit("alias");
        reveal_strlit("trust_state");
        reveal_strlit("rssi");
        reveal_strlit("lqi");
        reveal_with_fuel(member_index, 6);
        assert(object_keys(r) =~= seq!["node_id"@, "alias"@, "trust_state"@, "rssi"@, "lqi"@]);
        assert("node_id"@.len() == 7);
        assert("alias"@.len() == 5);
        assert("trust_state"@.len() == 11);
        assert("rssi"@.len() == 4);
        assert("lqi"@.len() == 3);
        assert(ms@[0].key@ == "node_id"@);
        assert(ms@[1].key@ == "alias"@);
        assert(ms@[2].key@ == "trust_state"@);
        assert(ms@[3].key@ == "rssi"@);
        assert(ms@[4].key@ == "lqi"@);
        assert(is_node_discovered(r, node_id, alias@, trust_state@, rssi, lqi));
    }
    r
}

/// The parameters of a `delivery_ack` notification.
pub fn delivery_ack_params(message_id: &str, status: &str) -> (r: JsonValue)
    ensures
        is_delivery_ack(r, message_id@, status@),
{
    let mut ms: Vec<JsonMember> = Vec::new();
    ms.push(json_member("message_id", json_text(message_id)));
    ms.push(json_member("status", json_text(status)));
    let r = JsonValue::Object(ms);
    proof {
        reveal_strlit("message_id");
        reveal_strlit("status");
        reveal_with_fuel(member_index, 3);
        assert(object_keys(r) =~= seq!["message_id"@, "status"@]);
        assert("message_id"@.len() == 10);
        assert("status"@.len() == 6);
        assert(ms@[0].key@ == "message_id"@);
        assert(ms@[1].key@ == "status"@);
        assert(is_delivery_ack(r, message_id@, status@));
    }
    r
}

/// The parameters of a `telemetry_update` notification: this node's label, its storage
/// mode, its packet counts and the signal it last heard, in that order.
pub open spec fn is_telemetry_update(
    p: JsonValue,
    node_label: Seq<char>,
    storage_mode: Seq<char>,
    rx_packets: u32,
    tx_packets: u32,
    lqi: u8,
    rssi: i8,
) -> bool {
    &&& object_keys(p) == seq!["node_id"@, "storage_mode"@, "rx_packets"@, "tx_packets"@, "lqi"@, "rssi"@]
    &&& json_str(json_get(p, "node_id"@)) == Some(node_label)
    &&& json_str(json_get(p, "storage_mode"@)) == Some(storage_mode)
    &&& json_get(p, "rx_packets"@) == Some(JsonValue::Number(unsigned_number(rx_packets as u64)))
    &&& json_get(p, "tx_packets"@) == Some(JsonValue::Number(unsigned_number(tx_packets as u64)))
    &&& json_get(p, "lqi"@) == Some(JsonValue::Number(unsigned_number(lqi as u64)))
    &&& json_get(p, "rssi"@) == Some(JsonValue::Number(signed_number(rssi as i64)))
}

/// The parameters of a `telemetry_update` notification about this node's own dongle.
pub fn telemetry_update_params(local_node_id: u32, t: &NodeTelemetry) -> (r: JsonValue)
    ensures
        is_telemetry_update(r, hex_node_label(local_node_id), t.storage_mode@, t.rx_count, t.tx_count, t.lqi, t.rssi),
{
    let label = direct_convo_id(local_node_id);
    let mut ms: Vec<JsonMember> = Vec::new();
    ms.push(json_member("node_id", json_text(label.as_str())));
    ms.push(json_member("storage_mode", json_text(t.storage_mode.as_str())));
    ms.push(json_member("rx_packets", json_unsigned(t.rx_count as u64)));
    ms.push(json_member("tx_packets", json_unsigned(t.tx_count as u64)));
    ms.push(json_member("lqi", json_unsigned(t.lqi as u64)));
    ms.push(json_member("rssi", json_signed(t.rssi as i64)));
    let r = JsonValue::Object(ms);
    proof {
        reveal_strlit("node_id");
        reveal_strlit("storage_mode");
        reveal_strlit("rx_packets");
        reveal_strlit("tx_packets");
        reveal_strlit("lqi");
        reveal_strlit("rssi");
        reveal_with_fuel(member_index, 7);
        assert(object_keys(r) =~= seq!["node_id"@, "storage_mode"@, "rx_packets"@, "tx_packets"@, "lqi"@, "rssi"@]);
        assert("node_id"@.len() == 7);
        assert("storage_mode"@.len() == 12);
        assert("rx_packets"@.len() == 10);
        assert("tx_packets"@.len() == 10);
        assert("rx_packets"@[0] != "tx_packets"@[0]);
        assert("lqi"@.len() == 3);
        assert("rssi"@.len() == 4);
        assert(ms@[0].key@ == "node_id"@);
        assert(ms@[1].key@ == "storage_mode"@);
        assert(ms@[2].key@ == "rx_packets"@);
        assert(ms@[3].key@ == "tx_packets"@);
        assert(ms@[4].key@ == "lqi"@);
        assert(ms@[5].key@ == "rssi"@);
        assert(is_telemetry_update(r, hex_node_label(local_node_id), t.storage_mode@, t.rx_count, t.tx_count, t.lqi, t.rssi));
    }
    r
}

/// The answer to `status`: connected, whether a dongle is attached, the storage mode
/// (under two names) and this node's label (under two names), with the mesh active.
pub open spec fn is_status_result(p: JsonValue, node_label: Seq<char>, mode: Seq<char>, attached: bool) -> bool {
    &&& object_keys(p) == seq![
        "status"@,
        "dongle_attached"@,
        "dongle_mode"@,
        "storage_mode"@,
        "local_node_id"@,
        "node_id"@,
        "mesh_active"@,
    ]
    &&& json_str(json_get(p, "status"@)) == Some("connected"@)
    &&& json_bool(json_get(p, "dongle_attached"@)) == Some(attached)
    &&& json_str(json_get(p, "dongle_mode"@)) == Some(mode)
    &&& json_str(json_get(p, "storage_mode"@)) == Some(mode)
    &&& json_str(json_get(p, "local_node_id"@)) == Some(node_label)
    &&& json_str(json_get(p, "node_id"@)) == Some(node_label)
    &&& json_bool(json_get(p, "mesh_active"@)) == Some(true)
}

/// The answer to `status` for the daemon's node id, storage mode and dongle.
pub fn status_result(node_id: u32, mode: &str, attached: bool) -> (r: JsonValue)
    ensures
        is_status_result(r, if node_id != 0 { hex_node_label(node_id) } else { "UNKNOWN"@ }, mode@, attached),
{
    let label = node_hex_label(node_id);
    let mut ms: Vec<JsonMember> = Vec::new();
    ms.push(json_member("status", json_text("connected")));
    ms.push(json_member("dongle_attached", json_flag(attached)));
    ms.push(json_member("dongle_mode", json_text(mode)));
    ms.push(json_member("storage_mode", json_text(mode)));
    ms.push(json_member("local_node_id", json_text(label.as_str())));
    ms.push(json_member("node_id", json_text(label.as_str())));
    ms.push(json_member("mesh_active", json_flag(true)));
    let r = JsonValue::Object(ms);
    proof {
        reveal_strlit("status");
        reveal_strlit("dongle_attached");
        reveal_strlit("dongle_mode");
        reveal_strlit("storage_mode");
        reveal_strlit("local_node_id");
        reveal_strlit("node_id");
        reveal_strlit("mesh_active");
        reveal_with_fuel(member_index, 8);
        assert(object_keys(r) =~= seq![
            "status"@,
            "dongle_attached"@,
            "dongle_mode"@,
            "storage_mode"@,
            "local_node_id"@,
            "node_id"@,
            "mesh_active"@,
        ]);
        assert("status"@.len() == 6);
        assert("dongle_attached"@.len() == 15);
        assert("dongle_mode"@.len() == 11);
        assert("storage_mode"@.len() == 12);
        assert("local_node_id"@.len() == 13);
        assert("node_id"@.len() == 7);
        assert("mesh_active"@.len() == 11);
        assert("dongle_mode"@[0] != "mesh_active"@[0]);
        assert(ms@[0].key@ == "status"@);
        assert(ms@[1].key@ == "dongle_attached"@);
        assert(ms@[2].key@ == "dongle_mode"@);
        assert(ms@[3].key@ == "storage_mode"@);
        assert(ms@[4].key@ == "local_node_id"@);
        assert(ms@[5].key@ == "node_id"@);
        assert(ms@[6].key@ == "mesh_active"@);
        reveal_strlit("connected");
    }
    r
}

/// The answer to `version`.
pub fn version_result() -> (r: JsonValue)
    ensures
        object_keys(r) == seq!["version"@, "app"@],
        json_str(json_get(r, "version"@)) == Some("0.1.0"@),
        json_str(json_get(r, "app"@)) == Some("gibberishd"@),
{
    let mut ms: Vec<JsonMember> = Vec::new();
    ms.push(json_member("version", json_text("0.1.0")));
    ms.push(json_member("app", json_text("gibberishd")));
    let r = JsonValue::Object(ms);
    proof {
        reveal_strlit("version");
        reveal_strlit("app");
        reveal_with_fuel(member_index, 3);
        assert(object_keys(r) =~= seq!["version"@, "app"@]);
        assert("version"@.len() == 7);
        assert("app"@.len() == 3);
        assert(ms@[0].key@ == "version"@);
        assert(ms@[1].key@ == "app"@);
    }
    r
}

/// The answer to a send: the new message's id and its status (`queued` for a direct
/// message, `transmitted` for a swarm broadcast).
pub fn send_result(message_id: &str, status: &str) -> (r: JsonValue)
    ensures
        object_keys(r) == seq!["message_id"@, "status"@],
        json_str(json_get(r, "message_id"@)) == Some(message_id@),
        json_str(json_get(r, "status"@)) == Some(status@),
{
    let mut ms: Vec<JsonMember> = Vec::new();
    ms.push(json_member("message_id", json_text(message_id)));
    ms.push(json_member("status", json_text(status)));
    let r = JsonValue::Object(ms);
    proof {
        reveal_strlit("message_id");
        reveal_strlit("status");
        reveal_with_fuel(member_index, 3);
        assert(object_keys(r) =~= seq!["message_id"@, "status"@]);
        assert("message_id"@.len() == 10);
        assert("status"@.len() == 6);
        assert(ms@[0].key@ == "message_id"@);
        assert(ms@[1].key@ == "status"@);
    }
    r
}

/// The answer to `verify_contact`: the node, the trust asked for, and whether a stored
/// contact was changed.
pub fn verify_result(node_id: u32, verified: bool, updated: bool) -> (r: JsonValue)
    ensures
        object_keys(r) == seq!["node_id"@, "verified"@, "updated"@],
        json_get(r, "node_id"@) == Some(JsonValue::Number(unsigned_number(node_id as u64))),
        json_bool(json_get(r, "verified"@)) == Some(verified),
        json_bool(json_get(r, "updated"@)) == Some(updated),
{
    let mut ms: Vec<JsonMember> = Vec::new();
    ms.push(json_member("node_id", json_unsigned(node_id as u64)));
    ms.push(json_member("verified", json_flag(verified)));
    ms.push(json_member("updated", json_flag(updated)));
    let r = JsonValue::Object(ms);
    proof {
        reveal_strlit("node_id");
        reveal_strlit("verified");
        reveal_strlit("updated");
        reveal_with_fuel(member_index, 4);
        assert(object_keys(r) =~= seq!["node_id"@, "verified"@, "updated"@]);
        assert("node_id"@.len() == 7);
        assert("verified"@.len() == 8);
        assert("updated"@.len() == 7);
        assert("node_id"@[0] != "updated"@[0]);
        assert(ms@[0].key@ == "node_id"@);
        assert(ms@[1].key@ == "verified"@);
        assert(ms@[2].key@ == "updated"@);
    }
    r
}

/// Nibble `i` of `v`, most significant first.
pub open spec fn nibble(v: u32, i: int) -> u32 {
    ((v >> ((28 - 4 * i) as u32)) & 0xF) as u32
}

proof fn lemma_nibble_small(v: u32, sh: u32)
    ensures
        (v >> sh) & 0xF < 16,
{
    assert((v >> sh) & 0xF < 16) by (bit_vector);
}

pub proof fn lemma_upper_hex_digit(d: u32)
    requires
        d < 16,
    ensures
        hex_digit(upper_hex_digit(d)) == Some(d as int),
        !is_ws(upper_hex_digit(d)),
        upper_hex_digit(d) != 'x',
        upper_hex_digit(d) != '+',
{
}

proof fn lemma_label_digits_value(v: u32, k: int)
    requires
        1 <= k <= 8,
    ensures
        hex_value(hex_node_label(v).skip(2).take(k)) == (v >> ((32 - 4 * k) as u32)) as int,
    decreases k,
{
    let h = hex_node_label(v).skip(2);
    assert(h[k - 1] == upper_hex_digit(nibble(v, k - 1)));
    lemma_nibble_small(v, (28 - 4 * (k - 1)) as u32);
    lemma_upper_hex_digit(nibble(v, k - 1));
    assert(h.take(k).drop_last() =~= h.take(k - 1));
    assert(h.take(k).last() == h[k - 1]);
    assert(hex_value(h.take(k)) == hex_value(h.take(k - 1)) * 16 + nibble(v, k - 1));
    if k == 1 {
        assert(h.take(0).len() == 0);
        assert(((v >> 28u32) & 0xF) == v >> 28u32) by (bit_vector);
    } else {
        lemma_label_digits_value(v, k - 1);
        let s: u32 = (28 - 4 * (k - 1)) as u32;
        assert(s <= 24);
        assert((32 - 4 * (k - 1)) as u32 == s + 4);
        assert((v >> ((s + 4) as u32)) * 16 + ((v >> s) & 0xF) == v >> s) by (bit_vector)
            requires
                s <= 24;
    }
}

/// The eight digits of a node's label are uppercase hexadecimal digits, and read in radix
/// 16 they give the node id.
pub proof fn lemma_label_digits_read(v: u32)
    ensures
        hex_node_label(v).skip(2).len() == 8,
        forall|i: int|
            0 <= i < 8 ==> (#[trigger] hex_digit(hex_node_label(v).skip(2)[i])) is Some && !is_ws(
                hex_node_label(v).skip(2)[i],
            ) && hex_node_label(v).skip(2)[i] != 'x' && hex_node_label(v).skip(2)[i] != '+',
        radix16(hex_node_label(v).skip(2)) == Some(v as int),
        hex_digits_value(hex_node_label(v).skip(2)) == Some(v as int),
{
    let h = hex_node_label(v).skip(2);
    assert forall|i: int| 0 <= i < h.len() implies (#[trigger] hex_digit(h[i])) is Some && !is_ws(h[i]) && h[i] != 'x'
        && h[i] != '+' by {
        assert(h[i] == upper_hex_digit(nibble(v, i)));
        lemma_nibble_small(v, (28 - 4 * i) as u32);
        lemma_upper_hex_digit(nibble(v, i));
    }
    assert(hex_digit(h[0]) is Some);
    assert(all_hex(h));
    lemma_label_digits_value(v, 8);
    assert(h.take(8) =~= h);
    assert((v >> 0u32) == v) by (bit_vector);
}

/// A node's label (`0x` and eight uppercase hexadecimal digits) reads back, as a node id
/// parameter, as that node.
pub proof fn lemma_node_label_reads_back(v: u32)
    ensures
        hex_u32(strip_hex_prefix(hex_node_label(v))) == Some(v),
{
    lemma_label_digits_read(v);
    let label = hex_node_label(v);
    let h = label.skip(2);
    assert(hex_digit(h[1]) is Some);
    assert(label.len() >= 2 && label[0] == '0' && label[1] == 'x');
    assert(h[1] != 'x');
    assert(strip_hex_prefix(h) == h);
    assert(strip_hex_prefix(label) == h);
}

} // verus!
