use gibberish::ipc_client::{list_messages_request, send_dm_request, send_swarm_request, verify_contact_request};
use gibberish::ipc::{
    direct_message_records, node_hex_label, outbound_message_id, route_rpc, swarm_message_record, RpcCall, RpcError,
    DM_OUTBOX_TTL_SECS, INVALID_PARAMS, METHOD_NOT_FOUND,
};
use gibberish::json::{JsonMember, JsonNumber, JsonValue};
use gibberish::schema::{MessageStatus, OutboxStatus};

fn s(v: &str) -> JsonValue {
    JsonValue::Str(v.to_string())
}

fn n(v: u64) -> JsonValue {
    JsonValue::Number(JsonNumber { as_u64: Some(v), as_i64: if v <= i64::MAX as u64 { Some(v as i64) } else { None } })
}

fn obj(members: Vec<(&str, JsonValue)>) -> JsonValue {
    JsonValue::Object(members.into_iter().map(|(k, v)| JsonMember { key: k.to_string(), value: v }).collect())
}

fn invalid(msg: &str) -> Result<RpcCall, RpcError> {
    Err(RpcError { code: INVALID_PARAMS, message: msg.to_string() })
}

#[test]
fn status_version_and_listing_need_no_params() {
    assert_eq!(route_rpc("status", None), Ok(RpcCall::Status));
    assert_eq!(route_rpc("version", None), Ok(RpcCall::Version));
    assert_eq!(route_rpc("list_contacts", None), Ok(RpcCall::ListContacts));
}

#[test]
fn unknown_methods_are_not_found() {
    assert_eq!(
        route_rpc("reboot", None),
        Err(RpcError { code: METHOD_NOT_FOUND, message: "Method not found: 'reboot'".to_string() })
    );
}

#[test]
fn send_dm_reads_its_parameters() {
    assert_eq!(route_rpc("send_dm", None), invalid("Missing params for send_dm"));
    assert_eq!(route_rpc("send_dm", Some(&obj(vec![("text", s("hi"))]))), invalid("dest_node_id required for send_dm"));
    assert_eq!(
        route_rpc("send_dm", Some(&obj(vec![("dest_node_id", JsonValue::Bool(true)), ("text", s("hi"))]))),
        invalid("Invalid dest_node_id in send_dm")
    );
    assert_eq!(
        route_rpc("send_dm", Some(&obj(vec![("dest_node_id", n(5))]))),
        invalid("text required for send_dm")
    );
    assert_eq!(
        route_rpc("send_dm", Some(&obj(vec![("dest_node_id", s("0xBEBD82B4")), ("text", s("hi"))]))),
        Ok(RpcCall::SendDm { dest_node_id: 0xBEBD82B4, text: "hi".to_string() })
    );
    // A number keeps its low 32 bits; an unreadable label is node 0.
    assert_eq!(
        route_rpc("send_dm", Some(&obj(vec![("dest_node_id", n(0x1_0000_0007)), ("text", s("x"))]))),
        Ok(RpcCall::SendDm { dest_node_id: 7, text: "x".to_string() })
    );
    assert_eq!(
        route_rpc("send_dm", Some(&obj(vec![("dest_node_id", s("bob")), ("text", s("x"))]))),
        Ok(RpcCall::SendDm { dest_node_id: 0, text: "x".to_string() })
    );
}

#[test]
fn send_swarm_and_verify_contact_parameters() {
    assert_eq!(route_rpc("send_swarm", None), invalid("Missing params for send_swarm"));
    assert_eq!(route_rpc("send_swarm", Some(&obj(vec![]))), invalid("text required for send_swarm"));
    assert_eq!(
        route_rpc("send_swarm", Some(&obj(vec![("text", s("all"))]))),
        Ok(RpcCall::SendSwarm { text: "all".to_string() })
    );
    assert_eq!(route_rpc("verify_contact", None), invalid("Missing params for verify_contact"));
    assert_eq!(route_rpc("verify_contact", Some(&obj(vec![]))), invalid("node_id required for verify_contact"));
    assert_eq!(
        route_rpc("verify_contact", Some(&obj(vec![("node_id", JsonValue::Null)]))),
        invalid("Invalid node_id in verify_contact")
    );
    assert_eq!(
        route_rpc("verify_contact", Some(&obj(vec![("node_id", n(3))]))),
        Ok(RpcCall::VerifyContact { node_id: 3, verified: true })
    );
    assert_eq!(
        route_rpc("verify_contact", Some(&obj(vec![("node_id", s("0x10")), ("verified", JsonValue::Bool(false))]))),
        Ok(RpcCall::VerifyContact { node_id: 16, verified: false })
    );
}

#[test]
fn list_messages_pages_default() {
    assert_eq!(route_rpc("list_messages", None), invalid("Missing params for list_messages"));
    assert_eq!(route_rpc("list_messages", Some(&obj(vec![("limit", n(5))]))), invalid("convo_id required for list_messages"));
    assert_eq!(
        route_rpc("list_messages", Some(&obj(vec![("convo_id", s("#all"))]))),
        Ok(RpcCall::ListMessages { convo_id: "#all".to_string(), limit: 50, offset: 0 })
    );
    assert_eq!(
        route_rpc("list_messages", Some(&obj(vec![("convo_id", s("#all")), ("limit", n(5)), ("offset", n(10))]))),
        Ok(RpcCall::ListMessages { convo_id: "#all".to_string(), limit: 5, offset: 10 })
    );
    // Parameters that are not an object carry no members.
    assert_eq!(route_rpc("list_messages", Some(&JsonValue::Array(vec![]))), invalid("convo_id required for list_messages"));
}

#[test]
fn labels_ids_and_records() {
    assert_eq!(node_hex_label(0), "UNKNOWN");
    assert_eq!(node_hex_label(0xBEBD82B4), "0xBEBD82B4");
    assert_eq!(outbound_message_id(true, 7), "dm-7");
    assert_eq!(outbound_message_id(false, 12), "swarm-12");

    let (msg, outbox) = direct_message_records("dm-1", 0xBEBD82B4, "hello", 1_700_000_000);
    assert_eq!(msg.convo_id, "0xBEBD82B4");
    assert_eq!(msg.sender_node_id, 0);
    assert_eq!(msg.status, MessageStatus::Queued);
    assert_eq!(outbox.payload, b"hello".to_vec());
    assert_eq!(outbox.ttl_secs, 48 * 3600);
    assert_eq!(outbox.ttl_secs, DM_OUTBOX_TTL_SECS);
    assert_eq!(outbox.status, OutboxStatus::Pending);
    assert_eq!(outbox.retry_count, 0);

    let swarm = swarm_message_record("swarm-2", "to all", 5);
    assert_eq!(swarm.convo_id, "#all");
    assert_eq!(swarm.status, MessageStatus::Transmitted);
    assert_eq!(swarm.timestamp, 5);
}

#[test]
fn test_client_requests_route_to_their_calls() {
    let p = send_dm_request(0xC3A109F2, "hi there");
    assert_eq!(
        route_rpc("send_dm", Some(&p)),
        Ok(RpcCall::SendDm { dest_node_id: 0xC3A109F2, text: "hi there".to_string() })
    );
    let p = send_dm_request(0x00000001, "x");
    assert_eq!(route_rpc("send_dm", Some(&p)), Ok(RpcCall::SendDm { dest_node_id: 1, text: "x".to_string() }));
    let p = send_swarm_request("to all");
    assert_eq!(route_rpc("send_swarm", Some(&p)), Ok(RpcCall::SendSwarm { text: "to all".to_string() }));
    let p = verify_contact_request(0xBEBD82B4, false);
    assert_eq!(
        route_rpc("verify_contact", Some(&p)),
        Ok(RpcCall::VerifyContact { node_id: 0xBEBD82B4, verified: false })
    );
    let p = list_messages_request("#all", 20, 40);
    assert_eq!(
        route_rpc("list_messages", Some(&p)),
        Ok(RpcCall::ListMessages { convo_id: "#all".to_string(), limit: 20, offset: 40 })
    );
}

#[test]
fn test_node_label_reads_back() {
    for v in [0u32, 1, 0xABCDEF01, 0xFFFFFFFF, 0x0000ABCD] {
        let label = gibberish::chat::direct_convo_id(v);
        assert_eq!(gibberish::lexer::parse_node_label(&label), Some(v));
    }
}
