use gibberish::controller::{
    compute_signal_bars, confirmation_events, derive_sender_color, drain_and_apply_queue, local_echo_message, send_route,
    ArgbColor, ChatMessageItem, PubkeyCache, SendRoute, UiEvent, UiEventQueue, UiState, UI_EVENT_CAPACITY,
};
use std::sync::atomic::{AtomicBool, Ordering};

fn telemetry(tx: i32) -> UiEvent {
    UiEvent::TelemetryUpdated {
        node_id: "0xBEBD82B4".to_string(),
        storage_mode: "SD ACTIVE".to_string(),
        storage_stats: "SRAM: 40/256 KB".to_string(),
        tx,
        rx: 0,
        channel: 15,
        avg_lqi: 100,
        status: "OK".to_string(),
    }
}

fn message(id: &str, convo: &str, text: &str) -> ChatMessageItem {
    ChatMessageItem {
        id: id.to_string(),
        convo_id: convo.to_string(),
        sender: "0xCAFE".to_string(),
        text: text.to_string(),
        timestamp: "12:00:00".to_string(),
        status: "*".to_string(),
        is_outgoing: false,
        sender_color: ArgbColor { a: 255, r: 129, g: 140, b: 248 },
    }
}

#[test]
fn test_ui_event_channel_bounded_capacity() {
    let mut q = UiEventQueue::new();
    for i in 0..UI_EVENT_CAPACITY {
        assert!(q.send(telemetry(i as i32)).is_ok());
    }
    assert!(q.send(telemetry(0)).is_err());
    let mut ui = UiState::new();
    drain_and_apply_queue(&mut ui, &mut q);
    assert!(q.is_empty());
    assert_eq!(ui.panels.tx_packets, (UI_EVENT_CAPACITY - 1) as i32);
}

#[test]
fn test_wake_pending_latch_coalescing() {
    let wake_pending = AtomicBool::new(false);

    // First attempt succeeds
    let first = wake_pending.compare_exchange(false, true, Ordering::SeqCst, Ordering::SeqCst);
    assert!(first.is_ok(), "First wake acquisition must succeed");

    // Rapid successive attempts must fail (coalesced!)
    for _ in 0..100 {
        let subsequent = wake_pending.compare_exchange(false, true, Ordering::SeqCst, Ordering::SeqCst);
        assert!(subsequent.is_err(), "Subsequent wakes while pending must be suppressed");
    }

    // Resetting latch allows next wake
    wake_pending.store(false, Ordering::SeqCst);
    let after_reset = wake_pending.compare_exchange(false, true, Ordering::SeqCst, Ordering::SeqCst);
    assert!(after_reset.is_ok(), "Wake acquisition after reset must succeed");
}

#[test]
fn queue_wake_latch_coalesces_until_drained() {
    let mut q = UiEventQueue::new();
    assert_eq!(q.send(telemetry(1)), Ok(true));
    for _ in 0..10 {
        assert_eq!(q.send(telemetry(2)), Ok(false));
    }
    let mut ui = UiState::new();
    drain_and_apply_queue(&mut ui, &mut q);
    assert_eq!(q.send(telemetry(3)), Ok(true));
}

#[test]
fn test_slint_controller_initialization_and_accessors() {
    let mut ui = UiState::new();
    let mut q = UiEventQueue::new();
    let res = q.send(UiEvent::TelemetryUpdated {
        node_id: "0xBEBD82B4".to_string(),
        storage_mode: "SD ACTIVE".to_string(),
        storage_stats: "SRAM: 40/256 KB".to_string(),
        tx: 10,
        rx: 20,
        channel: 15,
        avg_lqi: 200,
        status: "CONNECTED".to_string(),
    });
    assert!(res.is_ok());
    assert_eq!(ui.stations.len(), 0);
    assert_eq!(ui.messages.len(), 0);
    drain_and_apply_queue(&mut ui, &mut q);
    assert_eq!(ui.panels.local_node_id, "0xBEBD82B4");
    assert_eq!(ui.panels.rx_packets, 20);
    assert_eq!(ui.panels.dongle_status, "CONNECTED");
}

#[test]
fn test_conversation_message_isolation_and_switching() {
    let mut ui = UiState::new();
    let mut q = UiEventQueue::new();

    let _ = q.send(UiEvent::StationDiscovered {
        node_id: "0xBEBD82B4".to_string(),
        alias: "Alice".to_string(),
        rssi: "-70 dBm".to_string(),
        lqi: "LQI 200".to_string(),
        trust_state: "unverified".to_string(),
    });
    let _ = q.send(UiEvent::MessageReceived(message("m-swarm-1", "#all", "Hello Swarm!")));
    let mut alice = message("m-alice-1", "0xBEBD82B4", "Private secret to you");
    alice.sender = "Alice".to_string();
    alice.status = "[OK]".to_string();
    let _ = q.send(UiEvent::MessageReceived(alice));

    drain_and_apply_queue(&mut ui, &mut q);

    let history = |convo: &str| -> Vec<ChatMessageItem> {
        ui.history.iter().find(|h| h.convo_id == convo).map(|h| h.messages.clone()).unwrap_or_default()
    };
    let swarm_msgs = history("#all");
    let alice_msgs = history("0xBEBD82B4");

    assert_eq!(swarm_msgs.len(), 1);
    assert_eq!(swarm_msgs[0].text, "Hello Swarm!");
    assert_eq!(alice_msgs.len(), 1);
    assert_eq!(alice_msgs[0].text, "Private secret to you");
    assert!(!swarm_msgs.iter().any(|m| m.id == "m-alice-1"));
    assert!(!alice_msgs.iter().any(|m| m.id == "m-swarm-1"));

    // No conversation is open, so the view stays empty; opening one shows only its messages.
    assert!(ui.messages.is_empty());
    ui.select_conversation("0xBEBD82B4".to_string());
    assert_eq!(ui.messages.len(), 1);
    assert_eq!(ui.messages[0].id, "m-alice-1");
    assert_eq!(ui.panels.active_alias, "Alice");
    assert_eq!(ui.panels.active_trust_state, "unverified");
    assert!(ui.stations[0].selected);
    ui.select_conversation("#all".to_string());
    assert_eq!(ui.messages.len(), 1);
    assert_eq!(ui.messages[0].id, "m-swarm-1");
    assert_eq!(ui.panels.active_alias, "Swarm Broadcast");
    assert_eq!(ui.panels.active_trust_state, "verified");
    assert!(!ui.stations[0].selected);
}

#[test]
fn signal_bars_by_rssi() {
    assert_eq!(compute_signal_bars("-60 dBm"), 4);
    assert_eq!(compute_signal_bars("-70 dBm"), 4);
    assert_eq!(compute_signal_bars("-71 dBm"), 3);
    assert_eq!(compute_signal_bars("-80"), 3);
    assert_eq!(compute_signal_bars("-85dBm"), 2);
    assert_eq!(compute_signal_bars(" -95 dBm "), 1);
    assert_eq!(compute_signal_bars("n/a"), 3);
    assert_eq!(compute_signal_bars("-99999999999 dBm"), 3);
}

#[test]
fn sender_colors() {
    assert_eq!(derive_sender_color("Me", true), ArgbColor { a: 255, r: 0x38, g: 0xbd, b: 0xf8 });
    // "A" hashes to 65, 65 % 5 == 0: lime.
    assert_eq!(derive_sender_color("A", false), ArgbColor { a: 255, r: 0xa3, g: 0xe6, b: 0x35 });
    // "B" hashes to 66: indigo.
    assert_eq!(derive_sender_color("B", false), ArgbColor { a: 255, r: 0x81, g: 0x8c, b: 0xf8 });
    // "AB" hashes to 65 * 31 + 66 = 2081, 2081 % 5 == 1: indigo.
    assert_eq!(derive_sender_color("AB", false), ArgbColor { a: 255, r: 0x81, g: 0x8c, b: 0xf8 });
}

#[test]
fn station_updates_find_rows_by_node_id() {
    let mut ui = UiState::new();
    ui.apply_event(UiEvent::StationDiscovered {
        node_id: "0x1".to_string(),
        alias: "One".to_string(),
        rssi: "-95 dBm".to_string(),
        lqi: "LQI 10".to_string(),
        trust_state: "unverified".to_string(),
    });
    assert_eq!(ui.stations[0].signal_bars, 1);
    ui.apply_event(UiEvent::StationMetricsUpdated {
        node_id: "0x1".to_string(),
        rssi: "-50 dBm".to_string(),
        lqi: "LQI 250".to_string(),
    });
    assert_eq!(ui.stations.len(), 1);
    assert_eq!(ui.stations[0].signal_bars, 4);
    assert_eq!(ui.stations[0].alias, "One");
    ui.select_conversation("0x1".to_string());
    ui.apply_event(UiEvent::StationTrustChanged { node_id: "0x1".to_string(), trust_state: "verified".to_string() });
    assert_eq!(ui.stations[0].trust_state, "verified");
    assert_eq!(ui.panels.active_trust_state, "verified");
    // Unknown node: metrics are dropped, discovery adds a row.
    ui.apply_event(UiEvent::StationMetricsUpdated {
        node_id: "0x2".to_string(),
        rssi: "-50 dBm".to_string(),
        lqi: "LQI 250".to_string(),
    });
    assert_eq!(ui.stations.len(), 1);
}

#[test]
fn duplicate_messages_and_status_updates() {
    let mut ui = UiState::new();
    ui.select_conversation("#all".to_string());
    ui.apply_event(UiEvent::MessageReceived(message("m1", "#all", "hi")));
    ui.apply_event(UiEvent::MessageReceived(message("m1", "#all", "hi again")));
    assert_eq!(ui.messages.len(), 1);
    assert_eq!(ui.history[0].messages.len(), 1);
    ui.apply_event(UiEvent::MessageStatusUpdated { id: "m1".to_string(), status: "[OK]".to_string() });
    assert_eq!(ui.messages[0].status, "[OK]");
    assert_eq!(ui.history[0].messages[0].status, "[OK]");
}

#[test]
fn verification_modal_keeps_last_qr_when_none_given() {
    let mut ui = UiState::new();
    ui.apply_event(UiEvent::ShowVerificationModal {
        node_id: "0x1".to_string(),
        alias: "a".to_string(),
        sas_words: "w x y z".to_string(),
        qr_svg: Some("<svg/>".to_string()),
    });
    assert!(ui.panels.show_verification_modal);
    ui.apply_event(UiEvent::HideVerificationModal);
    assert!(!ui.panels.show_verification_modal);
    ui.apply_event(UiEvent::ShowVerificationModal {
        node_id: "0x2".to_string(),
        alias: "b".to_string(),
        sas_words: "a b c d".to_string(),
        qr_svg: None,
    });
    assert_eq!(ui.panels.verify_qr_svg.as_deref(), Some("<svg/>"));
    assert_eq!(ui.panels.verify_node_id, "0x2");
}

#[test]
fn local_echo_and_routes() {
    let m = local_echo_message("#all".to_string(), "yo".to_string(), 3661);
    assert_eq!(m.id, "local-3661");
    assert_eq!(m.timestamp, "01:01:01");
    assert_eq!(m.status, "*");
    assert_eq!(m.sender, "Me");
    assert!(m.is_outgoing);
    let d = local_echo_message("0xBEBD82B4".to_string(), "yo".to_string(), 86_400 + 59);
    assert_eq!(d.status, "[Q]");
    assert_eq!(d.timestamp, "00:00:59");

    assert_eq!(send_route("#all"), SendRoute::Swarm);
    assert_eq!(send_route("0xBEBD82B4"), SendRoute::Direct(0xBEBD82B4));
    assert_eq!(send_route("0x0xff"), SendRoute::Direct(0xff));
    assert_eq!(send_route("Alice"), SendRoute::Unroutable);
    assert_eq!(send_route("0x1FFFFFFFF"), SendRoute::Unroutable);
}

#[test]
fn pubkey_cache_and_verification_request() {
    let mut cache = PubkeyCache::new();
    assert_eq!(cache.get("0x1"), None);
    cache.register_contact_pubkey("0x1", [7u8; 32]);
    cache.register_contact_pubkey("0x2", [8u8; 32]);
    cache.register_contact_pubkey("0x1", [9u8; 32]);
    assert_eq!(cache.get("0x1"), Some([9u8; 32]));
    assert_eq!(cache.get("0x2"), Some([8u8; 32]));

    let mut ui = UiState::new();
    ui.apply_event(UiEvent::StationDiscovered {
        node_id: "0x00000001".to_string(),
        alias: "Ann".to_string(),
        rssi: "-60 dBm".to_string(),
        lqi: "LQI 200".to_string(),
        trust_state: "unverified".to_string(),
    });
    match ui.verification_request("0x00000001".to_string(), &cache) {
        UiEvent::ShowVerificationModal { node_id, alias, sas_words, qr_svg } => {
            assert_eq!(node_id, "0x00000001");
            assert_eq!(alias, "Ann");
            assert_eq!(sas_words.split(' ').count(), 4);
            assert!(qr_svg.unwrap().contains("<svg"));
        }
        other => panic!("unexpected event {:?}", other),
    }
    match ui.verification_request("0xABC".to_string(), &cache) {
        UiEvent::ShowVerificationModal { alias, .. } => assert_eq!(alias, "0xABC"),
        other => panic!("unexpected event {:?}", other),
    }

    let evs = confirmation_events("0x1".to_string());
    assert_eq!(evs.len(), 2);
    assert!(matches!(&evs[0], UiEvent::StationTrustChanged { node_id, trust_state } if node_id == "0x1" && trust_state == "verified"));
    assert!(matches!(evs[1], UiEvent::HideVerificationModal));
}
