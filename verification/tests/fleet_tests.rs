use gibberish::fleet::{format_log_entry, format_uptime, parse_telemetry_line, FleetManager};

#[test]
fn test_parse_telemetry_line_valid_debug() {
    let line = "[Telemetry RX] Node: BEBCE5B8, Tier: Debug, Storage: MicroSdActive, Uptime: 862s, SRAM: 0/256, Drops: 0, RX: 904, TX: 68, RSSI: -19 dBm, LQI: 255";
    let telem = parse_telemetry_line(line).expect("Should parse valid debug telemetry line");
    assert_eq!(telem.node_id, "BEBCE5B8");
    assert_eq!(telem.tier, "DEBUG");
    assert_eq!(telem.storage_mode, "SD ACTIVE");
    assert_eq!(telem.uptime_secs, 862);
    assert_eq!(telem.drop_count, 0);
    assert_eq!(telem.rx_count, 904);
    assert_eq!(telem.tx_count, 68);
    assert_eq!(telem.rssi, -19);
    assert_eq!(telem.lqi, 255);
}

#[test]
fn test_parse_telemetry_line_valid_prod_ram() {
    let line = "[Dongle /dev/ttyACM1] [Telemetry RX] Node: BEBD82B4, Tier: Prod, Storage: RamOnly, Uptime: 838s, SRAM: 46/256, Drops: 46, RX: 302, TX: 33, RSSI: -21 dBm, LQI: 240";
    let telem = parse_telemetry_line(line).expect("Should parse valid prod telemetry line");
    assert_eq!(telem.node_id, "BEBD82B4");
    assert_eq!(telem.tier, "PROD");
    assert_eq!(telem.storage_mode, "RAM ONLY");
    assert_eq!(telem.uptime_secs, 838);
    assert_eq!(telem.drop_count, 46);
    assert_eq!(telem.rx_count, 302);
    assert_eq!(telem.tx_count, 33);
    assert_eq!(telem.rssi, -21);
    assert_eq!(telem.lqi, 240);
}

#[test]
fn test_parse_telemetry_line_with_timestamp_prefix() {
    let line = "2026-09-22 14:27:18 [Telemetry RX] Node: BEBCE5B8, Tier: Debug, Storage: MicroSdActive, Uptime: 862s, SRAM: 0/256, Drops: 0, RX: 904, TX: 68, RSSI: -19 dBm, LQI: 255";
    let telem = parse_telemetry_line(line).expect("Should parse line with timestamp prefix");
    assert_eq!(telem.node_id, "BEBCE5B8");
    assert_eq!(telem.tier, "DEBUG");
    assert_eq!(telem.uptime_secs, 862);
}

#[test]
fn test_parse_telemetry_line_robustness_on_malformed() {
    assert!(parse_telemetry_line("[Radio RX] MsgID: 12345678, Chunk: 0/1").is_none());
    assert!(parse_telemetry_line("[Telemetry RX] Corrupted garbage without node").is_none());
    assert!(parse_telemetry_line("").is_none());
    assert!(parse_telemetry_line("[Telemetry RX] Node: ").is_none());
}

#[test]
fn test_parse_telemetry_from_prefix_and_defaults() {
    let telem = parse_telemetry_line("Telemetry from: bebce5b8").expect("bare id after marker");
    assert_eq!(telem.node_id, "BEBCE5B8");
    assert_eq!(telem.tier, "DEBUG");
    assert_eq!(telem.storage_mode, "SD ACTIVE");
    assert_eq!(telem.uptime_secs, 0);
    assert_eq!(telem.rssi, -50);
    assert_eq!(telem.lqi, 255);
    // Too short, and not hexadecimal, ids are not taken.
    assert!(parse_telemetry_line("Telemetry from: abc").is_none());
    assert!(parse_telemetry_line("Telemetry from: zzzzzz").is_none());
}

#[test]
fn test_parse_telemetry_out_of_range_and_malformed_fields_keep_defaults() {
    let telem = parse_telemetry_line(
        "[Telemetry RX] Node: (abcd), RSSI: -129 dBm, LQI: 256, RX: -1, TX: +7, Uptime: 12sss, Tier: pRoD",
    )
    .expect("node id present");
    assert_eq!(telem.node_id, "ABCD");
    assert_eq!(telem.rssi, -50);
    assert_eq!(telem.lqi, 255);
    assert_eq!(telem.rx_count, 0);
    assert_eq!(telem.tx_count, 7);
    assert_eq!(telem.uptime_secs, 12);
    assert_eq!(telem.tier, "PROD");
}

#[test]
fn test_format_uptime() {
    assert_eq!(format_uptime(0), "00:00:00");
    assert_eq!(format_uptime(59), "00:00:59");
    assert_eq!(format_uptime(60), "00:01:00");
    assert_eq!(format_uptime(3661), "01:01:01");
    assert_eq!(format_uptime(862), "00:14:22");
}

#[test]
fn test_fleet_manager_ingest_and_render() {
    let mut fleet = FleetManager::new("/tmp/gibberish_test_fleet.log");

    let line1 = "[Telemetry RX] Node: BEBCE5B8, Tier: Debug, Storage: MicroSdActive, Uptime: 862s, SRAM: 0/256, Drops: 0, RX: 904, TX: 68, RSSI: -19 dBm, LQI: 255";
    let line2 = "[Telemetry RX] Node: BEBD82B4, Tier: Prod, Storage: RamOnly, Uptime: 838s, SRAM: 46/256, Drops: 46, RX: 302, TX: 33, RSSI: -19 dBm, LQI: 255";

    assert!(fleet.ingest_line(line1).is_some());
    assert!(fleet.ingest_line(line2).is_some());
    assert_eq!(fleet.node_count(), 2);

    let dashboard = fleet.render_dashboard(&["/dev/ttyACM0".to_string(), "/dev/ttyACM1".to_string()]);
    assert!(dashboard.contains("BEBCE5B8"));
    assert!(dashboard.contains("BEBD82B4"));
    assert!(dashboard.contains("SD ACTIVE"));
    assert!(dashboard.contains("RAM ONLY"));
    assert!(dashboard.contains("00:14:22"));
    assert!(dashboard.contains("PROJECT GIBBERISH - 802.15.4 OFF-GRID FLEET SINK"));
}

#[test]
fn fleet_keeps_the_latest_report_per_node_in_id_order() {
    let mut fleet = FleetManager::new("/tmp/fleet.log");
    assert!(fleet.ingest_line("no telemetry here").is_none());
    fleet.ingest_line("[Telemetry RX] Node: BBBB0002, Tier: Debug, Uptime: 5s, RX: 1");
    fleet.ingest_line("[Telemetry RX] Node: AAAA0001, Tier: Debug, Uptime: 6s, RX: 2");
    fleet.ingest_line("[Telemetry RX] Node: BBBB0002, Tier: Debug, Uptime: 7s, RX: 3");
    assert_eq!(fleet.node_count(), 2);
    assert_eq!(fleet.get_node("BBBB0002").unwrap().rx_count, 3);
    assert_eq!(fleet.get_node("AAAA0001").unwrap().uptime_secs, 6);
    assert!(fleet.get_node("CCCC0003").is_none());
    let d = fleet.dashboard_with(&[], &[1, 45]);
    let a = d.find("AAAA0001").unwrap();
    let b = d.find("BBBB0002").unwrap();
    assert!(a < b);
    assert!(d.contains("Listening on: None | Logging to: /tmp/fleet.log"));
    assert!(d.contains("45s ago (STALE)"));
    assert!(d.contains("\x1B[32m       1s ago"));
    let empty = FleetManager::new("x").dashboard_with(&[], &[]);
    assert!(empty.contains("(No telemetry frames received yet"));
}

#[test]
fn log_entries() {
    let t = parse_telemetry_line("[Telemetry RX] Node: BEBCE5B8, Tier: Prod, Uptime: 9s, RX: 4, TX: 2, Drops: 1, RSSI: -40 dBm, LQI: 200").unwrap();
    assert_eq!(
        format_log_entry(1700, &t),
        "[1700] Node BEBCE5B8 (PROD) | Uptime: 9s | Storage: SD ACTIVE | RX: 4 TX: 2 Drops: 1 | RSSI: -40 dBm LQI: 200"
    );
}
