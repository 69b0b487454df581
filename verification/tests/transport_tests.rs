use gibberish::frame::{MeshHeader, MeshPacket, StorageModeStatus, DEFAULT_NETWORK_TAG, FLAG_CLIPBOARD};
use gibberish::transport::{
    format_heartbeat_line, format_pkt_line, frame_for_dongle, DongleLineBuffer, parse_dongle_node_id, parse_pkt_line, HOST_TO_DONGLE_FRAME_HEADER, HOST_TO_DONGLE_TOTAL_LEN,
};

#[test]
fn test_parse_dongle_node_id() {
    assert_eq!(
        parse_dongle_node_id("Node ID: BEBD82B4 (MAC: [38, 44, BE, BD, 82, B4])"),
        Some(0xBEBD82B4)
    );
    assert_eq!(
        parse_dongle_node_id("[Dongle /dev/ttyACM1] [Node BEBCE5B8] Uptime: 204s | Storage: MicroSdActive"),
        Some(0xBEBCE5B8)
    );
    assert_eq!(parse_dongle_node_id("[Node 12345678]"), Some(0x12345678));
    assert_eq!(parse_dongle_node_id("Plain log line without node info"), None);
    assert_eq!(parse_dongle_node_id("[Node INVALID]"), None);
}

#[test]
fn test_pkt_line_parsing() {
    let hdr = MeshHeader {
        network_tag: DEFAULT_NETWORK_TAG,
        msg_id: 0x12345678,
        chunk_idx: 1,
        total_chunks: 3,
        ttl: 5,
        hop_count: 1,
        flags: FLAG_CLIPBOARD,
    };
    let packet = MeshPacket {
        header: hdr,
        payload: [0x5A; 96],
    };
    let mut wire = [0u8; 114];
    packet.serialize_payload(&mut wire);

    let mut hex_str = String::new();
    for b in wire.iter() {
        hex_str.push_str(&format!("{:02X}", b));
    }

    let line = format!("#PKT# BEBCE5B8 {}", hex_str);
    let parsed = parse_pkt_line(&line).expect("Failed to parse valid #PKT# line");

    assert_eq!(parsed.src_node_id, 0xBEBCE5B8);
    assert_eq!(parsed.packet.header.msg_id, 0x12345678);
    assert_eq!(parsed.packet.header.chunk_idx, 1);
    assert_eq!(parsed.packet.header.total_chunks, 3);
    assert_eq!(parsed.packet.payload[0], 0x5A);
}

#[test]
fn test_invalid_pkt_lines() {
    assert!(parse_pkt_line("not a packet line").is_none());
    assert!(parse_pkt_line("#PKT# BEBC SHORT_PAYLOAD").is_none());
    assert!(parse_pkt_line("#PKT# NOT_HEX 01020304").is_none());
    assert!(parse_pkt_line("#PKT# BEBCE5B8").is_none());
}

#[test]
fn test_binary_transmit_framing() {
    let hdr = MeshHeader {
        network_tag: DEFAULT_NETWORK_TAG,
        msg_id: 999,
        chunk_idx: 0,
        total_chunks: 1,
        ttl: 7,
        hop_count: 0,
        flags: FLAG_CLIPBOARD,
    };
    let packet = MeshPacket {
        header: hdr,
        payload: [0x42; 96],
    };

    let mut framed = [0u8; HOST_TO_DONGLE_TOTAL_LEN];
    framed[0..3].copy_from_slice(&HOST_TO_DONGLE_FRAME_HEADER);
    let wire_slice: &mut [u8; MeshPacket::WIRE_PAYLOAD_LEN] = (&mut framed[3..HOST_TO_DONGLE_TOTAL_LEN])
        .try_into()
        .unwrap();
    packet.serialize_payload(wire_slice);

    assert_eq!(framed[0], 0xAA);
    assert_eq!(framed[1], 0x55);
    assert_eq!(framed[2], 0x72); // 114
    assert_eq!(framed.len(), 117);
}

fn sample_packet() -> MeshPacket {
    MeshPacket {
        header: MeshHeader {
            network_tag: DEFAULT_NETWORK_TAG,
            msg_id: 0xCAFEBABE,
            chunk_idx: 2,
            total_chunks: 4,
            ttl: 6,
            hop_count: 1,
            flags: FLAG_CLIPBOARD,
        },
        payload: [0x11; 96],
    }
}

fn hex_of(bytes: &[u8]) -> String {
    let mut s = String::new();
    for b in bytes {
        s.push_str(&format!("{:02x}", b));
    }
    s
}

#[test]
fn test_frame_for_dongle_matches_manual_framing() {
    let packet = sample_packet();
    let framed = frame_for_dongle(&packet);
    let mut wire = [0u8; 114];
    packet.serialize_payload(&mut wire);
    assert_eq!(&framed[0..3], &HOST_TO_DONGLE_FRAME_HEADER);
    assert_eq!(&framed[3..], &wire[..]);
}

#[test]
fn test_pkt_line_round_trip_lowercase_and_extra_whitespace() {
    let packet = sample_packet();
    let mut wire = [0u8; 114];
    packet.serialize_payload(&mut wire);
    let line = format!("#PKT#    0a0b0c0d \t{}   ", hex_of(&wire));
    let parsed = parse_pkt_line(&line).expect("whitespace-separated line parses");
    assert_eq!(parsed.src_node_id, 0x0A0B0C0D);
    assert_eq!(parsed.packet, packet);
}

#[test]
fn test_pkt_line_rejects_extra_token_and_unicode_separator() {
    let packet = sample_packet();
    let mut wire = [0u8; 114];
    packet.serialize_payload(&mut wire);
    let extra = format!("#PKT# 0A0B0C0D {} extra", hex_of(&wire));
    assert!(parse_pkt_line(&extra).is_none());
    // U+3000 is Unicode whitespace, so it separates tokens like a space.
    let ideographic = format!("#PKT# 0A0B0C0D\u{3000}{}", hex_of(&wire));
    assert_eq!(parse_pkt_line(&ideographic).map(|p| p.src_node_id), Some(0x0A0B0C0D));
    // Only hexadecimal digits: a sign before the node id or in a byte pair rejects the line.
    let plus = format!("#PKT# +A0B0C0D {}", hex_of(&wire));
    assert!(parse_pkt_line(&plus).is_none());
    let mut signed_pair = hex_of(&wire);
    signed_pair.replace_range(0..1, "+");
    let plus_pair = format!("#PKT# 0A0B0C0D {}", signed_pair);
    assert!(parse_pkt_line(&plus_pair).is_none());
}

#[test]
fn test_parse_dongle_node_id_falls_back_to_banner() {
    assert_eq!(parse_dongle_node_id("[Node xyz] Node ID: 0000ABCD (MAC)"), Some(0x0000ABCD));
    assert_eq!(parse_dongle_node_id("[Node 1234567]"), None);
    assert_eq!(parse_dongle_node_id("Node ID: 1234567890"), None);
}

#[test]
fn test_line_buffer_splits_packets_and_logs_across_reads() {
    let packet = sample_packet();
    let mut wire = [0u8; 114];
    packet.serialize_payload(&mut wire);
    let line = format!("#PKT# 0A0B0C0D {}\r\n", hex_of(&wire));
    let mut buf = DongleLineBuffer::new();
    let (first_half, second_half) = line.as_bytes().split_at(40);
    let (pk, logs) = buf.absorb(first_half);
    assert!(pk.is_empty());
    assert!(logs.is_empty());
    let mut rest = second_half.to_vec();
    rest.extend_from_slice(b"  boot ok  \n\n\xff\xfe\npartial");
    let (pk, logs) = buf.absorb(&rest);
    assert_eq!(pk.len(), 1);
    assert_eq!(pk[0].src_node_id, 0x0A0B0C0D);
    assert_eq!(pk[0].packet, packet);
    assert_eq!(logs, vec!["boot ok".to_string()]);
    let (pk, logs) = buf.absorb(b" line\n");
    assert!(pk.is_empty());
    assert_eq!(logs, vec!["partial line".to_string()]);
}

#[test]
fn test_line_buffer_caps_overlong_input() {
    let mut buf = DongleLineBuffer::new();
    // Over 1,024 bytes with no newline: everything is dropped.
    let (pk, logs) = buf.absorb(&vec![b'a'; 1100]);
    assert!(pk.is_empty() && logs.is_empty());
    let (_, logs) = buf.absorb(b"x\n");
    assert_eq!(logs, vec!["x".to_string()]);
    // Over 1,024 bytes with a newline: bytes through the first newline are dropped.
    let mut big = vec![b'b'; 1030];
    big.extend_from_slice(b"\nkept\n");
    let (_, logs) = buf.absorb(&big);
    assert_eq!(logs, vec!["kept".to_string()]);
}

#[test]
fn test_dongle_pkt_line_reads_back() {
    let packet = sample_packet();
    let mut wire = [0u8; 114];
    packet.serialize_payload(&mut wire);
    let line = format_pkt_line(0x0A0B0C0D, &packet);
    assert_eq!(line, format!("#PKT# 0A0B0C0D {}", hex_of(&wire).to_uppercase()));
    let parsed = parse_pkt_line(&line).expect("the dongle's own line parses");
    assert_eq!(parsed.src_node_id, 0x0A0B0C0D);
    assert_eq!(parsed.packet, packet);
}

#[test]
fn test_dongle_heartbeat_announces_node() {
    let line = format_heartbeat_line(0xBEBD82B4, 204, StorageModeStatus::MicroSdActive, 3, 0);
    assert_eq!(line, "[Node BEBD82B4] Uptime: 204s | Storage: MicroSdActive | SRAM: 3/256 pkts | Drops: 0");
    assert_eq!(parse_dongle_node_id(&line), Some(0xBEBD82B4));
    let line = format_heartbeat_line(0x0000000F, 0, StorageModeStatus::RamOnly, 256, 17);
    assert_eq!(line, "[Node 0000000F] Uptime: 0s | Storage: RamOnly | SRAM: 256/256 pkts | Drops: 17");
    assert_eq!(parse_dongle_node_id(&line), Some(0x0000000F));
}
