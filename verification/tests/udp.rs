use packet_sniffer::ethertypes::Ethertype;
use packet_sniffer::parser::DisplayPacketOptions;
use packet_sniffer::port_table::PortTable;
use packet_sniffer::tcp::parse_tcp_ipv4;
use packet_sniffer::udp::{parse_udp_ipv4, udp_length_past_end};

fn build_udp_ipv4_packet(src_port: u16, dst_port: u16, payload: &[u8]) -> Vec<u8> {
    let mut packet = Vec::new();

    packet.extend_from_slice(&[0x00, 0x11, 0x22, 0x33, 0x44, 0x55]);
    packet.extend_from_slice(&[0x66, 0x77, 0x88, 0x99, 0xaa, 0xbb]);
    packet.extend_from_slice(&[0x08, 0x00]);

    let udp_len = 8 + payload.len() as u16;
    let total_len: u16 = 20 + udp_len;
    packet.push(0x45);
    packet.push(0x00);
    packet.extend_from_slice(&total_len.to_be_bytes());
    packet.extend_from_slice(&[0x00, 0x00]);
    packet.extend_from_slice(&[0x00, 0x00]);
    packet.push(64);
    packet.push(17);
    packet.extend_from_slice(&[0x00, 0x00]);
    packet.extend_from_slice(&[10, 0, 0, 1]);
    packet.extend_from_slice(&[10, 0, 0, 2]);

    packet.extend_from_slice(&src_port.to_be_bytes());
    packet.extend_from_slice(&dst_port.to_be_bytes());
    packet.extend_from_slice(&udp_len.to_be_bytes());
    packet.extend_from_slice(&[0x00, 0x00]);

    packet.extend_from_slice(payload);

    packet
}

#[test]
fn test_parse_valid_udp_ipv4() {
    let payload = b"hello";
    let packet = build_udp_ipv4_packet(12345, 53, payload);
    let parsed = parse_udp_ipv4(&packet).expect("should parse successfully");

    assert_eq!(parsed.udp.src_port.port, 12345);
    assert_eq!(parsed.udp.dst_port.port, 53);
    assert_eq!(parsed.ipv4.src_ip, [10, 0, 0, 1]);
    assert_eq!(parsed.ipv4.dst_ip, [10, 0, 0, 2]);
    assert_eq!(parsed.ipv4.protocol, 17);
    assert_eq!(parsed.udp.length, 8 + 5);
    assert_eq!(parsed.udp.payload, b"hello");
    assert_eq!(parsed.ethernet.ethertype, Ethertype::new(0x0800));
}

#[test]
fn test_parse_udp_empty_payload() {
    let packet = build_udp_ipv4_packet(53, 12345, &[]);
    let parsed = parse_udp_ipv4(&packet).expect("should parse");
    assert_eq!(parsed.udp.payload.len(), 0);
    assert_eq!(parsed.udp.length, 8);
}

#[test]
fn test_parse_udp_too_short_returns_none() {
    assert!(parse_udp_ipv4(&[0u8; 10]).is_none());
}

#[test]
fn test_parse_udp_wrong_protocol_returns_none() {
    let mut packet = build_udp_ipv4_packet(53, 12345, b"test");
    packet[23] = 6;
    assert!(parse_udp_ipv4(&packet).is_none());
}

#[test]
fn test_parse_udp_large_payload() {
    let payload = vec![0xAB; 1400];
    let packet = build_udp_ipv4_packet(40000, 40001, &payload);
    let parsed = parse_udp_ipv4(&packet).expect("should parse");
    assert_eq!(parsed.udp.payload.len(), 1400);
    assert_eq!(parsed.udp.length, 8 + 1400);
}

#[test]
fn udp_payload_stops_at_length_field() {
    let mut packet = build_udp_ipv4_packet(1, 2, b"abcdef");
    packet.extend_from_slice(&[0xee, 0xee]); // Ethernet padding after the datagram
    packet[39] = 8 + 3; // UDP length: three payload bytes
    let parsed = parse_udp_ipv4(&packet).expect("should parse");
    assert_eq!(parsed.udp.payload, b"abc");
    assert_eq!(parsed.udp.checksum, 0);
}

#[test]
fn udp_length_below_header_gives_no_payload() {
    let mut packet = build_udp_ipv4_packet(1, 2, b"abcdef");
    packet[39] = 3;
    let parsed = parse_udp_ipv4(&packet).expect("should parse");
    assert!(parsed.udp.payload.is_empty());
    assert_eq!(parsed.udp.length, 3);
}

#[test]
fn udp_length_past_frame_is_detected() {
    let mut packet = build_udp_ipv4_packet(1, 2, b"abcdef");
    assert!(!udp_length_past_end(&packet));
    packet[39] = 200;
    assert!(udp_length_past_end(&packet));
}

#[test]
fn udp_segment_shorter_than_header_is_refused() {
    let mut packet = build_udp_ipv4_packet(1, 2, &[]);
    packet.truncate(34 + 7);
    packet[16] = 0;
    packet[17] = 0;
    assert!(parse_udp_ipv4(&packet).is_none());
}

#[test]
fn udp_frame_is_not_tcp() {
    let packet = build_udp_ipv4_packet(1, 2, b"abcdefgh");
    assert!(parse_udp_ipv4(&packet).is_some());
    assert!(parse_tcp_ipv4(&packet).is_none());
}

#[test]
fn udp_display_choice_follows_options_and_table() {
    let packet = build_udp_ipv4_packet(5353, 53, b"q");
    let parsed = parse_udp_ipv4(&packet).expect("should parse");
    let mut table = PortTable::new();
    table.extend(5353, &[7]);
    let wanted = DisplayPacketOptions { show_payload: false, filter_by_pid: Some(7) };
    assert_eq!(parsed.display_choice(&Some(wanted), &table), Some(false));
    let other = DisplayPacketOptions { show_payload: false, filter_by_pid: Some(8) };
    assert_eq!(parsed.display_choice(&Some(other), &table), None);
    assert_eq!(parsed.display_choice(&None, &table), Some(true));
}

#[test]
fn udp_display_choice_falls_back_to_destination_port() {
    let packet = build_udp_ipv4_packet(40000, 53, b"q");
    let parsed = parse_udp_ipv4(&packet).expect("should parse");
    let mut table = PortTable::new();
    table.insert(53, vec![11, 12]);
    let wanted = DisplayPacketOptions { show_payload: true, filter_by_pid: Some(11) };
    assert_eq!(parsed.display_choice(&Some(wanted), &table), Some(true));
    let other = DisplayPacketOptions { show_payload: true, filter_by_pid: Some(12) };
    assert_eq!(parsed.display_choice(&Some(other), &table), None);
}
