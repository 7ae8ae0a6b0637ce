use packet_sniffer::cli::Args;
use packet_sniffer::parser::{
    ascii_line, ascii_repr, display_choice, format_ipv4, format_mac, parse_ethernet_and_ipv4,
    payload_rows, DisplayPacketOptions,
};

#[test]
fn ascii_repr_keeps_printable_bytes() {
    assert_eq!(ascii_repr(b'A'), 'A');
    assert_eq!(ascii_repr(b' '), ' ');
    assert_eq!(ascii_repr(b'~'), '~');
    assert_eq!(ascii_repr(b'!'), '!');
    assert_eq!(ascii_repr(0x1f), '.');
    assert_eq!(ascii_repr(0x7f), '.');
    assert_eq!(ascii_repr(0x00), '.');
    assert_eq!(ascii_repr(0xff), '.');
    assert_eq!(ascii_repr(b'\n'), '.');
}

#[test]
fn ascii_line_maps_each_byte() {
    assert_eq!(ascii_line(b"hi\x00there\xff"), "hi.there.");
    assert_eq!(ascii_line(&[]), "");
}

#[test]
fn mac_and_ipv4_text() {
    assert_eq!(format_mac(&[0x00, 0x11, 0x22, 0x33, 0x44, 0x55]), "00:11:22:33:44:55");
    assert_eq!(format_mac(&[0xaa, 0xbb, 0xcc, 0xdd, 0xee, 0xff]), "aa:bb:cc:dd:ee:ff");
    assert_eq!(format_mac(&[0x0f]), "0f");
    assert_eq!(format_mac(&[]), "");
    assert_eq!(format_ipv4(&[10, 0, 0, 1]), "10.0.0.1");
    assert_eq!(format_ipv4(&[255, 255, 255, 0]), "255.255.255.0");
    assert_eq!(format_ipv4(&[0, 9, 99, 100]), "0.9.99.100");
}

#[test]
fn payload_rows_cover_payload_sixteen_at_a_time() {
    let payload: Vec<u8> = (0u8..40).collect();
    let rows = payload_rows(&payload);
    assert_eq!(rows.len(), 3);
    assert_eq!(rows[0].offset, 0);
    assert_eq!(rows[1].offset, 16);
    assert_eq!(rows[2].offset, 32);
    assert_eq!(rows[0].bytes, payload[0..16].to_vec());
    assert_eq!(rows[2].bytes, payload[32..40].to_vec());
    let joined: Vec<u8> = rows.iter().flat_map(|r| r.bytes.clone()).collect();
    assert_eq!(joined, payload);
    let text = payload_rows(b"GET / HTTP/1.1\r\nHost");
    assert_eq!(text.len(), 2);
    assert_eq!(text[0].ascii, "GET / HTTP/1.1..");
    assert_eq!(text[1].ascii, "Host");
    assert!(payload_rows(&[]).is_empty());
    assert_eq!(payload_rows(&[1u8; 16]).len(), 1);
    assert_eq!(payload_rows(&[1u8; 17]).len(), 2);
}

#[test]
fn ethernet_and_ipv4_headers() {
    let mut frame = vec![0u8; 34];
    frame[0..6].copy_from_slice(&[1, 2, 3, 4, 5, 6]);
    frame[6..12].copy_from_slice(&[7, 8, 9, 10, 11, 12]);
    frame[12] = 0x86;
    frame[13] = 0xdd;
    frame[14] = 0x4f;
    frame[22] = 3;
    frame[23] = 99;
    frame[26..30].copy_from_slice(&[192, 168, 1, 1]);
    frame[30..34].copy_from_slice(&[8, 8, 8, 8]);
    let (ethernet, ipv4, ihl) = parse_ethernet_and_ipv4(&frame).expect("should parse");
    assert_eq!(ethernet.dst_mac, vec![1, 2, 3, 4, 5, 6]);
    assert_eq!(ethernet.src_mac, vec![7, 8, 9, 10, 11, 12]);
    assert_eq!(ethernet.ethertype.ethertype, 0x86dd);
    assert_eq!(ihl, 60);
    assert_eq!(ipv4.ttl, 3);
    assert_eq!(ipv4.protocol, 99);
    assert_eq!(ipv4.src_ip, [192, 168, 1, 1]);
    assert_eq!(ipv4.dst_ip, [8, 8, 8, 8]);
    assert!(parse_ethernet_and_ipv4(&frame[..33]).is_none());
    assert!(parse_ethernet_and_ipv4(&frame[..13]).is_none());
}

#[test]
fn display_choice_without_filter_ignores_process() {
    let plain = DisplayPacketOptions { show_payload: true, filter_by_pid: None };
    assert_eq!(display_choice(&Some(plain), None), Some(true));
    let plain = DisplayPacketOptions { show_payload: false, filter_by_pid: None };
    assert_eq!(display_choice(&Some(plain), Some(5)), Some(false));
    assert_eq!(display_choice(&None, None), Some(true));
    let filtered = DisplayPacketOptions { show_payload: false, filter_by_pid: Some(5) };
    assert_eq!(display_choice(&Some(filtered), None), None);
}

#[test]
fn default_options_and_args() {
    let options = DisplayPacketOptions::default();
    assert!(!options.show_payload);
    assert_eq!(options.filter_by_pid, None);
    let args = Args { show_payload: true, pid: Some(9), count: Some(3) };
    let options = args.display_options();
    assert!(options.show_payload);
    assert_eq!(options.filter_by_pid, Some(9));
}
