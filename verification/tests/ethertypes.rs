use packet_sniffer::ethertypes::Ethertype;

fn make_ethernet(ethertype_bytes: [u8; 2]) -> [u8; 14] {
    let mut ethernet = [0u8; 14];
    ethernet[12] = ethertype_bytes[0];
    ethernet[13] = ethertype_bytes[1];
    ethernet
}

#[test]
fn test_from_ethernet_ipv4() {
    let ethernet = make_ethernet([0x08, 0x00]);
    assert_eq!(Ethertype::from_ethernet(&ethernet), Ethertype::IPV4());
}

#[test]
fn test_from_ethernet_arp() {
    let ethernet = make_ethernet([0x08, 0x06]);
    assert_eq!(Ethertype::from_ethernet(&ethernet), Ethertype::ARP());
}

#[test]
fn test_from_ethernet_ipv6() {
    let ethernet = make_ethernet([0x86, 0xDD]);
    assert_eq!(Ethertype::from_ethernet(&ethernet), Ethertype::IPV6());
}

#[test]
fn test_from_ethernet_vlan() {
    let ethernet = make_ethernet([0x81, 0x00]);
    assert_eq!(Ethertype::from_ethernet(&ethernet), Ethertype::VLAN());
}

#[test]
fn ethertypes_test_name() {
    assert_eq!(Ethertype::IPV4().name(), "IPv4");
    assert_eq!(Ethertype::ARP().name(), "ARP");
    assert_eq!(Ethertype::IPV6().name(), "IPv6");
    assert_eq!(Ethertype::VLAN().name(), "VLAN");
    assert_eq!(Ethertype::new(0x1234).name(), "Unknown");
}

#[test]
fn ethertypes_test_display() {
    assert_eq!(Ethertype::IPV4().to_string(), "IPv4 (0x0800)");
    assert_eq!(Ethertype::ARP().to_string(), "ARP (0x0806)");
    assert_eq!(Ethertype::IPV6().to_string(), "IPv6 (0x86dd)");
    assert_eq!(Ethertype::VLAN().to_string(), "VLAN (0x8100)");
    assert_eq!(Ethertype::new(0x1234).to_string(), "Unknown (0x1234)");
}

#[test]
fn test_value() {
    assert_eq!(Ethertype::IPV4().ethertype, 0x0800);
    assert_eq!(Ethertype::ARP().ethertype, 0x0806);
}

#[test]
fn ethertype_reads_only_bytes_twelve_and_thirteen() {
    let mut ethernet = [0xffu8; 20];
    ethernet[12] = 0xab;
    ethernet[13] = 0xcd;
    assert_eq!(Ethertype::from_ethernet(&ethernet).ethertype, 0xabcd);
}

#[test]
fn ethertype_display_pads_and_uses_lower_case() {
    assert_eq!(Ethertype::new(0).to_string(), "Unknown (0x0000)");
    assert_eq!(Ethertype::new(0xffff).to_string(), "Unknown (0xffff)");
    assert_eq!(Ethertype::new(0x00af).to_string(), "Unknown (0x00af)");
}
