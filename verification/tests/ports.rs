use packet_sniffer::ports::Port;

#[test]
fn ports_test_name() {
    assert_eq!(Port::new(80).name(), "HTTP");
    assert_eq!(Port::new(443).name(), "HTTPS");
    assert_eq!(Port::new(22).name(), "SSH");
    assert_eq!(Port::new(53).name(), "DNS");
    assert_eq!(Port::new(9999).name(), "Unknown");
}

#[test]
fn ports_test_display() {
    assert_eq!(Port::new(80).to_string(), "HTTP (80)");
    assert_eq!(Port::new(443).to_string(), "HTTPS (443)");
}

#[test]
fn port_names_of_every_listed_port() {
    let listed = [
        (20, "FTP-Data"),
        (21, "FTP"),
        (22, "SSH"),
        (23, "Telnet"),
        (25, "SMTP"),
        (53, "DNS"),
        (67, "DHCP-Server"),
        (68, "DHCP-Client"),
        (80, "HTTP"),
        (110, "POP3"),
        (143, "IMAP"),
        (443, "HTTPS"),
        (993, "IMAPS"),
        (995, "POP3S"),
        (3306, "MySQL"),
        (3389, "RDP"),
        (5432, "PostgreSQL"),
        (8080, "HTTP-Alt"),
    ];
    for (port, name) in listed {
        assert_eq!(Port::new(port).name(), name);
    }
    assert_eq!(Port::new(0).name(), "Unknown");
    assert_eq!(Port::new(65535).name(), "Unknown");
}

#[test]
fn port_display_of_edge_numbers() {
    assert_eq!(Port::new(0).to_string(), "Unknown (0)");
    assert_eq!(Port::new(9).to_string(), "Unknown (9)");
    assert_eq!(Port::new(10).to_string(), "Unknown (10)");
    assert_eq!(Port::new(65535).to_string(), "Unknown (65535)");
    assert_eq!(Port::new(5432).to_string(), "PostgreSQL (5432)");
}
