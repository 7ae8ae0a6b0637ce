use packet_sniffer::port_table::PortTable;

#[test]
fn test_port_lookup_in_map() {
    let mut map = PortTable::new();
    map.insert(443, vec![1234]);
    map.insert(80, vec![5678, 9012]);

    assert_eq!(map.first_pid(443), Some(1234));
    assert_eq!(map.first_pid(80), Some(5678));
    assert_eq!(map.first_pid(9999), None);
}

#[test]
fn test_port_lookup_src_or_dst() {
    let mut map = PortTable::new();
    map.insert(80, vec![100]);
    map.insert(443, vec![200]);

    let src_port = 12345u16;
    let dst_port = 443u16;

    let pid = map.first_pid_of_either(src_port, dst_port);

    assert_eq!(pid, Some(200));
}

#[test]
fn test_port_lookup_no_match() {
    let map = PortTable::new();

    let pid = map.first_pid_of_either(80u16, 443u16);

    assert_eq!(pid, None);
}

#[test]
fn test_port_lookup_multiple_pids() {
    let mut map = PortTable::new();
    map.insert(80, vec![100, 200, 300]);

    let pid = map.first_pid(80u16);
    assert_eq!(pid, Some(100));
}

#[test]
fn test_port_lookup_shared_port() {
    let mut map = PortTable::new();
    map.extend(80, &[100, 200]);

    assert_eq!(map.pids(80).unwrap(), vec![100, 200]);
}

#[test]
fn source_entry_without_ids_hides_destination() {
    let mut map = PortTable::new();
    map.insert(80, vec![]);
    map.insert(443, vec![200]);
    assert_eq!(map.first_pid_of_either(80, 443), None);
    assert_eq!(map.first_pid_of_either(81, 443), Some(200));
}

#[test]
fn extend_keeps_earlier_ids_first() {
    let mut map = PortTable::new();
    map.extend(80, &[7]);
    map.extend(80, &[8, 9]);
    map.extend(443, &[]);
    assert_eq!(map.pids(80), Some(vec![7, 8, 9]));
    assert_eq!(map.first_pid(80), Some(7));
    assert_eq!(map.pids(443), Some(vec![]));
    assert_eq!(map.first_pid(443), None);
    assert_eq!(map.pids(22), None);
}

#[test]
fn insert_replaces_the_ids_of_a_port() {
    let mut map = PortTable::new();
    map.insert(80, vec![1, 2]);
    map.insert(80, vec![3]);
    assert_eq!(map.pids(80), Some(vec![3]));
}

#[test]
fn table_from_sockets_collects_ids_in_order() {
    let sockets = vec![
        (80u16, vec![100u32]),
        (443, vec![200, 201]),
        (80, vec![300]),
        (53, vec![]),
    ];
    let table = PortTable::from_sockets(&sockets);
    assert_eq!(table.pids(80), Some(vec![100, 300]));
    assert_eq!(table.pids(443), Some(vec![200, 201]));
    assert_eq!(table.pids(53), Some(vec![]));
    assert_eq!(table.pids(22), None);
    assert_eq!(table.first_pid(80), Some(100));
}
