use client_directory::{ClientDirectory, ClientRecord, Ipv4, MacAddress};

fn mac(last: u8) -> MacAddress {
    MacAddress { octets: [0xaa, 0xbb, 0xcc, 0xdd, 0xee, last] }
}

fn record(last: u8, name: &str, ip: u8, hidden: bool) -> ClientRecord {
    ClientRecord {
        mac: mac(last),
        username: name.to_string(),
        ip: Ipv4::from_octets(10, 0, 0, ip),
        port: 9000 + last as u16,
        get_only_by_mac: hidden,
    }
}

fn ports(v: &[ClientRecord]) -> Vec<u16> {
    v.iter().map(|r| r.port).collect()
}

#[test]
fn sign_up_twice_with_same_mac_replaces() {
    let mut d = ClientDirectory::new(5);
    assert!(d.insert(record(1, "ana", 1, false)).is_ok());
    assert!(d.insert(record(2, "bob", 2, false)).is_ok());
    assert_eq!(d.len(), 2);
    let mut second = record(1, "carla", 7, false);
    second.port = 1234;
    assert!(d.insert(second).is_ok());
    assert_eq!(d.len(), 2);
    let found = d.lookup_by_mac(&mac(1)).unwrap();
    assert_eq!(found.username, "carla");
    assert_eq!(found.port, 1234);
    assert_eq!(found.ip, Ipv4::from_octets(10, 0, 0, 7));
    // the replacing record goes last
    assert_eq!(ports(&d.lookup_by_index(0, 10)), vec![9002, 1234]);
}

#[test]
fn full_directory_rejects_sign_up() {
    let mut d = ClientDirectory::new(2);
    assert!(d.insert(record(1, "ana", 1, false)).is_ok());
    assert!(d.insert(record(2, "bob", 2, false)).is_ok());
    assert!(d.insert(record(3, "cid", 3, false)).is_err());
    assert_eq!(d.len(), 2);
    // full means full, even for a MAC address already held
    assert!(d.insert(record(1, "ana", 1, false)).is_err());
    assert_eq!(d.len(), 2);
    assert!(d.lookup_by_mac(&mac(3)).is_none());
}

#[test]
fn zero_capacity_accepts_nobody() {
    let mut d = ClientDirectory::new(0);
    assert!(d.insert(record(1, "ana", 1, false)).is_err());
    assert_eq!(d.len(), 0);
}

#[test]
fn username_pages_are_contiguous_and_disjoint() {
    let mut d = ClientDirectory::new(20);
    for i in 1..=7u8 {
        let name = if i % 2 == 1 { "sam" } else { "other" };
        assert!(d.insert(record(i, name, i, false)).is_ok());
    }
    // matches: ports 9001, 9003, 9005, 9007
    let first = d.lookup_by_username("sam", 0, 3);
    let second = d.lookup_by_username("sam", 3, 3);
    assert_eq!(ports(&first), vec![9001, 9003, 9005]);
    assert_eq!(ports(&second), vec![9007]);
    let all = d.lookup_by_username("sam", 0, 100);
    let mut joined = ports(&first);
    joined.extend(ports(&second));
    assert_eq!(joined, ports(&all));
    assert!(d.lookup_by_username("sam", 4, 3).is_empty());
    assert!(d.lookup_by_username("sam", 1000, 3).is_empty());
    assert!(d.lookup_by_username("sam", 0, 0).is_empty());
}

#[test]
fn username_match_is_exact_and_case_sensitive() {
    let mut d = ClientDirectory::new(5);
    assert!(d.insert(record(1, "Sam", 1, false)).is_ok());
    assert!(d.insert(record(2, "sam", 2, false)).is_ok());
    assert_eq!(ports(&d.lookup_by_username("sam", 0, 10)), vec![9002]);
    assert!(d.lookup_by_username("sa", 0, 10).is_empty());
}

#[test]
fn hidden_record_found_only_by_mac_and_index() {
    let mut d = ClientDirectory::new(5);
    assert!(d.insert(record(1, "eve", 1, true)).is_ok());
    assert!(d.insert(record(2, "eve", 2, false)).is_ok());
    assert_eq!(ports(&d.lookup_by_username("eve", 0, 10)), vec![9002]);
    assert_eq!(d.lookup_by_mac(&mac(1)).unwrap().port, 9001);
    assert_eq!(ports(&d.lookup_by_index(0, 2)), vec![9001, 9002]);
}

#[test]
fn index_lookup_clamps_end_and_empties_past_size() {
    let mut d = ClientDirectory::new(5);
    for i in 1..=3u8 {
        assert!(d.insert(record(i, "x", i, false)).is_ok());
    }
    assert_eq!(ports(&d.lookup_by_index(1, 100)), vec![9002, 9003]);
    assert_eq!(ports(&d.lookup_by_index(0, 1)), vec![9001]);
    assert!(d.lookup_by_index(3, 10).is_empty());
    assert!(d.lookup_by_index(7, 10).is_empty());
    assert!(d.lookup_by_index(2, 1).is_empty());
}

#[test]
fn remove_by_ip_removes_every_record_there() {
    let mut d = ClientDirectory::new(5);
    assert!(d.insert(record(1, "a", 5, false)).is_ok());
    assert!(d.insert(record(2, "b", 6, false)).is_ok());
    assert!(d.insert(record(3, "c", 5, false)).is_ok());
    assert!(d.remove(Ipv4::from_octets(10, 0, 0, 5)));
    assert_eq!(ports(&d.lookup_by_index(0, 10)), vec![9002]);
    assert!(!d.remove(Ipv4::from_octets(10, 0, 0, 5)));
    assert_eq!(d.len(), 1);
}

#[test]
fn capacity_below_size_is_rejected() {
    let mut d = ClientDirectory::new(5);
    assert!(d.insert(record(1, "a", 1, false)).is_ok());
    assert!(d.insert(record(2, "b", 2, false)).is_ok());
    assert!(d.set_capacity(1).is_err());
    assert_eq!(d.capacity(), 5);
    assert!(d.set_capacity(2).is_ok());
    assert_eq!(d.capacity(), 2);
    assert!(d.insert(record(3, "c", 3, false)).is_err());
}
