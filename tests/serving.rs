use client_directory::{DropOutcome, Ipv4, PeerAddr, Reply, Server, StartConfig};

fn local() -> Ipv4 {
    Ipv4::from_octets(127, 0, 0, 1)
}

fn server(drop_votes: u8, verification: bool) -> Server {
    Server::from_start_config(&StartConfig {
        address: local(),
        port: 7878,
        key: "adminkey".to_string(),
        password: "pw".to_string(),
        drop_votes,
        capacity: 10,
        list_size: 5,
        drop_verification: verification,
    })
}

fn peer(last: u8) -> PeerAddr {
    PeerAddr::V4(Ipv4::from_octets(10, 0, 0, last))
}

fn sign_up(s: &mut Server, from: u8, mac_last: u8) {
    let text = format!(
        r#"{{"user":"client","password":"pw","method":"sign_up","username":"u{}","mac":"aa:bb:cc:dd:ee:{:02x}","port":4000,"get_only_by_mac":false}}"#,
        from, mac_last
    );
    assert!(matches!(s.handle(&text, peer(from)), Reply::SignUp(Ok(()))));
}

fn drop_text(ip: &str) -> String {
    format!(r#"{{"user":"client","password":"pw","method":"drop","ip":"{}"}}"#, ip)
}

fn outcome(r: Reply) -> DropOutcome {
    match r {
        Reply::Drop(o) => o,
        other => panic!("unexpected {:?}", other),
    }
}

#[test]
fn quorum_of_three_removes_on_third_vote() {
    let mut s = server(3, true);
    sign_up(&mut s, 5, 1);
    assert_eq!(s.len(), 1);
    assert_eq!(outcome(s.handle(&drop_text("10.0.0.5"), peer(20))), DropOutcome::Recorded);
    assert_eq!(outcome(s.handle(&drop_text("10.0.0.5"), peer(21))), DropOutcome::Recorded);
    assert_eq!(s.len(), 1);
    assert_eq!(s.votes_against(Ipv4::from_octets(10, 0, 0, 5)), 2);
    assert_eq!(outcome(s.handle(&drop_text("10.0.0.5"), peer(22))), DropOutcome::Removed);
    assert_eq!(s.len(), 0);
    assert_eq!(s.votes_against(Ipv4::from_octets(10, 0, 0, 5)), 0);
    assert_eq!(outcome(s.handle(&drop_text("10.0.0.5"), peer(23))), DropOutcome::Absent);
}

#[test]
fn repeated_voter_counts_once() {
    let mut s = server(2, true);
    sign_up(&mut s, 5, 1);
    assert_eq!(outcome(s.handle(&drop_text("10.0.0.5"), peer(20))), DropOutcome::Recorded);
    assert_eq!(outcome(s.handle(&drop_text("10.0.0.5"), peer(20))), DropOutcome::Duplicate);
    assert_eq!(s.len(), 1);
    assert_eq!(outcome(s.handle(&drop_text("10.0.0.5"), peer(21))), DropOutcome::Removed);
}

#[test]
fn without_verification_one_vote_removes() {
    let mut s = server(200, false);
    sign_up(&mut s, 5, 1);
    sign_up(&mut s, 6, 2);
    assert_eq!(outcome(s.handle(&drop_text("10.0.0.6"), peer(20))), DropOutcome::Removed);
    assert_eq!(s.len(), 1);
}

#[test]
fn wrong_client_password_gets_no_reply() {
    let mut s = server(3, true);
    let text = r#"{"user":"client","password":"nope","method":"sign_up","username":"a","mac":"aa:bb:cc:dd:ee:01","port":1,"get_only_by_mac":false}"#;
    assert!(matches!(s.handle(text, peer(5)), Reply::Silent));
    assert_eq!(s.len(), 0);
    assert!(matches!(s.handle("{\"user\":\"client\"}", peer(5)), Reply::NotUnderstood));
}

#[test]
fn admin_from_another_host_is_refused() {
    let mut s = server(3, true);
    sign_up(&mut s, 5, 1);
    let text = r#"{"user":"admin","password":"adminkey","method":"drop","ip":"10.0.0.5"}"#;
    assert!(matches!(s.handle(text, peer(9)), Reply::Ipv4Only));
    assert!(matches!(s.handle(text, PeerAddr::V6), Reply::Ipv4Only));
    assert_eq!(s.len(), 1);
    assert!(matches!(s.handle(text, PeerAddr::V4(local())), Reply::Drop(DropOutcome::Removed)));
    assert_eq!(s.len(), 0);
}

#[test]
fn admin_with_wrong_key_gets_no_reply() {
    let mut s = server(3, true);
    let text = r#"{"user":"admin","password":"guess","method":"set","what":"capacity","value":1}"#;
    assert!(matches!(s.handle(text, PeerAddr::V4(local())), Reply::Silent));
    assert_eq!(s.capacity(), 10);
}

#[test]
fn ipv6_client_is_refused() {
    let mut s = server(3, true);
    let text = r#"{"user":"client","password":"pw","method":"sign_up","username":"a","mac":"aa:bb:cc:dd:ee:01","port":1,"get_only_by_mac":false}"#;
    assert!(matches!(s.handle(text, PeerAddr::V6), Reply::Ipv4Only));
    assert_eq!(s.len(), 0);
}

#[test]
fn lowering_threshold_evicts_at_once() {
    let mut s = server(5, true);
    sign_up(&mut s, 5, 1);
    sign_up(&mut s, 6, 2);
    for voter in 20..23u8 {
        assert_eq!(outcome(s.handle(&drop_text("10.0.0.5"), peer(voter))), DropOutcome::Recorded);
    }
    assert_eq!(outcome(s.handle(&drop_text("10.0.0.6"), peer(20))), DropOutcome::Recorded);
    let text = r#"{"user":"admin","password":"adminkey","method":"set","what":"drop_votes","value":3}"#;
    assert!(matches!(s.handle(text, PeerAddr::V4(local())), Reply::Updated));
    assert_eq!(s.drop_votes(), 3);
    assert_eq!(s.len(), 1);
    let by_index = r#"{"user":"admin","password":"adminkey","method":"get","how":"index","start_index":0,"end_index":9}"#;
    match s.handle(by_index, PeerAddr::V4(local())) {
        Reply::Records(v) => assert_eq!(v[0].ip, Ipv4::from_octets(10, 0, 0, 6)),
        other => panic!("unexpected {:?}", other),
    }
    assert_eq!(s.votes_against(Ipv4::from_octets(10, 0, 0, 5)), 0);
    assert_eq!(s.votes_against(Ipv4::from_octets(10, 0, 0, 6)), 1);
}

#[test]
fn admin_settings_and_lookups() {
    let mut s = server(3, true);
    sign_up(&mut s, 5, 1);
    sign_up(&mut s, 6, 2);
    let admin = PeerAddr::V4(local());
    assert_eq!(s.port(), 7878);
    let shrink = r#"{"user":"admin","password":"adminkey","method":"set","what":"capacity","value":1}"#;
    assert!(matches!(s.handle(shrink, admin), Reply::Capacity(Err(_))));
    assert_eq!(s.capacity(), 10);
    let set = r#"{"user":"admin","password":"adminkey","method":"set","what":"list_size","value":1}"#;
    assert!(matches!(s.handle(set, admin), Reply::Updated));
    assert_eq!(s.list_size(), 1);
    let by_index = r#"{"user":"admin","password":"adminkey","method":"get","how":"index","start_index":0,"end_index":9}"#;
    match s.handle(by_index, admin) {
        Reply::Records(v) => assert_eq!(v.len(), 2),
        other => panic!("unexpected {:?}", other),
    }
    let by_mac = r#"{"user":"client","password":"pw","method":"get","how":"mac","mac":"aa:bb:cc:dd:ee:02"}"#;
    match s.handle(by_mac, peer(30)) {
        Reply::Record(Some(r)) => assert_eq!(r.username, "u6"),
        other => panic!("unexpected {:?}", other),
    }
    let long_key = r#"{"user":"admin","password":"adminkey","method":"set","what":"key","value":"0123456789012345678901234567890123"}"#;
    assert!(matches!(s.handle(long_key, admin), Reply::KeyRejected));
    let accented_key = r#"{"user":"admin","password":"adminkey","method":"set","what":"key","value":"clé"}"#;
    assert!(matches!(s.handle(accented_key, admin), Reply::KeyRejected));
    let rekey = r#"{"user":"admin","password":"adminkey","method":"set","what":"key","value":"newkey"}"#;
    assert!(matches!(s.handle(rekey, admin), Reply::Updated));
    assert!(matches!(s.handle(by_index, admin), Reply::Silent));
    let repass = r#"{"user":"admin","password":"newkey","method":"set","what":"password","value":"pw2"}"#;
    assert!(matches!(s.handle(repass, admin), Reply::Updated));
    assert!(matches!(s.handle(by_mac, peer(30)), Reply::Silent));
}
