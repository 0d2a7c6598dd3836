use client_directory::{
    AdminRequest, ClientRequest, Document, Ipv4, JsonLeaf, Request, decode, is_valid_key,
    parse_ipv4, parse_mac,
};

#[test]
fn ipv4_texts() {
    assert_eq!(parse_ipv4("10.0.0.5"), Some(Ipv4 { bits: 0x0a00_0005 }));
    assert_eq!(parse_ipv4("255.255.255.255"), Some(Ipv4 { bits: u32::MAX }));
    assert_eq!(parse_ipv4("0.0.0.0"), Some(Ipv4 { bits: 0 }));
    assert_eq!(parse_ipv4("192.168.1.20").unwrap().bits, (192 << 24) | (168 << 16) | (1 << 8) | 20);
    assert_eq!(parse_ipv4("256.0.0.1"), None);
    assert_eq!(parse_ipv4("01.2.3.4"), None);
    assert_eq!(parse_ipv4("1.2.3"), None);
    assert_eq!(parse_ipv4("1.2.3.4.5"), None);
    assert_eq!(parse_ipv4("1..3.4"), None);
    assert_eq!(parse_ipv4("1.2.3.4."), None);
    assert_eq!(parse_ipv4(""), None);
    assert_eq!(parse_ipv4("a.b.c.d"), None);
}

#[test]
fn mac_texts() {
    assert_eq!(parse_mac("aa:bb:cc:dd:ee:0f").unwrap().octets, [0xaa, 0xbb, 0xcc, 0xdd, 0xee, 0x0f]);
    assert_eq!(parse_mac("AA:B1:00:9d:Ee:ff").unwrap().octets, [0xaa, 0xb1, 0x00, 0x9d, 0xee, 0xff]);
    assert!(parse_mac("aa:bb:cc:dd:ee").is_none());
    assert!(parse_mac("aa-bb-cc-dd-ee-ff").is_none());
    assert!(parse_mac("aa:bb:cc:dd:ee:fg").is_none());
    assert!(parse_mac("aa:bb:cc:dd:ee:ff:").is_none());
    assert!(!parse_mac("aa:bb:cc:dd:ee:ff").unwrap().same_as(&parse_mac("aa:bb:cc:dd:ee:fe").unwrap()));
}

#[test]
fn admin_keys() {
    assert!(is_valid_key("s3cret"));
    assert!(is_valid_key(""));
    assert!(is_valid_key(&"k".repeat(32)));
    assert!(!is_valid_key(&"k".repeat(33)));
    assert!(!is_valid_key("clé"));
}

#[test]
fn sign_up_decodes() {
    let text = r#"{"user":"client","password":"pw","method":"sign_up","username":"ana","mac":"aa:bb:cc:dd:ee:01","port":8080,"get_only_by_mac":true}"#;
    match Request::from(text) {
        Some(Request::Client(ClientRequest::SignUp { password, username, mac, port, get_only_by_mac })) => {
            assert_eq!(password, "pw");
            assert_eq!(username, "ana");
            assert_eq!(mac.octets, [0xaa, 0xbb, 0xcc, 0xdd, 0xee, 0x01]);
            assert_eq!(port, 8080);
            assert!(get_only_by_mac);
        }
        other => panic!("unexpected {:?}", other),
    }
}

#[test]
fn user_and_how_ignore_case_but_method_does_not() {
    let text = r#"{"user":"CLIENT","password":"pw","method":"get","how":"UserName","username":"ana","start_index":2}"#;
    assert!(matches!(
        Request::from(text),
        Some(Request::Client(ClientRequest::GetByUsername { start_index: 2, .. }))
    ));
    let text = r#"{"user":"client","password":"pw","method":"Get","how":"mac","mac":"aa:bb:cc:dd:ee:01"}"#;
    assert!(Request::from(text).is_none());
}

#[test]
fn admin_requests_decode() {
    let text = r#"{"user":"admin","password":"k","method":"get","how":"index","start_index":1,"end_index":4}"#;
    assert!(matches!(
        Request::from(text),
        Some(Request::Admin(AdminRequest::GetByIndex { start_index: 1, end_index: 4, .. }))
    ));
    let text = r#"{"user":"Admin","password":"k","method":"drop","ip":"10.0.0.5"}"#;
    match Request::from(text) {
        Some(Request::Admin(AdminRequest::Drop { ip, password })) => {
            assert_eq!(ip, Ipv4::from_octets(10, 0, 0, 5));
            assert_eq!(password, "k");
        }
        other => panic!("unexpected {:?}", other),
    }
    let text = r#"{"user":"admin","password":"k","method":"set","what":"drop_votes","value":3}"#;
    assert!(matches!(
        Request::from(text),
        Some(Request::Admin(AdminRequest::SetDropVotes { drop_votes: 3, .. }))
    ));
    let text = r#"{"user":"admin","password":"k","method":"set","what":"drop_verification","value":false}"#;
    assert!(matches!(
        Request::from(text),
        Some(Request::Admin(AdminRequest::SetDropVerification { drop_verification: false, .. }))
    ));
    let text = r#"{"user":"admin","password":"k","method":"set","what":"password","value":"np"}"#;
    assert!(matches!(
        Request::from(text),
        Some(Request::Admin(AdminRequest::SetPassword { ref new_password, .. })) if new_password == "np"
    ));
}

#[test]
fn any_new_key_text_decodes() {
    let text = r#"{"user":"admin","password":"k","method":"set","what":"key","value":"0123456789012345678901234567890123"}"#;
    assert!(matches!(
        Request::from(text),
        Some(Request::Admin(AdminRequest::SetKey { ref key, .. })) if key.len() == 34
    ));
}

#[test]
fn bad_requests_decode_to_nothing() {
    let cases = [
        "not json",
        "[1, 2]",
        r#"{"user":"client","method":"get","how":"mac","mac":"aa:bb:cc:dd:ee:01"}"#,
        r#"{"user":"guest","password":"pw","method":"get","how":"mac","mac":"aa:bb:cc:dd:ee:01"}"#,
        r#"{"user":"client","password":"pw","method":"get","how":"mac","mac":"zz:bb:cc:dd:ee:01"}"#,
        r#"{"user":"client","password":"pw","method":"get","how":"index","start_index":0,"end_index":1}"#,
        r#"{"user":"client","password":"pw","method":"get","how":"username","username":"a","start_index":-1}"#,
        r#"{"user":"client","password":"pw","method":"drop","ip":"10.0.0.256"}"#,
        r#"{"user":"client","password":"pw","method":"set","what":"capacity","value":3}"#,
        r#"{"user":"admin","password":"k","method":"sign_up","username":"a","mac":"aa:bb:cc:dd:ee:01","port":1,"get_only_by_mac":false}"#,
        r#"{"user":"client","password":"pw","method":"sign_up","username":"a","mac":"aa:bb:cc:dd:ee:01","port":70000,"get_only_by_mac":false}"#,
        r#"{"user":"client","password":"pw","method":"sign_up","username":"a","mac":"aa:bb:cc:dd:ee:01","port":1,"get_only_by_mac":"no"}"#,
        r#"{"user":"admin","password":"k","method":"set","what":"drop_votes","value":0}"#,
        r#"{"user":"admin","password":"k","method":"set","what":"drop_votes","value":256}"#,
        r#"{"user":"admin","password":"k","method":"set","what":"Capacity","value":3}"#,
        r#"{"user":"admin","password":"k","method":"set","what":"key","value":7}"#,
        r#"{"user":"client","password":7,"method":"get","how":"mac","mac":"aa:bb:cc:dd:ee:01"}"#,
    ];
    for text in cases {
        assert!(Request::from(text).is_none(), "{}", text);
    }
}

#[test]
fn decode_from_fields() {
    let doc = Document {
        fields: vec![
            ("password".to_string(), JsonLeaf::Text("pw".to_string())),
            ("method".to_string(), JsonLeaf::Text("drop".to_string())),
            ("user".to_string(), JsonLeaf::Text("client".to_string())),
            ("ip".to_string(), JsonLeaf::Text("1.2.3.4".to_string())),
        ],
    };
    match decode(&doc) {
        Some(Request::Client(ClientRequest::Drop { ip, .. })) => assert_eq!(ip, Ipv4::from_octets(1, 2, 3, 4)),
        other => panic!("unexpected {:?}", other),
    }
    let doc = Document {
        fields: vec![
            ("password".to_string(), JsonLeaf::Text("pw".to_string())),
            ("method".to_string(), JsonLeaf::Text("drop".to_string())),
            ("user".to_string(), JsonLeaf::Other),
            ("ip".to_string(), JsonLeaf::Text("1.2.3.4".to_string())),
        ],
    };
    assert!(decode(&doc).is_none());
}
