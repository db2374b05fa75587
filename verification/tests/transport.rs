use ferry::transport::{
    decode_frame, encode_frame, frame_len, mdns_hostname, millis_or_zero, now_ms,
    peer_name_from_fullname, Inbox, MessageEnvelope, PeerTable, SERVICE_TYPE,
};

#[test]
fn frame_is_big_endian_length_then_payload() {
    assert_eq!(encode_frame(b"abc"), vec![0, 0, 0, 3, b'a', b'b', b'c']);
    assert_eq!(encode_frame(&[]), vec![0, 0, 0, 0]);
    let big = vec![7u8; 0x0102];
    let f = encode_frame(&big);
    assert_eq!(&f[..4], &[0, 0, 1, 2]);
    assert_eq!(f.len(), 4 + 0x0102);
}

#[test]
fn frame_header_value() {
    assert_eq!(frame_len(&[0x01, 0x02, 0x03, 0x04]), 0x0102_0304);
    assert_eq!(frame_len(&[0xff, 0xff, 0xff, 0xff]), u32::MAX);
}

#[test]
fn frame_roundtrip_and_short_input() {
    let payload = br#"{"from":"bob","data":[1,2],"timestamp":5}"#;
    let mut wire = encode_frame(payload);
    wire.extend_from_slice(b"trailing");
    assert_eq!(decode_frame(&wire), Some(payload.to_vec()));
    assert_eq!(decode_frame(&[0, 0]), None);
    assert_eq!(decode_frame(&[0, 0, 0, 5, 1, 2]), None);
    assert_eq!(decode_frame(&[0, 0, 0, 0]), Some(vec![]));
}

#[test]
fn peer_names_from_service_names() {
    assert_eq!(SERVICE_TYPE, "_ferry._tcp.local.");
    assert_eq!(peer_name_from_fullname("alice._ferry._tcp.local."), "alice");
    assert_eq!(peer_name_from_fullname("bob.smith._ferry._tcp.local."), "bob.smith");
    assert_eq!(peer_name_from_fullname("carol._other._tcp.local."), "carol");
    assert_eq!(peer_name_from_fullname("plain"), "plain");
    assert_eq!(peer_name_from_fullname(""), "");
}

#[test]
fn hostname_for_user() {
    assert_eq!(mdns_hostname("alice"), "ferry-alice.local.");
}

#[test]
fn peer_table_insert_and_update() {
    let mut t = PeerTable::new();
    assert_eq!(t.get("bob"), None);
    t.add_peer("bob", "1.2.3.4:10".to_string());
    t.add_peer("carol", "1.2.3.5:11".to_string());
    assert_eq!(t.get("bob"), Some("1.2.3.4:10".to_string()));
    t.add_peer("bob", "9.9.9.9:99".to_string());
    assert_eq!(t.get("bob"), Some("9.9.9.9:99".to_string()));
    assert_eq!(t.list_peers(), vec!["bob".to_string(), "carol".to_string()]);
    assert_eq!(t.get("carol"), Some("1.2.3.5:11".to_string()));
    assert_eq!(t.get("nobody"), None);
    assert_eq!(
        t.list_peers_with_addrs(),
        vec![
            ("bob".to_string(), "9.9.9.9:99".to_string()),
            ("carol".to_string(), "1.2.3.5:11".to_string())
        ]
    );
}

#[test]
fn mdns_events_update_peer_table() {
    let mut t = PeerTable::new();
    t.on_service_resolved("alice._ferry._tcp.local.", "alice", Some("1.1.1.1:1".to_string()));
    assert!(t.list_peers().is_empty());
    t.on_service_resolved("bob._ferry._tcp.local.", "alice", None);
    assert!(t.list_peers().is_empty());
    t.on_service_resolved("bob._ferry._tcp.local.", "alice", Some("2.2.2.2:2".to_string()));
    assert_eq!(t.get("bob"), Some("2.2.2.2:2".to_string()));
    t.on_service_removed("bob._ferry._tcp.local.");
    assert_eq!(t.get("bob"), None);
}

#[test]
fn mdns_removal_spares_peers_registered_by_hand() {
    let mut t = PeerTable::new();
    t.add_peer("dave", "3.3.3.3:3".to_string());
    t.on_service_resolved("erin._ferry._tcp.local.", "alice", Some("4.4.4.4:4".to_string()));
    t.on_service_removed("dave._ferry._tcp.local.");
    t.on_service_removed("erin._ferry._tcp.local.");
    assert_eq!(t.get("dave"), Some("3.3.3.3:3".to_string()));
    assert_eq!(t.get("erin"), None);
    t.on_service_resolved("dave._ferry._tcp.local.", "alice", Some("5.5.5.5:5".to_string()));
    assert_eq!(t.get("dave"), Some("5.5.5.5:5".to_string()));
    t.on_service_removed("dave._ferry._tcp.local.");
    assert_eq!(t.get("dave"), None);
}

fn env(from: &str, ts: u64) -> MessageEnvelope {
    MessageEnvelope { from: from.to_string(), data: vec![ts as u8], timestamp: ts }
}

#[test]
fn inbox_is_first_in_first_out() {
    let mut inbox = Inbox::new();
    assert!(inbox.try_recv().is_none());
    inbox.push(env("a", 1));
    inbox.push(env("b", 2));
    assert_eq!(inbox.len(), 2);
    let first = inbox.try_recv().unwrap();
    assert_eq!(first.from, "a");
    inbox.push(env("c", 3));
    assert_eq!(inbox.try_recv().unwrap().timestamp, 2);
    assert_eq!(inbox.try_recv().unwrap().from, "c");
    assert!(inbox.try_recv().is_none());
}

#[test]
fn clock_reads_after_2020() {
    let t = now_ms();
    assert!(t > 1_577_836_800_000);
    assert!(now_ms() >= t);
}

#[test]
fn timestamp_from_elapsed_millis() {
    assert_eq!(millis_or_zero(None), 0);
    assert_eq!(millis_or_zero(Some(1_700_000_000_123)), 1_700_000_000_123);
    assert_eq!(millis_or_zero(Some((1u128 << 64) + 5)), 5);
}
