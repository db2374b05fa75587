use ferry::api::{
    chat_add_friend, chat_add_friend_check, chat_delete, chat_get_active, chat_get_intro,
    chat_get_messages, chat_get_status, chat_list_chats, chat_list_peers,
    chat_list_peers_with_addrs, chat_poll_receive, chat_poll_retry, chat_send, chat_send_target,
    chat_status_uninitialized, chat_switch, db_path, hex_encode, state_path,
};
use ferry::chat_state::{
    ChatEntry, ChatState, PersistedState, SendOutcome, Session, StoredMessage,
};
use ferry::transport::PeerTable;

fn fresh() -> ChatState {
    ChatState::new(PersistedState::default(), "/data/alice_state.json".to_string())
}

fn out(data: &[u8], delivered: bool) -> SendOutcome {
    SendOutcome { data: data.to_vec(), delivered }
}

fn befriend(s: &mut ChatState, user: &str, outcomes: Vec<SendOutcome>) {
    chat_add_friend(s, user.to_string(), format!("convo-{}", user), outcomes, 100).unwrap();
}

#[test]
fn add_friend_opens_active_chat_with_greeting() {
    let mut s = fresh();
    befriend(&mut s, "bob", vec![out(b"hs1", true)]);
    assert_eq!(chat_get_active(&s), "bob");
    let msgs = chat_get_messages(&s);
    assert_eq!(msgs.len(), 1);
    assert!(msgs[0].from_self);
    assert_eq!(msgs[0].content, "👋 Hello!");
    assert_eq!(msgs[0].timestamp, 100);
    assert!(s.pending.is_empty());
}

#[test]
fn add_friend_queues_undelivered_handshake() {
    let mut s = fresh();
    befriend(&mut s, "bob", vec![out(b"a", true), out(b"b", false), out(b"c", false)]);
    assert_eq!(s.pending.len(), 2);
    assert_eq!(s.pending[0].to, "bob");
    assert_eq!(s.pending[0].data, b"b".to_vec());
    assert_eq!(s.pending[1].data, b"c".to_vec());
    let list = chat_list_chats(&s);
    assert!(list[0].has_pending);
}

#[test]
fn add_friend_twice_is_refused() {
    let mut s = fresh();
    befriend(&mut s, "bob", vec![]);
    assert_eq!(
        chat_add_friend_check(&s, &"bob".to_string()),
        Err("Already have a chat with 'bob'".to_string())
    );
    let r = chat_add_friend(&mut s, "bob".to_string(), "x".to_string(), vec![out(b"z", false)], 5);
    assert_eq!(r, Err("Already have a chat with 'bob'".to_string()));
    assert_eq!(s.state.chats.len(), 1);
    assert!(s.pending.is_empty());
    assert_eq!(chat_add_friend_check(&s, &"carol".to_string()), Ok(()));
}

#[test]
fn switch_to_known_and_unknown_chat() {
    let mut s = fresh();
    befriend(&mut s, "bob", vec![]);
    befriend(&mut s, "carol", vec![]);
    assert_eq!(chat_get_active(&s), "carol");
    assert_eq!(chat_switch(&mut s, "bob".to_string()), Ok(()));
    assert_eq!(chat_get_active(&s), "bob");
    assert_eq!(
        chat_switch(&mut s, "dave".to_string()),
        Err("No chat with 'dave'".to_string())
    );
    assert_eq!(chat_get_active(&s), "bob");
}

#[test]
fn delete_active_chat_moves_to_first_remaining() {
    let mut s = fresh();
    befriend(&mut s, "bob", vec![out(b"1", false)]);
    befriend(&mut s, "carol", vec![out(b"2", false)]);
    assert_eq!(chat_delete(&mut s, "carol".to_string()), Ok(()));
    assert_eq!(chat_get_active(&s), "bob");
    assert_eq!(s.pending.len(), 1);
    assert_eq!(s.pending[0].to, "bob");
    assert_eq!(chat_delete(&mut s, "bob".to_string()), Ok(()));
    assert_eq!(chat_get_active(&s), "");
    assert!(s.state.active_chat.is_none());
    assert!(s.pending.is_empty());
    assert_eq!(
        chat_delete(&mut s, "bob".to_string()),
        Err("No chat with 'bob'".to_string())
    );
}

#[test]
fn delete_other_chat_keeps_active() {
    let mut s = fresh();
    befriend(&mut s, "bob", vec![]);
    befriend(&mut s, "carol", vec![]);
    chat_delete(&mut s, "bob".to_string()).unwrap();
    assert_eq!(chat_get_active(&s), "carol");
    assert_eq!(chat_list_chats(&s).len(), 1);
}

#[test]
fn send_without_active_chat() {
    let mut s = fresh();
    assert_eq!(
        chat_send_target(&s),
        Err("No active chat — switch to one first".to_string())
    );
    let r = chat_send(&mut s, "hi".to_string(), vec![], 1);
    assert_eq!(r, Err("No active chat — switch to one first".to_string()));
}

#[test]
fn send_to_missing_session() {
    let state = PersistedState { chats: vec![], active_chat: Some("ghost".to_string()) };
    let mut s = ChatState::new(state, "p".to_string());
    assert_eq!(chat_send_target(&s), Err("Session not found".to_string()));
    assert_eq!(
        chat_send(&mut s, "hi".to_string(), vec![], 1),
        Err("Session not found".to_string())
    );
}

#[test]
fn send_delivered_and_pending() {
    let mut s = fresh();
    befriend(&mut s, "bob", vec![]);
    assert_eq!(
        chat_send_target(&s),
        Ok(("convo-bob".to_string(), "bob".to_string()))
    );
    chat_send(&mut s, "first".to_string(), vec![out(b"e1", true)], 200).unwrap();
    chat_send(&mut s, "second".to_string(), vec![out(b"e2", true), out(b"e3", false)], 300)
        .unwrap();
    let msgs = chat_get_messages(&s);
    assert_eq!(msgs.len(), 3);
    assert_eq!(msgs[1].content, "first");
    assert_eq!(msgs[2].content, "second (pending…)");
    assert_eq!(msgs[2].timestamp, 300);
    assert_eq!(s.pending.len(), 1);
    assert_eq!(s.pending[0].data, b"e3".to_vec());
}

#[test]
fn poll_retry_removes_delivered() {
    let mut s = fresh();
    befriend(&mut s, "bob", vec![out(b"1", false), out(b"2", false), out(b"3", false)]);
    chat_poll_retry(&mut s, &vec![true, false, true]);
    assert_eq!(s.pending.len(), 1);
    assert_eq!(s.pending[0].data, b"2".to_vec());
    chat_poll_retry(&mut s, &vec![true]);
    assert!(s.pending.is_empty());
}

#[test]
fn poll_receive_from_new_sender() {
    let mut s = fresh();
    let mut senders = Vec::new();
    chat_poll_receive(&mut s, &mut senders, "dave".to_string(), "c9".to_string(), b"yo", 42);
    assert_eq!(senders, vec!["dave".to_string()]);
    assert_eq!(chat_get_active(&s), "dave");
    let list = chat_list_chats(&s);
    assert_eq!(list[0].chat_id, "c9");
    assert_eq!(list[0].message_count, 1);
    let msgs = chat_get_messages(&s);
    assert!(!msgs[0].from_self);
    assert_eq!(msgs[0].content, "yo");
    assert_eq!(msgs[0].timestamp, 42);
}

#[test]
fn poll_receive_keeps_active_and_skips_empty_text() {
    let mut s = fresh();
    befriend(&mut s, "bob", vec![]);
    let mut senders = Vec::new();
    chat_poll_receive(&mut s, &mut senders, "erin".to_string(), "c1".to_string(), b"", 7);
    chat_poll_receive(&mut s, &mut senders, "bob".to_string(), "other".to_string(), b"hey", 8);
    assert_eq!(senders, vec!["erin".to_string(), "bob".to_string()]);
    assert_eq!(chat_get_active(&s), "bob");
    let list = chat_list_chats(&s);
    assert_eq!(list.len(), 2);
    assert_eq!(list[0].chat_id, "convo-bob");
    assert_eq!(list[0].message_count, 2);
    assert_eq!(list[1].remote_user, "erin");
    assert_eq!(list[1].message_count, 0);
}

#[test]
fn poll_receive_decodes_invalid_utf8_leniently() {
    let mut s = fresh();
    let mut senders = Vec::new();
    chat_poll_receive(&mut s, &mut senders, "f".to_string(), "c".to_string(), &[b'a', 0xff, b'b'], 1);
    let msgs = chat_get_messages(&s);
    assert_eq!(msgs[0].content, "a\u{FFFD}b");
}

#[test]
fn list_chats_marks_active_and_pending() {
    let mut s = fresh();
    befriend(&mut s, "bob", vec![out(b"x", false)]);
    befriend(&mut s, "carol", vec![]);
    let list = chat_list_chats(&s);
    assert_eq!(list.len(), 2);
    assert_eq!(list[0].remote_user, "bob");
    assert!(!list[0].is_active);
    assert!(list[0].has_pending);
    assert_eq!(list[1].remote_user, "carol");
    assert!(list[1].is_active);
    assert!(!list[1].has_pending);
    assert_eq!(list[1].message_count, 1);
}

#[test]
fn status_reports_counts_and_key() {
    let mut s = fresh();
    befriend(&mut s, "bob", vec![out(b"x", false)]);
    let st = chat_get_status(&s, "alice".to_string(), &[0x01, 0xab, 0xff], 4242, "10.0.0.2".to_string());
    assert_eq!(st.user_name, "alice");
    assert_eq!(st.address_hex, "01abff");
    assert_eq!(st.chat_count, 1);
    assert_eq!(st.active_chat, "bob");
    assert_eq!(st.tcp_port, 4242);
    assert_eq!(st.local_ip, "10.0.0.2");
    assert_eq!(st.pending_count, 1);
    let empty = chat_status_uninitialized();
    assert_eq!(empty.user_name, "");
    assert_eq!(empty.chat_count, 0);
    assert_eq!(empty.tcp_port, 0);
    assert_eq!(empty.pending_count, 0);
}

#[test]
fn hex_encode_is_lowercase_two_digits_per_byte() {
    assert_eq!(hex_encode(&[]), "");
    assert_eq!(hex_encode(&[0x00, 0x0f, 0x10, 0xde, 0xad]), "000f10dead");
    assert_eq!(hex_encode(&[255]), "ff");
}

#[test]
fn paths_of_database_and_state() {
    assert_eq!(db_path("/data", "alice"), "/data/alice.db");
    assert_eq!(state_path("/data", "alice"), "/data/alice_state.json");
}

#[test]
fn intro_text_must_be_utf8() {
    assert_eq!(chat_get_intro(b"bundle-123".to_vec()), Ok("bundle-123".to_string()));
    let err = chat_get_intro(vec![0x61, 0xc3]).unwrap_err();
    assert!(err.contains("utf-8"));
}

#[test]
fn loaded_state_keeps_every_key() {
    let entry = |key: &str, id: &str, user: &str| ChatEntry {
        key: key.to_string(),
        session: Session {
            chat_id: id.to_string(),
            remote_user: user.to_string(),
            messages: vec![StoredMessage { from_self: true, content: "m".to_string(), timestamp: 1 }],
        },
    };
    let state = PersistedState {
        chats: vec![entry("bob", "1", "bob"), entry("bob2", "2", "bob"), entry("bob", "3", "bob")],
        active_chat: Some("bob2".to_string()),
    };
    let mut s = ChatState::new(state, "p".to_string());
    let list = chat_list_chats(&s);
    assert_eq!(list.len(), 2);
    assert_eq!(list[0].chat_id, "1");
    assert_eq!(list[1].chat_id, "2");
    assert_eq!(s.state_path, "p");
    assert_eq!(
        chat_send_target(&s),
        Ok(("2".to_string(), "bob".to_string()))
    );
    assert_eq!(chat_switch(&mut s, "bob".to_string()), Ok(()));
    assert_eq!(chat_get_active(&s), "bob");
    assert_eq!(chat_delete(&mut s, "bob2".to_string()), Ok(()));
    assert_eq!(chat_list_chats(&s).len(), 1);
}

#[test]
fn list_peers_through_api() {
    let mut t = PeerTable::new();
    t.add_peer("bob", "10.0.0.3:5000".to_string());
    t.on_service_resolved("carol._ferry._tcp.local.", "alice", Some("10.0.0.4:6000".to_string()));
    let visible = chat_list_peers(&t);
    assert_eq!(visible.len(), 1);
    assert_eq!(visible[0].name, "carol");
    assert_eq!(visible[0].addr, "10.0.0.4:6000");
    let infos = chat_list_peers_with_addrs(&t);
    assert_eq!(infos.len(), 2);
    assert_eq!(infos[0].name, "bob");
    assert_eq!(infos[0].addr, "10.0.0.3:5000");
    assert_eq!(infos[1].name, "carol");
    assert_eq!(infos[1].addr, "10.0.0.4:6000");
}

#[test]
fn add_then_delete_leaves_others_alone() {
    let mut s = fresh();
    befriend(&mut s, "bob", vec![out(b"b1", false)]);
    befriend(&mut s, "carol", vec![out(b"c1", false), out(b"c2", false)]);
    chat_delete(&mut s, "carol".to_string()).unwrap();
    let list = chat_list_chats(&s);
    assert_eq!(list.len(), 1);
    assert_eq!(list[0].remote_user, "bob");
    assert_eq!(list[0].message_count, 1);
    assert_eq!(s.pending.len(), 1);
    assert_eq!(s.pending[0].data, b"b1".to_vec());
}

#[test]
fn retry_with_nothing_delivered_keeps_queue() {
    let mut s = fresh();
    befriend(&mut s, "bob", vec![out(b"1", false), out(b"2", false)]);
    chat_poll_retry(&mut s, &vec![false, false]);
    assert_eq!(s.pending.len(), 2);
    assert_eq!(s.pending[0].data, b"1".to_vec());
    assert_eq!(s.pending[1].data, b"2".to_vec());
    assert_eq!(chat_get_active(&s), "bob");
}

#[test]
fn hex_reads_back_as_the_bytes() {
    let bytes = [0x00u8, 0x7f, 0x80, 0xde, 0xad, 0xff];
    let hex = hex_encode(&bytes);
    for (i, b) in bytes.iter().enumerate() {
        assert_eq!(u8::from_str_radix(&hex[2 * i..2 * i + 2], 16), Ok(*b));
    }
}
