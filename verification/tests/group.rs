use ferry::group::{ChatEvent, ChatManager, ConversationClass, Member};

#[test]
fn status_of_each_stage() {
    let m: ChatManager<u8> = ChatManager::default();
    let st = m.chat_status();
    assert_eq!(st.state, "starting");
    assert!(st.address.is_none() && st.error.is_none());

    let m = ChatManager::Ready { client: 1u8, address: "addr-1".to_string() };
    let st = m.chat_status();
    assert_eq!(st.state, "ready");
    assert_eq!(st.address, Some("addr-1".to_string()));
    assert!(st.error.is_none());

    let m: ChatManager<u8> = ChatManager::Failed("boom".to_string());
    let st = m.chat_status();
    assert_eq!(st.state, "failed");
    assert_eq!(st.error, Some("boom".to_string()));
    assert!(st.address.is_none());

    let m: ChatManager<u8> = ChatManager::ShutDown;
    assert_eq!(m.chat_status().state, "stopped");
}

#[test]
fn client_or_why_not() {
    let mut m: ChatManager<u8> = ChatManager::Starting;
    assert_eq!(m.client_mut().err(), Some("chat engine is still starting".to_string()));
    let mut m: ChatManager<u8> = ChatManager::Failed("no registry".to_string());
    assert_eq!(
        m.client_mut().err(),
        Some("chat engine failed to start: no registry".to_string())
    );
    let mut m: ChatManager<u8> = ChatManager::ShutDown;
    assert_eq!(m.client_mut().err(), Some("chat engine is shut down".to_string()));
    let mut m = ChatManager::Ready { client: 3u8, address: "a".to_string() };
    *m.client_mut().unwrap() = 9;
    assert!(matches!(m, ChatManager::Ready { client: 9, .. }));
}

#[test]
fn settle_after_opening() {
    let mut m: ChatManager<u8> = ChatManager::default();
    m.settle(Ok((4, "addr-4".to_string())));
    assert_eq!(m.chat_status().address, Some("addr-4".to_string()));
    assert!(matches!(m, ChatManager::Ready { client: 4, .. }));
    let mut m: ChatManager<u8> = ChatManager::default();
    m.settle(Err("no node".to_string()));
    assert_eq!(m.chat_status().state, "failed");
    assert_eq!(m.chat_status().error, Some("no node".to_string()));
}

#[test]
fn shut_down_hands_back_the_client() {
    let mut m = ChatManager::Ready { client: 7u8, address: "a".to_string() };
    let prev = m.shut_down();
    assert!(matches!(prev, ChatManager::Ready { client: 7, .. }));
    assert!(matches!(m, ChatManager::ShutDown));
    assert_eq!(m.client_mut().err(), Some("chat engine is shut down".to_string()));
}

#[test]
fn events_for_the_interface() {
    match ChatEvent::conversation_started("c1".to_string(), ConversationClass::Group) {
        ChatEvent::ConversationStarted { convo_id, class } => {
            assert_eq!(convo_id, "c1");
            assert_eq!(class, "group");
        }
        _ => panic!("wrong event"),
    }
    match ChatEvent::conversation_started("c2".to_string(), ConversationClass::Private) {
        ChatEvent::ConversationStarted { class, .. } => assert_eq!(class, "private"),
        _ => panic!("wrong event"),
    }
    let sender = Member { account: Some("acc".to_string()), device: "dev".to_string() };
    match ChatEvent::message_received("c3".to_string(), &[b'h', b'i', 0xfe], sender) {
        ChatEvent::MessageReceived { convo_id, content, sender } => {
            assert_eq!(convo_id, "c3");
            assert_eq!(content, "hi\u{FFFD}");
            assert_eq!(sender.device, "dev");
            assert_eq!(sender.account, Some("acc".to_string()));
        }
        _ => panic!("wrong event"),
    }
}
