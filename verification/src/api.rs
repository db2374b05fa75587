//! The chat API: each function is one request of the user interface, applied
//! to the engine's state.  Delivery, encryption and storage happen around
//! these calls; what they decide is here.

use vstd::prelude::*;
use vstd::string::*;
use crate::chat_state::{
    ChatState, ChatView, GREETING, MessageView, PENDING_MARK, PendingEnvelope, PendingView,
    ChatEntry, ChatEntryView, SendOutcome, Session, StoredMessage, add_friend_spec, add_message,
    already_message, chat_index, copy_pending, delete_spec, drop_pending_for, find_chat,
    has_chat, kept_prefix, lemma_chat_index, messages_view, no_chat_message, outcomes_view,
    pending_view, queue_undelivered, receive_spec, retry_spec, send_spec, send_target_spec,
    entries_view, switch_spec,
};
use crate::transport::{PeerTable, all_peers, mdns_peers};
use crate::text::{decode_lossy, join3, lossy_text, utf8_error_text, utf8_to_string};
use vstd::utf8::{decode_utf8, valid_utf8};

verus! {

/// Makes the chat with `remote_user` the active one.
pub fn chat_switch(s: &mut ChatState, remote_user: String) -> (r: Result<(), String>)
    requires
        old(s).wf(),
    ensures
        final(s).wf(),
        match r {
            Ok(()) => has_chat(old(s)@.chats, remote_user@) && final(s)@ == switch_spec(
                old(s)@,
                remote_user@,
            ),
            Err(e) => !has_chat(old(s)@.chats, remote_user@) && e@ == no_chat_message(
                remote_user@,
            ) && final(s)@ == old(s)@,
        },
{
    match find_chat(&s.state.chats, &remote_user) {
        None => Err(join3("No chat with '", remote_user.as_str(), "'")),
        Some(_) => {
            s.state.active_chat = Some(remote_user);
            assert(s@ =~= switch_spec(old(s)@, remote_user@));
            Ok(())
        },
    }
}

/// Deletes the chat with `remote_user` and the envelopes queued for them.
pub fn chat_delete(s: &mut ChatState, remote_user: String) -> (r: Result<(), String>)
    requires
        old(s).wf(),
    ensures
        final(s).wf(),
        match r {
            Ok(()) => has_chat(old(s)@.chats, remote_user@) && final(s)@ == delete_spec(
                old(s)@,
                remote_user@,
            ),
            Err(e) => !has_chat(old(s)@.chats, remote_user@) && e@ == no_chat_message(
                remote_user@,
            ) && final(s)@ == old(s)@,
        },
{
    match find_chat(&s.state.chats, &remote_user) {
        None => Err(join3("No chat with '", remote_user.as_str(), "'")),
        Some(i) => {
            let ghost v0 = old(s)@;
            let _gone = s.state.chats.remove(i);
            assert(entries_view(s.state.chats@) =~= v0.chats.remove(i as int));
            drop_pending_for(&mut s.pending, &remote_user);
            let was_active = match &s.state.active_chat {
                Some(a) => *a == remote_user,
                None => false,
            };
            if was_active {
                if s.state.chats.len() > 0 {
                    s.state.active_chat = Some(s.state.chats[0].key.clone());
                } else {
                    s.state.active_chat = None;
                }
            }
            assert(s@ =~= delete_spec(v0, remote_user@));
            Ok(())
        },
    }
}


/// Refuses a second chat with the same user.
pub fn chat_add_friend_check(s: &ChatState, remote_user: &String) -> (r: Result<(), String>)
    requires
        s.wf(),
    ensures
        match r {
            Ok(()) => !has_chat(s@.chats, remote_user@),
            Err(e) => has_chat(s@.chats, remote_user@) && e@ == already_message(remote_user@),
        },
{
    match find_chat(&s.state.chats, remote_user) {
        Some(_) => Err(join3("Already have a chat with '", remote_user.as_str(), "'")),
        None => Ok(()),
    }
}

/// Opens the chat with `remote_user` whose conversation `chat_id` was just
/// created: `outcomes` are the handshake envelopes and whether each was
/// delivered.
pub fn chat_add_friend(
    s: &mut ChatState,
    remote_user: String,
    chat_id: String,
    outcomes: Vec<SendOutcome>,
    timestamp: u64,
) -> (r: Result<(), String>)
    requires
        old(s).wf(),
    ensures
        final(s).wf(),
        match r {
            Ok(()) => !has_chat(old(s)@.chats, remote_user@) && final(s)@ == add_friend_spec(
                old(s)@,
                remote_user@,
                chat_id@,
                outcomes_view(outcomes@),
                timestamp,
            ),
            Err(e) => has_chat(old(s)@.chats, remote_user@) && e@ == already_message(
                remote_user@,
            ) && final(s)@ == old(s)@,
        },
{
    match find_chat(&s.state.chats, &remote_user) {
        Some(_) => Err(join3("Already have a chat with '", remote_user.as_str(), "'")),
        None => {
            let ghost v0 = old(s)@;
            let _any = queue_undelivered(&mut s.pending, &remote_user, &outcomes);
            let mut messages: Vec<StoredMessage> = Vec::new();
            messages.push(
                StoredMessage {
                    from_self: true,
                    content: String::from_str(GREETING),
                    timestamp: timestamp,
                },
            );
            let entry = ChatEntry {
                key: remote_user.clone(),
                session: Session {
                    chat_id: chat_id,
                    remote_user: remote_user.clone(),
                    messages: messages,
                },
            };
            let ghost sv = entry@;
            s.state.chats.push(entry);
            assert(entries_view(s.state.chats@) =~= v0.chats.push(sv));
            assert(messages_view(messages@) =~= seq![
                MessageView { from_self: true, content: GREETING@, timestamp: timestamp },
            ]);
            s.state.active_chat = Some(remote_user);
            assert(s@ =~= add_friend_spec(
                v0,
                remote_user@,
                chat_id@,
                outcomes_view(outcomes@),
                timestamp,
            ));
            Ok(())
        },
    }
}


/// Where a message of the active chat goes: its chat id and remote user.
pub fn chat_send_target(s: &ChatState) -> (r: Result<(String, String), String>)
    requires
        s.wf(),
    ensures
        match r {
            Ok((chat_id, remote_user)) => send_target_spec(s@) == Ok::<
                (Seq<char>, Seq<char>),
                Seq<char>,
            >((chat_id@, remote_user@)),
            Err(e) => send_target_spec(s@) == Err::<(Seq<char>, Seq<char>), Seq<char>>(e@),
        },
{
    match &s.state.active_chat {
        None => Err(String::from_str("No active chat — switch to one first")),
        Some(active) => match find_chat(&s.state.chats, active) {
            None => Err(String::from_str("Session not found")),
            Some(i) => {
                let sess = &s.state.chats[i].session;
                Ok((sess.chat_id.clone(), sess.remote_user.clone()))
            },
        },
    }
}

/// Records `content` as sent in the active chat; `outcomes` are its envelopes
/// and whether each was delivered.
pub fn chat_send(
    s: &mut ChatState,
    content: String,
    outcomes: Vec<SendOutcome>,
    timestamp: u64,
) -> (r: Result<(), String>)
    requires
        old(s).wf(),
    ensures
        final(s).wf(),
        match send_target_spec(old(s)@) {
            Ok(_) => r is Ok && final(s)@ == send_spec(
                old(s)@,
                content@,
                outcomes_view(outcomes@),
                timestamp,
            ),
            Err(e) => r matches Err(m) && m@ == e && final(s)@ == old(s)@,
        },
{
    let ghost v0 = old(s)@;
    let i = match &s.state.active_chat {
        None => {
            return Err(String::from_str("No active chat — switch to one first"));
        },
        Some(active) => match find_chat(&s.state.chats, active) {
            None => {
                return Err(String::from_str("Session not found"));
            },
            Some(i) => i,
        },
    };
    let remote_user = s.state.chats[i].session.remote_user.clone();
    let any = queue_undelivered(&mut s.pending, &remote_user, &outcomes);
    let text = if any {
        content.concat(PENDING_MARK)
    } else {
        content
    };
    add_message(&mut s.state.chats, i, StoredMessage { from_self: true, content: text, timestamp });
    assert(s@ =~= send_spec(v0, content@, outcomes_view(outcomes@), timestamp));
    Ok(())
}

/// After a retry round over the queue: `delivered[i]` tells whether the i-th
/// queued envelope got through; those that did leave the queue.
pub fn chat_poll_retry(s: &mut ChatState, delivered: &Vec<bool>)
    requires
        old(s).wf(),
        delivered@.len() == old(s).pending@.len(),
    ensures
        final(s).wf(),
        final(s)@ == retry_spec(old(s)@, delivered@),
{
    let ghost v0 = old(s)@;
    let mut taken: Vec<PendingEnvelope> = Vec::new();
    std::mem::swap(&mut s.pending, &mut taken);
    let ghost pv = pending_view(taken@);
    let mut i: usize = 0;
    while i < taken.len()
        invariant
            i <= taken@.len(),
            pv == pending_view(taken@),
            pv == v0.pending,
            delivered@.len() == taken@.len(),
            pending_view(s.pending@) == kept_prefix(pv, delivered@, i as nat),
            s.state == old(s).state,
            s.state_path == old(s).state_path,
        decreases taken@.len() - i,
    {
        if !delivered[i] {
            let ghost before = s.pending@;
            let e = copy_pending(&taken[i]);
            s.pending.push(e);
            assert(pending_view(s.pending@) =~= pending_view(before).push(pv[i as int]));
        }
        i = i + 1;
    }
    assert(s@ =~= retry_spec(v0, delivered@));
}

/// Takes in a message that `from` sent in conversation `conversation_id`
/// (its text is `data`, decoded leniently), and reports `from` among the
/// senders of this poll.
pub fn chat_poll_receive(
    s: &mut ChatState,
    senders: &mut Vec<String>,
    from: String,
    conversation_id: String,
    data: &[u8],
    timestamp: u64,
)
    requires
        old(s).wf(),
    ensures
        final(s).wf(),
        final(s)@ == receive_spec(
            old(s)@,
            from@,
            conversation_id@,
            lossy_text(data@),
            timestamp,
        ),
        final(senders)@ == old(senders)@.push(from),
{
    let ghost v0 = old(s)@;
    let found = find_chat(&s.state.chats, &from);
    let i = match found {
        Some(i) => i,
        None => {
            let no_messages: Vec<StoredMessage> = Vec::new();
            assert(messages_view(no_messages@) =~= Seq::<MessageView>::empty());
            let entry = ChatEntry {
                key: from.clone(),
                session: Session {
                    chat_id: conversation_id,
                    remote_user: from.clone(),
                    messages: no_messages,
                },
            };
            let ghost sv = entry@;
            s.state.chats.push(entry);
            assert(entries_view(s.state.chats@) =~= v0.chats.push(sv));
            if s.state.active_chat.is_none() {
                s.state.active_chat = Some(from.clone());
            }
            proof {
                lemma_chat_index(s@.chats, from@, v0.chats.len() as int);
            }
            s.state.chats.len() - 1
        },
    };
    let ghost v1 = s@;
    proof {
        lemma_chat_index(v1.chats, from@, i as int);
    }
    let text = decode_lossy(data);
    if !text.as_str().is_empty() {
        add_message(&mut s.state.chats, i, StoredMessage { from_self: false, content: text, timestamp });
    }
    assert(s@ =~= receive_spec(v0, from@, conversation_id@, lossy_text(data@), timestamp));
    senders.push(from);
}


/// A message as the user interface shows it.
pub struct ChatMessage {
    pub from_self: bool,
    pub content: String,
    pub timestamp: u64,
}

impl View for ChatMessage {
    type V = MessageView;

    open spec fn view(&self) -> MessageView {
        MessageView { from_self: self.from_self, content: self.content@, timestamp: self.timestamp }
    }
}

pub open spec fn chat_messages_view(m: Seq<ChatMessage>) -> Seq<MessageView> {
    m.map_values(|x: ChatMessage| x@)
}

/// One line of the chat list.
pub struct ChatInfo {
    pub remote_user: String,
    pub chat_id: String,
    pub message_count: i32,
    pub is_active: bool,
    /// True if there are unsent handshake/message envelopes for this peer.
    pub has_pending: bool,
}

#[verifier::ext_equal]
pub struct ChatInfoView {
    pub remote_user: Seq<char>,
    pub chat_id: Seq<char>,
    pub message_count: i32,
    pub is_active: bool,
    pub has_pending: bool,
}

impl View for ChatInfo {
    type V = ChatInfoView;

    open spec fn view(&self) -> ChatInfoView {
        ChatInfoView {
            remote_user: self.remote_user@,
            chat_id: self.chat_id@,
            message_count: self.message_count,
            is_active: self.is_active,
            has_pending: self.has_pending,
        }
    }
}

/// Some queued envelope is addressed to `user`.
pub open spec fn has_pending_for(pending: Seq<PendingView>, user: Seq<char>) -> bool {
    exists|j: int| 0 <= j < pending.len() && (#[trigger] pending[j]).to == user
}

/// The line of the chat list for chat `e`, read off its session; the count is
/// cut to 32 bits.
pub open spec fn info_spec(v: ChatView, e: ChatEntryView) -> ChatInfoView {
    let c = e.session;
    ChatInfoView {
        remote_user: c.remote_user,
        chat_id: c.chat_id,
        message_count: c.messages.len() as i32,
        is_active: v.active == Some(c.remote_user),
        has_pending: has_pending_for(v.pending, c.remote_user),
    }
}

/// Whether some queued envelope is addressed to `user`.
fn pending_for(pending: &Vec<PendingEnvelope>, user: &String) -> (r: bool)
    ensures
        r == has_pending_for(pending_view(pending@), user@),
{
    let ghost pv = pending_view(pending@);
    let mut i: usize = 0;
    while i < pending.len()
        invariant
            i <= pending@.len(),
            pv == pending_view(pending@),
            forall|j: int| 0 <= j < i ==> (#[trigger] pv[j]).to != user@,
        decreases pending@.len() - i,
    {
        if pending[i].to == *user {
            assert(pv[i as int].to == user@);
            return true;
        }
        i = i + 1;
    }
    false
}

/// Lists all chats, one line each, in the order of the chats.
pub fn chat_list_chats(s: &ChatState) -> (r: Vec<ChatInfo>)
    ensures
        r@.len() == s@.chats.len(),
        forall|i: int| 0 <= i < r@.len() ==> (#[trigger] r@[i])@ == info_spec(s@, s@.chats[i]),
{
    let ghost v = s@;
    let mut r: Vec<ChatInfo> = Vec::new();
    let mut i: usize = 0;
    while i < s.state.chats.len()
        invariant
            i <= s.state.chats@.len(),
            v == s@,
            r@.len() == i,
            forall|k: int| 0 <= k < i ==> (#[trigger] r@[k])@ == info_spec(v, v.chats[k]),
        decreases s.state.chats@.len() - i,
    {
        let sess = &s.state.chats[i].session;
        let is_active = match &s.state.active_chat {
            Some(a) => *a == sess.remote_user,
            None => false,
        };
        let info = ChatInfo {
            remote_user: sess.remote_user.clone(),
            chat_id: sess.chat_id.clone(),
            message_count: sess.messages.len() as i32,
            is_active: is_active,
            has_pending: pending_for(&s.pending, &sess.remote_user),
        };
        assert(info@ =~= info_spec(v, v.chats[i as int]));
        r.push(info);
        i = i + 1;
    }
    r
}

/// The messages of the active chat; none when there is no active chat or it
/// is not among the chats.
pub open spec fn active_messages(v: ChatView) -> Seq<MessageView> {
    match v.active {
        Some(a) => if has_chat(v.chats, a) {
            v.chats[chat_index(v.chats, a)].session.messages
        } else {
            seq![]
        },
        None => seq![],
    }
}

/// All messages of the active chat, oldest first.
pub fn chat_get_messages(s: &ChatState) -> (r: Vec<ChatMessage>)
    requires
        s.wf(),
    ensures
        chat_messages_view(r@) == active_messages(s@),
{
    let mut r: Vec<ChatMessage> = Vec::new();
    let i = match &s.state.active_chat {
        None => {
            assert(chat_messages_view(r@) =~= active_messages(s@));
            return r;
        },
        Some(active) => match find_chat(&s.state.chats, active) {
            None => {
                assert(chat_messages_view(r@) =~= active_messages(s@));
                return r;
            },
            Some(i) => i,
        },
    };
    let msgs = &s.state.chats[i].session.messages;
    let ghost mv = messages_view(msgs@);
    assert(mv == active_messages(s@));
    let mut k: usize = 0;
    while k < msgs.len()
        invariant
            k <= msgs@.len(),
            mv == messages_view(msgs@),
            chat_messages_view(r@) == mv.take(k as int),
        decreases msgs@.len() - k,
    {
        let m = &msgs[k];
        let c = ChatMessage { from_self: m.from_self, content: m.content.clone(), timestamp: m.timestamp };
        let ghost before = r@;
        r.push(c);
        assert(chat_messages_view(r@) =~= chat_messages_view(before).push(c@));
        assert(mv.take(k + 1) =~= mv.take(k as int).push(mv[k as int]));
        k = k + 1;
    }
    assert(mv.take(msgs@.len() as int) =~= mv);
    r
}

/// The active chat's remote user, or the empty text when none is active.
pub open spec fn active_name(v: ChatView) -> Seq<char> {
    match v.active {
        Some(a) => a,
        None => Seq::empty(),
    }
}

/// The remote user of the active chat, or "" when there is none.
pub fn chat_get_active(s: &ChatState) -> (r: String)
    ensures
        r@ == active_name(s@),
{
    match &s.state.active_chat {
        Some(a) => a.clone(),
        None => String::new(),
    }
}


/// The digits of lower-case hexadecimal.
pub const HEX_DIGITS: &'static str = "0123456789abcdef";

/// Lower-case hexadecimal of `bytes`, two digits per byte.
pub open spec fn hex_spec(bytes: Seq<u8>) -> Seq<char>
    decreases bytes.len(),
{
    if bytes.len() == 0 {
        Seq::empty()
    } else {
        hex_spec(bytes.drop_last()) + seq![
            HEX_DIGITS@[(bytes.last() / 16) as int],
            HEX_DIGITS@[(bytes.last() % 16) as int],
        ]
    }
}

/// Encodes `bytes` as lower-case hexadecimal, two digits per byte.
pub fn hex_encode(bytes: &[u8]) -> (r: String)
    ensures
        r@ == hex_spec(bytes@),
{
    proof {
        reveal_strlit("0123456789abcdef");
    }
    let digits: &str = HEX_DIGITS;
    let mut r = String::new();
    let mut i: usize = 0;
    while i < bytes.len()
        invariant
            i <= bytes@.len(),
            digits@ == HEX_DIGITS@,
            digits@.len() == 16,
            r@ == hex_spec(bytes@.take(i as int)),
        decreases bytes@.len() - i,
    {
        let b = bytes[i];
        let hi: usize = (b / 16) as usize;
        let lo: usize = (b % 16) as usize;
        r.append(digits.substring_char(hi, hi + 1));
        r.append(digits.substring_char(lo, lo + 1));
        proof {
            let t = bytes@.take(i + 1);
            assert(t.drop_last() =~= bytes@.take(i as int));
            assert(t.last() == b);
            assert(r@ =~= hex_spec(t));
        }
        i = i + 1;
    }
    assert(bytes@.take(bytes@.len() as int) =~= bytes@);
    r
}


/// The text of an intro bundle: its bytes decoded as UTF-8.
pub fn chat_get_intro(bundle: Vec<u8>) -> (r: Result<String, String>)
    ensures
        r is Ok <==> valid_utf8(bundle@),
        r matches Ok(t) ==> t@ == decode_utf8(bundle@),
        r matches Err(m) ==> m@ == utf8_error_text(bundle@),
{
    utf8_to_string(bundle)
}

/// Status line of the engine.
pub struct ChatStatusInfo {
    pub user_name: String,
    pub address_hex: String,
    pub chat_count: i32,
    pub active_chat: String,
    pub tcp_port: u16,
    pub local_ip: String,
    pub pending_count: i32,
}

#[verifier::ext_equal]
pub struct ChatStatusInfoView {
    pub user_name: Seq<char>,
    pub address_hex: Seq<char>,
    pub chat_count: i32,
    pub active_chat: Seq<char>,
    pub tcp_port: u16,
    pub local_ip: Seq<char>,
    pub pending_count: i32,
}

impl View for ChatStatusInfo {
    type V = ChatStatusInfoView;

    open spec fn view(&self) -> ChatStatusInfoView {
        ChatStatusInfoView {
            user_name: self.user_name@,
            address_hex: self.address_hex@,
            chat_count: self.chat_count,
            active_chat: self.active_chat@,
            tcp_port: self.tcp_port,
            local_ip: self.local_ip@,
            pending_count: self.pending_count,
        }
    }
}

/// The status of an engine that is not initialized: everything empty or zero.
pub fn chat_status_uninitialized() -> (r: ChatStatusInfo)
    ensures
        r@ == (ChatStatusInfoView {
            user_name: Seq::empty(),
            address_hex: Seq::empty(),
            chat_count: 0,
            active_chat: Seq::empty(),
            tcp_port: 0,
            local_ip: Seq::empty(),
            pending_count: 0,
        }),
{
    let r = ChatStatusInfo {
        user_name: String::new(),
        address_hex: String::new(),
        chat_count: 0,
        active_chat: String::new(),
        tcp_port: 0,
        local_ip: String::new(),
        pending_count: 0,
    };
    assert(r@.user_name =~= Seq::<char>::empty());
    r
}

/// The status of a running engine, for the installation `user_name` with key
/// `key`, listening on `tcp_port` at `local_ip`.  The counts are cut to 32 bits.
pub fn chat_get_status(
    s: &ChatState,
    user_name: String,
    key: &[u8],
    tcp_port: u16,
    local_ip: String,
) -> (r: ChatStatusInfo)
    ensures
        r@ == (ChatStatusInfoView {
            user_name: user_name@,
            address_hex: hex_spec(key@),
            chat_count: s@.chats.len() as i32,
            active_chat: active_name(s@),
            tcp_port: tcp_port,
            local_ip: local_ip@,
            pending_count: s@.pending.len() as i32,
        }),
{
    ChatStatusInfo {
        user_name: user_name,
        address_hex: hex_encode(key),
        chat_count: s.state.chats.len() as i32,
        active_chat: chat_get_active(s),
        tcp_port: tcp_port,
        local_ip: local_ip,
        pending_count: s.pending.len() as i32,
    }
}

/// Where the chat database of `user_name` lives in `data_dir`.
pub fn db_path(data_dir: &str, user_name: &str) -> (r: String)
    ensures
        r@ == data_dir@ + "/"@ + user_name@ + ".db"@,
{
    let mut r = join3(data_dir, "/", user_name);
    r.append(".db");
    r
}

/// Where the chat state of `user_name` is saved in `data_dir`.
pub fn state_path(data_dir: &str, user_name: &str) -> (r: String)
    ensures
        r@ == data_dir@ + "/"@ + user_name@ + "_state.json"@,
{
    let mut r = join3(data_dir, "/", user_name);
    r.append("_state.json");
    r
}


/// A discovered or registered peer and its address (`ip:port`).
pub struct PeerInfo {
    pub name: String,
    pub addr: String,
}

#[verifier::ext_equal]
pub struct PeerView {
    pub name: Seq<char>,
    pub addr: Seq<char>,
}

impl View for PeerInfo {
    type V = PeerView;

    open spec fn view(&self) -> PeerView {
        PeerView { name: self.name@, addr: self.addr@ }
    }
}

pub open spec fn peer_infos_view(p: Seq<PeerInfo>) -> Seq<PeerView> {
    p.map_values(|x: PeerInfo| x@)
}


/// Peers currently visible via mDNS, with their addresses.
pub fn chat_list_peers(peers: &PeerTable) -> (r: Vec<PeerInfo>)
    ensures
        peer_infos_view(r@) == mdns_peers(peers@),
{
    peers.list_mdns_peers()
}

/// Every known peer, also those registered by hand, with its `ip:port`
/// address.
pub fn chat_list_peers_with_addrs(peers: &PeerTable) -> (r: Vec<PeerInfo>)
    ensures
        peer_infos_view(r@) == all_peers(peers@),
{
    let pairs = peers.list_peers_with_addrs();
    let ghost want = all_peers(peers@);
    let mut r: Vec<PeerInfo> = Vec::new();
    let mut i: usize = 0;
    while i < pairs.len()
        invariant
            i <= pairs@.len(),
            pairs@.len() == peers@.len(),
            want == all_peers(peers@),
            forall|k: int|
                0 <= k < pairs@.len() ==> (#[trigger] pairs@[k]).0@ == peers@[k].name
                    && pairs@[k].1@ == peers@[k].addr,
            peer_infos_view(r@) == want.take(i as int),
        decreases pairs@.len() - i,
    {
        let p = PeerInfo { name: pairs[i].0.clone(), addr: pairs[i].1.clone() };
        let ghost before = r@;
        r.push(p);
        assert(peer_infos_view(r@) =~= peer_infos_view(before).push(p@));
        assert(want.take(i + 1) =~= want.take(i as int).push(want[i as int]));
        i = i + 1;
    }
    assert(want.take(pairs@.len() as int) =~= want);
    r
}

} // verus!
