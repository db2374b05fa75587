//! Chat sessions, the active chat and the queue of envelopes still to be
//! delivered, with every operation the chat API performs on them.

use vstd::prelude::*;
use vstd::string::*;

verus! {

/// The first message of every chat that this side opens.
pub const GREETING: &'static str = "👋 Hello!";

/// Added to a sent message when one of its envelopes had to be queued.
pub const PENDING_MARK: &'static str = " (pending…)";

/// One message of a chat.
pub struct StoredMessage {
    pub from_self: bool,
    pub content: String,
    pub timestamp: u64,
}

/// A chat with one remote user.
pub struct Session {
    pub chat_id: String,
    pub remote_user: String,
    pub messages: Vec<StoredMessage>,
}

/// A chat under the key it is stored by: the remote user it was opened for.
pub struct ChatEntry {
    pub key: String,
    pub session: Session,
}

/// What is kept on disk: the chats by key, and the active chat's key.
pub struct PersistedState {
    pub chats: Vec<ChatEntry>,
    pub active_chat: Option<String>,
}

/// An envelope that could not be delivered yet, kept for a later retry.
pub struct PendingEnvelope {
    pub to: String,
    pub data: Vec<u8>,
}

/// The chat engine's own state: what is persisted, where it is persisted,
/// and the envelopes waiting for delivery.
pub struct ChatState {
    pub state: PersistedState,
    pub state_path: String,
    pub pending: Vec<PendingEnvelope>,
}

#[verifier::ext_equal]
pub struct MessageView {
    pub from_self: bool,
    pub content: Seq<char>,
    pub timestamp: u64,
}

#[verifier::ext_equal]
pub struct SessionView {
    pub chat_id: Seq<char>,
    pub remote_user: Seq<char>,
    pub messages: Seq<MessageView>,
}

#[verifier::ext_equal]
pub struct ChatEntryView {
    pub key: Seq<char>,
    pub session: SessionView,
}

#[verifier::ext_equal]
pub struct PendingView {
    pub to: Seq<char>,
    pub data: Seq<u8>,
}

#[verifier::ext_equal]
pub struct ChatView {
    pub chats: Seq<ChatEntryView>,
    pub active: Option<Seq<char>>,
    pub pending: Seq<PendingView>,
    pub state_path: Seq<char>,
}

impl View for StoredMessage {
    type V = MessageView;

    open spec fn view(&self) -> MessageView {
        MessageView { from_self: self.from_self, content: self.content@, timestamp: self.timestamp }
    }
}

pub open spec fn messages_view(m: Seq<StoredMessage>) -> Seq<MessageView> {
    m.map_values(|x: StoredMessage| x@)
}

impl View for Session {
    type V = SessionView;

    open spec fn view(&self) -> SessionView {
        SessionView {
            chat_id: self.chat_id@,
            remote_user: self.remote_user@,
            messages: messages_view(self.messages@),
        }
    }
}

impl View for ChatEntry {
    type V = ChatEntryView;

    open spec fn view(&self) -> ChatEntryView {
        ChatEntryView { key: self.key@, session: self.session@ }
    }
}

pub open spec fn entries_view(s: Seq<ChatEntry>) -> Seq<ChatEntryView> {
    s.map_values(|x: ChatEntry| x@)
}

impl View for PendingEnvelope {
    type V = PendingView;

    open spec fn view(&self) -> PendingView {
        PendingView { to: self.to@, data: self.data@ }
    }
}

pub open spec fn pending_view(p: Seq<PendingEnvelope>) -> Seq<PendingView> {
    p.map_values(|x: PendingEnvelope| x@)
}

pub open spec fn opt_text(o: Option<String>) -> Option<Seq<char>> {
    match o {
        Some(s) => Some(s@),
        None => None,
    }
}

impl View for ChatState {
    type V = ChatView;

    open spec fn view(&self) -> ChatView {
        ChatView {
            chats: entries_view(self.state.chats@),
            active: opt_text(self.state.active_chat),
            pending: pending_view(self.pending@),
            state_path: self.state_path@,
        }
    }
}

/// There is a chat under key `user`.
pub open spec fn has_chat(chats: Seq<ChatEntryView>, user: Seq<char>) -> bool {
    exists|i: int| 0 <= i < chats.len() && #[trigger] chats[i].key == user
}

/// The position of the chat under key `user`.
pub open spec fn chat_index(chats: Seq<ChatEntryView>, user: Seq<char>) -> int {
    choose|i: int| 0 <= i < chats.len() && #[trigger] chats[i].key == user
}

/// No key names two chats.
pub open spec fn unique_keys(chats: Seq<ChatEntryView>) -> bool {
    forall|i: int, j: int|
        0 <= i < chats.len() && 0 <= j < chats.len() && i != j ==> #[trigger] chats[i].key
            != #[trigger] chats[j].key
}

/// Every chat is stored under the remote user of its session, as every
/// operation stores it.
pub open spec fn keys_match(chats: Seq<ChatEntryView>) -> bool {
    forall|i: int| 0 <= i < chats.len() ==> (#[trigger] chats[i]).key == chats[i].session.remote_user
}

/// The active chat, when there is one, is one of the chats.
pub open spec fn active_is_known(v: ChatView) -> bool {
    match v.active {
        Some(a) => has_chat(v.chats, a),
        None => true,
    }
}

pub proof fn lemma_chat_index(chats: Seq<ChatEntryView>, user: Seq<char>, i: int)
    requires
        unique_keys(chats),
        0 <= i < chats.len(),
        chats[i].key == user,
    ensures
        has_chat(chats, user),
        chat_index(chats, user) == i,
{
    assert(has_chat(chats, user));
    let k = chat_index(chats, user);
    assert(chats[k].key == user);
}

impl ChatState {
    /// No key names two chats.
    pub open spec fn wf(&self) -> bool {
        unique_keys(self@.chats)
    }
}

/// "No chat with '<user>'".
pub open spec fn no_chat_message(user: Seq<char>) -> Seq<char> {
    "No chat with '"@ + user + "'"@
}

/// Where the chat under key `user` stands in `chats`, if there is one.
pub(crate) fn find_chat(chats: &Vec<ChatEntry>, user: &String) -> (r: Option<usize>)
    requires
        unique_keys(entries_view(chats@)),
    ensures
        match r {
            Some(i) => i < chats@.len() && chats@[i as int].key@ == user@
                && has_chat(entries_view(chats@), user@)
                && chat_index(entries_view(chats@), user@) == i,
            None => !has_chat(entries_view(chats@), user@),
        },
{
    let ghost v = entries_view(chats@);
    let mut i: usize = 0;
    while i < chats.len()
        invariant
            i <= chats@.len(),
            v == entries_view(chats@),
            unique_keys(v),
            forall|j: int| 0 <= j < i ==> #[trigger] v[j].key != user@,
        decreases chats@.len() - i,
    {
        if chats[i].key == *user {
            proof {
                lemma_chat_index(v, user@, i as int);
            }
            return Some(i);
        }
        i = i + 1;
    }
    None
}


/// Switching to the chat with `user`.
pub open spec fn switch_spec(v: ChatView, user: Seq<char>) -> ChatView {
    ChatView { active: Some(user), ..v }
}

/// The queue without the envelopes addressed to `user`.
pub open spec fn pending_without(p: Seq<PendingView>, user: Seq<char>) -> Seq<PendingView> {
    p.filter(|e: PendingView| e.to != user)
}

/// Deleting the chat with `user`: the chat and its queued envelopes go; if it
/// was the active chat, the first remaining chat (or none) becomes active.
pub open spec fn delete_spec(v: ChatView, user: Seq<char>) -> ChatView {
    let chats = v.chats.remove(chat_index(v.chats, user));
    ChatView {
        chats: chats,
        active: if v.active == Some(user) {
            if chats.len() > 0 {
                Some(chats[0].key)
            } else {
                None
            }
        } else {
            v.active
        },
        pending: pending_without(v.pending, user),
        state_path: v.state_path,
    }
}

/// A copy of a queued envelope.
pub fn copy_pending(p: &PendingEnvelope) -> (r: PendingEnvelope)
    ensures
        r@ == p@,
{
    PendingEnvelope { to: p.to.clone(), data: vstd::slice::slice_to_vec(p.data.as_slice()) }
}

/// Drops from the queue every envelope addressed to `user`, keeping the order
/// of the others.
pub fn drop_pending_for(pending: &mut Vec<PendingEnvelope>, user: &String)
    ensures
        pending_view(final(pending)@) == pending_without(pending_view(old(pending)@), user@),
{
    let mut taken: Vec<PendingEnvelope> = Vec::new();
    std::mem::swap(pending, &mut taken);
    let ghost pv = pending_view(taken@);
    let mut i: usize = 0;
    while i < taken.len()
        invariant
            i <= taken@.len(),
            pv == pending_view(taken@),
            pending_view(pending@) == pending_without(pv.take(i as int), user@),
        decreases taken@.len() - i,
    {
        proof {
            reveal_with_fuel(Seq::filter, 1);
            assert(pv.take(i + 1).drop_last() =~= pv.take(i as int));
        }
        if taken[i].to != *user {
            let ghost before = pending@;
            let e = copy_pending(&taken[i]);
            pending.push(e);
            assert(pending_view(pending@) =~= pending_view(before).push(pv[i as int]));
        }
        i = i + 1;
    }
    assert(pv.take(taken@.len() as int) =~= pv);
}


/// An envelope handed to the transport, and whether it was delivered.
pub struct SendOutcome {
    pub data: Vec<u8>,
    pub delivered: bool,
}

#[verifier::ext_equal]
pub struct OutcomeView {
    pub data: Seq<u8>,
    pub delivered: bool,
}

impl View for SendOutcome {
    type V = OutcomeView;

    open spec fn view(&self) -> OutcomeView {
        OutcomeView { data: self.data@, delivered: self.delivered }
    }
}

pub open spec fn outcomes_view(o: Seq<SendOutcome>) -> Seq<OutcomeView> {
    o.map_values(|x: SendOutcome| x@)
}

/// The envelopes of `outs` that were not delivered, in order, addressed to `to`.
pub open spec fn queued(to: Seq<char>, outs: Seq<OutcomeView>) -> Seq<PendingView>
    decreases outs.len(),
{
    if outs.len() == 0 {
        seq![]
    } else {
        let q = queued(to, outs.drop_last());
        if outs.last().delivered {
            q
        } else {
            q.push(PendingView { to: to, data: outs.last().data })
        }
    }
}

/// Some envelope of `outs` was not delivered.
pub open spec fn any_undelivered(outs: Seq<OutcomeView>) -> bool {
    exists|i: int| 0 <= i < outs.len() && !(#[trigger] outs[i]).delivered
}

/// Queues, for a later retry, each envelope of `outcomes` that was not
/// delivered; tells whether there was one.
pub fn queue_undelivered(
    pending: &mut Vec<PendingEnvelope>,
    to: &String,
    outcomes: &Vec<SendOutcome>,
) -> (any: bool)
    ensures
        pending_view(final(pending)@) == pending_view(old(pending)@) + queued(
            to@,
            outcomes_view(outcomes@),
        ),
        any == any_undelivered(outcomes_view(outcomes@)),
{
    let ghost p0 = pending_view(pending@);
    let ghost ov = outcomes_view(outcomes@);
    let mut any = false;
    let mut i: usize = 0;
    while i < outcomes.len()
        invariant
            i <= outcomes@.len(),
            ov == outcomes_view(outcomes@),
            pending_view(pending@) == p0 + queued(to@, ov.take(i as int)),
            any == (exists|j: int| 0 <= j < i && !(#[trigger] ov[j]).delivered),
        decreases outcomes@.len() - i,
    {
        proof {
            assert(ov.take(i + 1).drop_last() =~= ov.take(i as int));
            assert(ov.take(i + 1).last() == ov[i as int]);
        }
        if !outcomes[i].delivered {
            let ghost before = pending@;
            let e = PendingEnvelope {
                to: to.clone(),
                data: vstd::slice::slice_to_vec(outcomes[i].data.as_slice()),
            };
            pending.push(e);
            assert(pending_view(pending@) =~= pending_view(before).push(e@));
            any = true;
        }
        i = i + 1;
    }
    assert(ov.take(outcomes@.len() as int) =~= ov);
    any
}

/// "Already have a chat with '<user>'".
pub open spec fn already_message(user: Seq<char>) -> Seq<char> {
    "Already have a chat with '"@ + user + "'"@
}

/// A new chat with `user`, opened by this side: it holds the greeting, it
/// becomes the active chat, and the envelopes of the handshake that were not
/// delivered are queued.
pub open spec fn add_friend_spec(
    v: ChatView,
    user: Seq<char>,
    chat_id: Seq<char>,
    outs: Seq<OutcomeView>,
    timestamp: u64,
) -> ChatView {
    ChatView {
        chats: v.chats.push(
            ChatEntryView {
                key: user,
                session: SessionView {
                    chat_id: chat_id,
                    remote_user: user,
                    messages: seq![MessageView { from_self: true, content: GREETING@, timestamp: timestamp }],
                },
            },
        ),
        active: Some(user),
        pending: v.pending + queued(user, outs),
        state_path: v.state_path,
    }
}

/// "No active chat — switch to one first".
pub open spec fn no_active_message() -> Seq<char> {
    "No active chat — switch to one first"@
}

/// "Session not found".
pub open spec fn no_session_message() -> Seq<char> {
    "Session not found"@
}

/// Where a message of the active chat goes: its chat id and remote user, or
/// why there is nowhere to send it.
pub open spec fn send_target_spec(v: ChatView) -> Result<(Seq<char>, Seq<char>), Seq<char>> {
    match v.active {
        None => Err(no_active_message()),
        Some(a) => if has_chat(v.chats, a) {
            let c = v.chats[chat_index(v.chats, a)].session;
            Ok((c.chat_id, c.remote_user))
        } else {
            Err(no_session_message())
        },
    }
}

/// Sending `content` in the active chat: the message is recorded (marked as
/// pending when an envelope had to be queued) and the envelopes that were not
/// delivered are queued for the chat's remote user.
pub open spec fn send_spec(
    v: ChatView,
    content: Seq<char>,
    outs: Seq<OutcomeView>,
    timestamp: u64,
) -> ChatView {
    let i = chat_index(v.chats, v.active.unwrap());
    let e = v.chats[i];
    let c = e.session;
    let text = if any_undelivered(outs) {
        content + PENDING_MARK@
    } else {
        content
    };
    ChatView {
        chats: v.chats.update(
            i,
            ChatEntryView {
                session: SessionView {
                    messages: c.messages.push(
                        MessageView { from_self: true, content: text, timestamp: timestamp },
                    ),
                    ..c
                },
                ..e
            },
        ),
        pending: v.pending + queued(c.remote_user, outs),
        ..v
    }
}

/// The envelopes among the first `n` of `p` whose retry did not get through.
pub open spec fn kept_prefix(p: Seq<PendingView>, delivered: Seq<bool>, n: nat) -> Seq<PendingView>
    decreases n,
{
    if n == 0 {
        seq![]
    } else {
        let k = kept_prefix(p, delivered, (n - 1) as nat);
        if delivered[n - 1] {
            k
        } else {
            k.push(p[n - 1])
        }
    }
}

/// The queue after a retry round: the envelopes that were delivered leave it,
/// the others stay in their order.
pub open spec fn retry_spec(v: ChatView, delivered: Seq<bool>) -> ChatView {
    ChatView { pending: kept_prefix(v.pending, delivered, v.pending.len()), ..v }
}

/// A message from `from` arrives in conversation `convo`: an unknown sender
/// gets a chat (which becomes active when none is), and a non-empty text is
/// added to the sender's chat.
pub open spec fn receive_spec(
    v: ChatView,
    from: Seq<char>,
    convo: Seq<char>,
    text: Seq<char>,
    timestamp: u64,
) -> ChatView {
    let v1 = if has_chat(v.chats, from) {
        v
    } else {
        ChatView {
            chats: v.chats.push(
                ChatEntryView {
                    key: from,
                    session: SessionView { chat_id: convo, remote_user: from, messages: seq![] },
                },
            ),
            active: if v.active is None {
                Some(from)
            } else {
                v.active
            },
            ..v
        }
    };
    if text.len() == 0 {
        v1
    } else {
        let i = chat_index(v1.chats, from);
        let e = v1.chats[i];
        let c = e.session;
        ChatView {
            chats: v1.chats.update(
                i,
                ChatEntryView {
                    session: SessionView {
                        messages: c.messages.push(
                            MessageView { from_self: false, content: text, timestamp: timestamp },
                        ),
                        ..c
                    },
                    ..e
                },
            ),
            ..v1
        }
    }
}


/// The chat at position `i` with message `m` added at its end.
pub open spec fn with_message(chats: Seq<ChatEntryView>, i: int, m: MessageView) -> Seq<ChatEntryView> {
    chats.update(
        i,
        ChatEntryView {
            session: SessionView { messages: chats[i].session.messages.push(m), ..chats[i].session },
            ..chats[i]
        },
    )
}

/// Adds message `m` at the end of chat `i`.
pub fn add_message(chats: &mut Vec<ChatEntry>, i: usize, m: StoredMessage)
    requires
        i < old(chats)@.len(),
    ensures
        entries_view(final(chats)@) == with_message(entries_view(old(chats)@), i as int, m@),
{
    let ghost v0 = entries_view(chats@);
    let mut entry = chats.remove(i);
    let ghost old_msgs = entry.session.messages@;
    entry.session.messages.push(m);
    assert(messages_view(entry.session.messages@) =~= messages_view(old_msgs).push(m@));
    chats.insert(i, entry);
    assert(entries_view(chats@) =~= with_message(v0, i as int, m@));
}

/// The chats of `s`, keeping for each key only the first.
pub open spec fn first_per_key(s: Seq<ChatEntryView>) -> Seq<ChatEntryView>
    decreases s.len(),
{
    if s.len() == 0 {
        Seq::empty()
    } else {
        let f = first_per_key(s.drop_last());
        if has_chat(f, s.last().key) {
            f
        } else {
            f.push(s.last())
        }
    }
}

impl Default for PersistedState {
    fn default() -> (r: PersistedState)
        ensures
            r.chats@.len() == 0,
            r.active_chat is None,
    {
        PersistedState { chats: Vec::new(), active_chat: None }
    }
}

impl ChatState {
    /// The engine's state for a loaded (or fresh) persisted state, saved at
    /// `state_path`, with nothing queued.  Should the loaded state hold a key
    /// twice, the first chat under it is kept.
    pub fn new(state: PersistedState, state_path: String) -> (r: ChatState)
        ensures
            r.wf(),
            r@ == (ChatView {
                chats: first_per_key(entries_view(state.chats@)),
                active: opt_text(state.active_chat),
                pending: Seq::empty(),
                state_path: state_path@,
            }),
    {
        let ghost sv = entries_view(state.chats@);
        let mut rest = state.chats;
        let mut kept: Vec<ChatEntry> = Vec::new();
        let ghost mut k: int = 0;
        while rest.len() > 0
            invariant
                0 <= k <= sv.len(),
                entries_view(rest@) == sv.skip(k),
                entries_view(kept@) == first_per_key(sv.take(k)),
                unique_keys(entries_view(kept@)),
            decreases rest@.len(),
        {
            proof {
                assert(sv.skip(k).len() > 0);
                assert(sv.take(k + 1).drop_last() =~= sv.take(k));
                assert(sv.take(k + 1).last() == sv[k]);
            }
            let ghost r0 = rest@;
            let x = rest.remove(0);
            assert(x@ == sv[k]) by {
                assert(entries_view(r0)[0] == sv.skip(k)[0]);
            }
            assert(entries_view(rest@) =~= sv.skip(k + 1)) by {
                assert(entries_view(rest@) =~= entries_view(r0).drop_first());
            }
            if find_chat(&kept, &x.key).is_none() {
                let ghost before = kept@;
                kept.push(x);
                assert(entries_view(kept@) =~= entries_view(before).push(sv[k]));
            }
            proof {
                k = k + 1;
            }
        }
        proof {
            assert(sv.skip(k).len() == 0);
            assert(sv.take(k) =~= sv);
        }
        let r = ChatState {
            state: PersistedState { chats: kept, active_chat: state.active_chat },
            state_path: state_path,
            pending: Vec::new(),
        };
        assert(r@.pending =~= Seq::<PendingView>::empty());
        r
    }
}

} // verus!
