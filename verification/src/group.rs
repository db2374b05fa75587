//! The group-chat engine's lifecycle and the events it forwards to the
//! desktop user interface.

use vstd::prelude::*;
use vstd::string::*;
use crate::chat_state::opt_text;
use crate::text::{decode_lossy, lossy_text};

verus! {

/// Lifecycle of the chat engine.  Opening the client involves the registry and
/// the embedded node, so the engine starts in `Starting` and settles later.
pub enum ChatManager<C> {
    Starting,
    Ready { client: C, address: String },
    Failed(String),
    ShutDown,
}

/// What the user interface is told of the engine.
pub struct ChatStatus {
    pub state: &'static str,
    pub address: Option<String>,
    pub error: Option<String>,
}

/// A member of a conversation: its account, if known, and its device.
pub struct Member {
    pub account: Option<String>,
    pub device: String,
}

/// The kind of a conversation that started.
pub enum ConversationClass {
    Group,
    Private,
}

/// One decrypted observation forwarded to the user interface.
pub enum ChatEvent {
    ConversationStarted { convo_id: String, class: String },
    MessageReceived { convo_id: String, content: String, sender: Member },
    InboundError { message: String },
}

impl<C> Default for ChatManager<C> {
    fn default() -> (r: ChatManager<C>)
        ensures
            r is Starting,
    {
        ChatManager::Starting
    }
}

/// The message of `client_mut` for each state that has no client.
pub open spec fn unavailable_message<C>(m: ChatManager<C>) -> Seq<char> {
    match m {
        ChatManager::Starting => "chat engine is still starting"@,
        ChatManager::Failed(e) => "chat engine failed to start: "@ + e@,
        ChatManager::ShutDown => "chat engine is shut down"@,
        ChatManager::Ready { .. } => Seq::empty(),
    }
}

/// The state word of the status for each stage of the lifecycle.
pub open spec fn status_word<C>(m: ChatManager<C>) -> Seq<char> {
    match m {
        ChatManager::Starting => "starting"@,
        ChatManager::Ready { .. } => "ready"@,
        ChatManager::Failed(_) => "failed"@,
        ChatManager::ShutDown => "stopped"@,
    }
}

/// Requests reach the client exactly when the status reads "ready".
pub proof fn law_ready_iff_status_ready<C>(m: ChatManager<C>)
    ensures
        m is Ready <==> status_word(m) == "ready"@,
{
    reveal_strlit("ready");
    reveal_strlit("starting");
    reveal_strlit("failed");
    reveal_strlit("stopped");
    if !(m is Ready) {
        assert(status_word(m).len() != 5 || status_word(m)[0] != 'r');
    }
}

impl<C> ChatManager<C> {
    /// The status shown to the user: "starting", "ready" with the address,
    /// "failed" with the error, or "stopped".
    pub fn chat_status(&self) -> (r: ChatStatus)
        ensures
            r.state@ == status_word(*self),
            match self {
                ChatManager::Starting => r.address is None
                    && r.error is None,
                ChatManager::Ready { address, .. } => opt_text(
                    r.address,
                ) == Some(address@) && r.error is None,
                ChatManager::Failed(e) => r.address is None && opt_text(
                    r.error,
                ) == Some(e@),
                ChatManager::ShutDown => r.address is None
                    && r.error is None,
            },
    {
        match self {
            ChatManager::Starting => ChatStatus { state: "starting", address: None, error: None },
            ChatManager::Ready { address, .. } => ChatStatus {
                state: "ready",
                address: Some(address.clone()),
                error: None,
            },
            ChatManager::Failed(e) => ChatStatus {
                state: "failed",
                address: None,
                error: Some(e.clone()),
            },
            ChatManager::ShutDown => ChatStatus { state: "stopped", address: None, error: None },
        }
    }

    /// The client, when the engine is ready; otherwise why it is not.  What
    /// the caller does to the client stays in the engine.
    pub fn client_mut(&mut self) -> (r: Result<&mut C, String>)
        ensures
            r is Ok <==> *old(self) is Ready,
            r matches Err(m) ==> m@ == unavailable_message(*old(self)) && *final(self) == *old(
                self,
            ),
            r matches Ok(c) ==> *old(self) == (ChatManager::Ready {
                client: *c,
                address: old(self)->address,
            }) && *final(self) == (ChatManager::Ready {
                client: *final(c),
                address: old(self)->address,
            }),
    {
        match self {
            ChatManager::Ready { client, .. } => Ok(client),
            ChatManager::Starting => Err(String::from_str("chat engine is still starting")),
            ChatManager::Failed(e) => Err(String::from_str("chat engine failed to start: ").concat(
                e.as_str(),
            )),
            ChatManager::ShutDown => Err(String::from_str("chat engine is shut down")),
        }
    }

    /// The engine settles once opening the client is over: ready with the
    /// client and its address, or failed with the message.
    pub fn settle(&mut self, opened: Result<(C, String), String>)
        ensures
            match opened {
                Ok((client, address)) => *final(self) == (ChatManager::Ready {
                    client: client,
                    address: address,
                }),
                Err(m) => *final(self) == ChatManager::<C>::Failed(m),
            },
    {
        *self = match opened {
            Ok((client, address)) => ChatManager::Ready { client: client, address: address },
            Err(m) => ChatManager::Failed(m),
        };
    }

    /// Shuts the engine down and hands back what it held, so that it can be
    /// disposed of.
    pub fn shut_down(&mut self) -> (r: ChatManager<C>)
        ensures
            r == *old(self),
            *final(self) is ShutDown,
    {
        let mut prev = ChatManager::ShutDown;
        std::mem::swap(self, &mut prev);
        prev
    }
}

impl ChatEvent {
    /// A conversation started; its class is named "group" or "private".
    pub fn conversation_started(convo_id: String, class: ConversationClass) -> (r: ChatEvent)
        ensures
            r matches ChatEvent::ConversationStarted { convo_id: id, class: c } && id == convo_id
                && c@ == match class {
                ConversationClass::Group => "group"@,
                ConversationClass::Private => "private"@,
            },
    {
        let name = match class {
            ConversationClass::Group => String::from_str("group"),
            ConversationClass::Private => String::from_str("private"),
        };
        ChatEvent::ConversationStarted { convo_id: convo_id, class: name }
    }

    /// A message arrived; its bytes are decoded leniently.
    pub fn message_received(convo_id: String, content: &[u8], sender: Member) -> (r: ChatEvent)
        ensures
            r matches ChatEvent::MessageReceived { convo_id: id, content: text, sender: m }
                && id == convo_id && text@ == lossy_text(content@) && m == sender,
    {
        ChatEvent::MessageReceived {
            convo_id: convo_id,
            content: decode_lossy(content),
            sender: sender,
        }
    }
}

} // verus!
