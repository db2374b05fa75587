# ferry

The verified core of a peer-to-peer chat.

- `src/chat_state.rs`: chats (stored by key, one per key), the active chat and the
  queue of envelopes still to deliver, with their model and the effect of each
  operation stated as a spec function.
- `src/api.rs`: the chat API (switch, delete, add a friend, send, poll, list,
  status), hexadecimal keys and file paths.
- `src/transport.rs`: the peer table fed by mDNS, the inbox, the length-prefixed
  wire frame, service names, and the clock.
- `src/group.rs`: the lifecycle of the group-chat engine and its events.
- `src/laws.rs`: properties across operations.
- `app/`: the Flutter-facing API on a thread-local engine, JSON persistence, the
  mDNS + TCP transport threads, and the Tauri desktop commands.
