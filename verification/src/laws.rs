//! Properties that span the operations of the library.

use vstd::prelude::*;
use crate::api::{
    active_messages, active_name, has_pending_for, hex_spec, info_spec, HEX_DIGITS,
};
use crate::transport::{
    MessageEnvelope, PeerEntryView, filed, taken, ends_with, insert_peer_spec, knows_peer, lemma_peer_index,
    lookup_peer, peer_index, peer_name_spec, remove_mdns_peer_spec, resolve_spec,
    service_suffix, unique_names,
};
use crate::chat_state::{
    ChatEntryView, ChatView, MessageView, OutcomeView, PendingView, SessionView, GREETING, PENDING_MARK,
    active_is_known, add_friend_spec, first_per_key, any_undelivered, chat_index, delete_spec, has_chat,
    kept_prefix, lemma_chat_index, send_target_spec, pending_without, queued, receive_spec, retry_spec, send_spec,
    keys_match, switch_spec, unique_keys,
};

verus! {

/// Switching to an existing chat keeps the active chat among the chats, and
/// the active chat is then the one switched to.
pub proof fn law_switch_selects(v: ChatView, user: Seq<char>)
    requires
        has_chat(v.chats, user),
    ensures
        active_is_known(switch_spec(v, user)),
        active_name(switch_spec(v, user)) == user,
        switch_spec(v, user).chats == v.chats,
        switch_spec(v, user).pending == v.pending,
{
}

/// Deleting a chat removes it and every envelope queued for its user, leaves
/// the users unique, and keeps the active chat among the chats.
pub proof fn law_delete_forgets(v: ChatView, user: Seq<char>)
    requires
        unique_keys(v.chats),
        has_chat(v.chats, user),
        active_is_known(v),
    ensures
        unique_keys(delete_spec(v, user).chats),
        keys_match(v.chats) ==> keys_match(delete_spec(v, user).chats),
        !has_chat(delete_spec(v, user).chats, user),
        !has_pending_for(delete_spec(v, user).pending, user),
        active_is_known(delete_spec(v, user)),
        delete_spec(v, user).chats.len() == v.chats.len() - 1,
{
    let i = chat_index(v.chats, user);
    let d = delete_spec(v, user);
    let c = v.chats.remove(i);
    assert(forall|k: int| 0 <= k < c.len() ==> #[trigger] c[k] == v.chats[if k < i { k } else { k + 1 }]);
    if has_chat(d.chats, user) {
        let k = choose|k: int| 0 <= k < c.len() && #[trigger] c[k].key == user;
        assert(c[k] == v.chats[if k < i { k } else { k + 1 }]);
    }
    if has_pending_for(d.pending, user) {
        let j = choose|j: int| 0 <= j < d.pending.len() && (#[trigger] d.pending[j]).to == user;
        broadcast use vstd::seq_lib::group_filter_ensures;
        assert((|e: PendingView| e.to != user)(d.pending[j]));
    }
    match v.active {
        Some(a) => {
            if a != user {
                let k = chat_index(v.chats, a);
                assert(v.chats[k].key == a);
                let k2 = if k < i { k } else { k - 1 };
                assert(c[k2] == v.chats[k]);
            }
        },
        None => {},
    }
}

/// Opening a chat with a new user makes it the active chat, holding the
/// greeting alone, and keeps the users unique.
pub proof fn law_add_friend_opens(
    v: ChatView,
    user: Seq<char>,
    chat_id: Seq<char>,
    outs: Seq<OutcomeView>,
    timestamp: u64,
)
    requires
        unique_keys(v.chats),
        !has_chat(v.chats, user),
    ensures
        unique_keys(add_friend_spec(v, user, chat_id, outs, timestamp).chats),
        keys_match(v.chats) ==> keys_match(add_friend_spec(v, user, chat_id, outs, timestamp).chats),
        active_is_known(add_friend_spec(v, user, chat_id, outs, timestamp)),
        active_name(add_friend_spec(v, user, chat_id, outs, timestamp)) == user,
        active_messages(add_friend_spec(v, user, chat_id, outs, timestamp)) == seq![
            MessageView { from_self: true, content: GREETING@, timestamp: timestamp },
        ],
{
    let a = add_friend_spec(v, user, chat_id, outs, timestamp);
    assert(a.chats[v.chats.len() as int].key == user);
    lemma_chat_index(a.chats, user, v.chats.len() as int);
}

/// Opening a chat with a new user and deleting it again leaves the other
/// chats, and the queue for other users, as they were.
pub proof fn law_add_then_delete(
    v: ChatView,
    user: Seq<char>,
    chat_id: Seq<char>,
    outs: Seq<OutcomeView>,
    timestamp: u64,
)
    requires
        unique_keys(v.chats),
        !has_chat(v.chats, user),
    ensures
        delete_spec(add_friend_spec(v, user, chat_id, outs, timestamp), user).chats == v.chats,
        delete_spec(add_friend_spec(v, user, chat_id, outs, timestamp), user).pending
            == pending_without(v.pending, user),
{
    let a = add_friend_spec(v, user, chat_id, outs, timestamp);
    lemma_chat_index(a.chats, user, v.chats.len() as int);
    assert(a.chats.remove(v.chats.len() as int) =~= v.chats);
    lemma_queued_to(user, outs);
    lemma_filter_append_dropped(v.pending, queued(user, outs), user);
}

/// Every envelope queued for `to` is addressed to `to`, and envelopes are
/// queued exactly when one was not delivered.
pub proof fn lemma_queued_to(to: Seq<char>, outs: Seq<OutcomeView>)
    ensures
        forall|j: int| 0 <= j < queued(to, outs).len() ==> (#[trigger] queued(to, outs)[j]).to == to,
        queued(to, outs).len() > 0 <==> any_undelivered(outs),
    decreases outs.len(),
{
    if outs.len() > 0 {
        lemma_queued_to(to, outs.drop_last());
        let d = outs.drop_last();
        if any_undelivered(d) {
            let i = choose|i: int| 0 <= i < d.len() && !(#[trigger] d[i]).delivered;
            assert(!outs[i].delivered);
        }
        if any_undelivered(outs) && !outs.last().delivered {
        } else if any_undelivered(outs) {
            let i = choose|i: int| 0 <= i < outs.len() && !(#[trigger] outs[i]).delivered;
            assert(i < d.len());
            assert(!d[i].delivered);
        }
    }
}

/// Filtering out `user` from a queue followed by envelopes all addressed to
/// `user` gives the filtered queue.
pub proof fn lemma_filter_append_dropped(p: Seq<PendingView>, q: Seq<PendingView>, user: Seq<char>)
    requires
        forall|j: int| 0 <= j < q.len() ==> (#[trigger] q[j]).to == user,
    ensures
        pending_without(p + q, user) == pending_without(p, user),
    decreases q.len(),
{
    if q.len() > 0 {
        let q1 = q.drop_last();
        assert forall|j: int| 0 <= j < q1.len() implies (#[trigger] q1[j]).to == user by {
            assert(q1[j] == q[j]);
        }
        lemma_filter_append_dropped(p, q1, user);
        assert((p + q).drop_last() =~= p + q1);
        reveal_with_fuel(Seq::filter, 1);
        assert((p + q).last() == q.last());
    }
}

/// Sending in a known active chat appends exactly one message to it, marked
/// as pending exactly when an envelope had to be queued, and keeps the active
/// chat and the users as they were.
pub proof fn law_send_appends(
    v: ChatView,
    content: Seq<char>,
    outs: Seq<OutcomeView>,
    timestamp: u64,
)
    requires
        unique_keys(v.chats),
        v.active is Some,
        active_is_known(v),
    ensures
        unique_keys(send_spec(v, content, outs, timestamp).chats),
        keys_match(v.chats) ==> keys_match(send_spec(v, content, outs, timestamp).chats),
        active_is_known(send_spec(v, content, outs, timestamp)),
        active_messages(send_spec(v, content, outs, timestamp)) == active_messages(v).push(
            MessageView {
                from_self: true,
                content: if any_undelivered(outs) {
                    content + PENDING_MARK@
                } else {
                    content
                },
                timestamp: timestamp,
            },
        ),
        send_spec(v, content, outs, timestamp).pending.len() > v.pending.len() <==> any_undelivered(
            outs,
        ),
{
    let a = v.active.unwrap();
    let i = chat_index(v.chats, a);
    let s = send_spec(v, content, outs, timestamp);
    assert(s.chats[i].key == a);
    assert forall|x: int, y: int|
        0 <= x < s.chats.len() && 0 <= y < s.chats.len() && x != y implies #[trigger] s.chats[x].key
        != #[trigger] s.chats[y].key by {
        assert(s.chats[x].key == v.chats[x].key);
        assert(s.chats[y].key == v.chats[y].key);
    }
    lemma_chat_index(s.chats, a, i);
    lemma_queued_to(v.chats[i].session.remote_user, outs);
}

/// A retry round in which every envelope got through empties the queue; one
/// in which none did leaves it as it was.
pub proof fn law_retry_all_or_none(v: ChatView, delivered: Seq<bool>)
    requires
        delivered.len() == v.pending.len(),
    ensures
        (forall|i: int| 0 <= i < delivered.len() ==> #[trigger] delivered[i]) ==> retry_spec(
            v,
            delivered,
        ).pending.len() == 0,
        (forall|i: int| 0 <= i < delivered.len() ==> !#[trigger] delivered[i]) ==> retry_spec(
            v,
            delivered,
        ).pending == v.pending,
{
    if forall|i: int| 0 <= i < delivered.len() ==> #[trigger] delivered[i] {
        lemma_kept_all_delivered(v.pending, delivered, v.pending.len());
    }
    if forall|i: int| 0 <= i < delivered.len() ==> !#[trigger] delivered[i] {
        lemma_kept_none_delivered(v.pending, delivered, v.pending.len());
        assert(v.pending.take(v.pending.len() as int) =~= v.pending);
    }
}

proof fn lemma_kept_all_delivered(p: Seq<PendingView>, d: Seq<bool>, n: nat)
    requires
        n <= d.len(),
        forall|i: int| 0 <= i < d.len() ==> #[trigger] d[i],
    ensures
        kept_prefix(p, d, n).len() == 0,
    decreases n,
{
    if n > 0 {
        lemma_kept_all_delivered(p, d, (n - 1) as nat);
        assert(d[n - 1]);
    }
}

proof fn lemma_kept_none_delivered(p: Seq<PendingView>, d: Seq<bool>, n: nat)
    requires
        n <= d.len(),
        n <= p.len(),
        forall|i: int| 0 <= i < d.len() ==> !#[trigger] d[i],
    ensures
        kept_prefix(p, d, n) == p.take(n as int),
    decreases n,
{
    if n > 0 {
        lemma_kept_none_delivered(p, d, (n - 1) as nat);
        assert(!d[n - 1]);
        assert(p.take(n as int) =~= p.take(n - 1).push(p[n - 1]));
    }
}

/// A message from a new sender opens a chat with them (active when none
/// was); a non-empty text becomes the last message of the sender's chat.
/// Users stay unique and the active chat stays among the chats.
pub proof fn law_receive_files(
    v: ChatView,
    from: Seq<char>,
    convo: Seq<char>,
    text: Seq<char>,
    timestamp: u64,
)
    requires
        unique_keys(v.chats),
        active_is_known(v),
    ensures
        unique_keys(receive_spec(v, from, convo, text, timestamp).chats),
        keys_match(v.chats) ==> keys_match(receive_spec(v, from, convo, text, timestamp).chats),
        active_is_known(receive_spec(v, from, convo, text, timestamp)),
        has_chat(receive_spec(v, from, convo, text, timestamp).chats, from),
        text.len() > 0 ==> {
            let r = receive_spec(v, from, convo, text, timestamp);
            let c = r.chats[chat_index(r.chats, from)].session;
            c.messages.last() == (MessageView { from_self: false, content: text, timestamp: timestamp })
        },
{
    let v1 = if has_chat(v.chats, from) {
        v
    } else {
        ChatView {
            chats: v.chats.push(
                ChatEntryView {
                    key: from,
                    session: SessionView { chat_id: convo, remote_user: from, messages: seq![] },
                },
            ),
            active: if v.active is None {
                Some(from)
            } else {
                v.active
            },
            ..v
        }
    };
    let i = if has_chat(v.chats, from) {
        chat_index(v.chats, from)
    } else {
        v.chats.len() as int
    };
    assert(v1.chats[i].key == from);
    assert(unique_keys(v1.chats));
    lemma_chat_index(v1.chats, from, i);
    match v1.active {
        Some(a) => {
            if has_chat(v.chats, a) {
                let k = chat_index(v.chats, a);
                assert(v1.chats[k].key == a);
            } else {
                assert(v1.chats[i].key == a);
            }
        },
        None => {},
    }
    let r = receive_spec(v, from, convo, text, timestamp);
    if text.len() > 0 {
        assert forall|x: int, y: int|
            0 <= x < r.chats.len() && 0 <= y < r.chats.len() && x != y implies #[trigger] r.chats[x].key
            != #[trigger] r.chats[y].key by {
            assert(r.chats[x].key == v1.chats[x].key);
            assert(r.chats[y].key == v1.chats[y].key);
        }
        assert(r.chats[i].key == from);
        lemma_chat_index(r.chats, from, i);
        match v1.active {
            Some(a) => {
                let k = chat_index(v1.chats, a);
                assert(r.chats[k].key == a);
            },
            None => {},
        }
    }
}

/// In the chat list, at most one line is marked active: the line of the
/// active chat (when each chat is stored under its session's remote user).
pub proof fn law_one_active_line(v: ChatView, i: int, j: int)
    requires
        unique_keys(v.chats),
        keys_match(v.chats),
        0 <= i < v.chats.len(),
        0 <= j < v.chats.len(),
        info_spec(v, v.chats[i]).is_active,
        info_spec(v, v.chats[j]).is_active,
    ensures
        i == j,
{
    assert(v.chats[i].key == v.chats[i].session.remote_user);
    assert(v.chats[j].key == v.chats[j].session.remote_user);
}

/// Hexadecimal takes two digits per byte, each one of the sixteen.
pub proof fn law_hex_length(bytes: Seq<u8>)
    ensures
        hex_spec(bytes).len() == 2 * bytes.len(),
        forall|k: int| 0 <= k < hex_spec(bytes).len() ==> HEX_DIGITS@.contains(#[trigger] hex_spec(bytes)[k]),
    decreases bytes.len(),
{
    if bytes.len() > 0 {
        law_hex_length(bytes.drop_last());
        let h = hex_spec(bytes);
        let h0 = hex_spec(bytes.drop_last());
        let b = bytes.last();
        assert(HEX_DIGITS@.len() == 16) by {
            reveal_strlit("0123456789abcdef");
        }
        assert(HEX_DIGITS@.contains(HEX_DIGITS@[(b / 16) as int]));
        assert(HEX_DIGITS@.contains(HEX_DIGITS@[(b % 16) as int]));
        assert forall|k: int| 0 <= k < h.len() implies HEX_DIGITS@.contains(#[trigger] h[k]) by {
            if k < h0.len() {
                assert(h[k] == h0[k]);
            }
        }
    }
}


/// After registering `name` at `addr`, looking `name` up gives `addr`, every
/// other peer keeps its address, and no name is listed twice; the peer
/// carries the origin it was recorded with.
pub proof fn law_peer_read_after_write(
    p: Seq<PeerEntryView>,
    name: Seq<char>,
    addr: Seq<char>,
    via_mdns: bool,
    other: Seq<char>,
)
    requires
        unique_names(p),
        other != name,
    ensures
        unique_names(insert_peer_spec(p, name, addr, via_mdns)),
        lookup_peer(insert_peer_spec(p, name, addr, via_mdns), name) == Some(addr),
        insert_peer_spec(p, name, addr, via_mdns)[peer_index(
            insert_peer_spec(p, name, addr, via_mdns),
            name,
        )].via_mdns == via_mdns,
        lookup_peer(insert_peer_spec(p, name, addr, via_mdns), other) == lookup_peer(p, other),
{
    let q = insert_peer_spec(p, name, addr, via_mdns);
    let i = if knows_peer(p, name) {
        peer_index(p, name)
    } else {
        p.len() as int
    };
    assert(q[i].name == name);
    assert forall|x: int, y: int|
        0 <= x < q.len() && 0 <= y < q.len() && x != y implies #[trigger] q[x].name
        != #[trigger] q[y].name by {
        if x != i && y != i {
            assert(q[x] == p[x] && q[y] == p[y]);
        } else if x == i {
            assert(q[y] == p[y]);
        } else {
            assert(q[x] == p[x]);
        }
    }
    lemma_peer_index(q, name, i);
    if knows_peer(p, other) {
        let k = peer_index(p, other);
        assert(p[k].name == other);
        assert(k != i);
        assert(q[k] == p[k]);
        lemma_peer_index(q, other, k);
    } else if knows_peer(q, other) {
        let k = choose|k: int| 0 <= k < q.len() && #[trigger] q[k].name == other;
        assert(k != i);
        assert(q[k] == p[k]);
    }
}

/// When mDNS stops announcing `name`, a peer it announced is forgotten, a
/// peer registered by hand keeps its address, and every other peer keeps its
/// address.
pub proof fn law_mdns_removal(p: Seq<PeerEntryView>, name: Seq<char>, other: Seq<char>)
    requires
        unique_names(p),
        other != name,
    ensures
        unique_names(remove_mdns_peer_spec(p, name)),
        knows_peer(p, name) && p[peer_index(p, name)].via_mdns ==> lookup_peer(
            remove_mdns_peer_spec(p, name),
            name,
        ) is None,
        knows_peer(p, name) && !p[peer_index(p, name)].via_mdns ==> lookup_peer(
            remove_mdns_peer_spec(p, name),
            name,
        ) == lookup_peer(p, name),
        lookup_peer(remove_mdns_peer_spec(p, name), other) == lookup_peer(p, other),
{
    if knows_peer(p, name) && p[peer_index(p, name)].via_mdns {
        let i = peer_index(p, name);
        let q = p.remove(i);
        assert(forall|k: int| 0 <= k < q.len() ==> #[trigger] q[k] == p[if k < i { k } else { k + 1 }]);
        if knows_peer(q, name) {
            let k = choose|k: int| 0 <= k < q.len() && #[trigger] q[k].name == name;
            assert(q[k] == p[if k < i { k } else { k + 1 }]);
        }
        if knows_peer(p, other) {
            let k = peer_index(p, other);
            assert(p[k].name == other);
            let k2 = if k < i { k } else { k - 1 };
            assert(q[k2] == p[k]);
            lemma_peer_index(q, other, k2);
        } else if knows_peer(q, other) {
            let k = choose|k: int| 0 <= k < q.len() && #[trigger] q[k].name == other;
            assert(q[k] == p[if k < i { k } else { k + 1 }]);
        }
    }
}

/// A resolved announcement of another peer records it, as announced by mDNS,
/// at the resolved address; an announcement of ourselves, or one without an
/// address, changes nothing.
pub proof fn law_resolve_records_peer(
    p: Seq<PeerEntryView>,
    fullname: Seq<char>,
    my_name: Seq<char>,
    addr: Option<Seq<char>>,
    other: Seq<char>,
)
    requires
        unique_names(p),
        other != peer_name_spec(fullname),
    ensures
        unique_names(resolve_spec(p, fullname, my_name, addr)),
        addr is Some && peer_name_spec(fullname) != my_name ==> lookup_peer(
            resolve_spec(p, fullname, my_name, addr),
            peer_name_spec(fullname),
        ) == addr,
        addr is None || peer_name_spec(fullname) == my_name ==> resolve_spec(
            p,
            fullname,
            my_name,
            addr,
        ) == p,
        lookup_peer(resolve_spec(p, fullname, my_name, addr), other) == lookup_peer(p, other),
{
    if addr is Some && peer_name_spec(fullname) != my_name {
        law_peer_read_after_write(p, peer_name_spec(fullname), addr.unwrap(), true, other);
    }
}

/// The name announced in a full service name is read back from it.
pub proof fn law_peer_name_roundtrip(name: Seq<char>)
    ensures
        peer_name_spec(name + service_suffix()) == name,
{
    let f = name + service_suffix();
    assert(f.subrange(f.len() - service_suffix().len(), f.len() as int) =~= service_suffix());
    assert(ends_with(f, service_suffix()));
    assert(f.take(f.len() - service_suffix().len()) =~= name);
}

/// The inbox hands envelopes out in the order they were filed: filing `e`
/// into an empty inbox and taking gives `e` back and leaves it empty; filing
/// into a non-empty one leaves the next envelope taken as it was, and files
/// `e` behind those that remain.
pub proof fn law_inbox_fifo(waiting: Seq<MessageEnvelope>, e: MessageEnvelope)
    ensures
        waiting.len() == 0 ==> taken(filed(waiting, e)) == (
            Some(e),
            Seq::<MessageEnvelope>::empty(),
        ),
        waiting.len() > 0 ==> taken(filed(waiting, e)).0 == taken(waiting).0 && taken(
            filed(waiting, e),
        ).1 == filed(taken(waiting).1, e),
{
    if waiting.len() == 0 {
        assert(filed(waiting, e).drop_first() =~= Seq::<MessageEnvelope>::empty());
    } else {
        assert(filed(waiting, e).drop_first() =~= filed(waiting.drop_first(), e));
    }
}

/// A retry round changes only the queue.
pub proof fn law_retry_touches_only_queue(v: ChatView, delivered: Seq<bool>)
    ensures
        retry_spec(v, delivered).chats == v.chats,
        retry_spec(v, delivered).active == v.active,
        retry_spec(v, delivered).state_path == v.state_path,
{
}

/// Loading a state keeps a chat under every key it holds, and no key
/// twice.
pub proof fn law_load_keeps_every_key(s: Seq<ChatEntryView>, user: Seq<char>)
    ensures
        unique_keys(first_per_key(s)),
        has_chat(first_per_key(s), user) <==> has_chat(s, user),
    decreases s.len(),
{
    if s.len() > 0 {
        let d = s.drop_last();
        law_load_keeps_every_key(d, user);
        law_load_keeps_every_key(d, s.last().key);
        let f = first_per_key(d);
        let r = first_per_key(s);
        if has_chat(d, user) {
            let i = choose|i: int| 0 <= i < d.len() && #[trigger] d[i].key == user;
            assert(s[i].key == user);
        }
        if has_chat(f, user) && !has_chat(f, s.last().key) {
            let i = choose|i: int| 0 <= i < f.len() && #[trigger] f[i].key == user;
            assert(r[i].key == user);
        }
        if has_chat(s, user) {
            let i = choose|i: int| 0 <= i < s.len() && #[trigger] s[i].key == user;
            if i < d.len() {
                assert(d[i].key == user);
            } else if !has_chat(f, s.last().key) {
                assert(r[f.len() as int].key == user);
            }
        }
        if has_chat(r, user) && !has_chat(f, s.last().key) {
            let i = choose|i: int| 0 <= i < r.len() && #[trigger] r[i].key == user;
            if i < f.len() {
                assert(f[i].key == user);
            } else {
                assert(s[s.len() - 1].key == user);
            }
        }
        if !has_chat(f, s.last().key) {
            assert forall|x: int, y: int|
                0 <= x < r.len() && 0 <= y < r.len() && x != y implies #[trigger] r[x].key
                != #[trigger] r[y].key by {
                if x < f.len() && y < f.len() {
                    assert(r[x] == f[x] && r[y] == f[y]);
                } else if x < f.len() {
                    assert(r[x] == f[x]);
                } else {
                    assert(r[y] == f[y]);
                }
            }
        }
    }
}


/// The value of a lower-case hexadecimal digit.
pub open spec fn hex_value(c: char) -> int {
    if '0' <= c && c <= '9' {
        c as int - '0' as int
    } else {
        c as int - 'a' as int + 10
    }
}

/// Each digit reads back as its value.
pub proof fn lemma_hex_digit_value(k: int)
    requires
        0 <= k < 16,
    ensures
        hex_value(HEX_DIGITS@[k]) == k,
{
    reveal_strlit("0123456789abcdef");
    let d = HEX_DIGITS@;
    assert(d =~= seq!['0', '1', '2', '3', '4', '5', '6', '7', '8', '9', 'a', 'b', 'c', 'd', 'e', 'f']);
}

/// Reading the digits of byte `i` back gives the byte: the first digit is the
/// high half, the second the low half.  So hexadecimal loses nothing.
pub proof fn law_hex_decodes(bytes: Seq<u8>, i: int)
    requires
        0 <= i < bytes.len(),
    ensures
        hex_value(hex_spec(bytes)[2 * i]) * 16 + hex_value(hex_spec(bytes)[2 * i + 1]) == bytes[i],
    decreases bytes.len(),
{
    let d = bytes.drop_last();
    law_hex_length(d);
    if i == bytes.len() - 1 {
        let b = bytes.last();
        lemma_hex_digit_value((b / 16) as int);
        lemma_hex_digit_value((b % 16) as int);
        assert(hex_spec(bytes)[2 * i] == HEX_DIGITS@[(b / 16) as int]);
        assert(hex_spec(bytes)[2 * i + 1] == HEX_DIGITS@[(b % 16) as int]);
    } else {
        law_hex_decodes(d, i);
        assert(hex_spec(bytes)[2 * i] == hex_spec(d)[2 * i]);
        assert(hex_spec(bytes)[2 * i + 1] == hex_spec(d)[2 * i + 1]);
        assert(d[i] == bytes[i]);
    }
}

/// Different bytes never give the same hexadecimal.
pub proof fn law_hex_injective(a: Seq<u8>, b: Seq<u8>)
    requires
        hex_spec(a) == hex_spec(b),
    ensures
        a == b,
{
    law_hex_length(a);
    law_hex_length(b);
    assert forall|i: int| 0 <= i < a.len() implies a[i] == b[i] by {
        law_hex_decodes(a, i);
        law_hex_decodes(b, i);
    }
    assert(a =~= b);
}


/// Deleting a chat that is not the active one leaves the active chat as it
/// was; deleting the active chat makes another remaining chat active, or none
/// when no chat remains.
pub proof fn law_delete_active_choice(v: ChatView, user: Seq<char>)
    requires
        unique_keys(v.chats),
        has_chat(v.chats, user),
    ensures
        v.active != Some(user) ==> delete_spec(v, user).active == v.active,
        v.active == Some(user) ==> match delete_spec(v, user).active {
            Some(b) => b != user && has_chat(delete_spec(v, user).chats, b),
            None => delete_spec(v, user).chats.len() == 0,
        },
{
    let i = chat_index(v.chats, user);
    let d = delete_spec(v, user);
    let c = v.chats.remove(i);
    assert(forall|k: int| 0 <= k < c.len() ==> #[trigger] c[k] == v.chats[if k < i { k } else { k + 1 }]);
    if v.active == Some(user) && c.len() > 0 {
        let k0: int = if 0 < i { 0 } else { 1 };
        assert(c[0] == v.chats[k0]);
        assert(k0 != i);
        assert(c[0].key == c[0].key);
        assert(has_chat(c, c[0].key));
    }
}

/// Deleting the chat stored at position `i` under `user` removes exactly that
/// chat: the others stay, in their order.
pub proof fn law_delete_removes_that_chat(v: ChatView, user: Seq<char>, i: int)
    requires
        unique_keys(v.chats),
        0 <= i < v.chats.len(),
        v.chats[i].key == user,
    ensures
        delete_spec(v, user).chats == v.chats.remove(i),
        delete_spec(v, user).state_path == v.state_path,
{
    lemma_chat_index(v.chats, user, i);
}

/// A message goes to the active chat: its target is the conversation and the
/// remote user of the chat stored under the active key, the message is added
/// to that chat alone, and the other chats stay as they were.
pub proof fn law_send_goes_to_active_chat(
    v: ChatView,
    a: Seq<char>,
    i: int,
    content: Seq<char>,
    outs: Seq<OutcomeView>,
    timestamp: u64,
)
    requires
        unique_keys(v.chats),
        v.active == Some(a),
        0 <= i < v.chats.len(),
        v.chats[i].key == a,
    ensures
        send_target_spec(v) == Ok::<(Seq<char>, Seq<char>), Seq<char>>(
            (v.chats[i].session.chat_id, v.chats[i].session.remote_user),
        ),
        send_spec(v, content, outs, timestamp).chats.len() == v.chats.len(),
        send_spec(v, content, outs, timestamp).chats[i].key == a,
        send_spec(v, content, outs, timestamp).chats[i].session.chat_id == v.chats[i].session.chat_id,
        send_spec(v, content, outs, timestamp).chats[i].session.remote_user
            == v.chats[i].session.remote_user,
        send_spec(v, content, outs, timestamp).chats[i].session.messages.drop_last()
            == v.chats[i].session.messages,
        send_spec(v, content, outs, timestamp).chats[i].session.messages.last().from_self,
        send_spec(v, content, outs, timestamp).chats[i].session.messages.last().timestamp
            == timestamp,
        forall|k: int|
            0 <= k < v.chats.len() && k != i ==> #[trigger] send_spec(
                v,
                content,
                outs,
                timestamp,
            ).chats[k] == v.chats[k],
        send_spec(v, content, outs, timestamp).active == v.active,
{
    lemma_chat_index(v.chats, a, i);
    let m = send_spec(v, content, outs, timestamp).chats[i].session.messages;
    assert(m.drop_last() =~= v.chats[i].session.messages);
}

/// A message from a sender who already has a chat leaves the active chat as
/// it was; one from a new sender makes the new chat active only when no chat
/// was active.
pub proof fn law_receive_keeps_active(
    v: ChatView,
    from: Seq<char>,
    convo: Seq<char>,
    text: Seq<char>,
    timestamp: u64,
)
    ensures
        has_chat(v.chats, from) ==> receive_spec(v, from, convo, text, timestamp).active
            == v.active,
        !has_chat(v.chats, from) && v.active is Some ==> receive_spec(
            v,
            from,
            convo,
            text,
            timestamp,
        ).active == v.active,
        !has_chat(v.chats, from) && v.active is None ==> receive_spec(
            v,
            from,
            convo,
            text,
            timestamp,
        ).active == Some(from),
        receive_spec(v, from, convo, text, timestamp).pending == v.pending,
{
}

/// A message from the sender whose chat stands at position `i` touches that
/// chat alone: its key, conversation and remote user stay, the text (when
/// not empty) is added after its messages, and every other chat stays.
pub proof fn law_receive_touches_sender_only(
    v: ChatView,
    from: Seq<char>,
    i: int,
    convo: Seq<char>,
    text: Seq<char>,
    timestamp: u64,
)
    requires
        unique_keys(v.chats),
        0 <= i < v.chats.len(),
        v.chats[i].key == from,
    ensures
        receive_spec(v, from, convo, text, timestamp).chats.len() == v.chats.len(),
        forall|k: int|
            0 <= k < v.chats.len() && k != i ==> #[trigger] receive_spec(
                v,
                from,
                convo,
                text,
                timestamp,
            ).chats[k] == v.chats[k],
        receive_spec(v, from, convo, text, timestamp).chats[i].key == from,
        receive_spec(v, from, convo, text, timestamp).chats[i].session.chat_id
            == v.chats[i].session.chat_id,
        receive_spec(v, from, convo, text, timestamp).chats[i].session.remote_user
            == v.chats[i].session.remote_user,
        receive_spec(v, from, convo, text, timestamp).chats[i].session.messages == if text.len()
            == 0 {
            v.chats[i].session.messages
        } else {
            v.chats[i].session.messages.push(
                MessageView { from_self: false, content: text, timestamp: timestamp },
            )
        },
{
    lemma_chat_index(v.chats, from, i);
}

/// A message from a new sender adds one chat at the end, under the sender's
/// name, in the given conversation, holding the text when it is not empty;
/// the other chats stay.
pub proof fn law_receive_new_sender(
    v: ChatView,
    from: Seq<char>,
    convo: Seq<char>,
    text: Seq<char>,
    timestamp: u64,
)
    requires
        unique_keys(v.chats),
        !has_chat(v.chats, from),
    ensures
        receive_spec(v, from, convo, text, timestamp).chats.len() == v.chats.len() + 1,
        forall|k: int|
            0 <= k < v.chats.len() ==> #[trigger] receive_spec(
                v,
                from,
                convo,
                text,
                timestamp,
            ).chats[k] == v.chats[k],
        receive_spec(v, from, convo, text, timestamp).chats[v.chats.len() as int] == (
        ChatEntryView {
            key: from,
            session: SessionView {
                chat_id: convo,
                remote_user: from,
                messages: if text.len() == 0 {
                    Seq::empty()
                } else {
                    seq![MessageView { from_self: false, content: text, timestamp: timestamp }]
                },
            },
        }),
{
    let n = v.chats.len() as int;
    let c1 = v.chats.push(
        ChatEntryView {
            key: from,
            session: SessionView { chat_id: convo, remote_user: from, messages: seq![] },
        },
    );
    assert(c1[n].key == from);
    assert(unique_keys(c1)) by {
        assert forall|x: int, y: int|
            0 <= x < c1.len() && 0 <= y < c1.len() && x != y implies #[trigger] c1[x].key
            != #[trigger] c1[y].key by {
            if x == n {
                assert(c1[y] == v.chats[y]);
            } else if y == n {
                assert(c1[x] == v.chats[x]);
            }
        }
    }
    lemma_chat_index(c1, from, n);
    let r = receive_spec(v, from, convo, text, timestamp);
    if text.len() > 0 {
        assert(r.chats[n].session.messages =~= seq![
            MessageView { from_self: false, content: text, timestamp: timestamp },
        ]);
    } else {
        assert(r.chats[n].session.messages =~= Seq::<MessageView>::empty());
    }
}

/// A line of the chat list shows the chat's own session: its remote user,
/// conversation and message count; it is marked pending exactly when some
/// queued envelope is addressed to that user, and active exactly when that
/// user is the active chat.
pub proof fn law_list_line(v: ChatView, e: ChatEntryView)
    ensures
        info_spec(v, e).has_pending <==> exists|j: int|
            0 <= j < v.pending.len() && #[trigger] v.pending[j].to == e.session.remote_user,
        info_spec(v, e).is_active <==> v.active == Some(e.session.remote_user),
        info_spec(v, e).remote_user == e.session.remote_user,
        info_spec(v, e).chat_id == e.session.chat_id,
        info_spec(v, e).message_count == e.session.messages.len() as i32,
{
}

/// The messages shown are those of the chat stored under the active key.
pub proof fn law_messages_of_active_chat(v: ChatView, a: Seq<char>, i: int)
    requires
        unique_keys(v.chats),
        v.active == Some(a),
        0 <= i < v.chats.len(),
        v.chats[i].key == a,
    ensures
        active_messages(v) == v.chats[i].session.messages,
{
    lemma_chat_index(v.chats, a, i);
}

/// Every chat that loading keeps is, messages included, a chat of the saved
/// state.
proof fn lemma_load_keeps_entries(s: Seq<ChatEntryView>, j: int)
    requires
        0 <= j < first_per_key(s).len(),
    ensures
        exists|i: int| 0 <= i < s.len() && s[i] == first_per_key(s)[j],
    decreases s.len(),
{
    let d = s.drop_last();
    let f = first_per_key(d);
    if j < f.len() {
        lemma_load_keeps_entries(d, j);
        let i = choose|i: int| 0 <= i < d.len() && d[i] == f[j];
        assert(s[i] == d[i]);
    } else {
        assert(first_per_key(s)[j] == s[s.len() - 1]);
    }
}

/// A saved state without a repeated key is loaded as it is.
proof fn lemma_load_unique_unchanged(s: Seq<ChatEntryView>)
    requires
        unique_keys(s),
    ensures
        first_per_key(s) == s,
    decreases s.len(),
{
    if s.len() > 0 {
        let d = s.drop_last();
        assert(unique_keys(d)) by {
            assert forall|x: int, y: int|
                0 <= x < d.len() && 0 <= y < d.len() && x != y implies #[trigger] d[x].key
                != #[trigger] d[y].key by {
                assert(d[x] == s[x] && d[y] == s[y]);
            }
        }
        lemma_load_unique_unchanged(d);
        let f = first_per_key(d);
        if has_chat(f, s.last().key) {
            let k = choose|k: int| 0 <= k < f.len() && #[trigger] f[k].key == s.last().key;
            assert(s[k] == d[k]);
            assert(s[k].key == s[s.len() - 1].key);
        }
        assert(d.push(s.last()) =~= s);
    }
}

/// Loading keeps every chat it keeps whole: each is, messages included, a
/// chat of the saved state under the same key; and a saved state without a
/// repeated key is loaded as it is.
pub proof fn law_load_keeps_chats_whole(s: Seq<ChatEntryView>)
    ensures
        forall|j: int|
            0 <= j < first_per_key(s).len() ==> exists|i: int|
                0 <= i < s.len() && s[i] == #[trigger] first_per_key(s)[j],
        unique_keys(s) ==> first_per_key(s) == s,
{
    assert forall|j: int| 0 <= j < first_per_key(s).len() implies exists|i: int|
        0 <= i < s.len() && s[i] == #[trigger] first_per_key(s)[j] by {
        lemma_load_keeps_entries(s, j);
    }
    if unique_keys(s) {
        lemma_load_unique_unchanged(s);
    }
}

/// The envelopes of a queue addressed to `user`, in their order.
pub open spec fn addressed_to(p: Seq<PendingView>, user: Seq<char>) -> Seq<PendingView> {
    p.filter(|e: PendingView| e.to == user)
}

proof fn lemma_without_keeps_others(p: Seq<PendingView>, user: Seq<char>, other: Seq<char>)
    requires
        other != user,
    ensures
        addressed_to(pending_without(p, user), other) == addressed_to(p, other),
    decreases p.len(),
{
    reveal_with_fuel(Seq::filter, 1);
    if p.len() > 0 {
        let d = p.drop_last();
        lemma_without_keeps_others(d, user, other);
        let w = pending_without(p, user);
        let wd = pending_without(d, user);
        if p.last().to != user {
            assert(w == wd.push(p.last()));
            assert(w.drop_last() =~= wd);
        } else {
            assert(w == wd);
        }
    }
}

proof fn lemma_without_drops_user(p: Seq<PendingView>, user: Seq<char>)
    ensures
        addressed_to(pending_without(p, user), user).len() == 0,
    decreases p.len(),
{
    reveal_with_fuel(Seq::filter, 1);
    if p.len() > 0 {
        let d = p.drop_last();
        lemma_without_drops_user(d, user);
        let w = pending_without(p, user);
        let wd = pending_without(d, user);
        if p.last().to != user {
            assert(w == wd.push(p.last()));
            assert(w.drop_last() =~= wd);
        } else {
            assert(w == wd);
        }
    }
}

/// Deleting the chat with `user` leaves the queue of every other user as it
/// was: the same envelopes, in the same order.
pub proof fn law_delete_keeps_other_queues(v: ChatView, user: Seq<char>, other: Seq<char>)
    requires
        other != user,
    ensures
        addressed_to(delete_spec(v, user).pending, other) == addressed_to(v.pending, other),
        addressed_to(delete_spec(v, user).pending, user).len() == 0,
{
    lemma_without_keeps_others(v.pending, user, other);
    lemma_without_drops_user(v.pending, user);
}

proof fn lemma_kept_prefix_take(p: Seq<PendingView>, d: Seq<bool>, n: nat, k: int)
    requires
        n <= k <= p.len(),
        k <= d.len(),
    ensures
        kept_prefix(p.take(k), d.take(k), n) == kept_prefix(p, d, n),
    decreases n,
{
    if n > 0 {
        lemma_kept_prefix_take(p, d, (n - 1) as nat, k);
        assert(p.take(k)[n - 1] == p[n - 1]);
        assert(d.take(k)[n - 1] == d[n - 1]);
    }
}

proof fn lemma_kept_prefix_split(p: Seq<PendingView>, d: Seq<bool>, k: int, n: nat)
    requires
        0 <= k <= n <= p.len(),
        p.len() == d.len(),
    ensures
        kept_prefix(p, d, n) == kept_prefix(p, d, k as nat) + kept_prefix(
            p.skip(k),
            d.skip(k),
            (n - k) as nat,
        ),
    decreases n,
{
    let a = kept_prefix(p, d, k as nat);
    if n == k {
        assert(kept_prefix(p.skip(k), d.skip(k), 0) =~= Seq::<PendingView>::empty());
        assert(a + Seq::<PendingView>::empty() =~= a);
    } else {
        lemma_kept_prefix_split(p, d, k, (n - 1) as nat);
        let b = kept_prefix(p.skip(k), d.skip(k), (n - 1 - k) as nat);
        assert(p.skip(k)[n - 1 - k] == p[n - 1]);
        assert(d.skip(k)[n - 1 - k] == d[n - 1]);
        assert((a + b).push(p[n - 1]) =~= a + b.push(p[n - 1]));
    }
}

/// A retry round over a queue gives the same queue as two rounds over its
/// two parts, one after the other: each envelope stays or leaves by its own
/// outcome alone, and those that stay keep their order.
pub proof fn law_retry_by_parts(v: ChatView, delivered: Seq<bool>, k: int)
    requires
        delivered.len() == v.pending.len(),
        0 <= k <= v.pending.len(),
    ensures
        retry_spec(v, delivered).pending == retry_spec(
            ChatView { pending: v.pending.take(k), ..v },
            delivered.take(k),
        ).pending + retry_spec(ChatView { pending: v.pending.skip(k), ..v }, delivered.skip(k)).pending,
        retry_spec(v, delivered).chats == v.chats,
        retry_spec(v, delivered).active == v.active,
{
    let n = v.pending.len();
    lemma_kept_prefix_split(v.pending, delivered, k, n);
    lemma_kept_prefix_take(v.pending, delivered, k as nat, k);
}

/// The envelopes queued from two runs of outcomes, one after the other, are
/// those queued from each run, in that order; an outcome alone queues its
/// own envelope, addressed to `to`, exactly when it was not delivered.
pub proof fn law_queue_by_parts(to: Seq<char>, a: Seq<OutcomeView>, b: Seq<OutcomeView>, o: OutcomeView)
    ensures
        queued(to, a + b) == queued(to, a) + queued(to, b),
        queued(to, seq![o]) == if o.delivered {
            Seq::<PendingView>::empty()
        } else {
            seq![PendingView { to: to, data: o.data }]
        },
    decreases b.len(),
{
    assert(seq![o].drop_last() =~= Seq::<OutcomeView>::empty());
    assert(queued(to, seq![o].drop_last()) == Seq::<PendingView>::empty());
    assert(seq![o].last() == o);
    assert(Seq::<PendingView>::empty().push(PendingView { to: to, data: o.data }) =~= seq![
        PendingView { to: to, data: o.data },
    ]);
    if b.len() == 0 {
        assert(a + b =~= a);
        assert(queued(to, a) + queued(to, b) =~= queued(to, a));
    } else {
        law_queue_by_parts(to, a, b.drop_last(), o);
        assert((a + b).drop_last() =~= a + b.drop_last());
        assert((a + b).last() == b.last());
        let qa = queued(to, a);
        let qb = queued(to, b.drop_last());
        if !b.last().delivered {
            let e = PendingView { to: to, data: b.last().data };
            assert((qa + qb).push(e) =~= qa + qb.push(e));
        }
    }
}

/// Sending keeps the queue as it was and puts after it the envelopes that
/// were not delivered, each addressed to the remote user of the active chat.
pub proof fn law_send_queues_for_target(
    v: ChatView,
    a: Seq<char>,
    i: int,
    content: Seq<char>,
    outs: Seq<OutcomeView>,
    timestamp: u64,
)
    requires
        unique_keys(v.chats),
        v.active == Some(a),
        0 <= i < v.chats.len(),
        v.chats[i].key == a,
    ensures
        send_spec(v, content, outs, timestamp).pending.take(v.pending.len() as int) == v.pending,
        send_spec(v, content, outs, timestamp).pending.skip(v.pending.len() as int) == queued(
            v.chats[i].session.remote_user,
            outs,
        ),
        forall|j: int|
            v.pending.len() <= j < send_spec(v, content, outs, timestamp).pending.len()
                ==> (#[trigger] send_spec(v, content, outs, timestamp).pending[j]).to
                == v.chats[i].session.remote_user,
{
    lemma_chat_index(v.chats, a, i);
    let r = v.chats[i].session.remote_user;
    let p = send_spec(v, content, outs, timestamp).pending;
    let q = queued(r, outs);
    assert(p.take(v.pending.len() as int) =~= v.pending);
    assert(p.skip(v.pending.len() as int) =~= q);
    lemma_queued_to(r, outs);
    assert forall|j: int| v.pending.len() <= j < p.len() implies (#[trigger] p[j]).to == r by {
        assert(p[j] == q[j - v.pending.len()]);
    }
}

/// Opening a chat with a new user adds, after the other chats (which stay),
/// one chat under that user in the given conversation holding the greeting;
/// the queue keeps what it held and gets the handshake envelopes that were
/// not delivered, each addressed to the new user.
pub proof fn law_add_friend_entry(
    v: ChatView,
    user: Seq<char>,
    chat_id: Seq<char>,
    outs: Seq<OutcomeView>,
    timestamp: u64,
)
    requires
        unique_keys(v.chats),
        !has_chat(v.chats, user),
    ensures
        add_friend_spec(v, user, chat_id, outs, timestamp).chats.len() == v.chats.len() + 1,
        forall|k: int|
            0 <= k < v.chats.len() ==> #[trigger] add_friend_spec(
                v,
                user,
                chat_id,
                outs,
                timestamp,
            ).chats[k] == v.chats[k],
        add_friend_spec(v, user, chat_id, outs, timestamp).chats[v.chats.len() as int] == (
        ChatEntryView {
            key: user,
            session: SessionView {
                chat_id: chat_id,
                remote_user: user,
                messages: seq![MessageView { from_self: true, content: GREETING@, timestamp: timestamp }],
            },
        }),
        add_friend_spec(v, user, chat_id, outs, timestamp).pending.take(v.pending.len() as int)
            == v.pending,
        forall|j: int|
            v.pending.len() <= j < add_friend_spec(v, user, chat_id, outs, timestamp).pending.len()
                ==> (#[trigger] add_friend_spec(v, user, chat_id, outs, timestamp).pending[j]).to
                == user,
        add_friend_spec(v, user, chat_id, outs, timestamp).pending.len() > v.pending.len()
            <==> any_undelivered(outs),
{
    let p = add_friend_spec(v, user, chat_id, outs, timestamp).pending;
    let q = queued(user, outs);
    assert(p.take(v.pending.len() as int) =~= v.pending);
    lemma_queued_to(user, outs);
    assert forall|j: int| v.pending.len() <= j < p.len() implies (#[trigger] p[j]).to == user by {
        assert(p[j] == q[j - v.pending.len()]);
    }
}

} // verus!
