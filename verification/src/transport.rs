//! Peer discovery bookkeeping, the inbound queue and the wire framing used by
//! the mDNS + TCP transport.

use std::collections::VecDeque;
use std::time::{Duration, SystemTime};
use vstd::prelude::*;
use vstd::string::*;
use crate::api::{PeerInfo, PeerView, peer_infos_view};
use crate::chat_state::opt_text;

verus! {

/// Big-endian encoding of a 32-bit length.
pub open spec fn be_bytes(x: u32) -> Seq<u8> {
    seq![
        (x / 0x100_0000) as u8,
        ((x / 0x1_0000) % 0x100) as u8,
        ((x / 0x100) % 0x100) as u8,
        (x % 0x100) as u8,
    ]
}

/// The value of four big-endian bytes.
pub open spec fn be_value(b: Seq<u8>) -> int {
    b[0] * 0x100_0000 + b[1] * 0x1_0000 + b[2] * 0x100 + b[3]
}

/// A frame on the wire: the payload length as a big-endian `u32`, then the
/// payload.  The length is the payload length cut to 32 bits.
pub open spec fn frame_spec(payload: Seq<u8>) -> Seq<u8> {
    be_bytes(payload.len() as u32) + payload
}

/// Frames `payload` for the wire.
pub fn encode_frame(payload: &[u8]) -> (frame: Vec<u8>)
    ensures
        frame@ == frame_spec(payload@),
{
    let n: u32 = payload.len() as u32;
    let mut frame: Vec<u8> = Vec::new();
    frame.push((n / 0x100_0000) as u8);
    frame.push(((n / 0x1_0000) % 0x100) as u8);
    frame.push(((n / 0x100) % 0x100) as u8);
    frame.push((n % 0x100) as u8);
    let mut i: usize = 0;
    while i < payload.len()
        invariant
            i <= payload@.len(),
            n == payload@.len() as u32,
            frame@ == be_bytes(n) + payload@.take(i as int),
        decreases payload@.len() - i,
    {
        frame.push(payload[i]);
        i = i + 1;
        assert(payload@.take(i as int) =~= payload@.take(i - 1).push(payload@[i - 1]));
    }
    assert(payload@.take(i as int) =~= payload@);
    frame
}

/// The payload length announced by a frame header.
pub fn frame_len(header: &[u8; 4]) -> (len: u32)
    ensures
        len == be_value(header@),
{
    let b0: u32 = header[0] as u32;
    let b1: u32 = header[1] as u32;
    let b2: u32 = header[2] as u32;
    let b3: u32 = header[3] as u32;
    b0 * 0x100_0000 + b1 * 0x1_0000 + b2 * 0x100 + b3
}


/// The payload of a frame read from the front of `buf`, or `None` when `buf`
/// is shorter than its header or than the length the header announces.
pub open spec fn unframe_spec(buf: Seq<u8>) -> Option<Seq<u8>> {
    if buf.len() < 4 {
        None
    } else if buf.len() - 4 < be_value(buf.take(4)) {
        None
    } else {
        Some(buf.subrange(4, 4 + be_value(buf.take(4))))
    }
}

/// Reads one frame from the front of `buf` (bytes after it are left alone).
pub fn decode_frame(buf: &[u8]) -> (payload: Option<Vec<u8>>)
    ensures
        payload matches Some(p) ==> unframe_spec(buf@) == Some(p@),
        payload is None ==> unframe_spec(buf@) is None,
{
    if buf.len() < 4 {
        return None;
    }
    let header: [u8; 4] = [buf[0], buf[1], buf[2], buf[3]];
    assert(header@ =~= buf@.take(4));
    let len: u32 = frame_len(&header);
    if buf.len() - 4 < len as usize {
        return None;
    }
    let end: usize = 4 + len as usize;
    let body = vstd::slice::slice_subrange(buf, 4, end);
    Some(vstd::slice::slice_to_vec(body))
}

/// Reading back a frame gives the payload that was framed, whatever follows
/// it, for every payload whose length fits the 32-bit header.
pub proof fn law_frame_roundtrip(payload: Seq<u8>, rest: Seq<u8>)
    requires
        payload.len() <= u32::MAX,
    ensures
        unframe_spec(frame_spec(payload) + rest) == Some(payload),
{
    let n = payload.len() as u32;
    let buf = frame_spec(payload) + rest;
    assert(buf.take(4) =~= be_bytes(n));
    assert(be_value(be_bytes(n)) == n) by (nonlinear_arith);
    assert(buf.subrange(4, 4 + n) =~= payload);
}


/// What travels between peers: who sent it, the sealed payload, and when.
pub struct MessageEnvelope {
    pub from: String,
    pub data: Vec<u8>,
    pub timestamp: u64,
}

/// Envelopes received and not yet taken, oldest first.
pub struct Inbox {
    pub queue: VecDeque<MessageEnvelope>,
}

impl View for Inbox {
    type V = Seq<MessageEnvelope>;

    open spec fn view(&self) -> Seq<MessageEnvelope> {
        self.queue@
    }
}

/// The waiting envelopes after `e` is filed.
pub open spec fn filed(q: Seq<MessageEnvelope>, e: MessageEnvelope) -> Seq<MessageEnvelope> {
    q.push(e)
}

/// Taking from the waiting envelopes: the oldest one, if any, and those that
/// still wait.
pub open spec fn taken(q: Seq<MessageEnvelope>) -> (Option<MessageEnvelope>, Seq<MessageEnvelope>) {
    if q.len() == 0 {
        (None, q)
    } else {
        (Some(q[0]), q.drop_first())
    }
}

impl Inbox {
    /// An empty inbox.
    pub fn new() -> (r: Inbox)
        ensures
            r@ == Seq::<MessageEnvelope>::empty(),
    {
        Inbox { queue: VecDeque::new() }
    }

    /// Files a received envelope behind the others.
    pub fn push(&mut self, envelope: MessageEnvelope)
        ensures
            final(self)@ == filed(old(self)@, envelope),
    {
        self.queue.push_back(envelope);
    }

    /// Takes the oldest envelope, if any.
    pub fn try_recv(&mut self) -> (r: Option<MessageEnvelope>)
        ensures
            (r, final(self)@) == taken(old(self)@),
    {
        let r = self.queue.pop_front();
        proof {
            if old(self)@.len() > 0 {
                assert(self@ =~= old(self)@.drop_first());
            }
        }
        r
    }

    /// How many envelopes wait.
    pub fn len(&self) -> (n: usize)
        ensures
            n == self@.len(),
    {
        self.queue.len()
    }
}

/// A known peer: its name, the address to reach it, and whether mDNS
/// announced it (rather than the user registering it by hand).
pub struct PeerEntry {
    pub name: String,
    pub addr: String,
    pub via_mdns: bool,
}

#[verifier::ext_equal]
pub struct PeerEntryView {
    pub name: Seq<char>,
    pub addr: Seq<char>,
    pub via_mdns: bool,
}

impl View for PeerEntry {
    type V = PeerEntryView;

    open spec fn view(&self) -> PeerEntryView {
        PeerEntryView { name: self.name@, addr: self.addr@, via_mdns: self.via_mdns }
    }
}

pub open spec fn peer_entries_view(s: Seq<PeerEntry>) -> Seq<PeerEntryView> {
    s.map_values(|x: PeerEntry| x@)
}

/// The peers known by name, each with the address to reach it.
pub struct PeerTable {
    pub entries: Vec<PeerEntry>,
}

/// No name occurs twice.
pub open spec fn unique_names(p: Seq<PeerEntryView>) -> bool {
    forall|i: int, j: int|
        0 <= i < p.len() && 0 <= j < p.len() && i != j ==> #[trigger] p[i].name
            != #[trigger] p[j].name
}

/// `name` is a known peer.
pub open spec fn knows_peer(p: Seq<PeerEntryView>, name: Seq<char>) -> bool {
    exists|i: int| 0 <= i < p.len() && #[trigger] p[i].name == name
}

/// The position of peer `name`.
pub open spec fn peer_index(p: Seq<PeerEntryView>, name: Seq<char>) -> int {
    choose|i: int| 0 <= i < p.len() && #[trigger] p[i].name == name
}

/// The address of peer `name`, if it is known.
pub open spec fn lookup_peer(p: Seq<PeerEntryView>, name: Seq<char>) -> Option<Seq<char>> {
    if knows_peer(p, name) {
        Some(p[peer_index(p, name)].addr)
    } else {
        None
    }
}

/// Recording `name` at `addr`, announced by mDNS or not: a known peer gets the
/// new address (and origin) in place, a new one is added at the end.
pub open spec fn insert_peer_spec(
    p: Seq<PeerEntryView>,
    name: Seq<char>,
    addr: Seq<char>,
    via_mdns: bool,
) -> Seq<PeerEntryView> {
    let e = PeerEntryView { name: name, addr: addr, via_mdns: via_mdns };
    if knows_peer(p, name) {
        p.update(peer_index(p, name), e)
    } else {
        p.push(e)
    }
}

/// mDNS no longer announces `name`: a peer that mDNS announced is forgotten,
/// one registered by hand stays.
pub open spec fn remove_mdns_peer_spec(p: Seq<PeerEntryView>, name: Seq<char>) -> Seq<
    PeerEntryView,
> {
    if knows_peer(p, name) && p[peer_index(p, name)].via_mdns {
        p.remove(peer_index(p, name))
    } else {
        p
    }
}

/// The peers that mDNS announced, with their addresses, in table order.
pub open spec fn mdns_peers(p: Seq<PeerEntryView>) -> Seq<PeerView>
    decreases p.len(),
{
    if p.len() == 0 {
        Seq::empty()
    } else {
        let r = mdns_peers(p.drop_last());
        if p.last().via_mdns {
            r.push(PeerView { name: p.last().name, addr: p.last().addr })
        } else {
            r
        }
    }
}

/// Every known peer with its address, in table order.
pub open spec fn all_peers(p: Seq<PeerEntryView>) -> Seq<PeerView> {
    p.map_values(|e: PeerEntryView| PeerView { name: e.name, addr: e.addr })
}

pub proof fn lemma_peer_index(p: Seq<PeerEntryView>, name: Seq<char>, i: int)
    requires
        unique_names(p),
        0 <= i < p.len(),
        p[i].name == name,
    ensures
        knows_peer(p, name),
        peer_index(p, name) == i,
{
    assert(knows_peer(p, name));
    let k = peer_index(p, name);
    assert(p[k].name == name);
}

impl View for PeerTable {
    type V = Seq<PeerEntryView>;

    open spec fn view(&self) -> Seq<PeerEntryView> {
        peer_entries_view(self.entries@)
    }
}

impl PeerTable {
    /// No peer is listed twice.
    pub open spec fn wf(&self) -> bool {
        unique_names(self@)
    }

    /// An empty table.
    pub fn new() -> (r: PeerTable)
        ensures
            r.wf(),
            r@ == Seq::<PeerEntryView>::empty(),
    {
        let r = PeerTable { entries: Vec::new() };
        assert(r@ =~= Seq::<PeerEntryView>::empty());
        r
    }

    /// Where peer `name` stands in the table.
    fn find(&self, name: &String) -> (r: Option<usize>)
        requires
            self.wf(),
        ensures
            match r {
                Some(i) => i < self@.len() && self@[i as int].name == name@ && knows_peer(
                    self@,
                    name@,
                ) && peer_index(self@, name@) == i,
                None => !knows_peer(self@, name@),
            },
    {
        let ghost v = self@;
        let mut i: usize = 0;
        while i < self.entries.len()
            invariant
                i <= self.entries@.len(),
                v == self@,
                unique_names(v),
                forall|j: int| 0 <= j < i ==> #[trigger] v[j].name != name@,
            decreases self.entries@.len() - i,
        {
            if self.entries[i].name == *name {
                proof {
                    lemma_peer_index(v, name@, i as int);
                }
                return Some(i);
            }
            i = i + 1;
        }
        None
    }

    /// Records peer `name` at `addr`, with its origin.
    fn record(&mut self, name: &str, addr: String, via_mdns: bool)
        requires
            old(self).wf(),
        ensures
            final(self).wf(),
            final(self)@ == insert_peer_spec(old(self)@, name@, addr@, via_mdns),
    {
        let key = String::from_str(name);
        let ghost v0 = self@;
        let e = PeerEntry { name: key.clone(), addr: addr, via_mdns: via_mdns };
        match self.find(&key) {
            Some(i) => {
                let _prev = self.entries.remove(i);
                self.entries.insert(i, e);
                assert(self@ =~= insert_peer_spec(v0, name@, addr@, via_mdns));
            },
            None => {
                self.entries.push(e);
                assert(self@ =~= insert_peer_spec(v0, name@, addr@, via_mdns));
            },
        }
    }

    /// Registers peer `name` at `addr` by hand (a known peer gets the new
    /// address, and counts as registered by hand).
    pub fn add_peer(&mut self, name: &str, addr: String)
        requires
            old(self).wf(),
        ensures
            final(self).wf(),
            final(self)@ == insert_peer_spec(old(self)@, name@, addr@, false),
    {
        self.record(name, addr, false);
    }

    /// The address of peer `name`, if it is known.
    pub fn get(&self, name: &str) -> (r: Option<String>)
        requires
            self.wf(),
        ensures
            opt_text(r) == lookup_peer(self@, name@),
    {
        let key = String::from_str(name);
        match self.find(&key) {
            Some(i) => Some(self.entries[i].addr.clone()),
            None => None,
        }
    }

    /// The names of all known peers, in table order.
    pub fn list_peers(&self) -> (r: Vec<String>)
        ensures
            r@.len() == self@.len(),
            forall|i: int| 0 <= i < r@.len() ==> (#[trigger] r@[i])@ == self@[i].name,
    {
        let mut r: Vec<String> = Vec::new();
        let mut i: usize = 0;
        while i < self.entries.len()
            invariant
                i <= self.entries@.len(),
                r@.len() == i,
                forall|k: int| 0 <= k < i ==> (#[trigger] r@[k])@ == self@[k].name,
            decreases self.entries@.len() - i,
        {
            r.push(self.entries[i].name.clone());
            i = i + 1;
        }
        r
    }

    /// All known peers with their addresses, in table order.
    pub fn list_peers_with_addrs(&self) -> (r: Vec<(String, String)>)
        ensures
            r@.len() == self@.len(),
            forall|i: int|
                0 <= i < r@.len() ==> (#[trigger] r@[i]).0@ == self@[i].name && r@[i].1@
                    == self@[i].addr,
    {
        let mut r: Vec<(String, String)> = Vec::new();
        let mut i: usize = 0;
        while i < self.entries.len()
            invariant
                i <= self.entries@.len(),
                r@.len() == i,
                forall|k: int|
                    0 <= k < i ==> (#[trigger] r@[k]).0@ == self@[k].name && r@[k].1@
                        == self@[k].addr,
            decreases self.entries@.len() - i,
        {
            r.push((self.entries[i].name.clone(), self.entries[i].addr.clone()));
            i = i + 1;
        }
        r
    }

    /// The peers that mDNS announced, with their addresses, in table order.
    pub fn list_mdns_peers(&self) -> (r: Vec<PeerInfo>)
        ensures
            peer_infos_view(r@) == mdns_peers(self@),
    {
        let ghost v = self@;
        let mut r: Vec<PeerInfo> = Vec::new();
        let mut i: usize = 0;
        while i < self.entries.len()
            invariant
                i <= self.entries@.len(),
                v == self@,
                peer_infos_view(r@) == mdns_peers(v.take(i as int)),
            decreases self.entries@.len() - i,
        {
            proof {
                assert(v.take(i + 1).drop_last() =~= v.take(i as int));
                assert(v.take(i + 1).last() == v[i as int]);
            }
            if self.entries[i].via_mdns {
                let p = PeerInfo {
                    name: self.entries[i].name.clone(),
                    addr: self.entries[i].addr.clone(),
                };
                let ghost before = r@;
                r.push(p);
                assert(peer_infos_view(r@) =~= peer_infos_view(before).push(p@));
            }
            i = i + 1;
        }
        assert(v.take(v.len() as int) =~= v);
        r
    }
}

/// The mDNS service type under which peers announce themselves.
pub const SERVICE_TYPE: &'static str = "_ferry._tcp.local.";

/// The host name announced for `user_name`; it differs from the machine's own
/// host name so that the system's responder is not disturbed.
pub fn mdns_hostname(user_name: &str) -> (r: String)
    ensures
        r@ == "ferry-"@ + user_name@ + ".local."@,
{
    crate::text::join3("ferry-", user_name, ".local.")
}

/// What follows a peer's name in its full service name.
pub open spec fn service_suffix() -> Seq<char> {
    "."@ + SERVICE_TYPE@
}

/// `s` ends with `suffix`.
pub open spec fn ends_with(s: Seq<char>, suffix: Seq<char>) -> bool {
    suffix.len() <= s.len() && s.subrange(s.len() - suffix.len(), s.len() as int) == suffix
}

/// The position of the first '.' in `s`, or its length when there is none.
pub open spec fn first_dot(s: Seq<char>) -> int {
    if exists|k: int| 0 <= k < s.len() && s[k] == '.' {
        choose|k: int|
            0 <= k < s.len() && s[k] == '.' && forall|j: int| 0 <= j < k ==> s[j] != '.'
    } else {
        s.len() as int
    }
}

/// The peer name in a full service name "<name>._ferry._tcp.local.": what
/// precedes the service suffix, or else what precedes the first '.'.
pub open spec fn peer_name_spec(fullname: Seq<char>) -> Seq<char> {
    if ends_with(fullname, service_suffix()) {
        fullname.take(fullname.len() - service_suffix().len())
    } else {
        fullname.take(first_dot(fullname))
    }
}

/// The peer name in a full service name.
pub fn peer_name_from_fullname(fullname: &str) -> (r: String)
    ensures
        r@ == peer_name_spec(fullname@),
{
    let suffix = String::from_str(".").concat(SERVICE_TYPE);
    let n = fullname.unicode_len();
    let m = suffix.as_str().unicode_len();
    if m <= n {
        let tail = String::from_str(fullname.substring_char(n - m, n));
        if tail == suffix {
            return String::from_str(fullname.substring_char(0, n - m));
        }
    }
    assert(!ends_with(fullname@, service_suffix()));
    let mut i: usize = 0;
    while i < n
        invariant
            i <= n,
            n == fullname@.len(),
            !ends_with(fullname@, service_suffix()),
            forall|j: int| 0 <= j < i ==> fullname@[j] != '.',
        decreases n - i,
    {
        if fullname.get_char(i) == '.' {
            assert(first_dot(fullname@) == i as int) by {
                let s = fullname@;
                assert(0 <= i < s.len() && s[i as int] == '.');
                let k = first_dot(s);
                assert(0 <= k < s.len() && s[k] == '.' && forall|j: int| 0 <= j < k ==> s[j] != '.');
                if k < i {
                } else if k > i {
                    assert(s[i as int] != '.');
                }
            }
            return String::from_str(fullname.substring_char(0, i));
        }
        i = i + 1;
    }
    assert(first_dot(fullname@) == n as int);
    String::from_str(fullname.substring_char(0, n))
}

/// mDNS resolved the service `fullname` at `addr` (`ip:port` of its first
/// address, if it has one): any other peer than ourselves is recorded as
/// announced by mDNS.
pub open spec fn resolve_spec(
    p: Seq<PeerEntryView>,
    fullname: Seq<char>,
    my_name: Seq<char>,
    addr: Option<Seq<char>>,
) -> Seq<PeerEntryView> {
    match addr {
        Some(a) => if peer_name_spec(fullname) != my_name {
            insert_peer_spec(p, peer_name_spec(fullname), a, true)
        } else {
            p
        },
        None => p,
    }
}

impl PeerTable {
    /// mDNS resolved the service `fullname` at `addr` (`ip:port` of its first
    /// address, if it has one): any other peer than ourselves is recorded.
    pub fn on_service_resolved(&mut self, fullname: &str, my_name: &str, addr: Option<String>)
        requires
            old(self).wf(),
        ensures
            final(self).wf(),
            final(self)@ == resolve_spec(old(self)@, fullname@, my_name@, opt_text(addr)),
    {
        let name = peer_name_from_fullname(fullname);
        let me = String::from_str(my_name);
        if name != me {
            match addr {
                Some(a) => self.record(name.as_str(), a, true),
                None => {},
            }
        }
    }

    /// mDNS reports that the service `fullname` went away: its peer is
    /// forgotten if mDNS announced it; a peer registered by hand stays.
    pub fn on_service_removed(&mut self, fullname: &str)
        requires
            old(self).wf(),
        ensures
            final(self).wf(),
            final(self)@ == remove_mdns_peer_spec(old(self)@, peer_name_spec(fullname@)),
    {
        let name = peer_name_from_fullname(fullname);
        let ghost v0 = self@;
        match self.find(&name) {
            Some(i) => {
                if self.entries[i].via_mdns {
                    let _gone = self.entries.remove(i);
                    assert(self@ =~= remove_mdns_peer_spec(v0, name@));
                }
            },
            None => {},
        }
    }
}

#[verifier::external_type_specification]
#[verifier::external_body]
pub struct ExSystemTime(SystemTime);

/// `SystemTime::now`: a reading of the system clock; nothing is claimed of it.
#[verifier::external_body]
fn clock_now() -> SystemTime {
    SystemTime::now()
}

/// `SystemTime::duration_since(UNIX_EPOCH)`: how long after the Unix epoch `t`
/// lies, or `None` when it lies before.  Nothing is claimed of the result:
/// Verus sees nothing inside a `SystemTime` or a `Duration`, so the result
/// cannot be tied to `t` by a clause.
#[verifier::external_body]
fn since_unix_epoch(t: &SystemTime) -> Option<Duration> {
    t.duration_since(std::time::UNIX_EPOCH).ok()
}

/// `Duration::as_millis`: the whole milliseconds of `d`.  Nothing is claimed
/// of the result: Verus sees nothing inside a `Duration`, so the result cannot
/// be tied to `d` by a clause.
#[verifier::external_body]
fn whole_millis(d: &Duration) -> u128 {
    d.as_millis()
}

/// The timestamp for `elapsed_ms` milliseconds since the Unix epoch: cut to
/// 64 bits, or 0 when the clock read earlier than the epoch (`None`).
pub fn millis_or_zero(elapsed_ms: Option<u128>) -> (r: u64)
    ensures
        r == match elapsed_ms {
            Some(m) => m as u64,
            None => 0,
        },
{
    match elapsed_ms {
        Some(m) => m as u64,
        None => 0,
    }
}

/// Milliseconds since the Unix epoch by the system clock, cut to 64 bits;
/// 0 when the clock reads earlier than the epoch.
pub fn now_ms() -> u64 {
    let elapsed_ms: Option<u128> = match since_unix_epoch(&clock_now()) {
        Some(d) => Some(whole_millis(&d)),
        None => None,
    };
    millis_or_zero(elapsed_ms)
}

} // verus!
