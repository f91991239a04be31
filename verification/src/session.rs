//! The tunnel server's side of its session with the tunnel client: the
//! authentication handshake, its deadline, and putting HTTP packets that
//! arrive in several messages back together. The server's event loop reads
//! and writes the streams; the decisions it takes on each event are here.

use vstd::prelude::*;
use crate::clock::duration_from_secs;
use crate::cache::Cache;
use crate::message::{Message, MessageView, is_nat_cmd_spec, NAT_AUTH, PING_BYTES};
use crate::protocols::ProtocolType;

verus! {

broadcast use vstd::std_specs::hash::group_hash_axioms;

/// A message's body length, taken as a `u32`.
pub open spec fn len_u32(s: Seq<u8>) -> int {
    (s.len() % 0x1_0000_0000) as int
}

/// The packet size that an HTTP message announces; a message without one
/// stands for a whole packet of its own length.
pub open spec fn announced_size(m: MessageView) -> int {
    match m.packet_size {
        Some(p) => p as int,
        None => len_u32(m.body),
    }
}

/// The tracing ID of a message, 0 when it has none.
pub open spec fn tracing_key(m: MessageView) -> u32 {
    m.tracing_id.unwrap_or(0)
}

/// One step of reassembly: what the pending parts become, and the packet
/// that is complete, if any, when HTTP message `m` arrives.
///
/// A message that is part of a longer packet, or that continues a pending
/// packet under the same tracing ID, is appended to that packet; once the
/// packet holds as many bytes as announced it is released. Any other message
/// is released as it is.
pub open spec fn http_step(pending: Map<u32, MessageView>, m: MessageView)
    -> (Map<u32, MessageView>, Option<MessageView>)
{
    let size = announced_size(m);
    let id = tracing_key(m);
    if pending.contains_key(id) || size > len_u32(m.body) {
        let base = if pending.contains_key(id) {
            pending[id]
        } else {
            MessageView {
                protocol: ProtocolType::HTTP,
                body: Seq::empty(),
                tracing_id: Some(id),
                ssh_status: None,
                packet_size: Some(size as u32),
            }
        };
        let joined = MessageView { body: base.body + m.body, ..base };
        if size <= len_u32(joined.body) {
            (pending.remove(id), Some(joined))
        } else {
            (pending.insert(id, joined), None)
        }
    } else {
        (pending, Some(m))
    }
}

/// The views of the pending parts.
pub open spec fn pending_views(m: Map<u32, Message>) -> Map<u32, MessageView> {
    m.map_values(|v: Message| v@)
}

/// What the server does about a message from the client.
pub enum ClientEvent {
    /// The client answers the challenge with these encrypted bytes: decrypt
    /// them and hand them to [`NatSession::check_auth`].
    Authenticate(Vec<u8>),
    /// The client's answer is malformed: reply AUTH-FAILED and close.
    AuthMalformed,
    /// The client pings: queue a PONG for it.
    ReplyPong,
    /// A reply for a visitor (HTTP or SSH), complete: hand it on.
    Deliver(Message),
    /// Part of an HTTP reply, kept until the rest arrives.
    Buffered,
    /// Nothing to do.
    Ignore,
}

/// What the server does when its timer ticks.
#[derive(Debug, Clone, Copy, PartialEq, Eq, Structural)]
pub enum TickOutcome {
    /// Nothing to do.
    Continue,
    /// The client did not authenticate in time: reply AUTH-TIMEOUT and close.
    AuthTimeout,
}

/// The server's state in its session with the tunnel client.
pub struct NatSession {
    challenge: [u8; 4],
    auth_success: bool,
    ticker: u64,
    http_cache: Cache<u32, Message>,
}

impl NatSession {
    /// The four random bytes that the client must encrypt.
    pub closed spec fn challenge(&self) -> Seq<u8> {
        self.challenge@
    }

    /// Whether the client has authenticated.
    pub closed spec fn authenticated(&self) -> bool {
        self.auth_success
    }

    /// How many times the timer has ticked (saturating).
    pub closed spec fn ticks(&self) -> u64 {
        self.ticker
    }

    /// The HTTP packets that are still missing parts, by tracing ID.
    pub closed spec fn pending(&self) -> Map<u32, MessageView> {
        pending_views(self.http_cache@)
    }

    /// A session that has just sent the challenge `challenge` in its OK message.
    pub fn new(challenge: [u8; 4]) -> (r: Self)
        ensures
            r.challenge() == challenge@,
            !r.authenticated(),
            r.ticks() == 0,
            r.pending() == Map::<u32, MessageView>::empty(),
    {
        let r = NatSession {
            challenge,
            auth_success: false,
            ticker: 0,
            http_cache: Cache::new(duration_from_secs(10)),
        };
        assert(r.pending() =~= Map::<u32, MessageView>::empty());
        r
    }

    /// Whether the client has authenticated.
    pub fn is_authenticated(&self) -> (r: bool)
        ensures
            r == self.authenticated(),
    {
        self.auth_success
    }

    /// The timer ticks (every five seconds, the first tick at once): on the
    /// second tick a client that has not authenticated is timed out.
    pub fn on_tick(&mut self) -> (r: TickOutcome)
        ensures
            r == (if old(self).ticks() == 1 && !old(self).authenticated() {
                TickOutcome::AuthTimeout
            } else {
                TickOutcome::Continue
            }),
            final(self).authenticated() == old(self).authenticated(),
            final(self).challenge() == old(self).challenge(),
            final(self).pending() == old(self).pending(),
            r == TickOutcome::AuthTimeout ==> final(self).ticks() == old(self).ticks(),
            r == TickOutcome::Continue ==> final(self).ticks() == (if old(self).ticks() < u64::MAX {
                old(self).ticks() + 1
            } else {
                old(self).ticks() as int
            }),
    {
        if self.ticker == 1 && !self.auth_success {
            return TickOutcome::AuthTimeout;
        }
        if self.ticker < u64::MAX {
            self.ticker = self.ticker + 1;
        }
        TickOutcome::Continue
    }

    /// Checks the client's decrypted answer against the challenge; on a
    /// match the client is authenticated, on a mismatch (an answer of
    /// another length among them) the server replies AUTH-FAILED and closes.
    pub fn check_auth(&mut self, decrypted: &[u8]) -> (r: bool)
        ensures
            r == (decrypted@ == old(self).challenge()),
            final(self).authenticated() == (old(self).authenticated() || r),
            final(self).challenge() == old(self).challenge(),
            final(self).ticks() == old(self).ticks(),
            final(self).pending() == old(self).pending(),
    {
        let same = decrypted.len() == 4 && self.challenge[0] == decrypted[0] && self.challenge[1] == decrypted[1]
            && self.challenge[2] == decrypted[2] && self.challenge[3] == decrypted[3];
        proof {
            if same {
                assert(decrypted@ =~= self.challenge@);
            }
        }
        if same {
            self.auth_success = true;
        }
        same
    }

    /// Puts HTTP replies that arrive in parts back together (see [`http_step`]).
    pub fn reassemble_http(&mut self, msg: Message) -> (r: Option<Message>)
        ensures
            http_step(old(self).pending(), msg@) == (final(self).pending(), match r {
                Some(m) => Some(m@),
                None => None::<MessageView>,
            }),
            final(self).authenticated() == old(self).authenticated(),
            final(self).challenge() == old(self).challenge(),
            final(self).ticks() == old(self).ticks(),
    {
        let body_len: u64 = (msg.body.len() as u64) % 0x1_0000_0000;
        let packet_size: u32 = match msg.packet_size {
            Some(p) => p,
            None => body_len as u32,
        };
        let tracing_id: u32 = match msg.tracing_id {
            Some(id) => id,
            None => 0,
        };
        let ghost before = self.http_cache@;
        if self.http_cache.contains_key(&tracing_id) || packet_size as u64 > body_len {
            let mut cached = match self.http_cache.remove(&tracing_id) {
                Some(m) => m,
                None => Message::new_http(Some(tracing_id), Vec::new(), packet_size),
            };
            let mut part = msg.body;
            cached.body.append(&mut part);
            let joined_len: u64 = (cached.body.len() as u64) % 0x1_0000_0000;
            if packet_size as u64 <= joined_len {
                proof {
                    assert(pending_views(self.http_cache@) =~= pending_views(before).remove(tracing_id));
                }
                Some(cached)
            } else {
                self.http_cache.put(tracing_id, cached);
                proof {
                    assert(pending_views(self.http_cache@) =~= pending_views(before).insert(tracing_id, cached@));
                }
                None
            }
        } else {
            Some(msg)
        }
    }

    /// Decides what to do about a message that the client sent.
    pub fn on_client_message(&mut self, msg: Message) -> (r: ClientEvent)
        ensures
            final(self).authenticated() == old(self).authenticated(),
            final(self).challenge() == old(self).challenge(),
            final(self).ticks() == old(self).ticks(),
            is_nat_cmd_spec(msg@, NAT_AUTH) ==> (final(self).pending() == old(self).pending() && (
                if msg@.body.len() >= 17 {
                    r matches ClientEvent::Authenticate(b) && b@ == msg@.body.subrange(1, 17)
                } else {
                    r is AuthMalformed
                })),
            !is_nat_cmd_spec(msg@, NAT_AUTH) && is_nat_cmd_spec(msg@, PING_BYTES)
                ==> (final(self).pending() == old(self).pending() && r is ReplyPong),
            msg@.protocol == ProtocolType::HTTP ==> ({
                let (p, out) = http_step(old(self).pending(), msg@);
                &&& final(self).pending() == p
                &&& match out {
                    Some(m) => r matches ClientEvent::Deliver(d) && d@ == m,
                    None => r is Buffered,
                }
            }),
            msg@.protocol == ProtocolType::SSH ==> (final(self).pending() == old(self).pending()
                && (r matches ClientEvent::Deliver(d) && d@ == msg@)),
            msg@.protocol == ProtocolType::NAT && !is_nat_cmd_spec(msg@, NAT_AUTH)
                && !is_nat_cmd_spec(msg@, PING_BYTES)
                ==> (final(self).pending() == old(self).pending() && r is Ignore),
    {
        if msg.is_auth() {
            match msg.get_encrypted_bytes_by_client() {
                Ok(bytes) => ClientEvent::Authenticate(bytes),
                Err(_) => ClientEvent::AuthMalformed,
            }
        } else if msg.is_ping() {
            ClientEvent::ReplyPong
        } else if msg.is_http() {
            match self.reassemble_http(msg) {
                Some(m) => ClientEvent::Deliver(m),
                None => ClientEvent::Buffered,
            }
        } else if msg.is_ssh() {
            ClientEvent::Deliver(msg)
        } else {
            ClientEvent::Ignore
        }
    }
}

} // verus!

verus! {

/// Feeds messages to the reassembly one after the other: the pending parts
/// at the end, and the packets released on the way, in order.
pub open spec fn feed(pending: Map<u32, MessageView>, msgs: Seq<MessageView>)
    -> (Map<u32, MessageView>, Seq<MessageView>)
    decreases msgs.len(),
{
    if msgs.len() == 0 {
        (pending, seq![])
    } else {
        let (p1, out) = http_step(pending, msgs[0]);
        let (p2, rest) = feed(p1, msgs.drop_first());
        (p2, match out {
            Some(m) => seq![m] + rest,
            None => rest,
        })
    }
}

/// The HTTP message that carries a whole packet `bytes` under `id`.
pub open spec fn whole_packet(id: u32, bytes: Seq<u8>) -> MessageView {
    MessageView {
        protocol: ProtocolType::HTTP,
        body: bytes,
        tracing_id: Some(id),
        ssh_status: None,
        packet_size: Some(bytes.len() as u32),
    }
}

proof fn lemma_feed_rest(
    pending: Map<u32, MessageView>,
    id: u32,
    b: nat,
    bytes: Seq<u8>,
    k: int,
)
    requires
        !pending.contains_key(id),
        b > 0,
        bytes.len() < 0x1_0000_0000,
        1 <= k < crate::batch::batch_count(bytes.len(), b),
    ensures
        feed(
            pending.insert(id, MessageView { body: bytes.subrange(0, k * b), ..whole_packet(id, bytes) }),
            crate::batch::http_batch_messages(id, b, bytes).subrange(k, crate::batch::batch_count(bytes.len(), b) as int),
        ) == (pending, seq![whole_packet(id, bytes)]),
    decreases crate::batch::batch_count(bytes.len(), b) - k,
{
    let n = bytes.len();
    let c = crate::batch::batch_count(n, b) as int;
    let msgs = crate::batch::http_batch_messages(id, b, bytes);
    let rest = msgs.subrange(k, c);
    let partial = MessageView { body: bytes.subrange(0, k * b), ..whole_packet(id, bytes) };
    let pend = pending.insert(id, partial);
    crate::batch::lemma_batch_bounds(n, b, k);
    assert(n > 0);
    assert(rest[0] == msgs[k]);
    let chunk = crate::batch::batch_of(bytes, b, k);
    assert(crate::batch::batches(bytes, b)[k] == chunk);
    assert(msgs[k].body == chunk);
    assert(announced_size(msgs[k]) == n);
    assert(tracing_key(msgs[k]) == id);
    assert((k + 1) * b == k * b + b) by (nonlinear_arith);
    let end = if (k + 1) * b < n { (k + 1) * b } else { n as int };
    assert(partial.body + chunk =~= bytes.subrange(0, end));
    let joined = MessageView { body: partial.body + chunk, ..partial };
    assert(http_step(pend, rest[0]) == (if end == n {
        (pend.remove(id), Some(joined))
    } else {
        (pend.insert(id, joined), None::<MessageView>)
    }));
    assert(rest.drop_first() =~= msgs.subrange(k + 1, c));
    if k + 1 < c {
        assert(end == (k + 1) * b);
        assert(pend.insert(id, joined) =~= pending.insert(
            id,
            MessageView { body: bytes.subrange(0, (k + 1) * b), ..whole_packet(id, bytes) },
        ));
        lemma_feed_rest(pending, id, b, bytes, k + 1);
    } else {
        assert(end == n);
        assert(joined == whole_packet(id, bytes)) by {
            assert(bytes.subrange(0, n as int) =~= bytes);
        }
        assert(pend.remove(id) =~= pending);
        assert(rest.drop_first().len() == 0);
        assert(feed(pend.remove(id), rest.drop_first()) == (pending, Seq::<MessageView>::empty()));
        assert(seq![joined] + Seq::<MessageView>::empty() =~= seq![whole_packet(id, bytes)]);
    }
}

/// A packet that is sent in batches (by `split_http_by_batch`) comes out of
/// the reassembly whole, exactly once, when its last batch arrives; the
/// reassembly is then left as it was found.
pub proof fn lemma_http_batches_reassemble(
    pending: Map<u32, MessageView>,
    id: u32,
    b: nat,
    bytes: Seq<u8>,
)
    requires
        !pending.contains_key(id),
        b > 0,
        bytes.len() < 0x1_0000_0000,
    ensures
        feed(pending, crate::batch::http_batch_messages(id, b, bytes)) == (pending, seq![whole_packet(id, bytes)]),
{
    let n = bytes.len();
    let c = crate::batch::batch_count(n, b) as int;
    let msgs = crate::batch::http_batch_messages(id, b, bytes);
    if n > 0 {
        assert((n + b - 1) / b as int >= 1) by (nonlinear_arith) requires n > 0, b > 0;
    }
    assert(c >= 1);
    let chunk = crate::batch::batch_of(bytes, b, 0);
    assert(crate::batch::batches(bytes, b)[0] == chunk);
    assert(msgs[0].body == chunk);
    if c == 1 {
        if n > 0 {
            crate::batch::lemma_batch_bounds(n, b, 0);
        }
        assert(chunk =~= bytes);
        assert(msgs[0] == whole_packet(id, bytes));
        assert(http_step(pending, msgs[0]) == (pending, Some(msgs[0])));
        assert(msgs.drop_first().len() == 0);
        assert(feed(pending, msgs.drop_first()) == (pending, Seq::<MessageView>::empty()));
        assert(seq![msgs[0]] + Seq::<MessageView>::empty() =~= seq![whole_packet(id, bytes)]);
    } else {
        crate::batch::lemma_batch_bounds(n, b, 0);
        assert(b < n);
        assert(chunk =~= bytes.subrange(0, b as int));
        let partial = MessageView { body: bytes.subrange(0, 1 * b as int), ..whole_packet(id, bytes) };
        assert(http_step(pending, msgs[0]) == (pending.insert(id, partial), None::<MessageView>)) by {
            assert(Seq::<u8>::empty() + chunk =~= bytes.subrange(0, 1 * b as int));
        }
        assert(msgs.drop_first() =~= msgs.subrange(1, c));
        lemma_feed_rest(pending, id, b, bytes, 1);
    }
}


/// The HTTP messages that carry the fragments `parts` of one packet of
/// `size` bytes under `id`, in order.
pub open spec fn packet_parts(id: u32, size: u32, parts: Seq<Seq<u8>>) -> Seq<MessageView> {
    parts.map_values(|p: Seq<u8>| MessageView {
        protocol: ProtocolType::HTTP,
        body: p,
        tracing_id: Some(id),
        ssh_status: None,
        packet_size: Some(size),
    })
}

/// Whether `parts` are the fragments of one packet: at least one, the
/// whole no longer than a `u32` can count, and every fragment but the last
/// leaving the packet incomplete.
pub open spec fn fragments_of_packet(parts: Seq<Seq<u8>>) -> bool {
    &&& parts.len() >= 1
    &&& parts.flatten_alt().len() < 0x1_0000_0000
    &&& forall|i: int| 0 <= i < parts.len() - 1
        ==> (#[trigger] parts.take(i + 1)).flatten_alt().len() < parts.flatten_alt().len()
}

proof fn lemma_parts_rest(pending: Map<u32, MessageView>, id: u32, parts: Seq<Seq<u8>>, k: int)
    requires
        !pending.contains_key(id),
        fragments_of_packet(parts),
        1 <= k < parts.len(),
    ensures
        ({
            let bytes = parts.flatten_alt();
            feed(
                pending.insert(id, MessageView { body: parts.take(k).flatten_alt(), ..whole_packet(id, bytes) }),
                packet_parts(id, bytes.len() as u32, parts).subrange(k, parts.len() as int),
            ) == (pending, seq![whole_packet(id, bytes)])
        }),
    decreases parts.len() - k,
{
    let bytes = parts.flatten_alt();
    let n = parts.len() as int;
    let total = bytes.len();
    let msgs = packet_parts(id, total as u32, parts);
    let rest = msgs.subrange(k, n);
    let partial = MessageView { body: parts.take(k).flatten_alt(), ..whole_packet(id, bytes) };
    let pend = pending.insert(id, partial);
    assert(rest[0] == msgs[k]);
    assert(msgs[k].body == parts[k]);
    assert(parts.take(k + 1).drop_last() =~= parts.take(k));
    assert(parts.take(k + 1).last() == parts[k]);
    let next = parts.take(k + 1).flatten_alt();
    assert(next == partial.body + parts[k]);
    if k + 1 < n {
        assert(next.len() < total);
    } else {
        assert(parts.take(k + 1) =~= parts);
    }
    assert(parts[k].len() <= next.len());
    assert(len_u32(msgs[k].body) == parts[k].len());
    assert(len_u32(next) == next.len());
    assert(announced_size(msgs[k]) == total);
    assert(tracing_key(msgs[k]) == id);
    let joined = MessageView { body: next, ..partial };
    assert(rest.drop_first() =~= msgs.subrange(k + 1, n));
    if k + 1 < n {
        assert(http_step(pend, rest[0]) == (pend.insert(id, joined), None::<MessageView>));
        assert(pend.insert(id, joined) =~= pending.insert(
            id,
            MessageView { body: parts.take(k + 1).flatten_alt(), ..whole_packet(id, bytes) },
        ));
        lemma_parts_rest(pending, id, parts, k + 1);
    } else {
        assert(joined == whole_packet(id, bytes));
        assert(http_step(pend, rest[0]) == (pend.remove(id), Some(joined)));
        assert(pend.remove(id) =~= pending);
        assert(rest.drop_first().len() == 0);
        assert(feed(pend.remove(id), rest.drop_first()) == (pending, Seq::<MessageView>::empty()));
        assert(seq![joined] + Seq::<MessageView>::empty() =~= seq![whole_packet(id, bytes)]);
    }
}

/// A packet that arrives in fragments of any sizes, each naming the size of
/// the whole packet, comes out of the reassembly whole, exactly once, when
/// its last fragment arrives; the reassembly is then left as it was found.
pub proof fn lemma_http_fragments_reassemble(pending: Map<u32, MessageView>, id: u32, parts: Seq<Seq<u8>>)
    requires
        !pending.contains_key(id),
        fragments_of_packet(parts),
    ensures
        feed(pending, packet_parts(id, parts.flatten_alt().len() as u32, parts))
            == (pending, seq![whole_packet(id, parts.flatten_alt())]),
{
    let bytes = parts.flatten_alt();
    let n = parts.len() as int;
    let total = bytes.len();
    let msgs = packet_parts(id, total as u32, parts);
    assert(parts.take(1).drop_last() =~= Seq::<Seq<u8>>::empty());
    assert(parts.take(1).drop_last().flatten_alt() == Seq::<u8>::empty());
    assert(parts.take(1).last() == parts[0]);
    assert(parts.take(1).flatten_alt() =~= parts[0]);
    assert(msgs[0].body == parts[0]);
    if n == 1 {
        assert(parts.take(1) =~= parts);
        assert(len_u32(parts[0]) == total);
        assert(msgs[0] == whole_packet(id, bytes));
        assert(http_step(pending, msgs[0]) == (pending, Some(msgs[0])));
        assert(msgs.drop_first().len() == 0);
        assert(feed(pending, msgs.drop_first()) == (pending, Seq::<MessageView>::empty()));
        assert(seq![msgs[0]] + Seq::<MessageView>::empty() =~= seq![whole_packet(id, bytes)]);
    } else {
        assert(parts.take(0int + 1).flatten_alt().len() < total);
        assert(len_u32(parts[0]) == parts[0].len());
        let partial = MessageView { body: parts.take(1).flatten_alt(), ..whole_packet(id, bytes) };
        assert(http_step(pending, msgs[0]) == (pending.insert(id, partial), None::<MessageView>)) by {
            assert(Seq::<u8>::empty() + parts[0] =~= parts.take(1).flatten_alt());
        }
        assert(msgs.drop_first() =~= msgs.subrange(1, n));
        lemma_parts_rest(pending, id, parts, 1);
    }
}


/// One reassembly step, in terms of what has arrived. Let `size` be the
/// size the message announces (its own length when it announces none) and
/// `had` the bytes already held for its tracing ID. A message that nothing
/// is held for and that announces no more bytes than it carries is handed
/// on unchanged. Otherwise its bytes are appended to what is held, and the
/// packet is released, and forgotten, exactly when at least `size` bytes
/// have arrived; until then it is kept, with every byte that arrived.
pub proof fn lemma_reassembly_step(pending: Map<u32, MessageView>, m: MessageView)
    requires
        m.body.len() < 0x1_0000_0000,
        pending.contains_key(m.tracing_id.unwrap_or(0))
            ==> pending[m.tracing_id.unwrap_or(0)].body.len() + m.body.len() < 0x1_0000_0000,
    ensures
        ({
            let id = m.tracing_id.unwrap_or(0);
            let size = match m.packet_size {
                Some(p) => p as int,
                None => m.body.len() as int,
            };
            let had = if pending.contains_key(id) { pending[id].body } else { Seq::<u8>::empty() };
            let (after, out) = http_step(pending, m);
            &&& !pending.contains_key(id) && size <= m.body.len() ==> after == pending && out == Some(m)
            &&& pending.contains_key(id) || size > m.body.len() ==> {
                &&& out is Some <==> size <= (had + m.body).len()
                &&& out matches Some(r) ==> r.body == had + m.body
                    && r.tracing_id == (if pending.contains_key(id) { pending[id].tracing_id } else { Some(id) })
                    && after == pending.remove(id)
                &&& out is None ==> after.contains_key(id) && after[id].body == had + m.body
                    && after.remove(id) == pending.remove(id)
            }
        }),
{
    let id = m.tracing_id.unwrap_or(0);
    let had = if pending.contains_key(id) { pending[id].body } else { Seq::<u8>::empty() };
    assert(len_u32(m.body) == m.body.len());
    assert(len_u32(had + m.body) == (had + m.body).len());
    let (after, out) = http_step(pending, m);
    if out is None && (pending.contains_key(id) || announced_size(m) > len_u32(m.body)) {
        assert(after.remove(id) =~= pending.remove(id));
    }
}

} // verus!
