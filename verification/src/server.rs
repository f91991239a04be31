//! The tunnel server's decisions on new connections and on the replies
//! that the tunnel client sends back. Its event loop does the I/O.

use vstd::prelude::*;
use vstd::string::StringSliceAdditionalSpecFns;
use vstd::utf8::{decode_utf8, valid_utf8};
use crate::error::NatError;
use crate::forward::{trim_nul, trim_nul_chars};
use crate::message::Message;
use crate::protocols::{ProtocolType, detect_protocol, detected_protocol};
use crate::text::{chars_of, string_from_chars, utf8_str, lemma_utf8_str_view};

verus! {

/// Whether the address `iface` lies in the network `subnet` (CIDR), as
/// `ip_in_subnet::iface_in_subnet` decides; `None` when `subnet` does not parse.
pub uninterp spec fn subnet_contains(iface: Seq<char>, subnet: Seq<char>) -> Option<bool>;

/// Trusted: wraps `ip_in_subnet::iface_in_subnet`, which parses the subnet
/// and the address and tells whether the one contains the other (an address
/// that does not parse is not contained); it fails only when the subnet does
/// not parse. Its result is a function of the two texts, named by `subnet_contains`.
#[verifier::external_body]
fn iface_in_subnet(iface: &str, subnet: &str) -> (r: Option<bool>)
    ensures
        r == subnet_contains(iface@, subnet@),
{
    ip_in_subnet::iface_in_subnet(iface, subnet).ok()
}

/// The first line of a new connection, read from the first bytes it sent:
/// the text without NUL padding, or "Error" when the bytes are not UTF-8.
pub open spec fn first_line_of(buffer: Seq<u8>) -> Seq<char> {
    if valid_utf8(buffer) {
        trim_nul(decode_utf8(buffer))
    } else {
        "Error"@
    }
}

/// Reads the first line of a new connection (see [`first_line_of`]).
pub fn first_line(buffer: &[u8]) -> (r: String)
    ensures
        r@ == first_line_of(buffer@),
{
    match utf8_str(buffer) {
        Some(text) => {
            proof {
                lemma_utf8_str_view(text, buffer@);
            }
            let cs = chars_of(text);
            let t = trim_nul_chars(cs.as_slice());
            string_from_chars(t.as_slice())
        },
        None => string_from_chars(chars_of("Error").as_slice()),
    }
}

/// Where a new connection goes: nowhere (its protocol is not supported), or
/// to the handler of its protocol; visitors (HTTP and SSH) only when they
/// come from the allowed subnet.
pub open spec fn connection_route(buffer: Seq<u8>, peer: Seq<char>, subnet: Seq<char>)
    -> Result<Option<ProtocolType>, NatError>
{
    match detected_protocol(first_line_of(buffer)) {
        None => Ok(None),
        Some(p) => if p != ProtocolType::NAT && subnet_contains(peer, subnet) != Some(true) {
            Err(NatError::AddressNotAllowed)
        } else {
            Ok(Some(p))
        },
    }
}

/// Decides where a new connection goes, from the first bytes it sent, the
/// peer's address and the subnet that visitors must come from.
pub fn route_connection(buffer: &[u8], peer: &str, subnet: &str) -> (r: Result<Option<ProtocolType>, NatError>)
    ensures
        r == connection_route(buffer@, peer@, subnet@),
{
    let line = first_line(buffer);
    match detect_protocol(line.as_str()) {
        None => Ok(None),
        Some(p) => {
            if p != ProtocolType::NAT {
                match iface_in_subnet(peer, subnet) {
                    Some(true) => {},
                    _ => {
                        return Err(NatError::AddressNotAllowed);
                    },
                }
            }
            Ok(Some(p))
        },
    }
}

/// Where a reply from the tunnel client goes.
#[derive(Debug, Clone, Copy, PartialEq, Eq, Structural)]
pub enum ReplyRoute {
    /// To the SSH session it names.
    Ssh,
    /// To the HTTP visitor with this tracing ID.
    Http(u32),
    /// Nowhere: it names no tracing ID.
    Untraced,
}

/// Decides where a reply from the tunnel client goes.
pub fn route_reply(msg: &Message) -> (r: ReplyRoute)
    ensures
        r == (match msg.tracing_id {
            Some(id) => if msg.protocol == ProtocolType::SSH {
                ReplyRoute::Ssh
            } else {
                ReplyRoute::Http(id)
            },
            None => ReplyRoute::Untraced,
        }),
{
    match msg.tracing_id {
        Some(id) => {
            if msg.is_ssh() {
                ReplyRoute::Ssh
            } else {
                ReplyRoute::Http(id)
            }
        },
        None => ReplyRoute::Untraced,
    }
}

/// The tracing IDs that the server hands to new visitors: 1, 2, 3, ...
pub struct TracingSeq {
    last: u32,
}

impl TracingSeq {
    /// The last ID handed out; 0 before the first.
    pub closed spec fn last(&self) -> u32 {
        self.last
    }

    /// No ID handed out yet.
    pub fn new() -> (r: Self)
        ensures
            r.last() == 0,
    {
        TracingSeq { last: 0 }
    }

    /// The last ID handed out; 0 before the first.
    pub fn last_id(&self) -> (r: u32)
        ensures
            r == self.last(),
    {
        self.last
    }

    /// Hands out the next ID.
    pub fn next_id(&mut self) -> (r: u32)
        requires
            old(self).last() < u32::MAX,
        ensures
            r == old(self).last() + 1,
            final(self).last() == r,
    {
        self.last = self.last + 1;
        self.last
    }
}


/// What the server does with a visitor's connection (HTTP or SSH).
#[derive(Debug, Clone, Copy, PartialEq, Eq, Structural)]
pub enum VisitorDecision {
    /// Hand it to the handler of its protocol under this tracing ID.
    Forward(u32),
    /// No tunnel client is connected: answer Bad Gateway and close it.
    Reply502,
    /// No tunnel client is connected: close it.
    Close,
}

/// Decides about a visitor's connection: with a tunnel client connected it
/// is forwarded under the next tracing ID; without one it draws no ID, and
/// an HTTP visitor is answered Bad Gateway before its connection is closed.
pub fn admit_visitor(seq: &mut TracingSeq, protocol: ProtocolType, client_connected: bool) -> (r: VisitorDecision)
    requires
        client_connected ==> old(seq).last() < u32::MAX,
    ensures
        client_connected ==> r == VisitorDecision::Forward((old(seq).last() + 1) as u32)
            && final(seq).last() == old(seq).last() + 1,
        !client_connected ==> final(seq).last() == old(seq).last() && r == (if protocol == ProtocolType::HTTP {
            VisitorDecision::Reply502
        } else {
            VisitorDecision::Close
        }),
{
    if client_connected {
        VisitorDecision::Forward(seq.next_id())
    } else if protocol == ProtocolType::HTTP {
        VisitorDecision::Reply502
    } else {
        VisitorDecision::Close
    }
}

/// How many of `connected` are true: how many of a run of visitors found a
/// tunnel client connected, and so drew a tracing ID.
pub open spec fn count_connected(connected: Seq<bool>) -> nat
    decreases connected.len(),
{
    if connected.len() == 0 {
        0
    } else {
        count_connected(connected.drop_last()) + if connected.last() { 1nat } else { 0nat }
    }
}

/// The last tracing ID handed out after a run of visitors, starting from
/// `start`: one more for each visitor that found a tunnel client connected.
pub open spec fn last_after_run(start: u32, connected: Seq<bool>) -> int {
    start + count_connected(connected)
}

proof fn lemma_count_connected_mono(connected: Seq<bool>, a: int, b: int)
    requires
        0 <= a <= b <= connected.len(),
    ensures
        count_connected(connected.take(a)) <= count_connected(connected.take(b)),
    decreases b - a,
{
    if a < b {
        lemma_count_connected_mono(connected, a, b - 1);
        assert(connected.take(b).drop_last() =~= connected.take(b - 1));
    }
}

/// Tracing IDs over a run of visitors: the `i`-th visitor, when a tunnel
/// client is connected, is forwarded under the ID one past the last one
/// handed out before it; each such visitor moves the sequence on by one and
/// the others leave it as it was; so the IDs of two forwarded visitors
/// differ, the later one being larger.
pub proof fn lemma_tracing_ids_rise(start: u32, connected: Seq<bool>, i: int, j: int)
    requires
        0 <= i < j < connected.len(),
        connected[i],
        connected[j],
    ensures
        last_after_run(start, connected.take(i + 1)) == last_after_run(start, connected.take(i)) + 1,
        last_after_run(start, connected.take(j + 1)) == last_after_run(start, connected.take(j)) + 1,
        last_after_run(start, connected.take(i)) + 1 < last_after_run(start, connected.take(j)) + 1,
{
    assert(connected.take(i + 1).drop_last() =~= connected.take(i));
    assert(connected.take(j + 1).drop_last() =~= connected.take(j));
    lemma_count_connected_mono(connected, i + 1, j);
}

/// The count of the tunnel clients being served, of which the server serves
/// one at a time.
pub struct NatClientSlot {
    clients: usize,
}

impl NatClientSlot {
    #[verifier::type_invariant]
    spec fn at_most_one(&self) -> bool {
        self.clients <= 1
    }

    /// How many tunnel clients are being served.
    pub closed spec fn clients(&self) -> nat {
        self.clients as nat
    }

    /// No client is being served.
    pub fn new() -> (r: Self)
        ensures
            r.clients() == 0,
    {
        NatClientSlot { clients: 0 }
    }

    /// Whether a tunnel client is being served; never more than one is.
    pub fn client_existed(&self) -> (r: bool)
        ensures
            r == (self.clients() > 0),
            self.clients() <= 1,
    {
        proof {
            use_type_invariant(self);
        }
        self.clients > 0
    }

    /// Takes a new tunnel client in when none is being served; otherwise the
    /// client is to be rejected, and nothing changes.
    pub fn accept_client(&mut self) -> (r: bool)
        ensures
            r == (old(self).clients() == 0),
            r ==> final(self).clients() == 1,
            !r ==> final(self).clients() == old(self).clients(),
            final(self).clients() <= 1,
    {
        proof {
            use_type_invariant(&*self);
        }
        if self.clients > 0 {
            false
        } else {
            self.clients = 1;
            true
        }
    }

    /// The client being served has gone.
    pub fn leave(&mut self)
        ensures
            final(self).clients() == (if old(self).clients() > 0 { old(self).clients() - 1 } else { 0 }),
            final(self).clients() == 0,
    {
        proof {
            use_type_invariant(&*self);
        }
        if self.clients > 0 {
            self.clients = self.clients - 1;
        }
    }
}

} // verus!
