//! The protocols that the tunnel carries, and how a new connection is told
//! apart by the keyword in its first line.

use vstd::prelude::*;
use vstd::string::StringExecFns;
use crate::text::{occurs_in, str_contains};

verus! {

/// A protocol that a new connection may speak, recognised by a keyword in its first line.
pub trait Protocol {
    /// The keyword that announces this protocol.
    spec fn keyword(&self) -> Seq<char>;

    /// Whether `line` announces this protocol, that is, holds its keyword.
    fn validate(&self, line: String) -> (r: bool)
        ensures
            r == occurs_in(line@, self.keyword());

    /// The name of the protocol, which is its keyword.
    fn name(&self) -> (r: &str)
        ensures
            r@ == self.keyword();
}

struct SshProtocol {}

struct HttpProtocol {}

struct NatProtocol {}

impl SshProtocol {
    fn new() -> Box<dyn Protocol> {
        Box::new(SshProtocol {})
    }
}

impl HttpProtocol {
    fn new() -> Box<dyn Protocol> {
        Box::new(HttpProtocol {})
    }
}

impl NatProtocol {
    fn new() -> Box<dyn Protocol> {
        Box::new(NatProtocol {})
    }
}

impl Protocol for SshProtocol {
    open spec fn keyword(&self) -> Seq<char> {
        "SSH"@
    }

    fn validate(&self, line: String) -> (r: bool) {
        // e.g. "SSH-2.0-OpenSSH_8.6"
        str_contains(line.as_str(), "SSH")
    }

    fn name(&self) -> (r: &str) {
        "SSH"
    }
}

impl Protocol for HttpProtocol {
    open spec fn keyword(&self) -> Seq<char> {
        "HTTP"@
    }

    fn validate(&self, line: String) -> (r: bool) {
        str_contains(line.as_str(), "HTTP")
    }

    fn name(&self) -> (r: &str) {
        "HTTP"
    }
}

impl Protocol for NatProtocol {
    open spec fn keyword(&self) -> Seq<char> {
        "NAT"@
    }

    fn validate(&self, line: String) -> (r: bool) {
        str_contains(line.as_str(), "NAT")
    }

    fn name(&self) -> (r: &str) {
        "NAT"
    }
}

/// The kinds of traffic in a frame: control messages between the tunnel
/// server and client (NAT), relayed SSH sessions and relayed HTTP requests.
#[derive(Debug, Clone, Copy, PartialEq, Eq, Structural, PartialOrd, Ord)]
pub enum ProtocolType {
    NAT,
    SSH,
    HTTP,
}

/// The keyword, and display name, of each protocol.
pub open spec fn protocol_keyword(p: ProtocolType) -> Seq<char> {
    match p {
        ProtocolType::NAT => "NAT"@,
        ProtocolType::SSH => "SSH"@,
        ProtocolType::HTTP => "HTTP"@,
    }
}

/// The byte that names each protocol on the wire.
pub open spec fn protocol_byte(p: ProtocolType) -> u8 {
    match p {
        ProtocolType::NAT => 0x0,
        ProtocolType::HTTP => 0x1,
        ProtocolType::SSH => 0x2,
    }
}

/// The protocol that a wire byte names, if any.
pub open spec fn protocol_of_byte(b: u8) -> Option<ProtocolType> {
    if b == 0x0 {
        Some(ProtocolType::NAT)
    } else if b == 0x1 {
        Some(ProtocolType::HTTP)
    } else if b == 0x2 {
        Some(ProtocolType::SSH)
    } else {
        None
    }
}

/// The protocol that a first line announces: SSH, HTTP and NAT are tried in
/// that order, and the first whose keyword occurs in the line wins.
pub open spec fn detected_protocol(line: Seq<char>) -> Option<ProtocolType> {
    if occurs_in(line, "SSH"@) {
        Some(ProtocolType::SSH)
    } else if occurs_in(line, "HTTP"@) {
        Some(ProtocolType::HTTP)
    } else if occurs_in(line, "NAT"@) {
        Some(ProtocolType::NAT)
    } else {
        None
    }
}

impl ProtocolType {
    /// The recogniser of this protocol (see [`recogniser`]).
    pub fn protocol(&self) -> Box<dyn Protocol> {
        match recogniser(*self) {
            Ok(b) => b,
            Err(_) => vstd::pervasive::unreached(),
        }
    }

    /// The one-byte wire encoding of the protocol.
    pub fn bytes(&self) -> (r: [u8; 1])
        ensures
            r@ == seq![protocol_byte(*self)],
    {
        match *self {
            ProtocolType::NAT => [0x0],
            ProtocolType::HTTP => [0x1],
            ProtocolType::SSH => [0x2],
        }
    }

    /// Reads the one-byte wire encoding of a protocol.
    pub fn from_slice(bytes: &[u8]) -> (r: Option<ProtocolType>)
        ensures
            r == (if bytes@.len() == 1 { protocol_of_byte(bytes@[0]) } else { None }),
    {
        if bytes.len() != 1 {
            return None;
        }
        let b = bytes[0];
        if b == 0x0 {
            Some(ProtocolType::NAT)
        } else if b == 0x1 {
            Some(ProtocolType::HTTP)
        } else if b == 0x2 {
            Some(ProtocolType::SSH)
        } else {
            None
        }
    }

    /// The display name of the protocol.
    pub fn to_string(&self) -> (r: String)
        ensures
            r@ == protocol_keyword(*self),
    {
        match *self {
            ProtocolType::HTTP => String::from_str("HTTP"),
            ProtocolType::NAT => String::from_str("NAT"),
            ProtocolType::SSH => String::from_str("SSH"),
        }
    }
}

/// The recogniser of protocol `p`: its keyword, and so its name and what it
/// validates, is the keyword of `p`. It always succeeds; the `Result` only
/// carries the boxed recogniser, since a contract cannot speak of a bare
/// trait object returned by a function.
pub fn recogniser(p: ProtocolType) -> (r: Result<Box<dyn Protocol>, ()>)
    ensures
        r matches Ok(b) && b.keyword() == protocol_keyword(p),
{
    match p {
        ProtocolType::SSH => Ok(Box::new(SshProtocol {})),
        ProtocolType::HTTP => Ok(Box::new(HttpProtocol {})),
        ProtocolType::NAT => Ok(Box::new(NatProtocol {})),
    }
}

/// The protocol that a first line announces (see [`detected_protocol`]).
pub fn detect_protocol(line: &str) -> (r: Option<ProtocolType>)
    ensures
        r == detected_protocol(line@),
{
    if str_contains(line, "SSH") {
        Some(ProtocolType::SSH)
    } else if str_contains(line, "HTTP") {
        Some(ProtocolType::HTTP)
    } else if str_contains(line, "NAT") {
        Some(ProtocolType::NAT)
    } else {
        None
    }
}

/// Finds the protocol that the first line of a connection announces, trying
/// SSH, HTTP and NAT in turn; fails when the line holds none of their keywords.
pub fn parse_protocol(line: String) -> (r: Result<Box<dyn Protocol>, &'static str>)
    ensures
        r is Ok <==> detected_protocol(line@) is Some,
        r matches Ok(p) ==> p.keyword() == protocol_keyword(detected_protocol(line@)->Some_0),
        r matches Err(e) ==> e@ == "Don't support this tcp connect"@,
{
    match detect_protocol(line.as_str()) {
        Some(ProtocolType::SSH) => Ok(Box::new(SshProtocol {})),
        Some(ProtocolType::HTTP) => Ok(Box::new(HttpProtocol {})),
        Some(ProtocolType::NAT) => Ok(Box::new(NatProtocol {})),
        None => Err("Don't support this tcp connect"),
    }
}

} // verus!

verus! {

/// The wire byte of a protocol reads back as that protocol, and no other
/// byte names a protocol.
pub proof fn lemma_protocol_byte_roundtrip(p: ProtocolType, b: u8)
    ensures
        protocol_of_byte(protocol_byte(p)) == Some(p),
        protocol_of_byte(b) matches Some(q) ==> protocol_byte(q) == b,
{
}

} // verus!
