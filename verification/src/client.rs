//! The tunnel client's decisions on what the server sends it, and on what
//! its local SSH connection sends back. Its event loop does the I/O.

use vstd::prelude::*;
use vstd::string::StringSliceAdditionalSpecFns;
use vstd::utf8::{decode_utf8, valid_utf8};
use crate::message::{Message, MessageView, SSHStatus, is_nat_cmd_spec, NAT_REJECT, PONG_BYTES};
use crate::protocols::ProtocolType;
use crate::text::{occurs_in, str_contains, str_eq, utf8_str, lemma_utf8_str_view};

verus! {

/// What the client does about a message from the server.
pub enum ServerAction {
    /// The server rejected the client: stop.
    Stop,
    /// Nothing to do (a PONG, or a message the client does not handle).
    Ignore,
    /// A relayed HTTP request: forward it and send back the response.
    HandleHttp(Message),
    /// The start of a relayed SSH session: connect to the local SSH server
    /// and write this message's body to it.
    OpenSsh(Message),
    /// An SSH message that does not open a session: warn and drop it.
    DirtySsh,
    /// More of the relayed SSH session: hand it to the local connection.
    ForwardSsh(Message),
}

/// Whether the body of an SSH message opens a session: it is text that
/// holds the keyword SSH, as the banner of an SSH client does.
pub open spec fn opens_ssh(body: Seq<u8>) -> bool {
    valid_utf8(body) && occurs_in(decode_utf8(body), "SSH"@)
}

/// The client's state: whether a relayed SSH session is open.
pub struct ClientSession {
    ssh_existed: bool,
}

impl ClientSession {
    /// Whether a relayed SSH session is open.
    pub closed spec fn ssh_open(&self) -> bool {
        self.ssh_existed
    }

    /// A client with no SSH session.
    pub fn new() -> (r: Self)
        ensures
            !r.ssh_open(),
    {
        ClientSession { ssh_existed: false }
    }

    /// Whether a relayed SSH session is open.
    pub fn has_ssh(&self) -> (r: bool)
        ensures
            r == self.ssh_open(),
    {
        self.ssh_existed
    }

    /// Decides what to do about a message from the server.
    pub fn on_server_message(&mut self, msg: Message) -> (r: ServerAction)
        ensures
            is_nat_cmd_spec(msg@, NAT_REJECT) ==> r is Stop && final(self).ssh_open() == old(self).ssh_open(),
            is_nat_cmd_spec(msg@, PONG_BYTES) ==> r is Ignore && final(self).ssh_open() == old(self).ssh_open(),
            msg@.protocol == ProtocolType::NAT && !is_nat_cmd_spec(msg@, NAT_REJECT) ==> r is Ignore
                && final(self).ssh_open() == old(self).ssh_open(),
            msg@.protocol == ProtocolType::HTTP ==> (r matches ServerAction::HandleHttp(m) && m@ == msg@)
                && final(self).ssh_open() == old(self).ssh_open(),
            msg@.protocol == ProtocolType::SSH && !old(self).ssh_open() ==> if opens_ssh(msg@.body) {
                (r matches ServerAction::OpenSsh(m) && m@ == msg@) && final(self).ssh_open()
            } else {
                r is DirtySsh && !final(self).ssh_open()
            },
            msg@.protocol == ProtocolType::SSH && old(self).ssh_open() ==> (r matches ServerAction::ForwardSsh(m)
                && m@ == msg@) && final(self).ssh_open() == (msg@.ssh_status == Some(SSHStatus::Normal)),
    {
        if msg.is_rejected() {
            ServerAction::Stop
        } else if msg.is_pong() {
            ServerAction::Ignore
        } else if msg.is_http() {
            ServerAction::HandleHttp(msg)
        } else if msg.is_ssh() && !self.ssh_existed {
            match utf8_str(msg.body.as_slice()) {
                Some(text) => {
                    proof {
                        lemma_utf8_str_view(text, msg.body@);
                    }
                    if !str_contains(text, "SSH") {
                        ServerAction::DirtySsh
                    } else {
                        self.ssh_existed = true;
                        ServerAction::OpenSsh(msg)
                    }
                },
                None => ServerAction::DirtySsh,
            }
        } else if msg.is_ssh() && self.ssh_existed {
            if msg.ssh_status != Some(SSHStatus::Normal) {
                self.ssh_existed = false;
            }
            ServerAction::ForwardSsh(msg)
        } else {
            ServerAction::Ignore
        }
    }

    /// Notes a message from the local SSH connection before it goes to the
    /// server: one that reports the connection broken ends the session.
    pub fn on_local_ssh_message(&mut self, msg: &Message)
        ensures
            final(self).ssh_open() == (old(self).ssh_open() && !(msg@.protocol == ProtocolType::SSH
                && msg@.ssh_status != Some(SSHStatus::Normal))),
    {
        if msg.is_ssh() && msg.ssh_status != Some(SSHStatus::Normal) {
            self.ssh_existed = false;
        }
    }
}

/// The reply for a relayed HTTP request that could not be forwarded: a
/// Gateway Timeout when the underlying cause reads "operation timed out",
/// a Bad Gateway otherwise.
pub fn http_failure_reply(tracing_id: Option<u32>, cause: Option<&str>) -> (r: Message)
    ensures
        (match cause {
            Some(c) => c@ == "operation timed out"@,
            None => false,
        }) ==> r@ == Message::http_504_view(tracing_id),
        !(match cause {
            Some(c) => c@ == "operation timed out"@,
            None => false,
        }) ==> r@ == Message::http_502_view(tracing_id),
{
    match cause {
        Some(c) => {
            if str_eq(c, "operation timed out") {
                Message::http_504(tracing_id)
            } else {
                Message::http_502(tracing_id)
            }
        },
        None => Message::http_502(tracing_id),
    }
}

} // verus!
