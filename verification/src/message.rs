//! Messages between the tunnel server and the tunnel client, and the binary
//! frame that carries them.
//!
//! A frame is laid out as follows (the body is encrypted by the caller for
//! every protocol but SSH, whose traffic is already encrypted; the header is
//! never encrypted):
//!
//! 1. bytes 1-2: the size of the body, a big-endian `u16`, so at most 64 KiB;
//! 2. bytes 3-4: the checksum of the whole frame;
//! 3. byte 5: the protocol, NAT (0x0), HTTP (0x1) or SSH (0x2);
//! 4. for every protocol but NAT, the next four bytes: the tracing ID;
//! 5. for SSH, the next byte: the status (0: fine, 1: unknown error);
//! 6. for HTTP, the next four bytes: the total size of the HTTP packet, so
//!    that a packet split over several messages can be put back together;
//! 7. the rest: the body.
//!
//! In a NAT message the first byte of the body is a command (PING, PONG, OK,
//! REJECT, AUTH, AUTH-TIMEOUT, AUTH-FAILED). OK carries four random bytes
//! after the command; AUTH carries their encryption by the client, sixteen
//! bytes, one AES block.

use vstd::prelude::*;
use vstd::string::StringSliceAdditionalSpecFns;
use vstd::utf8::{decode_utf8, encode_utf8, valid_utf8};
use crate::checksum::{checksum, spec_checksum, lemma_checksum_validates};
use crate::error::NatError;
use crate::protocols::{ProtocolType, protocol_byte, protocol_of_byte};
use crate::text::{utf8_str, lemma_utf8_str_view};
use crate::utils::{
    as_u32_be, u16_to_be, u32_to_be, be_bytes_u16, be_bytes_u32, be_u32_value,
    lemma_u32_be_roundtrip,
};

verus! {

/// The status that an SSH message reports about the relayed connection.
#[derive(Debug, Clone, Copy, PartialEq, Eq, Structural)]
pub enum SSHStatus {
    Normal,
    UnknownError,
}

/// The wire byte of a status.
pub open spec fn status_byte(s: SSHStatus) -> u8 {
    match s {
        SSHStatus::Normal => 0,
        SSHStatus::UnknownError => 1,
    }
}

/// The status that a wire byte stands for: 0 is fine, anything else an unknown error.
pub open spec fn status_of_byte(b: u8) -> SSHStatus {
    if b == 0 {
        SSHStatus::Normal
    } else {
        SSHStatus::UnknownError
    }
}

impl SSHStatus {
    fn from_u8(status: u8) -> (r: Self)
        ensures
            r == status_of_byte(status),
    {
        match status {
            0 => Self::Normal,
            _ => Self::UnknownError,
        }
    }

    fn to_u8(&self) -> (r: u8)
        ensures
            r == status_byte(*self),
    {
        match self {
            Self::Normal => 0,
            Self::UnknownError => 1,
        }
    }
}

/// PING command.
pub const PING_BYTES: u8 = 0x1;
/// PONG command.
pub const PONG_BYTES: u8 = 0x2;
/// OK command: the server accepts the client and sends it a challenge.
pub const NAT_OK: u8 = 0x3;
/// REJECT command: the server already serves a client.
pub const NAT_REJECT: u8 = 0x4;
/// AUTH command: the client answers the challenge.
pub const NAT_AUTH: u8 = 0x5;
/// AUTH-TIMEOUT command: the client did not answer the challenge in time.
pub const NAT_AUTH_TIMEOUT: u8 = 0x6;
/// AUTH-FAILED command: the client's answer was wrong.
pub const NAT_AUTH_FAILED: u8 = 0x7;

/// A message of the tunnel protocol.
#[derive(Debug, Clone)]
pub struct Message {
    pub protocol: ProtocolType,
    pub body: Vec<u8>,
    pub tracing_id: Option<u32>,
    pub ssh_status: Option<SSHStatus>,
    pub packet_size: Option<u32>,
}

/// A message, with its body as a sequence of bytes.
pub struct MessageView {
    pub protocol: ProtocolType,
    pub body: Seq<u8>,
    pub tracing_id: Option<u32>,
    pub ssh_status: Option<SSHStatus>,
    pub packet_size: Option<u32>,
}

impl View for Message {
    type V = MessageView;

    open spec fn view(&self) -> MessageView {
        MessageView {
            protocol: self.protocol,
            body: self.body@,
            tracing_id: self.tracing_id,
            ssh_status: self.ssh_status,
            packet_size: self.packet_size,
        }
    }
}

/// The text of the Bad Gateway reply.
pub open spec fn http_502_text() -> Seq<char> {
    "HTTP/1.1 502 Bad Gateway\r\n"@
}

/// The text of the Gateway Timeout reply.
pub open spec fn http_504_text() -> Seq<char> {
    "HTTP/1.1 504 Bad Timeout\r\n"@
}

/// Whether `m` is the NAT command `cmd`.
pub open spec fn is_nat_cmd_spec(m: MessageView, cmd: u8) -> bool {
    m.protocol == ProtocolType::NAT && m.body.len() > 0 && m.body[0] == cmd
}

/// The NAT message whose body is `body`.
pub open spec fn nat_message(body: Seq<u8>) -> MessageView {
    MessageView {
        protocol: ProtocolType::NAT,
        body: body,
        tracing_id: None,
        ssh_status: None,
        packet_size: None,
    }
}

/// The tracing-ID field of the frame of `m`.
pub open spec fn tracing_field(m: MessageView) -> Seq<u8> {
    match m.tracing_id {
        Some(id) => be_bytes_u32(id),
        None => seq![],
    }
}

/// The status field of the frame of `m`; an SSH message without a status is sent as fine.
pub open spec fn status_field(m: MessageView) -> Seq<u8> {
    match m.ssh_status {
        Some(s) => seq![status_byte(s)],
        None => if m.protocol == ProtocolType::SSH {
            seq![0u8]
        } else {
            seq![]
        },
    }
}

/// The packet-size field of the frame of `m`.
pub open spec fn packet_size_field(m: MessageView) -> Seq<u8> {
    match m.packet_size {
        Some(p) => be_bytes_u32(p),
        None => seq![],
    }
}

/// The body size that the frame of `m` records.
pub open spec fn body_size(m: MessageView) -> int {
    m.body.len() as int
}

/// Whether the body of `m` fits the two-byte size field: at most 65535
/// bytes, so that a frame body is never longer than 64 KiB.
pub open spec fn fits_frame(m: MessageView) -> bool {
    body_size(m) < 0x1_0000
}

/// The frame of `m` with its checksum field still zero.
pub open spec fn unsealed_frame(m: MessageView) -> Seq<u8> {
    be_bytes_u16(body_size(m) as u16) + seq![0u8, 0u8, protocol_byte(m.protocol)]
        + tracing_field(m) + status_field(m) + packet_size_field(m) + m.body
}

/// `f` with its checksum stored in bytes 3-4.
pub open spec fn sealed(f: Seq<u8>) -> Seq<u8> {
    f.update(2, be_bytes_u16(spec_checksum(f))[0]).update(3, be_bytes_u16(spec_checksum(f))[1])
}

/// The frame that carries `m`.
pub open spec fn frame_of(m: MessageView) -> Seq<u8> {
    sealed(unsealed_frame(m))
}

/// The length of the header of a frame of protocol `p`.
pub open spec fn header_len(p: ProtocolType) -> int {
    match p {
        ProtocolType::NAT => 5,
        ProtocolType::SSH => 10,
        ProtocolType::HTTP => 13,
    }
}

/// The length of the header of a frame of protocol `protocol`: the size,
/// checksum and protocol fields, then the tracing ID, status and packet size
/// that the protocol carries.
pub fn frame_header_len(protocol: ProtocolType) -> (r: usize)
    ensures
        r == header_len(protocol),
{
    match protocol {
        ProtocolType::NAT => 5,
        ProtocolType::SSH => 10,
        ProtocolType::HTTP => 13,
    }
}

/// The message that frame `b` carries, or why it carries none.
pub open spec fn decoded_frame(b: Seq<u8>) -> Result<MessageView, NatError> {
    if b.len() < 5 {
        Err(NatError::FrameTooShort)
    } else {
        match protocol_of_byte(b[4]) {
            None => Err(NatError::UnknownProtocol(b[4])),
            Some(p) => if b.len() < header_len(p) {
                Err(NatError::FrameTooShort)
            } else if spec_checksum(b) != 0 {
                Err(NatError::ChecksumMismatch)
            } else {
                Ok(
                    MessageView {
                        protocol: p,
                        body: b.subrange(header_len(p), b.len() as int),
                        tracing_id: if p != ProtocolType::NAT {
                            Some(be_u32_value(b.subrange(5, 9)) as u32)
                        } else {
                            None
                        },
                        ssh_status: if p == ProtocolType::SSH {
                            Some(status_of_byte(b[9]))
                        } else {
                            None
                        },
                        packet_size: if p == ProtocolType::HTTP {
                            Some(be_u32_value(b.subrange(9, 13)) as u32)
                        } else {
                            None
                        },
                    },
                )
            },
        }
    }
}

/// Whether `m` can travel in a frame and come back unchanged: its body fits
/// the size field, and it carries exactly the header fields of its protocol
/// (a tracing ID unless it is NAT, a status only if it is SSH, a packet size
/// exactly if it is HTTP).
pub open spec fn wire_consistent(m: MessageView) -> bool {
    &&& m.body.len() < 0x1_0000
    &&& (m.tracing_id is Some <==> m.protocol != ProtocolType::NAT)
    &&& (m.ssh_status is Some ==> m.protocol == ProtocolType::SSH)
    &&& (m.packet_size is Some <==> m.protocol == ProtocolType::HTTP)
}

/// `m` as the receiver sees it: an SSH message without a status arrives as fine.
pub open spec fn as_received(m: MessageView) -> MessageView {
    MessageView {
        ssh_status: if m.protocol == ProtocolType::SSH {
            Some(m.ssh_status.unwrap_or(SSHStatus::Normal))
        } else {
            None
        },
        ..m
    }
}

fn append_bytes(r: &mut Vec<u8>, s: &[u8])
    ensures
        final(r)@ == old(r)@ + s@,
{
    let mut i: usize = 0;
    while i < s.len()
        invariant
            i <= s@.len(),
            r@ == old(r)@ + s@.subrange(0, i as int),
        decreases s@.len() - i,
    {
        r.push(s[i]);
        i = i + 1;
        assert(r@ =~= old(r)@ + s@.subrange(0, i as int));
    }
    assert(s@.subrange(0, s@.len() as int) =~= s@);
}

impl Message {
    /// The Bad Gateway reply under `tracing_id`.
    pub open spec fn http_502_view(tracing_id: Option<u32>) -> MessageView {
        MessageView {
            protocol: ProtocolType::HTTP,
            body: encode_utf8(http_502_text()),
            tracing_id: tracing_id,
            ssh_status: None,
            packet_size: Some(0),
        }
    }

    /// The Gateway Timeout reply under `tracing_id`.
    pub open spec fn http_504_view(tracing_id: Option<u32>) -> MessageView {
        MessageView {
            protocol: ProtocolType::HTTP,
            body: encode_utf8(http_504_text()),
            tracing_id: tracing_id,
            ssh_status: None,
            packet_size: Some(0),
        }
    }

    /// An HTTP message of a request or reply whose whole packet is `packet_size` bytes.
    pub fn new_http(tracing_id: Option<u32>, body: Vec<u8>, packet_size: u32) -> (r: Self)
        ensures
            r@ == (MessageView {
                protocol: ProtocolType::HTTP,
                body: body@,
                tracing_id: tracing_id,
                ssh_status: None,
                packet_size: Some(packet_size),
            }),
    {
        Self {
            protocol: ProtocolType::HTTP,
            body,
            tracing_id: tracing_id,
            ssh_status: None,
            packet_size: Some(packet_size),
        }
    }

    /// An SSH message that relays `body` on a healthy connection.
    pub fn new_ssh(tracing_id: Option<u32>, body: Vec<u8>) -> (r: Self)
        ensures
            r@ == (MessageView {
                protocol: ProtocolType::SSH,
                body: body@,
                tracing_id: tracing_id,
                ssh_status: Some(SSHStatus::Normal),
                packet_size: None,
            }),
    {
        Self {
            protocol: ProtocolType::SSH,
            body,
            tracing_id: tracing_id,
            ssh_status: Some(SSHStatus::Normal),
            packet_size: None,
        }
    }

    /// An SSH message that reports the relayed connection as broken.
    pub fn new_ssh_error(tracing_id: Option<u32>) -> (r: Self)
        ensures
            r@ == (MessageView {
                protocol: ProtocolType::SSH,
                body: Seq::<u8>::empty(),
                tracing_id: tracing_id,
                ssh_status: Some(SSHStatus::UnknownError),
                packet_size: None,
            }),
    {
        Self {
            protocol: ProtocolType::SSH,
            body: Vec::new(),
            tracing_id: tracing_id,
            ssh_status: Some(SSHStatus::UnknownError),
            packet_size: None,
        }
    }

    /// The HTTP reply sent when the target of a request could not be reached.
    pub fn http_502(tracing_id: Option<u32>) -> (r: Self)
        ensures
            r@ == (MessageView {
                protocol: ProtocolType::HTTP,
                body: encode_utf8(http_502_text()),
                tracing_id: tracing_id,
                ssh_status: None,
                packet_size: Some(0),
            }),
    {
        let text: &str = "HTTP/1.1 502 Bad Gateway\r\n";
        Self {
            protocol: ProtocolType::HTTP,
            body: vstd::slice::slice_to_vec(text.as_bytes()),
            tracing_id: tracing_id,
            ssh_status: None,
            packet_size: Some(0),
        }
    }
}

} // verus!

verus! {

impl Message {
    /// The HTTP reply sent when the target of a request timed out.
    pub fn http_504(tracing_id: Option<u32>) -> (r: Self)
        ensures
            r@ == (MessageView {
                protocol: ProtocolType::HTTP,
                body: encode_utf8(http_504_text()),
                tracing_id: tracing_id,
                ssh_status: None,
                packet_size: Some(0),
            }),
    {
        let text: &str = "HTTP/1.1 504 Bad Timeout\r\n";
        Self {
            protocol: ProtocolType::HTTP,
            body: vstd::slice::slice_to_vec(text.as_bytes()),
            tracing_id: tracing_id,
            ssh_status: None,
            packet_size: Some(0),
        }
    }

    /// Whether this is an HTTP message.
    pub fn is_http(&self) -> (r: bool)
        ensures
            r == (self.protocol == ProtocolType::HTTP),
    {
        self.protocol == ProtocolType::HTTP
    }

    /// Whether this is an SSH message.
    pub fn is_ssh(&self) -> (r: bool)
        ensures
            r == (self.protocol == ProtocolType::SSH),
    {
        self.protocol == ProtocolType::SSH
    }

    /// Whether this is the PING command.
    pub fn is_ping(&self) -> (r: bool)
        ensures
            r == is_nat_cmd_spec(self@, PING_BYTES),
    {
        self.is_nat_cmd(PING_BYTES)
    }

    /// Whether this is the AUTH-TIMEOUT command.
    pub fn is_auth_timeout(&self) -> (r: bool)
        ensures
            r == is_nat_cmd_spec(self@, NAT_AUTH_TIMEOUT),
    {
        self.is_nat_cmd(NAT_AUTH_TIMEOUT)
    }

    /// Whether this is the AUTH-FAILED command.
    pub fn is_auth_failed(&self) -> (r: bool)
        ensures
            r == is_nat_cmd_spec(self@, NAT_AUTH_FAILED),
    {
        self.is_nat_cmd(NAT_AUTH_FAILED)
    }

    /// Whether this is the PONG command.
    pub fn is_pong(&self) -> (r: bool)
        ensures
            r == is_nat_cmd_spec(self@, PONG_BYTES),
    {
        self.is_nat_cmd(PONG_BYTES)
    }

    /// Whether this is the REJECT command.
    pub fn is_rejected(&self) -> (r: bool)
        ensures
            r == is_nat_cmd_spec(self@, NAT_REJECT),
    {
        self.is_nat_cmd(NAT_REJECT)
    }

    /// Whether this is the OK command.
    pub fn is_ok(&self) -> (r: bool)
        ensures
            r == is_nat_cmd_spec(self@, NAT_OK),
    {
        self.is_nat_cmd(NAT_OK)
    }

    fn is_nat_cmd(&self, cmd: u8) -> (r: bool)
        ensures
            r == is_nat_cmd_spec(self@, cmd),
    {
        self.protocol == ProtocolType::NAT && self.body.len() > 0 && self.body[0] == cmd
    }

    /// Whether this is the AUTH command.
    pub fn is_auth(&self) -> (r: bool)
        ensures
            r == is_nat_cmd_spec(self@, NAT_AUTH),
    {
        self.is_nat_cmd(NAT_AUTH)
    }

    fn nat_cmd(cmd: u8) -> (r: Self)
        ensures
            r@ == nat_message(seq![cmd]),
    {
        let mut body: Vec<u8> = Vec::new();
        body.push(cmd);
        Self { protocol: ProtocolType::NAT, body, tracing_id: None, ssh_status: None, packet_size: None }
    }

    /// The PING command.
    pub fn ping() -> (r: Self)
        ensures
            r@ == nat_message(seq![PING_BYTES]),
    {
        Message::nat_cmd(PING_BYTES)
    }

    /// The PONG command.
    pub fn pong() -> (r: Self)
        ensures
            r@ == nat_message(seq![PONG_BYTES]),
    {
        Message::nat_cmd(PONG_BYTES)
    }

    /// The OK command, carrying the challenge `random` for the client.
    pub fn nat_ok(random: [u8; 4]) -> (r: Self)
        ensures
            r@ == nat_message(seq![NAT_OK] + random@),
    {
        let mut body: Vec<u8> = Vec::new();
        body.push(NAT_OK);
        append_bytes(&mut body, &random);
        Self { protocol: ProtocolType::NAT, body, tracing_id: None, ssh_status: None, packet_size: None }
    }

    /// The AUTH-TIMEOUT command.
    pub fn nat_auth_timeout() -> (r: Self)
        ensures
            r@ == nat_message(seq![NAT_AUTH_TIMEOUT]),
    {
        Message::nat_cmd(NAT_AUTH_TIMEOUT)
    }

    /// The AUTH-FAILED command.
    pub fn nat_auth_failed() -> (r: Self)
        ensures
            r@ == nat_message(seq![NAT_AUTH_FAILED]),
    {
        Message::nat_cmd(NAT_AUTH_FAILED)
    }

    fn get_4_bytes(&self, start: usize) -> (r: Result<[u8; 4], NatError>)
        requires
            start + 4 <= usize::MAX,
        ensures
            self.body@.len() < start + 4 ==> r == Err::<[u8; 4], NatError>(NatError::BodyTooShort),
            self.body@.len() >= start + 4 ==> r is Ok
                && r->Ok_0@ == self.body@.subrange(start as int, start + 4),
    {
        if self.body.len() < start + 4 {
            return Err(NatError::BodyTooShort);
        }
        let bytes: [u8; 4] = [
            self.body[start],
            self.body[start + 1],
            self.body[start + 2],
            self.body[start + 3],
        ];
        assert(bytes@ =~= self.body@.subrange(start as int, start + 4));
        Ok(bytes)
    }

    /// The challenge that the server's OK command carries: body bytes 2-5.
    pub fn get_random_bytes_from_server(&self) -> (r: Result<[u8; 4], NatError>)
        ensures
            !is_nat_cmd_spec(self@, NAT_OK) ==> r == Err::<[u8; 4], NatError>(NatError::NotOkMessage),
            is_nat_cmd_spec(self@, NAT_OK) && self.body@.len() < 5
                ==> r == Err::<[u8; 4], NatError>(NatError::BodyTooShort),
            is_nat_cmd_spec(self@, NAT_OK) && self.body@.len() >= 5
                ==> r is Ok && r->Ok_0@ == self.body@.subrange(1, 5),
    {
        if !self.is_ok() {
            return Err(NatError::NotOkMessage);
        }
        self.get_4_bytes(1)
    }

    /// The answer that the client's AUTH command carries: body bytes 2-17,
    /// the challenge encrypted into one AES block.
    pub fn get_encrypted_bytes_by_client(&self) -> (r: Result<Vec<u8>, NatError>)
        ensures
            !is_nat_cmd_spec(self@, NAT_AUTH) ==> r == Err::<Vec<u8>, NatError>(NatError::NotAuthMessage),
            is_nat_cmd_spec(self@, NAT_AUTH) && self.body@.len() < 17
                ==> r == Err::<Vec<u8>, NatError>(NatError::BodyTooShort),
            is_nat_cmd_spec(self@, NAT_AUTH) && self.body@.len() >= 17
                ==> r is Ok && r->Ok_0@ == self.body@.subrange(1, 17),
    {
        if !self.is_auth() {
            return Err(NatError::NotAuthMessage);
        }
        if self.body.len() < 1 + 16 {
            return Err(NatError::BodyTooShort);
        }
        Ok(vstd::slice::slice_to_vec(vstd::slice::slice_subrange(self.body.as_slice(), 1, 17)))
    }

    /// The AUTH command, carrying the client's answer to the challenge.
    pub fn nat_auth(encrypted: Vec<u8>) -> (r: Self)
        ensures
            r@ == nat_message(seq![NAT_AUTH] + encrypted@),
    {
        let mut body: Vec<u8> = Vec::new();
        body.push(NAT_AUTH);
        append_bytes(&mut body, encrypted.as_slice());
        Self { protocol: ProtocolType::NAT, body, tracing_id: None, ssh_status: None, packet_size: None }
    }

    /// The REJECT command.
    pub fn nat_reject() -> (r: Self)
        ensures
            r@ == nat_message(seq![NAT_REJECT]),
    {
        Message::nat_cmd(NAT_REJECT)
    }

    /// The body as text; empty when the body is not valid UTF-8.
    pub fn to_utf8(&self) -> (r: &str)
        ensures
            valid_utf8(self.body@) ==> r@ == decode_utf8(self.body@),
            !valid_utf8(self.body@) ==> r@ == Seq::<char>::empty(),
    {
        match utf8_str(self.body.as_slice()) {
            Some(s) => {
                proof {
                    lemma_utf8_str_view(s, self.body@);
                }
                s
            },
            None => {
                let e: &str = "";
                proof {
                    reveal_strlit("");
                }
                e
            },
        }
    }
}

} // verus!

verus! {

/// The bytes of a message: view of the result of a decode.
pub open spec fn decode_result_view(r: Result<Message, NatError>) -> Result<MessageView, NatError> {
    match r {
        Ok(m) => Ok(m@),
        Err(e) => Err(e),
    }
}

impl Message {
    /// The frame that carries this message (see the module documentation),
    /// with its checksum filled in. The body is framed as it is: encrypting
    /// it beforehand is up to the caller. Fails when the body does not fit
    /// the two-byte size field.
    pub fn encode_frame(&self) -> (r: Result<Vec<u8>, NatError>)
        ensures
            !fits_frame(self@) ==> r == Err::<Vec<u8>, NatError>(NatError::MessageTooBig),
            fits_frame(self@) ==> r is Ok && r->Ok_0@ == frame_of(self@),
    {
        let len = self.body.len();
        if len >= 0x1_0000 {
            return Err(NatError::MessageTooBig);
        }
        let size: u16 = len as u16;
        let ghost m = self@;
        let mut r: Vec<u8> = Vec::new();
        let sz = u16_to_be(size);
        r.push(sz[0]);
        r.push(sz[1]);
        r.push(0u8);
        r.push(0u8);
        let pb = self.protocol.bytes();
        r.push(pb[0]);
        assert(r@ =~= be_bytes_u16(body_size(m) as u16) + seq![0u8, 0u8, protocol_byte(m.protocol)]);
        let ghost r1 = r@;
        match self.tracing_id {
            Some(id) => {
                let t = u32_to_be(id);
                append_bytes(&mut r, &t);
            },
            None => {},
        }
        assert(r@ =~= r1 + tracing_field(m));
        let ghost r2 = r@;
        match self.ssh_status {
            Some(s) => {
                r.push(s.to_u8());
            },
            None => {
                if self.protocol == ProtocolType::SSH {
                    r.push(0u8);
                }
            },
        }
        assert(r@ =~= r2 + status_field(m));
        let ghost r3 = r@;
        match self.packet_size {
            Some(p) => {
                let t = u32_to_be(p);
                append_bytes(&mut r, &t);
            },
            None => {},
        }
        assert(r@ =~= r3 + packet_size_field(m));
        append_bytes(&mut r, self.body.as_slice());
        assert(r@ =~= unsealed_frame(m));
        let cs = u16_to_be(checksum(r.as_slice()));
        r.set(2, cs[0]);
        r.set(3, cs[1]);
        assert(r@ =~= frame_of(m));
        Ok(r)
    }

    /// Reads the message that a complete frame carries. Fails when the frame
    /// is shorter than its header, names no known protocol, or its checksum
    /// is not zero. The body is returned as it was framed: decrypting it is
    /// up to the caller.
    pub fn decode_frame(bytes: &[u8]) -> (r: Result<Message, NatError>)
        ensures
            decode_result_view(r) == decoded_frame(bytes@),
    {
        let len = bytes.len();
        if len < 5 {
            return Err(NatError::FrameTooShort);
        }
        let protocol = match ProtocolType::from_slice(vstd::slice::slice_subrange(bytes, 4, 5)) {
            Some(p) => p,
            None => {
                return Err(NatError::UnknownProtocol(bytes[4]));
            },
        };
        let header = frame_header_len(protocol);
        if len < header {
            return Err(NatError::FrameTooShort);
        }
        if checksum(bytes) != 0 {
            return Err(NatError::ChecksumMismatch);
        }
        let mut tracing_id: Option<u32> = None;
        if protocol != ProtocolType::NAT {
            match as_u32_be(vstd::slice::slice_subrange(bytes, 5, 9)) {
                Ok(id) => {
                    tracing_id = Some(id);
                },
                Err(_) => {},
            }
        }
        let mut ssh_status: Option<SSHStatus> = None;
        if protocol == ProtocolType::SSH {
            ssh_status = Some(SSHStatus::from_u8(bytes[9]));
        }
        let mut packet_size: Option<u32> = None;
        if protocol == ProtocolType::HTTP {
            match as_u32_be(vstd::slice::slice_subrange(bytes, 9, 13)) {
                Ok(p) => {
                    packet_size = Some(p);
                },
                Err(_) => {},
            }
        }
        let body = vstd::slice::slice_to_vec(vstd::slice::slice_subrange(bytes, header, len));
        let m = Message { protocol, body, tracing_id, ssh_status, packet_size };
        assert(m@ == decoded_frame(bytes@)->Ok_0);
        Ok(m)
    }
}

/// Every frame checks: its checksum over the whole frame is zero.
pub proof fn lemma_frame_checksum_zero(m: MessageView)
    ensures
        spec_checksum(frame_of(m)) == 0,
        frame_of(m).len() == unsealed_frame(m).len(),
{
    let u = unsealed_frame(m);
    assert(u[2] == 0 && u[3] == 0);
    lemma_checksum_validates(u, 2);
}

/// What a frame carries is what was framed: decoding the frame of a
/// message that can travel gives the message back, as the receiver sees it.
pub proof fn lemma_frame_roundtrip(m: MessageView)
    requires
        wire_consistent(m),
    ensures
        decoded_frame(frame_of(m)) == Ok::<MessageView, NatError>(as_received(m)),
{
    let u = unsealed_frame(m);
    let f = frame_of(m);
    lemma_frame_checksum_zero(m);
    assert(body_size(m) == m.body.len());
    let pre = be_bytes_u16(body_size(m) as u16) + seq![0u8, 0u8, protocol_byte(m.protocol)];
    assert(pre.len() == 5);
    assert(f[4] == u[4]);
    assert(u[4] == protocol_byte(m.protocol));
    assert(protocol_of_byte(protocol_byte(m.protocol)) == Some(m.protocol));
    let p = m.protocol;
    assert(tracing_field(m).len() == if p != ProtocolType::NAT { 4int } else { 0int });
    assert(status_field(m).len() == if p == ProtocolType::SSH { 1int } else { 0int });
    assert(packet_size_field(m).len() == if p == ProtocolType::HTTP { 4int } else { 0int });
    let h = header_len(p);
    assert(u.len() == h + m.body.len());
    assert(u =~= pre + tracing_field(m) + status_field(m) + packet_size_field(m) + m.body);
    assert(f.subrange(h, f.len() as int) =~= m.body);
    let d = decoded_frame(f)->Ok_0;
    if p != ProtocolType::NAT {
        let id = m.tracing_id->Some_0;
        lemma_u32_be_roundtrip(id);
        assert(f.subrange(5, 9) =~= be_bytes_u32(id));
    }
    if p == ProtocolType::SSH {
        assert(f[9] == status_field(m)[0]);
    }
    if p == ProtocolType::HTTP {
        let ps = m.packet_size->Some_0;
        lemma_u32_be_roundtrip(ps);
        assert(f.subrange(9, 13) =~= be_bytes_u32(ps));
    }
    assert(d == as_received(m));
}

} // verus!

verus! {

/// The challenge that the server puts in its OK command is the one the
/// client reads out of it.
pub proof fn lemma_challenge_roundtrip(random: Seq<u8>)
    requires
        random.len() == 4,
    ensures
        is_nat_cmd_spec(nat_message(seq![NAT_OK] + random), NAT_OK),
        (seq![NAT_OK] + random).len() >= 5,
        (seq![NAT_OK] + random).subrange(1, 5) == random,
{
    assert((seq![NAT_OK] + random).subrange(1, 5) =~= random);
}

/// The answer that the client puts in its AUTH command is the one the
/// server reads out of it, when it is at least one block long.
pub proof fn lemma_auth_answer_roundtrip(encrypted: Seq<u8>)
    requires
        encrypted.len() >= 16,
    ensures
        is_nat_cmd_spec(nat_message(seq![NAT_AUTH] + encrypted), NAT_AUTH),
        (seq![NAT_AUTH] + encrypted).len() >= 17,
        (seq![NAT_AUTH] + encrypted).subrange(1, 17) == encrypted.take(16),
{
    assert((seq![NAT_AUTH] + encrypted).subrange(1, 17) =~= encrypted.take(16));
}

/// The commands, and the messages that relay traffic under a tracing ID,
/// can travel the wire: decoding their frame gives them back unchanged.
pub proof fn lemma_built_messages_travel(cmd: u8, id: u32, body: Seq<u8>, packet_size: u32, status: SSHStatus)
    requires
        body.len() < 0x1_0000,
    ensures
        decoded_frame(frame_of(nat_message(seq![cmd]))) == Ok::<MessageView, NatError>(nat_message(seq![cmd])),
        ({
            let m = MessageView {
                protocol: ProtocolType::HTTP,
                body: body,
                tracing_id: Some(id),
                ssh_status: None,
                packet_size: Some(packet_size),
            };
            decoded_frame(frame_of(m)) == Ok::<MessageView, NatError>(m)
        }),
        ({
            let m = MessageView {
                protocol: ProtocolType::SSH,
                body: body,
                tracing_id: Some(id),
                ssh_status: Some(status),
                packet_size: None,
            };
            decoded_frame(frame_of(m)) == Ok::<MessageView, NatError>(m)
        }),
{
    let n = nat_message(seq![cmd]);
    lemma_frame_roundtrip(n);
    assert(as_received(n) == n);
    let h = MessageView {
        protocol: ProtocolType::HTTP,
        body: body,
        tracing_id: Some(id),
        ssh_status: None,
        packet_size: Some(packet_size),
    };
    lemma_frame_roundtrip(h);
    assert(as_received(h) == h);
    let s = MessageView {
        protocol: ProtocolType::SSH,
        body: body,
        tracing_id: Some(id),
        ssh_status: Some(status),
        packet_size: None,
    };
    lemma_frame_roundtrip(s);
    assert(as_received(s) == s);
}

} // verus!
