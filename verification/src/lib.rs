//! Building blocks of a small NAT traversal tool: the framed wire protocol
//! between the tunnel server and the tunnel client, its checksum, the
//! authentication handshake, HTTP request parsing, and the decisions that
//! the server and the client take around the streams they relay.

pub mod batch;
pub mod cache;
pub mod checksum;
pub mod client;
pub mod clock;
pub mod context;
pub mod error;
pub mod forward;
pub mod http;
pub mod message;
pub mod protocols;
pub mod server;
pub mod session;
pub mod text;
pub mod tool;
pub mod utils;

pub use batch::{split_http_by_batch, split_ssh_by_batch};
pub use cache::Cache;
pub use checksum::checksum;
pub use client::{ClientSession, ServerAction};
pub use context::Context;
pub use error::NatError;
pub use http::{HttpRequest, RequestLine};
pub use message::{Message, SSHStatus};
pub use protocols::{parse_protocol, Protocol, ProtocolType};
pub use server::{route_connection, route_reply, ReplyRoute, TracingSeq};
pub use session::{ClientEvent, NatSession, TickOutcome};
pub use utils::{as_u16_be, as_u32_be, random_bytes, u16_to_be, u32_to_be};
