//! The configuration of the command-line tool, with its defaults.

use vstd::prelude::*;
use vstd::string::StringExecFns;
use crate::forward::{decimal, decimal_string};
use crate::text::{occurs_in, str_contains};

verus! {

/// The settings that the server and the client share.
#[derive(Debug, Clone)]
pub struct BaseConfig {
    pub password: String,
    pub ssh_mtu: u16,
    pub http_mtu: u16,
    pub subnet: String,
}

/// The default SSH batch size.
pub const DEFAULT_SSH_MTU: u16 = 512;
/// The default HTTP batch size.
pub const DEFAULT_HTTP_MTU: u16 = 1024;
/// The default port of the server.
pub const DEFAULT_PORT: u16 = 8080;

impl BaseConfig {
    /// The shared settings from the command line: the SSH batch size defaults
    /// to 512 bytes, the HTTP one to 1024, the subnet to 127.0.0.1/32.
    pub fn with_defaults(password: String, ssh_mtu: Option<u16>, http_mtu: Option<u16>, subnet: Option<String>)
        -> (r: Self)
        ensures
            r.password@ == password@,
            r.ssh_mtu == ssh_mtu.unwrap_or(DEFAULT_SSH_MTU),
            r.http_mtu == http_mtu.unwrap_or(DEFAULT_HTTP_MTU),
            r.subnet@ == match subnet {
                Some(s) => s@,
                None => "127.0.0.1/32"@,
            },
    {
        BaseConfig {
            password,
            ssh_mtu: match ssh_mtu {
                Some(m) => m,
                None => DEFAULT_SSH_MTU,
            },
            http_mtu: match http_mtu {
                Some(m) => m,
                None => DEFAULT_HTTP_MTU,
            },
            subnet: match subnet {
                Some(s) => s,
                None => String::from_str("127.0.0.1/32"),
            },
        }
    }
}

/// The configuration of the client.
#[derive(Debug, Clone)]
pub struct ClientConfig {
    pub server_url: String,
    pub base: BaseConfig,
}

impl ClientConfig {
    /// The client's configuration from the command line; the server URL
    /// defaults to ws://127.0.0.1:8080/ws.
    pub fn with_defaults(server_url: Option<String>, base: BaseConfig) -> (r: Self)
        ensures
            r.server_url@ == match server_url {
                Some(s) => s@,
                None => "ws://127.0.0.1:8080/ws"@,
            },
            r.base.password@ == base.password@,
            r.base.ssh_mtu == base.ssh_mtu,
            r.base.http_mtu == base.http_mtu,
            r.base.subnet@ == base.subnet@,
    {
        ClientConfig {
            server_url: match server_url {
                Some(s) => s,
                None => String::from_str("ws://127.0.0.1:8080/ws"),
            },
            base,
        }
    }
}

/// Whether the client stops reconnecting after this error: when the
/// server said that the password is incorrect.
pub fn gives_up(error_text: &str) -> (r: bool)
    ensures
        r == occurs_in(error_text@, "password incorrect"@),
{
    str_contains(error_text, "password incorrect")
}

/// The configuration of the server.
#[derive(Debug, Clone)]
pub struct ServerConfig {
    pub host: String,
    pub port: u16,
    pub base: BaseConfig,
}

impl ServerConfig {
    /// The server's configuration from the command line; the host defaults
    /// to 127.0.0.1 and the port to 8080.
    pub fn with_defaults(port: Option<u16>, host: Option<String>, base: BaseConfig) -> (r: Self)
        ensures
            r.port == port.unwrap_or(DEFAULT_PORT),
            r.host@ == match host {
                Some(h) => h@,
                None => "127.0.0.1"@,
            },
            r.base.password@ == base.password@,
            r.base.ssh_mtu == base.ssh_mtu,
            r.base.http_mtu == base.http_mtu,
            r.base.subnet@ == base.subnet@,
    {
        ServerConfig {
            port: match port {
                Some(p) => p,
                None => DEFAULT_PORT,
            },
            host: match host {
                Some(h) => h,
                None => String::from_str("127.0.0.1"),
            },
            base,
        }
    }

    /// The address the server listens on: host, a colon, and the port.
    pub fn listen_address(&self) -> (r: String)
        ensures
            r@ == self.host@ + ":"@ + decimal(self.port as nat),
    {
        let mut a = self.host.clone();
        a.append(":");
        let p = decimal_string(self.port as u64);
        a.append(p.as_str());
        a
    }
}

} // verus!
