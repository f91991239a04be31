//! The command-line tool around the library: its configuration, its own
//! stricter request parsing (a request line must hold all three words), and
//! byte conversions that read the first four bytes of a longer slice.

pub mod config;
pub mod http;
pub mod utils;
