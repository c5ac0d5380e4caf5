//! The parameters of the responder. All of them are fixed at compile time.

use vstd::prelude::*;

verus! {

/// The bytes sent on every accepted connection: a complete HTTP/1.1 response
/// with a plain-text body of twelve bytes.
pub const RESPONSE: &'static str =
    "HTTP/1.1 200 OK\nContent-Type: text/plain\nContent-Length: 12\n\nHello world!";

/// The number of accept operations that are kept outstanding.
pub const ACCEPT_POOL: u32 = 64;

/// The number of entries the submission ring is created with.
pub const URING_QUEUE_SIZE: u32 = 256;

/// The number of connections the listening socket lets wait to be accepted.
pub const BACKLOG: i32 = 256;

/// The IPv4 address the responder listens on, most significant byte first.
pub const LISTEN_ADDR: [u8; 4] = [127, 0, 0, 1];

/// The TCP port the responder listens on.
pub const LISTEN_PORT: u16 = 8080;

} // verus!
