//! Transport, correlation and session core for a bridge to a language server
//! spoken to over its standard streams.
//!
//! - `framing`: `Content-Length` frames, written in one piece and read back
//!   from a byte stream however it arrives.
//! - `message`: JSON-RPC request and notification bodies, and the reading
//!   of what the server sends back.
//! - `session`: the handshake that gates every operation, the table of
//!   requests awaiting a response, and the documents announced open.
//! - `protocol`: the shapes of the server's answers, one variant per shape.
//! - `normalize`: each operation's answer reduced to the one shape its
//!   caller reads.
//!
//! The process, the streams and the waiting live with the caller: the
//! session decides, the caller acts and reports back.

pub mod framing;
pub mod message;
pub mod session;
pub mod protocol;
pub mod normalize;
