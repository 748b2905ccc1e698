//! Client-side implementation of the clamd wire protocol: command framing,
//! INSTREAM chunked-transfer encoding and decoding, and response
//! classification, verified down to the bytes put on the wire.
//!
//! The protocol engine is generic over a [`Channel`]: any bidirectional byte
//! stream. Opening real TCP or Unix-socket connections is I/O and lives
//! outside this crate; a transport is described here only by its descriptor
//! ([`Tcp`] or [`Socket`]) and its [`Endpoint`].

use vstd::prelude::*;

pub mod channel;
pub mod chunking;
pub mod classify;
pub mod decode;
pub mod engine;
pub mod transport;
pub mod wire;

pub use channel::Channel;
pub use channel::MemoryChannel;
pub use channel::MemoryFault;
pub use classify::clean;
pub use classify::contains_bytes;
pub use classify::is_valid_utf8;
pub use classify::DecodeError;
pub use chunking::effective_chunk_size;
pub use chunking::frame_buffer;
pub use chunking::frame_chunk;
pub use chunking::terminator_bytes;
pub use chunking::DEFAULT_CHUNK_SIZE;
pub use chunking::MAX_CHUNK_SIZE;
pub use decode::parse_chunk_stream;
pub use engine::get_version;
pub use engine::ping;
pub use engine::reload;
pub use engine::scan;
pub use engine::send_command;
pub use engine::shutdown;
pub use transport::Endpoint;
pub use transport::Socket;
pub use transport::Tcp;
pub use transport::TransportProtocol;
pub use wire::pong_bytes;
pub use wire::reloading_bytes;
pub use wire::write_be32;
pub use wire::Command;

verus! {

} // verus!
