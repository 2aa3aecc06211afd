//! The protocol engine of a standalone server that answers the handshake,
//! status, ping, login-start and legacy-ping exchanges of the block-game wire
//! protocol: varint framing, a per-connection state machine, the status
//! response document, and the UTF-16 legacy path. All I/O lives outside; the
//! engine consumes bytes from a [`stream::ByteStream`] and leaves its answers
//! in the player's output buffer.

use vstd::prelude::*;

pub mod packets;
pub mod player;
pub mod stream;
pub mod text;
pub mod varint;

verus! {

} // verus!
