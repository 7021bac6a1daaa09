//! The smallest possible slice of the Minecraft protocol.
//!
//! The gateway is an L4 proxy first. It only decodes what it needs for routing
//! and for answering status pings itself: packet framing (always uncompressed
//! and unencrypted before login), the handshake, the status exchange, the
//! legacy ping, and enough of login start to log a player name and to send a
//! disconnect. Everything after the handshake is forwarded byte for byte.

pub mod chat;
pub mod error;
pub mod frame;
pub mod handshake;
pub mod legacy;
pub mod legacy_text;
pub mod login;
pub mod status;
pub mod varint;
pub mod wire;
