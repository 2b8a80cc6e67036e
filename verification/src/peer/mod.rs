//! The peer wire protocol: the handshake, the length-prefixed messages,
//! and what a connection knows of its peer.

pub mod buffer;
pub mod connection;
pub mod handshake;
pub mod message;

pub use connection::PeerConnection;
pub use handshake::{check_handshake, create_handshake, parse_handshake};
pub use message::{Message, PeerError};
