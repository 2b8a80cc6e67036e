//! The tracker: the announce request as a URL, the bencoded response with
//! its compact peer list, and the client's own peer id.

pub mod peer_id;
pub mod request;
pub mod response;

pub use peer_id::generate_peer_id;
pub use request::{announce_url, url_encode, TrackerRequest};
pub use response::{parse_compact_peers, parse_tracker_response, PeerAddr, TrackerResponse};
