//! Magnet links: `magnet:?` and a query that names the torrent by its
//! info-hash, and may name it for display, list trackers and hint at its
//! size.

pub mod base32;
pub mod link;
pub mod query;

pub use base32::{base32_decode, base32_decode_bytes};
pub use link::{parse_query_string, url_decode, MagnetLink};
