//! A BitTorrent leecher core: bencode, metainfo, magnet links, tracker
//! responses, the peer wire codec, piece assembly, piece scheduling and the
//! mapping of pieces onto output files.

pub mod bencode;
pub mod digits;
pub mod download;
pub mod error;
pub mod hashing;
pub mod hexcode;
pub mod info;
pub mod keys;
pub mod magnet;
pub mod peer;
pub mod status;
pub mod storage;
pub mod text;
pub mod torrent;
pub mod tracker;

pub use download::DownloadManager;
pub use info::{get_torrent_info, parse_magnet};
pub use storage::Storage;
pub use torrent::Metainfo;
pub use tracker::{generate_peer_id, TrackerRequest, TrackerResponse};
