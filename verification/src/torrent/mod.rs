//! The metainfo of a torrent: where its tracker is, what its content is
//! called, how it is cut into pieces, and which files it is made of.

pub mod metainfo;
pub mod model;

pub use metainfo::{FileInfo, Metainfo, TorrentInfo};
