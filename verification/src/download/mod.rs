//! Piece assembly and piece scheduling.

pub mod manager;
pub mod peers;
pub mod piece;
pub mod pipeline;
pub mod table;
pub mod worker;
pub mod worker_laws;

pub use manager::DownloadManager;
pub use peers::PeerBook;
pub use piece::Piece;
pub use table::PieceTable;
pub use worker::{Action, Event, Worker};
