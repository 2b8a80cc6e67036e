//! How the content lies in the output files: the files one after another
//! in one range of bytes, and for each piece the writes that store it.

pub mod layout;
pub mod plan;

pub use layout::Storage;
pub use plan::{FileSpan, WriteOp};
