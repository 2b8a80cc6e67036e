//! The bencode codec: a tagged value tree, a single-pass decoder and a
//! canonical encoder.

pub mod decode;
pub mod encode;
pub mod laws;
pub mod model;
pub mod value;

pub use decode::decode;
pub use encode::encode;
pub use model::{BencodeError, Value};
pub use value::{BencodeValue, DictEntry};
