//! A size oracle over a tag-length-value binary document encoding.
//!
//! Given a byte buffer holding one encoded document, the library computes the
//! exact number of bytes occupied by every field at every nesting depth,
//! without materializing field values, and returns a table mapping each
//! structural field path to that byte count.

pub mod model;
pub mod table;
pub mod bson;
pub mod laws;

pub use bson::bson_size;
pub use bson::get_cstring;
pub use bson::SizeError;
pub use table::SizeTable;
