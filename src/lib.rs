//! Decoding of the primitive values of 2bit genome container files.

pub mod block;
pub mod error;
pub mod field;
pub mod source;
pub mod value_reader;

pub use block::Block;
pub use error::{Error, IoKind, Result};
pub use field::{slice_to_field, Field, FileIndex, FIELD_SIZE};
pub use source::{ByteCursor, Reader, SeekFrom};
pub use value_reader::{BoxValueReader, ValueReader, PAYLOAD_START, REV_SIGNATURE, SIGNATURE};
