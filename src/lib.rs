//! Conversion between Arrow columnar arrays and ClickHouse's native column
//! encoding: type dispatch, the byte-column codecs, the variable-length
//! integer codec, the null-mask codec and the scratch buffer pool they share.

pub mod binary;
pub mod bitmap;
pub mod column;
pub mod error;
pub mod null;
pub mod pool;
pub mod types;
pub mod varint;
pub mod read;
