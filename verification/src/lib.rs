//! A RESP (REdis Serialization Protocol) writer and reader, with the
//! encoding of each value and the reading of each frame stated as
//! mathematical functions over character sequences.
pub mod de;
pub mod error;
pub mod laws;
pub mod ser;
pub mod text;

pub use de::{CRLFSeparated, Deserializer, RedisArray, Visit};
pub use error::RedisError;
pub use ser::RedisSerializer;
