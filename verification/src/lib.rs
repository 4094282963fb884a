//! A self-describing binary serialization codec.
//!
//! Every value on the wire is introduced by a one-byte tag naming its shape,
//! so a byte stream can be decoded without an externally supplied schema.
//! Multi-byte numbers are stored big-endian; text is UTF-8; collections are
//! either length-prefixed or streamed and closed by a dedicated end-marker
//! tag.  The serializer walks an abstract value tree and emits tagged bytes;
//! the deserializer performs tag-directed decoding with a one-token
//! lookahead.

pub mod de;
pub mod error;
pub mod laws;
pub mod read;
pub mod ser;
pub mod tag;
pub mod value;
pub mod wire;
pub mod write;

pub use de::{from_bytes, from_reader, Deserializer};
pub use error::{DeError, EndOfBuff, NoRWError, SerError};
pub use ser::{
    get_serialized_size, to_buff, to_bytes, to_bytes_compact, to_writer, Serializer,
};
pub use value::Value;
