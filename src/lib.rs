//! Codec for the DMAP tag-length-value format: the content-code dictionary
//! and its bootstrap, a decoder that builds value trees or hands records out
//! one at a time, and an encoder that writes trees back.
//!
//! Every function here is verified: its contract is stated over the
//! mathematical model of the format in `format` and proved.

pub mod bytes;
pub mod de;
pub mod dict;
pub mod error;
pub mod format;
pub mod laws;
pub mod ser;
pub mod value;

pub use de::{decode, decode_item, decode_items, MapDeserializer, RawMessage};
pub use dict::{ContentCode, Parser, TypeKind};
pub use error::Error;
pub use ser::{encode, MapSerializer, SeqSerializer, Serializer};
pub use value::{DmapItem, DmapValue, ItemName};
