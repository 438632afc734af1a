//! Sequential big-endian reading and writing of binary data.

pub mod deserializer;
pub mod endian;
pub mod serializer;
pub mod types;

pub use deserializer::Deserializer;
pub use serializer::{DynamicSerializer, Serializer, SizedSerializer};
pub use types::SizedString;
