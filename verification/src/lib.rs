//! A verified codec for the BSON binary document format.
//!
//! The crate models a BSON value tree (`Bson`), an insertion-ordered
//! document container (`Document`), and the encoder/decoder pair that
//! converts between documents and their exact wire bytes.  The
//! `laws` module states and proves the properties the codec obeys:
//! the round-trip law, length-prefix exactness, the rejection of
//! malformed input, and the container's ordering rules.

pub mod bson;
pub mod decoder;
pub mod document;
pub mod document_serializer;
pub mod encoder;
pub mod key_index;
pub mod laws;
pub mod text;
pub mod type_serializer;
pub mod wire;

pub use bson::Bson;
pub use bson::Val;
pub use bson::timestamp_increment;
pub use bson::timestamp_pack;
pub use bson::timestamp_seconds;
pub use document::Document;
pub use decoder::decode;
pub use document_serializer::DocumentSerializer;
pub use encoder::encode;
pub use laws::encode_then_decode;
pub use type_serializer::TypeSerializer;
pub use wire::DecodeError;
pub use wire::EncodeError;

