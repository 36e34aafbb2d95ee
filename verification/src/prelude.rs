//! Everything a user of the wire format needs, under one path.

pub use crate::common::{ByteEndian, MapEntry};
pub use crate::decoder::{
    ByteDecoder, Decoder, DecoderError, DecoderExt, DecoderResult, Deserializer, FromBytes,
    Primitive,
};
pub use crate::derive::{Field, Fields, Shape, Value, Variant};
pub use crate::encoder::{ByteEncoder, ByteTracker, Encoder, EncoderExt, Serializer, ToBytes};
pub use crate::scalar::EndianValue;
pub use crate::tagged::{Scalar, ScalarKind};
