//! A compact, endian-explicit binary wire format, verified with Verus.
//!
//! Scalars are written as fixed-width base-256 numbers in a byte order
//! chosen once per operation; sequences, strings and maps are
//! length-prefixed runs; structs and enums are their fields in the order
//! of declaration, an enum variant behind its index.
//!
//! * [`digits`], [`common`], [`scalar`], [`text`]: the arithmetic of
//!   scalars and of UTF-16.
//! * [`encoder`], [`decoder`], [`tuples`], [`maps`]: the capabilities
//!   [`encoder::Encoder`] and [`decoder::Decoder`], their in-memory
//!   backends, and the types that write and read themselves.
//! * [`tagged`], [`form`], [`derive`]: codecs derived from the shape of a
//!   type.
//! * [`laws`], [`form_laws`]: what holds of all of it, proved.

pub mod digits;
pub mod common;
pub mod scalar;
pub mod text;
pub mod encoder;
pub mod decoder;
pub mod tuples;
pub mod maps;
pub mod tagged;
pub mod form;
pub mod derive;
pub mod laws;
pub mod form_laws;
pub mod prelude;
