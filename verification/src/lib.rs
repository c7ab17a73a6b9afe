//! A bidirectional binary codec: one field-transfer description per type
//! drives both serialization and deserialization, so the write logic and the
//! read logic of a binary format can never fall out of step.
//!
//! A [`Reflector`] is bound to one direction (writing or reading) and one byte
//! order for the duration of a single traversal. Types describe themselves by
//! passing each field through the reflector in a fixed order; the reflector
//! either appends the field's encoding to its output or decodes the field from
//! its input.

pub mod arrays;
pub mod composite;
pub mod primitive;
pub mod reflector;
pub mod text;
pub mod types;
pub mod wire;

pub use composite::Reflectable;
pub use composite::TaggedReflectable;
pub use primitive::Primitive;
pub use reflector::Reflector;
pub use types::check;
pub use types::CodecError;
pub use types::Direction;
pub use types::Endianness;
pub use types::SizePolicy;
