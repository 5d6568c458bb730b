//! A verified encoder from an in-memory value tree to Hjson text, a JSON
//! superset that quotes strings only where the syntax demands it.
//!
//! The encoder supports a compact mode (plain JSON punctuation, no
//! whitespace) and a pretty mode (indentation, collapsed empty containers,
//! and a four-way quoting classification for strings). The exact bytes of
//! both renderings are stated by specification functions, and every
//! executable encoding function is proved to produce them.

pub mod classify;
pub mod emit;
pub mod escape;
pub mod laws;
pub mod numfmt;
pub mod render;
pub mod ser;
pub mod value;

pub use ser::CompactFormatter;
pub use ser::Compound;
pub use ser::EncodeError;
pub use ser::Formatter;
pub use ser::PrettyFormatter;
pub use ser::Serializer;
pub use ser::State;
pub use ser::key_must_be_a_string;
pub use ser::to_string;
pub use ser::to_string_pretty;
pub use ser::to_vec;
pub use ser::to_vec_pretty;
pub use value::Value;
