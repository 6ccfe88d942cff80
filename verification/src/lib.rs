//! A fixed-width binary codec over explicit type descriptors.
//!
//! A composite type is described by a [`descriptor::TypeDesc`]: an ordered
//! list of named fields, or a tagged list of variants each carrying at most
//! one payload. The layout engine ([`layout`]) computes the exact byte width
//! and the byte range of every field, and derives each enum variant's tag;
//! the codec ([`codec`]) encodes values into fixed-length big-endian byte
//! strings and decodes them back, validating tags and boolean bytes. The
//! scalar leaf encodings live in [`primitive`] and [`bytes`].

pub mod bytes;
pub mod codec;
pub mod descriptor;
pub mod layout;
pub mod primitive;
