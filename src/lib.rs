//! Integer side of the colour library: the hexadecimal colour codec.
//!
//! A colour's three components travel through a hex string as three bytes; this
//! crate decodes and encodes those bytes, with every step proved against the
//! spec functions in [`encodings`].
pub mod encodings;
