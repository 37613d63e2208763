//! Morphological tokenization on a shared, read-only vibrato dictionary.
//!
//! - `address`: origin classes, entry addresses and the feature-lookup reply.
//! - `offsets`: byte offsets of character positions in UTF-8 text.
//! - `projection`: turning the analysis engine's morphemes into tokens, with
//!   the check that they tile the text and that byte and character spans agree.
//! - `session`: reading the morphemes out of a request's own vibrato worker.
pub mod address;
pub mod offsets;
pub mod projection;
pub mod session;
