//! A zero-copy archive format: values are serialized into a self-contained
//! byte buffer that can be interpreted in place, and an untrusted buffer can
//! be validated as safe to interpret before any access occurs.
//!
//! Positions inside an archive are plain byte offsets from the start of the
//! buffer; internal references are relative pointers storing the signed
//! distance from their own position to their target, which makes a buffer
//! meaningful independent of where it is loaded.

pub mod errors;
pub mod relptr;
pub mod context;
pub mod desc;
pub mod encoding;
pub mod niche;
pub mod serializer;
pub mod archive;
pub mod check;
pub mod recover;
pub mod registry;
pub mod dyncheck;
pub mod smol;
pub mod uid;
pub mod laws;
