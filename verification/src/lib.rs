//! Renderer-ready geometry and materials from a compiled level and its props.
//!
//! The crate turns plain, already-fetched asset data into batched triangle
//! primitives and resolved material descriptors: it extracts visible level
//! geometry, places instanced prop models, and resolves the layered textual
//! material format, deduplicating materials behind a shared index table and
//! degrading to a conspicuous fallback descriptor when an asset is missing
//! or malformed.
//!
//! Byte input and output crosses the crate boundary as plain values; the
//! surrounding application owns all file access and floating-point
//! arithmetic, and hands vertex scalars through as opaque 32-bit patterns.

pub mod bytestr;
pub mod material;
pub mod pipeline;
pub mod prop;
pub mod resolve;
pub mod table;
pub mod texture;
pub mod vdf;
pub mod world;
pub mod wrapping;
