//! Core of an ORC (Optimized Row Columnar) file writer: per-column encoders
//! for the ORC v1 stream kinds, recursive composition of those encoders for
//! nested types, stripe assembly, and file-level container output.

pub mod compression;
pub mod data;
pub mod encoder;
pub mod encoding;
pub mod proto;
pub mod schema;
pub mod statistics;
pub mod stripe;
pub mod writer;

pub use writer::{Config, Writer};
