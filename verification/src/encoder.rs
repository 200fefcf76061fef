//! The stream encoders: ORC v1 byte run-length encoding, MSB-first boolean
//! bit packing over it, and the v1 integer run-length encodings.

pub mod boolean_rle;
pub mod byte_rle;
pub mod int_rle;
