//! Loader for Gaussian-splat point clouds stored in the binary PLY variant.
//!
//! Every floating-point field is carried as its IEEE-754 bit pattern in a
//! `u32`, so that decoding is exact and can be stated over bytes.

pub mod bytes;
pub mod encoding;
pub mod error;
pub mod header;
pub mod loader;
pub mod number;
pub mod record;
pub mod text;
pub mod transform;
pub mod vertex;
