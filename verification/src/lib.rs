//! Reader for the append-only, file-chunked archive ("freezer") in which an
//! Ethereum node keeps its old blocks, together with the RLP decoder that turns
//! the stored records into typed values.
//!
//! The crate does no I/O itself: it computes which bytes have to be read and
//! interprets the bytes that were read.

pub mod freezer;
pub mod numeric;
pub mod rlp;
pub mod snappy;
pub mod text;
pub mod types;

pub use freezer::{Freezer, FreezerError};
