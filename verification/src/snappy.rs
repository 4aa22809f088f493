//! The raw Snappy format, in which the archive keeps the records of its
//! compressed tables. Decompression itself is the `snap` crate's work.

use vstd::prelude::*;

verus! {

/// The error with which the `snap` crate turns a block down.
#[verifier::external_type_specification]
#[verifier::external_body]
pub struct ExSnapError(snap::Error);

/// What `snap` makes of a block in the raw Snappy format: the bytes that the
/// block stands for, or the error with which `snap` turns the block down.
pub uninterp spec fn snappy_block(input: Seq<u8>) -> Result<Seq<u8>, snap::Error>;

/// Calls `snap::raw::Decoder::decompress_vec` with a fresh decoder.
///
/// The decoder has no state and reads nothing but the block, so the outcome is
/// a function of the block alone: it goes by the name [`snappy_block`]. `snap`
/// checks for an empty block first and answers it with an error.
#[verifier::external_body]
pub(crate) fn decompress_block(input: &[u8]) -> (out: Result<Vec<u8>, snap::Error>)
    ensures
        match snappy_block(input@) {
            Ok(bytes) => out matches Ok(unpacked) && unpacked@ == bytes,
            Err(error) => out == Err::<Vec<u8>, snap::Error>(error),
        },
        input@.len() == 0 ==> out is Err,
{
    snap::raw::Decoder::new().decompress_vec(input)
}

} // verus!
