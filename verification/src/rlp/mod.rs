//! RLP, the length-prefixed encoding of nested byte strings and lists in which
//! the archive stores its records.
//!
//! [`parse`] recognises one item at the front of a byte span and leaves the
//! content of a list unparsed. [`tree`] parses a span to the bottom.
//! [`deserializer`] walks a span lazily and hands out typed values.

use crate::numeric::NumericError;
use vstd::prelude::*;

pub mod deserializer;
pub mod fields;
pub mod parse;
pub mod reader;
pub mod tree;

verus! {

/// What can go wrong while RLP bytes are read.
#[derive(Debug, Clone, Copy, PartialEq, Eq, Structural)]
pub enum RlpError {
    /// No prefix rule matches, or the span ends before the item does.
    NoMatch,
    /// A value was asked for where nothing is left to read.
    NoInputLeft,
    /// The item at hand is not of the kind that was asked for.
    UnexpectedMatch,
    /// A length was asked of an item that has none.
    NoSizeHint,
    /// A byte string does not have the length of the value it should fill.
    Conversion(NumericError),
}

} // verus!
