//! The shapes of the records that the freezer holds, and the values that
//! they are made of.

pub mod body;
pub mod difficulty;
pub mod hash;
pub mod header;
pub mod receipt;
pub mod record;

pub use body::{BlockBody, To, Transaction};
pub use difficulty::TotalDifficulty;
pub use hash::BlockHash;
pub use header::BlockHeader;
pub use receipt::{Log, PostState, Receipts, TransactionReceipt};

use crate::rlp::fields::{digits_value, lemma_digits_value_leading_zero};
use crate::text::{decimal_text, hex_text, to_hex};
use vstd::prelude::*;

verus! {

/// A const-sized byte array for types of known byte length.
#[derive(Debug, Clone, Copy, PartialEq)]
pub struct ByteArray<const N: usize>(pub [u8; N]);

impl<const N: usize> View for ByteArray<N> {
    type V = Seq<u8>;

    open spec fn view(&self) -> Seq<u8> {
        self.0@
    }
}

impl<const N: usize> ByteArray<N> {
    /// The array that holds the given `N` bytes.
    pub fn from_slice(bytes: &[u8]) -> (out: ByteArray<N>)
        requires
            bytes@.len() == N,
        ensures
            out@ == bytes@,
    {
        let mut array = crate::numeric::zeroed::<N>();
        let mut i: usize = 0;
        while i < N
            invariant
                i <= N,
                bytes@.len() == N,
                forall|k: int| 0 <= k < i ==> array@[k] == bytes@[k],
            decreases N - i,
        {
            array[i] = bytes[i];
            i = i + 1;
        }
        assert(array@ =~= bytes@);
        ByteArray(array)
    }

    /// The array that ends with the given bytes, at most `N` of them, and has
    /// zeros before them.
    pub fn left_padded(bytes: &[u8]) -> (out: ByteArray<N>)
        requires
            bytes@.len() <= N,
        ensures
            out@ == Seq::new((N - bytes@.len()) as nat, |i: int| 0u8) + bytes@,
    {
        let mut array = crate::numeric::zeroed::<N>();
        let pad = N - bytes.len();
        let mut i: usize = 0;
        while i < bytes.len()
            invariant
                i <= bytes@.len() <= N,
                pad == N - bytes@.len(),
                forall|k: int| 0 <= k < pad ==> array@[k] == 0,
                forall|k: int| 0 <= k < i ==> array@[pad + k] == bytes@[k],
            decreases bytes@.len() - i,
        {
            array[pad + i] = bytes[i];
            i = i + 1;
        }
        assert(array@ =~= Seq::new((N - bytes@.len()) as nat, |i: int| 0u8) + bytes@);
        ByteArray(array)
    }

    /// The bytes as text: `0x`, then two hexadecimal digits for each byte.
    pub fn to_hex(&self) -> (text: String)
        ensures
            text@ == hex_text(self@),
    {
        to_hex(self.0.as_slice())
    }
}

/// A byte vector for types of unknown byte length.
#[derive(Debug, Clone, PartialEq)]
pub struct ByteVec(pub Vec<u8>);

impl View for ByteVec {
    type V = Seq<u8>;

    open spec fn view(&self) -> Seq<u8> {
        self.0@
    }
}

impl ByteVec {
    /// The bytes as text: `0x`, then two hexadecimal digits for each byte.
    pub fn to_hex(&self) -> (text: String)
        ensures
            text@ == hex_text(self@),
    {
        to_hex(self.0.as_slice())
    }
}

/// The records of a vector as values.
pub open spec fn values<T: View>(records: Seq<T>) -> Seq<T::V> {
    Seq::new(records.len(), |i: int| records[i]@)
}

/// A vector of records.
#[derive(Debug, Clone, PartialEq)]
pub struct NiceVec<T>(pub Vec<T>);

impl<T: View> View for NiceVec<T> {
    type V = Seq<T::V>;

    open spec fn view(&self) -> Seq<T::V> {
        values(self.0@)
    }
}

impl<T> Default for NiceVec<T> {
    fn default() -> (out: NiceVec<T>)
        ensures
            out.0@.len() == 0,
    {
        NiceVec(Vec::new())
    }
}

/// A number of any size, kept as its digits in base 2^32, least significant
/// first, without zeros in the highest places.
#[derive(Debug, Clone, PartialEq, Eq)]
pub struct NiceBigUint {
    digits: Vec<u32>,
}

impl View for NiceBigUint {
    type V = nat;

    closed spec fn view(&self) -> nat {
        digits_value(self.digits@)
    }
}

/// Calls `num_bigint::BigUint::new` and `BigUint::to_str_radix`.
///
/// `new` takes the digits of a number in base 2^32, least significant first,
/// and `to_str_radix(10)` writes the number in decimal.
#[verifier::external_body]
fn decimal_of_digits(digits: &Vec<u32>) -> (text: String)
    ensures
        text@ == decimal_text(digits_value(digits@)),
{
    num_bigint::BigUint::new(digits.clone()).to_str_radix(10)
}

impl NiceBigUint {
    /// Whether the highest digit is not zero.
    pub closed spec fn normalized(&self) -> bool {
        self.digits@.len() == 0 || self.digits@.last() != 0
    }

    /// The number with the given digits in base 2^32, least significant first.
    pub fn new(digits: Vec<u32>) -> (out: NiceBigUint)
        ensures
            out@ == digits_value(digits@),
            out.normalized(),
    {
        let mut digits = digits;
        let ghost given = digits@;
        while digits.len() > 0 && digits[digits.len() - 1] == 0
            invariant
                digits_value(digits@) == digits_value(given),
            decreases digits@.len(),
        {
            proof {
                lemma_digits_value_leading_zero(digits@.drop_last());
                assert(digits@.drop_last().push(0) =~= digits@);
            }
            digits.pop();
        }
        NiceBigUint { digits }
    }

    /// The digits of the number in base 2^32, least significant first.
    pub fn to_u32_digits(&self) -> (digits: Vec<u32>)
        ensures
            digits_value(digits@) == self@,
    {
        self.digits.clone()
    }

    /// The number in decimal.
    pub fn to_decimal(&self) -> (text: String)
        ensures
            text@ == decimal_text(self@),
    {
        decimal_of_digits(&self.digits)
    }
}

} // verus!
