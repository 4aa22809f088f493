//! Values of open length, read element by element: a byte string as a
//! sequence of bytes, and a big number as a sequence of 32-bit digits.

use super::deserializer::{Cursor, RlpDeserializer};
use super::parse::RlpView;
use super::RlpError;
use crate::numeric::{be_value, radix_pow, trailing_bytes, without_trailing_bytes};
use vstd::prelude::*;

verus! {

/// The digits in base 2^32 of the number that `bytes` writes, least
/// significant first, one for each four bytes or part of them.
pub open spec fn le_digits(bytes: Seq<u8>) -> Seq<u32>
    decreases bytes.len(),
{
    if bytes.len() == 0 {
        Seq::empty()
    } else {
        seq![be_value(trailing_bytes(bytes, 4)) as u32] + le_digits(
            without_trailing_bytes(bytes, 4),
        )
    }
}

/// The number that digits in base 2^32 write, least significant first.
pub open spec fn digits_value(digits: Seq<u32>) -> nat
    decreases digits.len(),
{
    if digits.len() == 0 {
        0
    } else {
        digits[0] as nat + 0x1_0000_0000 * digits_value(digits.skip(1))
    }
}

/// The number that two spans write one behind the other is the first span's
/// number, moved up by the second span's length, plus the second span's.
pub proof fn lemma_be_value_split(high: Seq<u8>, low: Seq<u8>)
    ensures
        be_value(high + low) == be_value(high) * radix_pow(low.len()) + be_value(low),
    decreases low.len(),
{
    if low.len() == 0 {
        assert(high + low =~= high);
        assert(be_value(high) * 1 == be_value(high)) by (nonlinear_arith);
    } else {
        let whole = high + low;
        assert(whole.drop_last() =~= high + low.drop_last());
        assert(whole.last() == low.last());
        lemma_be_value_split(high, low.drop_last());
        let x = be_value(high) as int;
        let r = radix_pow((low.len() - 1) as nat) as int;
        let y = be_value(low.drop_last()) as int;
        assert(radix_pow(low.len()) == 256 * r);
        assert(be_value(low) == y * 256 + low.last());
        assert(be_value(whole) == (x * r + y) * 256 + low.last());
        assert((x * r + y) * 256 == x * (256 * r) + y * 256) by (nonlinear_arith);
    }
}

/// The digits that a byte string gives write the number that the byte string
/// writes.
pub proof fn lemma_digits_value(bytes: Seq<u8>)
    ensures
        digits_value(le_digits(bytes)) == be_value(bytes),
    decreases bytes.len(),
{
    if bytes.len() > 0 {
        let high = without_trailing_bytes(bytes, 4);
        let low = trailing_bytes(bytes, 4);
        lemma_digits_value(high);
        crate::numeric::lemma_be_value_bound(low);
        crate::numeric::lemma_radix_pow_monotonic(low.len(), 4);
        crate::numeric::lemma_radix_pow_values();
        assert(le_digits(bytes).skip(1) =~= le_digits(high));
        if bytes.len() > 4 {
            assert(high + low =~= bytes);
            lemma_be_value_split(high, low);
        }
    }
}

/// A zero in the highest place does not change the number that digits write.
pub proof fn lemma_digits_value_leading_zero(digits: Seq<u32>)
    ensures
        digits_value(digits.push(0)) == digits_value(digits),
    decreases digits.len(),
{
    let longer = digits.push(0);
    if digits.len() == 0 {
        assert(longer.skip(1) =~= Seq::<u32>::empty());
        assert(digits_value(longer.skip(1)) == 0);
        assert(longer[0] == 0);
    } else {
        assert(longer.skip(1) =~= digits.skip(1).push(0));
        assert(longer[0] == digits[0]);
        lemma_digits_value_leading_zero(digits.skip(1));
    }
}

impl Cursor {
    /// The cursor after a byte string has been read as a sequence of bytes,
    /// and the bytes. A sequence that has come to its end gives none, a byte
    /// string gives its bytes and leaves the stack, and the empty string gives
    /// one zero byte.
    pub open spec fn bytes_read(self) -> (Cursor, Result<Seq<u8>, RlpError>) {
        let at = self.settled();
        if self.ended() {
            (at, Ok(Seq::empty()))
        } else {
            match at.top() {
                Some(RlpView::Bytes(bytes)) => (at.popped(), Ok(bytes)),
                Some(RlpView::Empty) => (at.popped(), Ok(seq![0u8])),
                Some(_) => (at, Err(RlpError::UnexpectedMatch)),
                None => (at, Err(RlpError::NoInputLeft)),
            }
        }
    }

    /// The cursor after a byte string has been read as a big number, and the
    /// number's digits in base 2^32, least significant first. A sequence that
    /// has come to its end gives none, a byte string gives the digits of the
    /// number it writes and leaves the stack, and the empty string gives the
    /// digit 0.
    pub open spec fn digits_read(self) -> (Cursor, Result<Seq<u32>, RlpError>) {
        let at = self.settled();
        if self.ended() {
            (at, Ok(Seq::empty()))
        } else {
            match at.top() {
                Some(RlpView::Bytes(bytes)) => (at.popped(), Ok(le_digits(bytes))),
                Some(RlpView::Empty) => (at.popped(), Ok(seq![0u32])),
                Some(_) => (at, Err(RlpError::UnexpectedMatch)),
                None => (at, Err(RlpError::NoInputLeft)),
            }
        }
    }

    /// Whether `now` is the cursor in the middle of reading the item at hand
    /// of `at` element by element, with `left` of the item's bytes to go, and
    /// `more` says that an element is to come.
    pub open spec fn reading(at: Cursor, now: Cursor, left: Seq<u8>, more: bool) -> bool {
        if more {
            left.len() > 0 && now == at.with_top(RlpView::Bytes(left))
        } else {
            left.len() == 0 && now == at.popped()
        }
    }
}

/// A byte string whose bytes have all gone leaves the stack.
proof fn lemma_drained_leaves(at: Cursor, left: Seq<u8>)
    requires
        at.stack.len() > 0,
    ensures
        at.with_top(RlpView::Bytes(left)).advance_outcome(false) == Ok::<bool, RlpError>(
            left.len() > 0,
        ),
        Cursor::reading(
            at,
            at.with_top(RlpView::Bytes(left)).advanced(false),
            left,
            left.len() > 0,
        ),
{
    let now = at.with_top(RlpView::Bytes(left));
    assert(now.stack.last() == RlpView::Bytes(left));
    assert(now.stack.drop_last() =~= at.stack.drop_last());
    assert(now.popped() == at.popped());
}

/// The first byte of a byte string goes, the others stay.
proof fn lemma_took_first(at: Cursor, left: Seq<u8>)
    requires
        at.stack.len() > 0,
        left.len() > 0,
    ensures
        at.with_top(RlpView::Bytes(left)).took_u8() == Ok::<(Cursor, u8), RlpError>(
            (at.with_top(RlpView::Bytes(left.skip(1))), left[0]),
        ),
{
    let now = at.with_top(RlpView::Bytes(left));
    assert(now.stack.last() == RlpView::Bytes(left));
    assert(now.stack.drop_last() =~= at.stack.drop_last());
}

/// The last four bytes of a byte string go, the others stay.
proof fn lemma_took_last(at: Cursor, left: Seq<u8>, width: nat)
    requires
        at.stack.len() > 0,
    ensures
        at.with_top(RlpView::Bytes(left)).took_number(width) == Ok::<(Cursor, nat), RlpError>(
            (
                at.with_top(RlpView::Bytes(without_trailing_bytes(left, width))),
                be_value(trailing_bytes(left, width)),
            ),
        ),
{
    let now = at.with_top(RlpView::Bytes(left));
    assert(now.stack.last() == RlpView::Bytes(left));
    assert(now.stack.drop_last() =~= at.stack.drop_last());
}

/// An item that is put in its own place changes nothing.
proof fn lemma_same_top(at: Cursor)
    requires
        at.stack.len() > 0,
    ensures
        at.with_top(at.stack.last()) == at,
{
    assert(at.stack.drop_last().push(at.stack.last()) =~= at.stack);
}

impl<'de> RlpDeserializer<'de> {
    /// Reads the byte string at hand as a sequence of bytes, one after the
    /// other, until none is left.
    pub fn read_bytes(&mut self) -> (out: Result<Vec<u8>, RlpError>)
        ensures
            final(self)@ == old(self)@.bytes_read().0,
            match old(self)@.bytes_read().1 {
                Ok(bytes) => out matches Ok(found) && found@ == bytes,
                Err(reason) => out == Err::<Vec<u8>, RlpError>(reason),
            },
    {
        let ghost at = self@.settled();
        let mut bytes: Vec<u8> = Vec::new();
        if !self.next_element(false)? {
            return Ok(bytes);
        }
        let first = self.next_u8()?;
        bytes.push(first);
        let ghost whole = match at.top() {
            Some(RlpView::Bytes(whole)) => whole,
            _ => seq![0u8],
        };
        let ghost mut left = whole.skip(1);
        proof {
            lemma_same_top(at);
            match at.top() {
                Some(RlpView::Bytes(given)) => {
                    lemma_took_first(at, given);
                },
                _ => {
                    assert(left =~= Seq::<u8>::empty());
                },
            }
            lemma_drained_leaves(at, left);
            assert(bytes@ + left =~= whole);
        }
        let mut more = self.next_element(false)?;
        while more
            invariant
                at.stack.len() > 0,
                Cursor::reading(at, self@, left, more),
                bytes@ + left == whole,
            decreases left.len(),
        {
            proof {
                lemma_took_first(at, left);
                lemma_drained_leaves(at, left.skip(1));
                assert((bytes@.push(left[0])) + left.skip(1) =~= bytes@ + left);
            }
            let byte = self.next_u8()?;
            bytes.push(byte);
            proof {
                left = left.skip(1);
            }
            more = self.next_element(false)?;
        }
        assert(bytes@ =~= bytes@ + left);
        Ok(bytes)
    }

    /// Reads the byte string at hand as a big number: a sequence of 32-bit
    /// digits, each taken from the end of what is left, until nothing is left.
    pub fn read_digits(&mut self) -> (out: Result<Vec<u32>, RlpError>)
        ensures
            final(self)@ == old(self)@.digits_read().0,
            match old(self)@.digits_read().1 {
                Ok(digits) => out matches Ok(found) && found@ == digits,
                Err(reason) => out == Err::<Vec<u32>, RlpError>(reason),
            },
    {
        let ghost at = self@.settled();
        let mut digits: Vec<u32> = Vec::new();
        if !self.next_element(false)? {
            return Ok(digits);
        }
        let first = self.next_u32()?;
        digits.push(first);
        let ghost whole = match at.top() {
            Some(RlpView::Bytes(whole)) => le_digits(whole),
            _ => seq![0u32],
        };
        let ghost mut left = match at.top() {
            Some(RlpView::Bytes(whole)) => without_trailing_bytes(whole, 4),
            _ => Seq::<u8>::empty(),
        };
        proof {
            lemma_same_top(at);
            match at.top() {
                Some(RlpView::Bytes(given)) => {
                    lemma_took_last(at, given, 4);
                },
                _ => {},
            }
            lemma_drained_leaves(at, left);
            assert(digits@ + le_digits(left) =~= whole);
        }
        let mut more = self.next_element(false)?;
        while more
            invariant
                at.stack.len() > 0,
                Cursor::reading(at, self@, left, more),
                digits@ + le_digits(left) == whole,
            decreases left.len(),
        {
            proof {
                lemma_took_last(at, left, 4);
                lemma_drained_leaves(at, without_trailing_bytes(left, 4));
                assert(digits@.push(be_value(trailing_bytes(left, 4)) as u32) + le_digits(
                    without_trailing_bytes(left, 4),
                ) =~= digits@ + le_digits(left));
            }
            let digit = self.next_u32()?;
            digits.push(digit);
            proof {
                left = without_trailing_bytes(left, 4);
            }
            more = self.next_element(false)?;
        }
        assert(digits@ =~= digits@ + le_digits(left));
        Ok(digits)
    }
}

} // verus!
