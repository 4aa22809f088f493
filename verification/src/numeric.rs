//! Big-endian integers from byte spans.
//!
//! Two flavours exist. The exact ones ([`u16_from_bytes_be`],
//! [`u32_from_bytes_be`]) accept only a span of the integer's own width and
//! serve the fixed-width fields of the index file. The padded ones take a span
//! of any length: a short span holds the low-order bytes of the number, a long
//! span is cut to the integer's width.

use vstd::prelude::*;

verus! {

/// Error for numeric conversions.
#[derive(Debug, Clone, Copy, PartialEq, Eq, Structural)]
pub enum NumericError {
    /// The byte span does not have the length of the requested integer.
    Conversion { expected: usize, found: usize },
}

/// The number that `bytes` writes in base 256, most significant byte first.
pub open spec fn be_value(bytes: Seq<u8>) -> nat
    decreases bytes.len(),
{
    if bytes.len() == 0 {
        0
    } else {
        be_value(bytes.drop_last()) * 256 + bytes.last() as nat
    }
}

/// 256 to the power `n`.
pub open spec fn radix_pow(n: nat) -> nat
    decreases n,
{
    if n == 0 {
        1
    } else {
        256 * radix_pow((n - 1) as nat)
    }
}

/// The first `n` bytes of `bytes`, or all of it where it is shorter.
pub open spec fn leading_bytes(bytes: Seq<u8>, n: nat) -> Seq<u8> {
    if bytes.len() <= n {
        bytes
    } else {
        bytes.subrange(0, n as int)
    }
}

/// The last `n` bytes of `bytes`, or all of it where it is shorter.
pub open spec fn trailing_bytes(bytes: Seq<u8>, n: nat) -> Seq<u8> {
    if bytes.len() <= n {
        bytes
    } else {
        bytes.subrange(bytes.len() - n, bytes.len() as int)
    }
}

/// What is left of `bytes` once its last `n` bytes are taken away.
pub open spec fn without_trailing_bytes(bytes: Seq<u8>, n: nat) -> Seq<u8> {
    if bytes.len() <= n {
        Seq::empty()
    } else {
        bytes.subrange(0, bytes.len() - n)
    }
}

/// The number of bytes in a `usize` on the machine at hand.
pub open spec fn usize_width() -> nat {
    (usize::BITS / 8) as nat
}

/// A span of `n` bytes writes a number below 256 to the power `n`.
pub proof fn lemma_be_value_bound(bytes: Seq<u8>)
    ensures
        be_value(bytes) < radix_pow(bytes.len()),
    decreases bytes.len(),
{
    if bytes.len() > 0 {
        lemma_be_value_bound(bytes.drop_last());
    }
}

/// Leading zero bytes do not change the number that a span writes.
pub proof fn lemma_be_value_leading_zero(bytes: Seq<u8>)
    ensures
        be_value(seq![0u8] + bytes) == be_value(bytes),
    decreases bytes.len(),
{
    let padded = seq![0u8] + bytes;
    if bytes.len() == 0 {
        assert(padded.drop_last() =~= Seq::<u8>::empty());
        assert(be_value(padded.drop_last()) == 0);
    } else {
        assert(padded.drop_last() =~= seq![0u8] + bytes.drop_last());
        lemma_be_value_leading_zero(bytes.drop_last());
    }
}

/// The powers of 256 that fit the machine integers.
pub proof fn lemma_radix_pow_values()
    ensures
        radix_pow(0) == 1,
        radix_pow(1) == 0x100,
        radix_pow(2) == 0x1_0000,
        radix_pow(3) == 0x100_0000,
        radix_pow(4) == 0x1_0000_0000,
        radix_pow(8) == 0x1_0000_0000_0000_0000,
{
    reveal_with_fuel(radix_pow, 9);
}

/// The powers of 256 grow with the exponent.
pub proof fn lemma_radix_pow_monotonic(a: nat, b: nat)
    requires
        a <= b,
    ensures
        radix_pow(a) <= radix_pow(b),
    decreases b,
{
    if a < b {
        lemma_radix_pow_monotonic(a, (b - 1) as nat);
    }
}

/// An array of `N` zero bytes.
pub fn zeroed<const N: usize>() -> (array: [u8; N])
    ensures
        array@ == Seq::new(N as nat, |i: int| 0u8),
{
    let array = [0u8; N];
    proof {
        vstd::array::axiom_spec_array_fill_for_copy_type::<u8, N>(0u8);
    }
    assert(array@ =~= Seq::new(N as nat, |i: int| 0u8));
    array
}

/// Folds the bytes `input[start..end]` into a number, most significant first.
fn fold_be(input: &[u8], start: usize, end: usize) -> (value: u64)
    requires
        start <= end <= input@.len(),
        end - start <= 8,
    ensures
        value == be_value(input@.subrange(start as int, end as int)),
{
    let mut value: u64 = 0;
    let mut i: usize = start;
    proof {
        assert(input@.subrange(start as int, start as int) =~= Seq::<u8>::empty());
        lemma_radix_pow_values();
    }
    while i < end
        invariant
            start <= i <= end <= input@.len(),
            end - start <= 8,
            value == be_value(input@.subrange(start as int, i as int)),
            value < radix_pow((i - start) as nat),
        decreases end - i,
    {
        let ghost taken = input@.subrange(start as int, i + 1);
        proof {
            assert(taken.drop_last() =~= input@.subrange(start as int, i as int));
            assert(taken.last() == input@[i as int]);
            lemma_be_value_bound(taken);
            lemma_radix_pow_monotonic((i + 1 - start) as nat, 8);
            lemma_radix_pow_values();
        }
        value = value * 256 + input[i] as u64;
        i = i + 1;
    }
    value
}

/// Converts a span of exactly 2 big-endian bytes into a `u16`.
pub fn u16_from_bytes_be(input: &[u8]) -> (result: Result<u16, NumericError>)
    ensures
        input@.len() == 2 ==> result == Ok::<u16, NumericError>(be_value(input@) as u16),
        input@.len() == 2 ==> be_value(input@) <= u16::MAX,
        input@.len() != 2 ==> result == Err::<u16, NumericError>(
            NumericError::Conversion { expected: 2, found: input.len() },
        ),
{
    if input.len() != 2 {
        return Err(NumericError::Conversion { expected: 2, found: input.len() });
    }
    let value = fold_be(input, 0, 2);
    proof {
        assert(input@.subrange(0, 2) =~= input@);
        lemma_be_value_bound(input@);
        lemma_radix_pow_values();
    }
    Ok(value as u16)
}

/// Converts a span of exactly 4 big-endian bytes into a `u32`.
pub fn u32_from_bytes_be(input: &[u8]) -> (result: Result<u32, NumericError>)
    ensures
        input@.len() == 4 ==> result == Ok::<u32, NumericError>(be_value(input@) as u32),
        input@.len() == 4 ==> be_value(input@) <= u32::MAX,
        input@.len() != 4 ==> result == Err::<u32, NumericError>(
            NumericError::Conversion { expected: 4, found: input.len() },
        ),
{
    if input.len() != 4 {
        return Err(NumericError::Conversion { expected: 4, found: input.len() });
    }
    let value = fold_be(input, 0, 4);
    proof {
        assert(input@.subrange(0, 4) =~= input@);
        lemma_be_value_bound(input@);
        lemma_radix_pow_values();
    }
    Ok(value as u32)
}

/// Converts the first bytes of a span into a `usize`, as many as a `usize`
/// holds. A shorter span holds the low-order bytes of the number.
pub fn usize_from_bytes_be(input: &[u8]) -> (result: Result<usize, NumericError>)
    ensures
        result == Ok::<usize, NumericError>(
            be_value(leading_bytes(input@, usize_width())) as usize,
        ),
        be_value(leading_bytes(input@, usize_width())) <= usize::MAX,
{
    let width: usize = (usize::BITS / 8) as usize;
    let end: usize = if input.len() <= width {
        input.len()
    } else {
        width
    };
    let value = fold_be(input, 0, end);
    proof {
        let taken = leading_bytes(input@, usize_width());
        assert(input@.subrange(0, end as int) =~= taken);
        lemma_be_value_bound(taken);
        lemma_radix_pow_monotonic(taken.len(), usize_width());
        lemma_radix_pow_values();
    }
    Ok(value as usize)
}

/// Converts the last 4 bytes of a span into a `u32`. A shorter span holds the
/// low-order bytes of the number.
pub fn u32_from_bytes_end_be(input: &[u8]) -> (result: Result<u32, NumericError>)
    ensures
        result == Ok::<u32, NumericError>(be_value(trailing_bytes(input@, 4)) as u32),
        be_value(trailing_bytes(input@, 4)) <= u32::MAX,
{
    let len = input.len();
    let start: usize = if len <= 4 {
        0
    } else {
        len - 4
    };
    let value = fold_be(input, start, len);
    proof {
        let taken = trailing_bytes(input@, 4);
        assert(input@.subrange(start as int, len as int) =~= taken);
        lemma_be_value_bound(taken);
        lemma_radix_pow_monotonic(taken.len(), 4);
        lemma_radix_pow_values();
    }
    Ok(value as u32)
}

/// Converts the last 8 bytes of a span into a `u64`. A shorter span holds the
/// low-order bytes of the number.
pub fn u64_from_bytes_end_be(input: &[u8]) -> (result: Result<u64, NumericError>)
    ensures
        result == Ok::<u64, NumericError>(be_value(trailing_bytes(input@, 8)) as u64),
        be_value(trailing_bytes(input@, 8)) <= u64::MAX,
{
    let len = input.len();
    let start: usize = if len <= 8 {
        0
    } else {
        len - 8
    };
    let value = fold_be(input, start, len);
    proof {
        let taken = trailing_bytes(input@, 8);
        assert(input@.subrange(start as int, len as int) =~= taken);
        lemma_be_value_bound(taken);
        lemma_radix_pow_monotonic(taken.len(), 8);
        lemma_radix_pow_values();
    }
    Ok(value)
}

} // verus!
