//! The pull decoder: a cursor into nested RLP items that hands out one typed
//! value at a time.
//!
//! The cursor keeps the path from the outermost item to the one at hand as a
//! stack. Each item on the stack holds only what is left of it: a list loses a
//! member's bytes when the member is taken from it, a byte string loses the
//! bytes that a value has used up. Nothing is parsed before it is asked for.

use super::parse::{parse, parse_spec, views, Rlp, RlpView};
use super::RlpError;
use crate::numeric::{be_value, trailing_bytes, u32_from_bytes_end_be, u64_from_bytes_end_be,
    without_trailing_bytes};
use vstd::prelude::*;

verus! {

/// A deserializer used to convert from RLP bytes into the different types.
#[derive(Debug)]
pub struct RlpDeserializer<'de> {
    parsed: Vec<Rlp<'de>>,
    rest: &'de [u8],
}

/// The cursor as a value.
pub struct Cursor {
    /// The items that have been entered and not left, the outermost first,
    /// each with what is left of it.
    pub stack: Seq<RlpView>,
    /// The bytes behind the outermost items that have been taken.
    pub rest: Seq<u8>,
}

impl RlpView {
    /// Whether nothing is left of the item and it is due to leave the stack.
    /// The marker of the empty string is not: it still stands for a value.
    pub open spec fn exhausted(self) -> bool {
        match self {
            RlpView::Bytes(bytes) => bytes.len() == 0,
            RlpView::List(bytes) => bytes.len() == 0,
            RlpView::EmptyList => true,
            RlpView::Empty => false,
        }
    }
}

impl Cursor {
    /// The item at hand.
    pub open spec fn top(self) -> Option<RlpView> {
        if self.stack.len() > 0 {
            Some(self.stack.last())
        } else {
            None
        }
    }

    /// The cursor without the item at hand.
    pub open spec fn popped(self) -> Cursor {
        Cursor { stack: self.stack.drop_last(), rest: self.rest }
    }

    /// The cursor with another item in the place of the item at hand.
    pub open spec fn with_top(self, item: RlpView) -> Cursor {
        Cursor { stack: self.stack.drop_last().push(item), rest: self.rest }
    }

    /// The cursor after the step into the next item. Where the item at hand
    /// is a list, the next item is its next member; otherwise it is the item
    /// at the front of the bytes that no item has claimed.
    pub open spec fn descended(self) -> Result<Cursor, RlpError> {
        match self.top() {
            Some(RlpView::List(members)) => match parse_spec(members) {
                Ok((item, used)) => Ok(
                    Cursor {
                        stack: self.stack.drop_last().push(RlpView::List(members.skip(used))).push(
                            item,
                        ),
                        rest: self.rest,
                    },
                ),
                Err(reason) => Err(reason),
            },
            _ => match parse_spec(self.rest) {
                Ok((item, used)) => Ok(
                    Cursor { stack: self.stack.push(item), rest: self.rest.skip(used) },
                ),
                Err(reason) => Err(reason),
            },
        }
    }

    /// The cursor after a byte has been taken from the item at hand, and the
    /// byte: the first one of a byte string, 0 for the empty string.
    pub open spec fn took_u8(self) -> Result<(Cursor, u8), RlpError> {
        match self.top() {
            None => Err(RlpError::NoInputLeft),
            Some(RlpView::Bytes(bytes)) => if bytes.len() == 0 {
                Err(RlpError::NoInputLeft)
            } else {
                Ok((self.with_top(RlpView::Bytes(bytes.skip(1))), bytes[0]))
            },
            Some(RlpView::Empty) => Ok((self.with_top(RlpView::Bytes(Seq::empty())), 0)),
            Some(_) => Err(RlpError::UnexpectedMatch),
        }
    }

    /// The cursor after a number of `width` bytes has been taken from the item
    /// at hand, and the number: what the last `width` bytes of a byte string
    /// write, 0 for the empty string.
    pub open spec fn took_number(self, width: nat) -> Result<(Cursor, nat), RlpError> {
        match self.top() {
            None => Err(RlpError::NoInputLeft),
            Some(RlpView::Bytes(bytes)) => Ok(
                (
                    self.with_top(RlpView::Bytes(without_trailing_bytes(bytes, width))),
                    be_value(trailing_bytes(bytes, width)),
                ),
            ),
            Some(RlpView::Empty) => Ok((self.with_top(RlpView::Bytes(Seq::empty())), 0)),
            Some(_) => Err(RlpError::UnexpectedMatch),
        }
    }

    /// The cursor after an array of `len` bytes has been taken from the item at
    /// hand, and the bytes: the first `len` of a byte string, zeros for the
    /// empty string.
    pub open spec fn took_array(self, len: nat) -> Result<(Cursor, Seq<u8>), RlpError> {
        match self.top() {
            None => Err(RlpError::NoInputLeft),
            Some(RlpView::Bytes(bytes)) => if bytes.len() < len {
                Err(RlpError::NoInputLeft)
            } else {
                Ok((self.with_top(RlpView::Bytes(bytes.skip(len as int))), bytes.take(len as int)))
            },
            Some(RlpView::Empty) => Ok(
                (self.with_top(RlpView::Bytes(Seq::empty())), Seq::new(len, |i: int| 0u8)),
            ),
            Some(_) => Err(RlpError::UnexpectedMatch),
        }
    }

    /// The cursor once the items of which nothing is left have gone: first a
    /// list without members left, then one more item if nothing is left of it.
    pub open spec fn settled(self) -> Cursor {
        let first = if self.top() matches Some(RlpView::List(members)) && members.len() == 0 {
            self.popped()
        } else {
            self
        };
        if first.top() matches Some(item) && item.exhausted() {
            first.popped()
        } else {
            first
        }
    }

    /// Whether the sequence at hand has come to its end: whether, once a list
    /// without members left has gone, nothing is left of the item at hand.
    pub open spec fn ended(self) -> bool {
        let first = if self.top() matches Some(RlpView::List(members)) && members.len() == 0 {
            self.popped()
        } else {
            self
        };
        first.top() matches Some(item) && item.exhausted()
    }

    /// The cursor after the move to the next element of a sequence.
    ///
    /// A sequence whose length the reader knows (`iterate`) steps into its
    /// next member each time. One of open length does not: its elements take
    /// their bytes from the item at hand, and it is over when nothing is left
    /// of that item.
    pub open spec fn advanced(self, iterate: bool) -> Cursor {
        if iterate {
            match self.settled().descended() {
                Ok(next) => next,
                Err(_) => self.settled(),
            }
        } else {
            self.settled()
        }
    }

    /// What the move to the next element of a sequence returns: whether there
    /// is an element, or why the step into it fails.
    pub open spec fn advance_outcome(self, iterate: bool) -> Result<bool, RlpError> {
        if iterate {
            match self.settled().descended() {
                Ok(_) => Ok(true),
                Err(reason) => Err(reason),
            }
        } else {
            Ok(!self.ended())
        }
    }
}

impl RlpView {
    /// A measure of what is left to read of the item, which every step of the
    /// cursor brings down or leaves as it is: a byte of a byte string counts
    /// twice, a byte of a list four times, and the item itself once, the empty
    /// string twice.
    pub open spec fn weight(self) -> nat {
        match self {
            RlpView::Bytes(bytes) => 2 * bytes.len() + 1,
            RlpView::List(bytes) => 4 * bytes.len() + 1,
            RlpView::EmptyList => 1,
            RlpView::Empty => 2,
        }
    }
}

/// The weights of the items of a stack, added up.
pub open spec fn stack_weight(stack: Seq<RlpView>) -> nat
    decreases stack.len(),
{
    if stack.len() == 0 {
        0
    } else {
        stack_weight(stack.drop_last()) + stack.last().weight()
    }
}

impl Cursor {
    /// A measure of what is left to read: the weights of the items on the
    /// stack, and four for each byte that no item has claimed.
    pub open spec fn weight(self) -> nat {
        4 * self.rest.len() + stack_weight(self.stack)
    }
}

/// An item weighs less than four times the bytes it takes up in the span that
/// it is parsed from.
pub proof fn lemma_item_weight(input: Seq<u8>)
    requires
        parse_spec(input) is Ok,
    ensures
        0 < parse_spec(input).unwrap().1 <= input.len(),
        parse_spec(input).unwrap().0.weight() < 4 * parse_spec(input).unwrap().1,
{
}

/// The weight of a stack with one more item.
pub proof fn lemma_pushed_weight(stack: Seq<RlpView>, item: RlpView)
    ensures
        stack_weight(stack.push(item)) == stack_weight(stack) + item.weight(),
{
    assert(stack.push(item).drop_last() =~= stack);
}

/// The weight of a cursor with another item in the place of the item at hand.
pub proof fn lemma_with_top_weight(cursor: Cursor, item: RlpView)
    requires
        cursor.stack.len() > 0,
    ensures
        cursor.with_top(item).weight() + cursor.stack.last().weight() == cursor.weight()
            + item.weight(),
{
    lemma_pushed_weight(cursor.stack.drop_last(), item);
}

/// Every step into an item brings the weight down.
pub proof fn lemma_descended_weight(cursor: Cursor)
    requires
        cursor.descended() is Ok,
    ensures
        cursor.descended().unwrap().weight() < cursor.weight(),
{
    match cursor.top() {
        Some(RlpView::List(members)) => {
            lemma_item_weight(members);
            let (item, used) = parse_spec(members).unwrap();
            let shorter = RlpView::List(members.skip(used));
            lemma_pushed_weight(cursor.stack.drop_last(), shorter);
            lemma_pushed_weight(cursor.stack.drop_last().push(shorter), item);
        },
        _ => {
            lemma_item_weight(cursor.rest);
            let (item, used) = parse_spec(cursor.rest).unwrap();
            lemma_pushed_weight(cursor.stack, item);
        },
    }
}

/// Items that leave the stack take their weight with them.
pub proof fn lemma_settled_weight(cursor: Cursor)
    ensures
        cursor.settled().weight() <= cursor.weight(),
        cursor.ended() ==> cursor.settled().weight() < cursor.weight(),
{
    let first = match cursor.top() {
        Some(RlpView::List(members)) => if members.len() == 0 {
            cursor.popped()
        } else {
            cursor
        },
        _ => cursor,
    };
    assert(first.weight() <= cursor.weight());
    if first.stack.len() > 0 {
        assert(first.popped().weight() < first.weight());
    }
}

/// A value that is taken from a byte string takes bytes with it, and with
/// them weight; the empty string turns into a byte string without bytes, which
/// weighs less.
pub proof fn lemma_took_weight(cursor: Cursor, width: nat)
    ensures
        cursor.took_u8() is Ok ==> cursor.took_u8().unwrap().0.weight() < cursor.weight(),
        cursor.took_number(width) is Ok ==> cursor.took_number(width).unwrap().0.weight()
            <= cursor.weight(),
        cursor.took_number(width) is Ok && width > 0 && cursor.top() != Some(
            RlpView::Bytes(Seq::empty()),
        ) ==> cursor.took_number(width).unwrap().0.weight() < cursor.weight(),
        cursor.took_array(width) is Ok ==> cursor.took_array(width).unwrap().0.weight()
            <= cursor.weight(),
{
    if cursor.stack.len() > 0 {
        match cursor.stack.last() {
            RlpView::Bytes(bytes) => {
                lemma_with_top_weight(cursor, RlpView::Bytes(bytes.skip(1)));
                lemma_with_top_weight(
                    cursor,
                    RlpView::Bytes(without_trailing_bytes(bytes, width)),
                );
                lemma_with_top_weight(cursor, RlpView::Bytes(bytes.skip(width as int)));
                if bytes.len() == 0 {
                    assert(bytes =~= Seq::<u8>::empty());
                }
            },
            RlpView::Empty => {
                lemma_with_top_weight(cursor, RlpView::Bytes(Seq::empty()));
            },
            _ => {},
        }
    }
}

/// An array of one byte or more that is taken from a byte string takes weight
/// with it.
pub proof fn lemma_took_array_weight(cursor: Cursor, len: nat)
    requires
        len > 0,
        cursor.took_array(len) is Ok,
    ensures
        cursor.took_array(len).unwrap().0.weight() < cursor.weight(),
{
    match cursor.stack.last() {
        RlpView::Bytes(bytes) => {
            lemma_with_top_weight(cursor, RlpView::Bytes(bytes.skip(len as int)));
        },
        _ => {
            lemma_with_top_weight(cursor, RlpView::Bytes(Seq::empty()));
        },
    }
}

impl<'de> View for RlpDeserializer<'de> {
    type V = Cursor;

    closed spec fn view(&self) -> Cursor {
        Cursor { stack: views(self.parsed@), rest: self.rest@ }
    }
}

impl<'de> RlpDeserializer<'de> {
    /// Create a new rlp deserializer from some byte slice.
    pub fn new(bytes: &'de [u8]) -> (out: Result<RlpDeserializer<'de>, RlpError>)
        ensures
            out matches Ok(deserializer) && deserializer@ == (Cursor {
                stack: Seq::empty(),
                rest: bytes@,
            }),
    {
        let deserializer = RlpDeserializer { parsed: Vec::new(), rest: bytes };
        assert(views(deserializer.parsed@) =~= Seq::<RlpView>::empty());
        Ok(deserializer)
    }

    /// Puts `item` on the stack.
    fn push(&mut self, item: Rlp<'de>)
        ensures
            final(self)@ == (Cursor {
                stack: old(self)@.stack.push(item@),
                rest: old(self)@.rest,
            }),
    {
        self.parsed.push(item);
        assert(views(self.parsed@) =~= views(old(self).parsed@).push(item@));
    }

    /// Takes the item at hand off the stack.
    fn pop(&mut self) -> (item: Rlp<'de>)
        requires
            old(self)@.stack.len() > 0,
        ensures
            final(self)@ == old(self)@.popped(),
            item@ == old(self)@.stack.last(),
    {
        let item = self.parsed.pop().unwrap();
        assert(views(self.parsed@) =~= views(old(self).parsed@).drop_last());
        item
    }

    /// Puts `item` in the place of the item at hand.
    fn replace_top(&mut self, item: Rlp<'de>)
        requires
            old(self)@.stack.len() > 0,
        ensures
            final(self)@ == old(self)@.with_top(item@),
    {
        self.pop();
        self.push(item);
    }

    /// Puts a byte string without bytes in the place of the item at hand.
    fn empty_top(&mut self)
        requires
            old(self)@.stack.len() > 0,
        ensures
            final(self)@ == old(self)@.with_top(RlpView::Bytes(Seq::empty())),
    {
        let nothing = &self.rest[0..0];
        assert(nothing@ =~= Seq::<u8>::empty());
        self.replace_top(Rlp::Bytes(nothing));
    }

    /// The item at hand.
    fn last(&self) -> (item: Option<Rlp<'de>>)
        ensures
            match item {
                Some(top) => self@.top() == Some(top@),
                None => self@.top() is None,
            },
    {
        let depth = self.parsed.len();
        if depth == 0 {
            None
        } else {
            Some(self.parsed[depth - 1])
        }
    }

    /// Steps into the next item and puts it on the stack: the next member of
    /// the list at hand, or, where the item at hand is no list, the item at the
    /// front of the bytes that no item has claimed.
    pub fn parse(&mut self) -> (out: Result<(), RlpError>)
        ensures
            match old(self)@.descended() {
                Ok(next) => out is Ok && final(self)@ == next,
                Err(reason) => out == Err::<(), RlpError>(reason) && final(self)@ == old(self)@,
            },
    {
        if let Some(Rlp::List(inner)) = self.last() {
            let (parsed, slice) = parse(inner)?;
            self.pop();
            self.push(Rlp::List(slice));
            self.push(parsed);
            return Ok(());
        }
        let (parsed, slice) = parse(self.rest)?;
        self.rest = slice;
        self.push(parsed);
        Ok(())
    }

    /// Takes the item at hand off the stack and returns it.
    pub fn pop_stack(&mut self) -> (out: Result<Rlp<'de>, RlpError>)
        ensures
            match old(self)@.top() {
                Some(item) => out matches Ok(found) && found@ == item && final(self)@ == old(
                    self,
                )@.popped(),
                None => out == Err::<Rlp<'de>, RlpError>(RlpError::NoInputLeft) && final(self)@
                    == old(self)@,
            },
    {
        if self.parsed.len() == 0 {
            return Err(RlpError::NoInputLeft);
        }
        Ok(self.pop())
    }

    /// The number of bytes that are left of the item at hand. The two empty
    /// markers count as one byte: they are still to be taken.
    pub fn last_element_len(&self) -> (out: Result<usize, RlpError>)
        ensures
            match self@.top() {
                Some(RlpView::Bytes(bytes)) => out == Ok::<usize, RlpError>(bytes.len() as usize),
                Some(RlpView::List(bytes)) => out == Ok::<usize, RlpError>(bytes.len() as usize),
                Some(_) => out == Ok::<usize, RlpError>(1),
                None => out == Err::<usize, RlpError>(RlpError::NoSizeHint),
            },
    {
        match self.last() {
            Some(Rlp::Bytes(inner)) => Ok(inner.len()),
            Some(Rlp::List(inner)) => Ok(inner.len()),
            Some(Rlp::Empty) => Ok(1),
            Some(Rlp::EmptyList) => Ok(1),
            None => Err(RlpError::NoSizeHint),
        }
    }

    /// Takes a `u8` from the byte string at hand: its first byte. The empty
    /// string gives 0.
    pub fn next_u8(&mut self) -> (out: Result<u8, RlpError>)
        ensures
            match old(self)@.took_u8() {
                Ok((next, value)) => out == Ok::<u8, RlpError>(value) && final(self)@ == next,
                Err(reason) => out == Err::<u8, RlpError>(reason) && final(self)@ == old(self)@,
            },
    {
        match self.last() {
            Some(Rlp::Bytes(bytes)) => {
                if bytes.len() == 0 {
                    return Err(RlpError::NoInputLeft);
                }
                let byte = bytes[0];
                let tail = &bytes[1..bytes.len()];
                assert(tail@ =~= bytes@.skip(1));
                self.replace_top(Rlp::Bytes(tail));
                Ok(byte)
            },
            Some(Rlp::Empty) => {
                self.empty_top();
                Ok(0)
            },
            Some(_) => Err(RlpError::UnexpectedMatch),
            None => Err(RlpError::NoInputLeft),
        }
    }

    /// Takes a `u32` from the byte string at hand: the number that its last
    /// four bytes write. The empty string gives 0.
    pub fn next_u32(&mut self) -> (out: Result<u32, RlpError>)
        ensures
            match old(self)@.took_number(4) {
                Ok((next, value)) => out == Ok::<u32, RlpError>(value as u32) && value
                    <= u32::MAX && final(self)@ == next,
                Err(reason) => out == Err::<u32, RlpError>(reason) && final(self)@ == old(self)@,
            },
    {
        match self.last() {
            Some(Rlp::Bytes(bytes)) => {
                let value = match u32_from_bytes_end_be(bytes) {
                    Ok(value) => value,
                    Err(error) => {
                        return Err(RlpError::Conversion(error));
                    },
                };
                let kept = if bytes.len() <= 4 {
                    0
                } else {
                    bytes.len() - 4
                };
                let head = &bytes[0..kept];
                assert(head@ =~= without_trailing_bytes(bytes@, 4));
                self.replace_top(Rlp::Bytes(head));
                Ok(value)
            },
            Some(Rlp::Empty) => {
                self.empty_top();
                Ok(0)
            },
            Some(_) => Err(RlpError::UnexpectedMatch),
            None => Err(RlpError::NoInputLeft),
        }
    }

    /// Takes a `u64` from the byte string at hand: the number that its last
    /// eight bytes write. The empty string gives 0.
    pub fn next_u64(&mut self) -> (out: Result<u64, RlpError>)
        ensures
            match old(self)@.took_number(8) {
                Ok((next, value)) => out == Ok::<u64, RlpError>(value as u64) && value
                    <= u64::MAX && final(self)@ == next,
                Err(reason) => out == Err::<u64, RlpError>(reason) && final(self)@ == old(self)@,
            },
    {
        match self.last() {
            Some(Rlp::Bytes(bytes)) => {
                let value = match u64_from_bytes_end_be(bytes) {
                    Ok(value) => value,
                    Err(error) => {
                        return Err(RlpError::Conversion(error));
                    },
                };
                let kept = if bytes.len() <= 8 {
                    0
                } else {
                    bytes.len() - 8
                };
                let head = &bytes[0..kept];
                assert(head@ =~= without_trailing_bytes(bytes@, 8));
                self.replace_top(Rlp::Bytes(head));
                Ok(value)
            },
            Some(Rlp::Empty) => {
                self.empty_top();
                Ok(0)
            },
            Some(_) => Err(RlpError::UnexpectedMatch),
            None => Err(RlpError::NoInputLeft),
        }
    }

    /// Takes an array of `N` bytes from the byte string at hand: its first `N`
    /// bytes. The empty string gives zeros.
    pub fn next_array<const N: usize>(&mut self) -> (out: Result<[u8; N], RlpError>)
        ensures
            match old(self)@.took_array(N as nat) {
                Ok((next, bytes)) => out matches Ok(array) && array@ == bytes && final(self)@
                    == next,
                Err(reason) => out == Err::<[u8; N], RlpError>(reason) && final(self)@ == old(
                    self,
                )@,
            },
    {
        match self.last() {
            Some(Rlp::Bytes(bytes)) => {
                if bytes.len() < N {
                    return Err(RlpError::NoInputLeft);
                }
                let mut array = crate::numeric::zeroed::<N>();
                let mut i: usize = 0;
                while i < N
                    invariant
                        i <= N <= bytes@.len(),
                        forall|k: int| 0 <= k < i ==> array@[k] == bytes@[k],
                    decreases N - i,
                {
                    array[i] = bytes[i];
                    i = i + 1;
                }
                assert(array@ =~= bytes@.take(N as int));
                let tail = &bytes[N..bytes.len()];
                assert(tail@ =~= bytes@.skip(N as int));
                self.replace_top(Rlp::Bytes(tail));
                Ok(array)
            },
            Some(Rlp::Empty) => {
                self.empty_top();
                Ok(crate::numeric::zeroed::<N>())
            },
            Some(_) => Err(RlpError::UnexpectedMatch),
            None => Err(RlpError::NoInputLeft),
        }
    }

    /// Moves to the next element of the sequence at hand and says whether
    /// there is one.
    ///
    /// Items of which nothing is left leave the stack first. With `iterate`
    /// the sequence is one whose length the reader knows: the cursor steps into
    /// the next member each time, and fails where there is none. Without, the
    /// sequence is over when nothing is left of the item at hand.
    pub fn next_element(&mut self, iterate: bool) -> (out: Result<bool, RlpError>)
        ensures
            out == old(self)@.advance_outcome(iterate),
            final(self)@ == old(self)@.advanced(iterate),
    {
        if let Some(Rlp::List(members)) = self.last() {
            if members.len() == 0 {
                self.pop();
            }
        }
        let ended = match self.last() {
            Some(Rlp::List(members)) => members.len() == 0,
            Some(Rlp::Bytes(bytes)) => bytes.len() == 0,
            Some(Rlp::EmptyList) => true,
            _ => false,
        };
        if ended {
            self.pop();
            if !iterate {
                return Ok(false);
            }
        }
        if iterate {
            self.parse()?;
        }
        Ok(true)
    }
}

} // verus!
