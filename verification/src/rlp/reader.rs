//! The course of a decoder as a value: where the cursor stands, and whether a
//! step has failed. Once a step has failed, the steps behind it do nothing, so
//! that a record's decoding reads as one step after the other.

use super::deserializer::{lemma_descended_weight, lemma_settled_weight, lemma_took_weight, Cursor};
use super::fields::digits_value;
use super::RlpError;
use vstd::prelude::*;

verus! {

/// A cursor, and the failure that has stopped the decoder, if one has.
pub struct Reader {
    pub cursor: Cursor,
    pub failure: Option<RlpError>,
}

impl Reader {
    /// A decoder that sets out at `cursor`.
    pub open spec fn start(cursor: Cursor) -> Reader {
        Reader { cursor, failure: None }
    }

    /// The decoder, stopped at `cursor` by `failure`.
    pub open spec fn stopped(cursor: Cursor, failure: RlpError) -> Reader {
        Reader { cursor, failure: Some(failure) }
    }

    /// The decoder behind the step into the next item.
    pub open spec fn entered(self) -> Reader {
        if self.failure is Some {
            self
        } else {
            match self.cursor.descended() {
                Ok(next) => Reader::start(next),
                Err(failure) => Reader::stopped(self.cursor, failure),
            }
        }
    }

    /// The decoder behind the move to the next field of a record.
    pub open spec fn field(self) -> Reader {
        if self.failure is Some {
            self
        } else {
            match self.cursor.advance_outcome(true) {
                Ok(_) => Reader::start(self.cursor.advanced(true)),
                Err(failure) => Reader::stopped(self.cursor.advanced(true), failure),
            }
        }
    }

    /// The decoder behind the move to the next element of a sequence of open
    /// length, and whether there is one.
    pub open spec fn more(self) -> (Reader, bool) {
        if self.failure is Some {
            (self, false)
        } else {
            (Reader::start(self.cursor.advanced(false)), !self.cursor.ended())
        }
    }

    /// The decoder behind the move to an element that has to be there.
    pub open spec fn element(self) -> Reader {
        if self.failure is Some {
            self
        } else if self.cursor.ended() {
            Reader::stopped(self.cursor.advanced(false), RlpError::NoInputLeft)
        } else {
            Reader::start(self.cursor.advanced(false))
        }
    }

    /// The decoder behind a `u8`, and the number.
    pub open spec fn u8(self) -> (Reader, u8) {
        if self.failure is Some {
            (self, 0)
        } else {
            match self.cursor.took_u8() {
                Ok((next, value)) => (Reader::start(next), value),
                Err(failure) => (Reader::stopped(self.cursor, failure), 0),
            }
        }
    }

    /// The decoder behind a `u64`, and the number.
    pub open spec fn u64(self) -> (Reader, u64) {
        if self.failure is Some {
            (self, 0)
        } else {
            match self.cursor.took_number(8) {
                Ok((next, value)) => (Reader::start(next), value as u64),
                Err(failure) => (Reader::stopped(self.cursor, failure), 0),
            }
        }
    }

    /// The decoder behind an array of `len` bytes, and the bytes.
    pub open spec fn array(self, len: nat) -> (Reader, Seq<u8>) {
        if self.failure is Some {
            (self, Seq::empty())
        } else {
            match self.cursor.took_array(len) {
                Ok((next, bytes)) => (Reader::start(next), bytes),
                Err(failure) => (Reader::stopped(self.cursor, failure), Seq::empty()),
            }
        }
    }

    /// The decoder behind a byte string of open length, and its bytes.
    pub open spec fn bytes(self) -> (Reader, Seq<u8>) {
        if self.failure is Some {
            (self, Seq::empty())
        } else {
            match self.cursor.bytes_read().1 {
                Ok(bytes) => (Reader::start(self.cursor.bytes_read().0), bytes),
                Err(failure) => (
                    Reader::stopped(self.cursor.bytes_read().0, failure),
                    Seq::empty(),
                ),
            }
        }
    }

    /// The decoder behind a big number, and the number.
    pub open spec fn big(self) -> (Reader, nat) {
        if self.failure is Some {
            (self, 0)
        } else {
            match self.cursor.digits_read().1 {
                Ok(digits) => (Reader::start(self.cursor.digits_read().0), digits_value(digits)),
                Err(failure) => (Reader::stopped(self.cursor.digits_read().0, failure), 0),
            }
        }
    }

    /// The decoder behind a check of what it has read: stopped where the
    /// check fails, unless it has been stopped before.
    pub open spec fn checked<T>(self, outcome: Result<T, RlpError>) -> Reader {
        if self.failure is Some {
            self
        } else {
            match outcome {
                Ok(_) => self,
                Err(failure) => Reader::stopped(self.cursor, failure),
            }
        }
    }
}

/// Whether a decoder that came to `end` leaves the cursor at `now` and returns
/// `out`: the value it has read, or the failure that stopped it.
pub open spec fn yields<T: View>(end: (Reader, T::V), now: Cursor, out: Result<T, RlpError>) -> bool {
    &&& now == end.0.cursor
    &&& match end.0.failure {
        None => out matches Ok(value) && value@ == end.1,
        Some(failure) => out == Err::<T, RlpError>(failure),
    }
}

/// A decoder's contract leaves no choice: two outcomes that meet it for the
/// same course leave the cursor at the same place, and return the same value
/// or the same failure. Whoever decodes the same bytes twice gets the same
/// twice.
pub proof fn lemma_yields_one_outcome<T: View>(
    end: (Reader, T::V),
    first_cursor: Cursor,
    first: Result<T, RlpError>,
    second_cursor: Cursor,
    second: Result<T, RlpError>,
)
    requires
        yields(end, first_cursor, first),
        yields(end, second_cursor, second),
    ensures
        first_cursor == second_cursor,
        first is Ok <==> second is Ok,
        first is Ok ==> first.unwrap()@ == second.unwrap()@,
        first is Err ==> first == second,
{
}

/// The step into an item takes weight off the cursor, and a decoder that has
/// been stopped stays stopped.
pub broadcast proof fn lemma_entered(reader: Reader)
    ensures
        (#[trigger] reader.entered()).cursor.weight() <= reader.cursor.weight(),
        reader.entered().failure is None ==> reader.failure is None
            && reader.entered().cursor.weight() < reader.cursor.weight(),
{
    lemma_steps_weigh_down(reader, 0);
}

/// The move to the next field takes weight off the cursor, and a decoder that
/// has been stopped stays stopped.
pub broadcast proof fn lemma_field(reader: Reader)
    ensures
        (#[trigger] reader.field()).cursor.weight() <= reader.cursor.weight(),
        reader.field().failure is None ==> reader.failure is None
            && reader.field().cursor.weight() < reader.cursor.weight(),
{
    lemma_steps_weigh_down(reader, 0);
}

/// The move to an element puts no weight on the cursor, and a decoder that
/// has been stopped stays stopped.
pub broadcast proof fn lemma_element(reader: Reader)
    ensures
        (#[trigger] reader.element()).cursor.weight() <= reader.cursor.weight(),
        reader.element().failure is None ==> reader.failure is None,
{
    lemma_steps_weigh_down(reader, 0);
}

/// A `u8` takes weight off the cursor, and a decoder that has been stopped
/// stays stopped.
pub broadcast proof fn lemma_u8(reader: Reader)
    ensures
        (#[trigger] reader.u8()).0.cursor.weight() <= reader.cursor.weight(),
        reader.u8().0.failure is None ==> reader.failure is None,
{
    lemma_steps_weigh_down(reader, 0);
}

/// A `u64` puts no weight on the cursor, and a decoder that has been stopped
/// stays stopped.
pub broadcast proof fn lemma_u64(reader: Reader)
    ensures
        (#[trigger] reader.u64()).0.cursor.weight() <= reader.cursor.weight(),
        reader.u64().0.failure is None ==> reader.failure is None,
{
    lemma_steps_weigh_down(reader, 0);
}

/// An array puts no weight on the cursor, and a decoder that has been stopped
/// stays stopped.
pub broadcast proof fn lemma_array(reader: Reader, len: nat)
    ensures
        (#[trigger] reader.array(len)).0.cursor.weight() <= reader.cursor.weight(),
        reader.array(len).0.failure is None ==> reader.failure is None,
{
    lemma_steps_weigh_down(reader, len);
}

/// A byte string puts no weight on the cursor, and a decoder that has been
/// stopped stays stopped.
pub broadcast proof fn lemma_bytes(reader: Reader)
    ensures
        (#[trigger] reader.bytes()).0.cursor.weight() <= reader.cursor.weight(),
        reader.bytes().0.failure is None ==> reader.failure is None,
{
    lemma_steps_weigh_down(reader, 0);
}

/// A big number puts no weight on the cursor, and a decoder that has been
/// stopped stays stopped.
pub broadcast proof fn lemma_big(reader: Reader)
    ensures
        (#[trigger] reader.big()).0.cursor.weight() <= reader.cursor.weight(),
        reader.big().0.failure is None ==> reader.failure is None,
{
    lemma_steps_weigh_down(reader, 0);
}

/// A check leaves the cursor where it is, and a decoder that has been stopped
/// stays stopped.
pub broadcast proof fn lemma_checked<T>(reader: Reader, outcome: Result<T, RlpError>)
    ensures
        (#[trigger] reader.checked(outcome)).cursor == reader.cursor,
        reader.checked(outcome).failure is None ==> reader.failure is None,
{
}

pub broadcast group group_steps {
    lemma_entered,
    lemma_field,
    lemma_element,
    lemma_u8,
    lemma_u64,
    lemma_array,
    lemma_bytes,
    lemma_big,
    lemma_checked,
}

/// No step of a decoder puts weight on the cursor, and a step into an item
/// takes weight off it.
pub proof fn lemma_steps_weigh_down(reader: Reader, len: nat)
    ensures
        reader.entered().cursor.weight() <= reader.cursor.weight(),
        reader.failure is None && reader.entered().failure is None
            ==> reader.entered().cursor.weight() < reader.cursor.weight(),
        reader.field().cursor.weight() <= reader.cursor.weight(),
        reader.failure is None && reader.field().failure is None
            ==> reader.field().cursor.weight() < reader.cursor.weight(),
        reader.more().0.cursor.weight() <= reader.cursor.weight(),
        reader.element().cursor.weight() <= reader.cursor.weight(),
        reader.u8().0.cursor.weight() <= reader.cursor.weight(),
        reader.u64().0.cursor.weight() <= reader.cursor.weight(),
        reader.array(len).0.cursor.weight() <= reader.cursor.weight(),
        reader.bytes().0.cursor.weight() <= reader.cursor.weight(),
        reader.big().0.cursor.weight() <= reader.cursor.weight(),
{
    let cursor = reader.cursor;
    lemma_settled_weight(cursor);
    lemma_took_weight(cursor, 8);
    lemma_took_weight(cursor, len);
    if cursor.descended() is Ok {
        lemma_descended_weight(cursor);
    }
    if cursor.settled().descended() is Ok {
        lemma_descended_weight(cursor.settled());
    }
    if cursor.settled().stack.len() > 0 {
        assert(cursor.settled().popped().weight() < cursor.settled().weight());
    }
}

} // verus!
