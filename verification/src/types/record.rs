//! Records: the values that a decoder reads from one RLP item, and sequences
//! of them.

use super::NiceVec;
use crate::rlp::deserializer::{Cursor, RlpDeserializer};
use crate::rlp::reader::{yields, Reader};
use crate::rlp::RlpError;
use vstd::prelude::*;

verus! {

/// A value that is read from the item at hand, or from the one that comes
/// next, and takes weight off the cursor when it is read.
pub trait Record: Sized + View {
    /// The course of the decoder through the record, and the record.
    spec fn read(reader: Reader) -> (Reader, Self::V);

    /// Reads the record from where the cursor stands.
    fn decode<'de>(de: &mut RlpDeserializer<'de>) -> (out: Result<Self, RlpError>)
        ensures
            yields(Self::read(Reader::start(old(de)@)), final(de)@, out),
    ;

    /// A decoder that has read the record has taken weight off the cursor.
    proof fn lemma_read_weighs_down(reader: Reader)
        ensures
            Self::read(reader).0.cursor.weight() <= reader.cursor.weight(),
            Self::read(reader).0.failure is None ==> reader.failure is None && Self::read(
                reader,
            ).0.cursor.weight() < reader.cursor.weight(),
    ;
}

/// What the bytes of a record give as a value of the type `T`: what a decoder
/// reads that sets out at the first of them with nothing at hand.
pub open spec fn decoded<T: Record>(bytes: Seq<u8>) -> Result<T::V, RlpError> {
    let end = T::read(Reader::start(Cursor { stack: Seq::empty(), rest: bytes }));
    match end.0.failure {
        None => Ok(end.1),
        Some(failure) => Err(failure),
    }
}

/// Reads a value of the type `T` from the bytes of a record.
pub fn from_rlp<T: Record>(bytes: &[u8]) -> (out: Result<T, RlpError>)
    ensures
        match decoded::<T>(bytes@) {
            Ok(value) => out matches Ok(found) && found@ == value,
            Err(failure) => out == Err::<T, RlpError>(failure),
        },
{
    let mut de = RlpDeserializer::new(bytes)?;
    T::decode(&mut de)
}

/// The course of the decoder through a sequence of records of open length, and
/// the records. The sequence is over when nothing is left of the item at hand.
/// Where a record cannot be read, the decoder stops there.
///
/// A record that has been read has taken weight off the cursor: the test for
/// it never fails, and is there to show that the sequence comes to an end.
pub open spec fn read_all<T: Record>(reader: Reader) -> (Reader, Seq<T::V>)
    decreases reader.cursor.weight(),
{
    let (at, more) = reader.more();
    if !more {
        (at, Seq::empty())
    } else {
        let (next, record) = T::read(at);
        if next.failure is None && next.cursor.weight() < reader.cursor.weight() {
            let (end, others) = read_all::<T>(next);
            (end, seq![record] + others)
        } else {
            (next, Seq::empty())
        }
    }
}

/// A sequence puts no weight on the cursor, and a decoder that has been
/// stopped stays stopped.
pub broadcast proof fn lemma_read_all_weighs_down<T: Record>(reader: Reader)
    ensures
        (#[trigger] read_all::<T>(reader)).0.cursor.weight() <= reader.cursor.weight(),
        read_all::<T>(reader).0.failure is None ==> reader.failure is None,
    decreases reader.cursor.weight(),
{
    let (at, more) = reader.more();
    crate::rlp::reader::lemma_steps_weigh_down(reader, 0);
    if more {
        let (next, record) = T::read(at);
        T::lemma_read_weighs_down(at);
        if next.failure is None && next.cursor.weight() < reader.cursor.weight() {
            lemma_read_all_weighs_down::<T>(next);
        }
    }
}

impl<T: Record> NiceVec<T> {
    /// Reads records from where the cursor stands until nothing is left of
    /// the item at hand.
    pub fn decode<'de>(de: &mut RlpDeserializer<'de>) -> (out: Result<NiceVec<T>, RlpError>)
        ensures
            yields(read_all::<T>(Reader::start(old(de)@)), final(de)@, out),
    {
        let ghost start = Reader::start(de@);
        let mut records: Vec<T> = Vec::new();
        let ghost mut read: Seq<T::V> = Seq::empty();
        loop
            invariant
                start == Reader::start(old(de)@),
                read == NiceVec(records)@,
                read_all::<T>(start).0 == read_all::<T>(Reader::start(de@)).0,
                read_all::<T>(start).0.failure is None ==> read_all::<T>(start).1 == read
                    + read_all::<T>(Reader::start(de@)).1,
            decreases de@.weight(),
        {
            let ghost before = Reader::start(de@);
            proof {
                crate::rlp::reader::lemma_steps_weigh_down(before, 0);
                T::lemma_read_weighs_down(before.more().0);
            }
            if !de.next_element(false)? {
                assert(read + Seq::<T::V>::empty() =~= read);
                return Ok(NiceVec(records));
            }
            let record = T::decode(de)?;
            records.push(record);
            proof {
                let others = read_all::<T>(Reader::start(de@)).1;
                assert((read + seq![record@]) + others =~= read + (seq![record@] + others));
                read = read + seq![record@];
                assert(NiceVec(records)@ =~= read);
            }
        }
    }
}

} // verus!
