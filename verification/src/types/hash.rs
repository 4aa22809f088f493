//! The hash of a block.

use super::record::{decoded, from_rlp, Record};
use super::ByteArray;
use crate::rlp::deserializer::{Cursor, RlpDeserializer};
use crate::rlp::parse::{parse_spec, RlpView};
use crate::rlp::reader::{group_steps, Reader};
use crate::rlp::RlpError;
use vstd::prelude::*;

verus! {

/// The hash of a block: 32 bytes, stored as a byte string.
#[derive(Debug, Clone, Copy, PartialEq)]
pub struct BlockHash(pub ByteArray<32>);

impl View for BlockHash {
    type V = Seq<u8>;

    open spec fn view(&self) -> Seq<u8> {
        self.0@
    }
}

impl Record for BlockHash {
    /// The course of the decoder through a hash, and the hash.
    open spec fn read(reader: Reader) -> (Reader, Seq<u8>) {
        reader.entered().element().array(32)
    }

    /// Reads a hash from where the cursor stands.
    fn decode<'de>(de: &mut RlpDeserializer<'de>) -> (out: Result<BlockHash, RlpError>) {
        de.parse()?;
        if !de.next_element(false)? {
            return Err(RlpError::NoInputLeft);
        }
        Ok(BlockHash(ByteArray(de.next_array::<32>()?)))
    }

    proof fn lemma_read_weighs_down(reader: Reader) {
        broadcast use group_steps;

    }
}

impl BlockHash {
    /// What the bytes of a record give as a hash: the first 32 bytes of a byte
    /// string, and zeros for the empty string.
    pub open spec fn of_rlp(bytes: Seq<u8>) -> Result<Seq<u8>, RlpError> {
        match parse_spec(bytes) {
            Ok((RlpView::Bytes(payload), _)) => if payload.len() < 32 {
                Err(RlpError::NoInputLeft)
            } else {
                Ok(payload.take(32))
            },
            Ok((RlpView::Empty, _)) => Ok(Seq::new(32, |i: int| 0u8)),
            Ok((RlpView::List(members), _)) => if members.len() == 0 {
                Err(RlpError::NoInputLeft)
            } else {
                Err(RlpError::UnexpectedMatch)
            },
            Ok((RlpView::EmptyList, _)) => Err(RlpError::NoInputLeft),
            Err(failure) => Err(failure),
        }
    }

    /// Reads a hash from the bytes of a record.
    pub fn from_rlp(bytes: &[u8]) -> (out: Result<BlockHash, RlpError>)
        ensures
            match Self::of_rlp(bytes@) {
                Ok(value) => out matches Ok(found) && found@ == value,
                Err(failure) => out == Err::<BlockHash, RlpError>(failure),
            },
    {
        proof {
            Self::lemma_read_of_rlp(bytes@);
        }
        from_rlp::<BlockHash>(bytes)
    }

    /// The decoder reads from the bytes of a record what [`Self::of_rlp`]
    /// says.
    pub proof fn lemma_read_of_rlp(bytes: Seq<u8>)
        ensures
            decoded::<BlockHash>(bytes) == Self::of_rlp(bytes),
    {
        let start = Cursor { stack: Seq::<RlpView>::empty(), rest: bytes };
        match parse_spec(bytes) {
            Ok((item, used)) => {
                let entered = Cursor { stack: start.stack.push(item), rest: bytes.skip(used) };
                assert(start.descended() == Ok::<Cursor, RlpError>(entered));
                assert(entered.stack.last() == item);
                assert(entered.stack.drop_last() =~= start.stack);
                assert(entered.top() == Some(item));
                assert(entered.popped().stack =~= Seq::<RlpView>::empty());
                assert(entered.popped().top() is None);
                match item {
                    RlpView::Bytes(payload) => {
                        if payload.len() > 0 {
                            assert(entered.settled() == entered);
                            assert(!entered.ended());
                        }
                    },
                    RlpView::Empty => {
                        assert(entered.settled() == entered);
                    },
                    RlpView::List(members) => {
                        if members.len() == 0 {
                            assert(entered.settled() == entered.popped());
                            assert(!entered.ended());
                        } else {
                            assert(entered.settled() == entered);
                        }
                    },
                    RlpView::EmptyList => {
                        assert(entered.ended());
                    },
                }
            },
            Err(_) => {},
        }
    }
}

} // verus!
