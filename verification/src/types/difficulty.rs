//! The total difficulty of the chain up to a block.

use super::record::{decoded, from_rlp, Record};
use super::NiceBigUint;
use crate::numeric::be_value;
use crate::rlp::deserializer::{Cursor, RlpDeserializer};
use crate::rlp::fields::{digits_value, lemma_digits_value};
use crate::rlp::parse::{parse_spec, RlpView};
use crate::rlp::reader::{group_steps, Reader};
use crate::rlp::RlpError;
use vstd::prelude::*;

verus! {

/// The total difficulty of the chain up to a block: one big number, stored as
/// a byte string.
#[derive(Debug, Clone, PartialEq)]
pub struct TotalDifficulty(pub NiceBigUint);

impl View for TotalDifficulty {
    type V = nat;

    open spec fn view(&self) -> nat {
        self.0@
    }
}

impl Record for TotalDifficulty {
    /// The course of the decoder through a total difficulty, and the number.
    open spec fn read(reader: Reader) -> (Reader, nat) {
        reader.entered().element().big()
    }

    /// Reads a total difficulty from where the cursor stands.
    fn decode<'de>(de: &mut RlpDeserializer<'de>) -> (out: Result<TotalDifficulty, RlpError>) {
        de.parse()?;
        if !de.next_element(false)? {
            return Err(RlpError::NoInputLeft);
        }
        let digits = de.read_digits()?;
        Ok(TotalDifficulty(NiceBigUint::new(digits)))
    }

    proof fn lemma_read_weighs_down(reader: Reader) {
        broadcast use group_steps;

    }
}

impl TotalDifficulty {
    /// What the bytes of a record give as a total difficulty: the number that
    /// a byte string writes, most significant byte first, and 0 for the empty
    /// string.
    pub open spec fn of_rlp(bytes: Seq<u8>) -> Result<nat, RlpError> {
        match parse_spec(bytes) {
            Ok((RlpView::Bytes(payload), _)) => if payload.len() == 0 {
                Err(RlpError::NoInputLeft)
            } else {
                Ok(be_value(payload))
            },
            Ok((RlpView::Empty, _)) => Ok(0),
            Ok((RlpView::List(members), _)) => if members.len() == 0 {
                Err(RlpError::NoInputLeft)
            } else {
                Err(RlpError::UnexpectedMatch)
            },
            Ok((RlpView::EmptyList, _)) => Err(RlpError::NoInputLeft),
            Err(failure) => Err(failure),
        }
    }

    /// Reads a total difficulty from the bytes of a record.
    pub fn from_rlp(bytes: &[u8]) -> (out: Result<TotalDifficulty, RlpError>)
        ensures
            match Self::of_rlp(bytes@) {
                Ok(number) => out matches Ok(difficulty) && difficulty@ == number,
                Err(failure) => out == Err::<TotalDifficulty, RlpError>(failure),
            },
    {
        proof {
            Self::lemma_read_of_rlp(bytes@);
        }
        from_rlp::<TotalDifficulty>(bytes)
    }

    /// The decoder reads from the bytes of a record what [`Self::of_rlp`]
    /// says.
    pub proof fn lemma_read_of_rlp(bytes: Seq<u8>)
        ensures
            decoded::<TotalDifficulty>(bytes) == Self::of_rlp(bytes),
    {
        let start = Cursor { stack: Seq::<RlpView>::empty(), rest: bytes };
        match parse_spec(bytes) {
            Ok((item, used)) => {
                let entered = Cursor { stack: start.stack.push(item), rest: bytes.skip(used) };
                assert(start.descended() == Ok::<Cursor, RlpError>(entered));
                assert(entered.stack.last() == item);
                assert(entered.stack.drop_last() =~= start.stack);
                assert(entered.top() == Some(item));
                assert(entered.popped().stack =~= Seq::<RlpView>::empty());
                assert(entered.popped().top() is None);
                match item {
                    RlpView::Bytes(payload) => {
                        lemma_digits_value(payload);
                        if payload.len() > 0 {
                            assert(entered.settled() == entered);
                            assert(!entered.ended());
                        }
                    },
                    RlpView::Empty => {
                        assert(entered.settled() == entered);
                        assert(seq![0u32].skip(1) =~= Seq::<u32>::empty());
                        assert(digits_value(seq![0u32].skip(1)) == 0);
                        assert(digits_value(seq![0u32]) == 0);
                    },
                    RlpView::List(members) => {
                        if members.len() == 0 {
                            assert(entered.settled() == entered.popped());
                            assert(!entered.ended());
                            assert(entered.popped().settled() == entered.popped());
                            assert(!entered.popped().ended());
                        } else {
                            assert(entered.settled() == entered);
                        }
                    },
                    RlpView::EmptyList => {
                        assert(entered.ended());
                    },
                }
            },
            Err(_) => {},
        }
    }
}

} // verus!
