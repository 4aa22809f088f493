//! The body of a block: its transactions and the headers of its uncles.

use super::header::{BlockHeader, BlockHeaderView};
use super::record::{decoded, from_rlp, lemma_read_all_weighs_down, read_all, Record};
use super::{ByteArray, ByteVec, NiceBigUint, NiceVec};
use crate::numeric::NumericError;
use crate::rlp::deserializer::RlpDeserializer;
use crate::rlp::reader::{group_steps, Reader};
use crate::rlp::RlpError;
use vstd::prelude::*;

verus! {

/// Whom a transaction is sent to.
#[derive(Debug, Clone, Copy, PartialEq)]
pub enum To {
    /// The address of an account.
    Address(ByteArray<20>),
    /// Nobody: the transaction creates a contract.
    ContractCreation(ByteArray<1>),
}

/// The receiver of a transaction as a value.
pub enum ToView {
    Address(Seq<u8>),
    ContractCreation(Seq<u8>),
}

impl View for To {
    type V = ToView;

    open spec fn view(&self) -> ToView {
        match *self {
            To::Address(bytes) => ToView::Address(bytes@),
            To::ContractCreation(bytes) => ToView::ContractCreation(bytes@),
        }
    }
}

impl To {
    /// The receiver that the bytes of the field stand for: a single byte says
    /// that a contract is created, 20 bytes are an address.
    pub open spec fn of_bytes(bytes: Seq<u8>) -> Result<ToView, RlpError> {
        if bytes.len() == 1 {
            Ok(ToView::ContractCreation(seq![0u8]))
        } else if bytes.len() == 20 {
            Ok(ToView::Address(bytes))
        } else {
            Err(
                RlpError::Conversion(
                    NumericError::Conversion { expected: 20, found: bytes.len() as usize },
                ),
            )
        }
    }

    /// Reads the receiver from the bytes of the field.
    pub fn from_bytes(bytes: &[u8]) -> (out: Result<To, RlpError>)
        ensures
            match To::of_bytes(bytes@) {
                Ok(receiver) => out matches Ok(found) && found@ == receiver,
                Err(failure) => out == Err::<To, RlpError>(failure),
            },
    {
        if bytes.len() == 1 {
            let nobody = ByteArray::<1>([0_u8]);
            assert(nobody@ =~= seq![0u8]);
            return Ok(To::ContractCreation(nobody));
        }
        if bytes.len() != 20 {
            return Err(
                RlpError::Conversion(
                    NumericError::Conversion { expected: 20, found: bytes.len() },
                ),
            );
        }
        Ok(To::Address(ByteArray::<20>::from_slice(bytes)))
    }
}

/// One of the two numbers of a signature as 32 bytes: the bytes of the field,
/// with zeros put before them where the field has dropped them.
pub open spec fn signature_of_bytes(bytes: Seq<u8>) -> Result<Seq<u8>, RlpError> {
    if bytes.len() <= 32 {
        Ok(Seq::new((32 - bytes.len()) as nat, |i: int| 0u8) + bytes)
    } else {
        Err(
            RlpError::Conversion(
                NumericError::Conversion { expected: 32, found: bytes.len() as usize },
            ),
        )
    }
}

/// Reads one of the two numbers of a signature from the bytes of the field.
pub fn signature_from_bytes(bytes: &[u8]) -> (out: Result<ByteArray<32>, RlpError>)
    ensures
        match signature_of_bytes(bytes@) {
            Ok(number) => out matches Ok(found) && found@ == number,
            Err(failure) => out == Err::<ByteArray<32>, RlpError>(failure),
        },
{
    if bytes.len() > 32 {
        return Err(
            RlpError::Conversion(NumericError::Conversion { expected: 32, found: bytes.len() }),
        );
    }
    Ok(ByteArray::<32>::left_padded(bytes))
}

/// The transaction object.
#[derive(Debug, Clone, PartialEq)]
pub struct Transaction {
    pub nonce: u64,
    pub gas_price: NiceBigUint,
    pub gas: u64,
    pub to: To,
    pub value: NiceBigUint,
    pub data: ByteVec,
    pub v: u8,
    pub r: ByteArray<32>,
    pub s: ByteArray<32>,
}

/// A transaction as a value.
pub struct TransactionView {
    pub nonce: u64,
    pub gas_price: nat,
    pub gas: u64,
    pub to: ToView,
    pub value: nat,
    pub data: Seq<u8>,
    pub v: u8,
    pub r: Seq<u8>,
    pub s: Seq<u8>,
}

impl View for Transaction {
    type V = TransactionView;

    open spec fn view(&self) -> TransactionView {
        TransactionView {
            nonce: self.nonce,
            gas_price: self.gas_price@,
            gas: self.gas,
            to: self.to@,
            value: self.value@,
            data: self.data@,
            v: self.v,
            r: self.r@,
            s: self.s@,
        }
    }
}

impl Record for Transaction {
    /// The course of the decoder through a transaction, and the transaction:
    /// a list of nine fields.
    open spec fn read(reader: Reader) -> (Reader, TransactionView) {
        let reader = reader.entered();
        let (reader, nonce) = reader.field().u64();
        let (reader, gas_price) = reader.field().big();
        let (reader, gas) = reader.field().u64();
        let (reader, to) = reader.field().bytes();
        let reader = reader.checked(To::of_bytes(to));
        let (reader, value) = reader.field().big();
        let (reader, data) = reader.field().bytes();
        let (reader, v) = reader.field().u8();
        let (reader, r) = reader.field().bytes();
        let reader = reader.checked(signature_of_bytes(r));
        let (reader, s) = reader.field().bytes();
        let reader = reader.checked(signature_of_bytes(s));
        (
            reader,
            TransactionView {
                nonce,
                gas_price,
                gas,
                to: To::of_bytes(to).unwrap(),
                value,
                data,
                v,
                r: signature_of_bytes(r).unwrap(),
                s: signature_of_bytes(s).unwrap(),
            },
        )
    }

    /// Reads a transaction from where the cursor stands.
    fn decode<'de>(de: &mut RlpDeserializer<'de>) -> (out: Result<Transaction, RlpError>) {
        de.parse()?;
        de.next_element(true)?;
        let nonce = de.next_u64()?;
        de.next_element(true)?;
        let gas_price = NiceBigUint::new(de.read_digits()?);
        de.next_element(true)?;
        let gas = de.next_u64()?;
        de.next_element(true)?;
        let to = To::from_bytes(de.read_bytes()?.as_slice())?;
        de.next_element(true)?;
        let value = NiceBigUint::new(de.read_digits()?);
        de.next_element(true)?;
        let data = ByteVec(de.read_bytes()?);
        de.next_element(true)?;
        let v = de.next_u8()?;
        de.next_element(true)?;
        let r = signature_from_bytes(de.read_bytes()?.as_slice())?;
        de.next_element(true)?;
        let s = signature_from_bytes(de.read_bytes()?.as_slice())?;
        Ok(Transaction { nonce, gas_price, gas, to, value, data, v, r, s })
    }

    proof fn lemma_read_weighs_down(reader: Reader) {
        broadcast use group_steps;

    }
}

/// The body of an Ethereum block.
#[derive(Debug, Clone, PartialEq)]
pub struct BlockBody {
    pub transactions: NiceVec<Transaction>,
    pub uncles: NiceVec<BlockHeader>,
}

/// The body of a block as a value.
pub struct BlockBodyView {
    pub transactions: Seq<TransactionView>,
    pub uncles: Seq<BlockHeaderView>,
}

impl View for BlockBody {
    type V = BlockBodyView;

    open spec fn view(&self) -> BlockBodyView {
        BlockBodyView { transactions: self.transactions@, uncles: self.uncles@ }
    }
}

impl Record for BlockBody {
    /// The course of the decoder through the body of a block, and the body: a
    /// list of two lists, the transactions and the uncles' headers.
    open spec fn read(reader: Reader) -> (Reader, BlockBodyView) {
        let reader = reader.entered();
        let (reader, transactions) = read_all::<Transaction>(reader.field());
        let (reader, uncles) = read_all::<BlockHeader>(reader.field());
        (reader, BlockBodyView { transactions, uncles })
    }

    /// Reads the body of a block from where the cursor stands.
    fn decode<'de>(de: &mut RlpDeserializer<'de>) -> (out: Result<BlockBody, RlpError>) {
        broadcast use lemma_read_all_weighs_down;

        de.parse()?;
        de.next_element(true)?;
        let transactions = NiceVec::<Transaction>::decode(de)?;
        de.next_element(true)?;
        let uncles = NiceVec::<BlockHeader>::decode(de)?;
        Ok(BlockBody { transactions, uncles })
    }

    proof fn lemma_read_weighs_down(reader: Reader) {
        broadcast use group_steps;
        broadcast use lemma_read_all_weighs_down;

    }
}

impl BlockBody {
    /// Reads the body of a block from the bytes of a record.
    pub fn from_rlp(bytes: &[u8]) -> (out: Result<BlockBody, RlpError>)
        ensures
            match decoded::<BlockBody>(bytes@) {
                Ok(value) => out matches Ok(found) && found@ == value,
                Err(failure) => out == Err::<BlockBody, RlpError>(failure),
            },
    {
        from_rlp::<BlockBody>(bytes)
    }
}

} // verus!
