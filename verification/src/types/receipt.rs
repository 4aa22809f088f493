//! The receipts of the transactions of a block.

use super::record::{decoded, from_rlp, lemma_read_all_weighs_down, read_all, Record};
use super::{ByteArray, ByteVec, NiceBigUint, NiceVec};
use crate::numeric::NumericError;
use crate::rlp::deserializer::RlpDeserializer;
use crate::rlp::reader::{group_steps, Reader};
use crate::rlp::RlpError;
use vstd::prelude::*;

verus! {

/// What a transaction has left behind: the root of the state after it, or,
/// in later blocks, whether it has succeeded.
#[derive(Debug, Clone, Copy, PartialEq)]
pub enum PostState {
    State(ByteArray<32>),
    Success(bool),
}

/// The outcome of a transaction as a value.
pub enum PostStateView {
    State(Seq<u8>),
    Success(bool),
}

impl View for PostState {
    type V = PostStateView;

    open spec fn view(&self) -> PostStateView {
        match *self {
            PostState::State(root) => PostStateView::State(root@),
            PostState::Success(success) => PostStateView::Success(success),
        }
    }
}

impl PostState {
    /// The outcome that the bytes of the field stand for: a single byte says
    /// whether the transaction has succeeded, which it has if the byte is 1,
    /// and 32 bytes are the root of the state.
    pub open spec fn of_bytes(bytes: Seq<u8>) -> Result<PostStateView, RlpError> {
        if bytes.len() == 1 {
            Ok(PostStateView::Success(bytes[0] == 1))
        } else if bytes.len() == 32 {
            Ok(PostStateView::State(bytes))
        } else {
            Err(
                RlpError::Conversion(
                    NumericError::Conversion { expected: 32, found: bytes.len() as usize },
                ),
            )
        }
    }

    /// Reads the outcome of a transaction from the bytes of the field.
    pub fn from_bytes(bytes: &[u8]) -> (out: Result<PostState, RlpError>)
        ensures
            match PostState::of_bytes(bytes@) {
                Ok(outcome) => out matches Ok(found) && found@ == outcome,
                Err(failure) => out == Err::<PostState, RlpError>(failure),
            },
    {
        if bytes.len() == 1 {
            return Ok(PostState::Success(bytes[0] == 1));
        }
        if bytes.len() != 32 {
            return Err(
                RlpError::Conversion(
                    NumericError::Conversion { expected: 32, found: bytes.len() },
                ),
            );
        }
        Ok(PostState::State(ByteArray::<32>::from_slice(bytes)))
    }
}

impl Record for ByteArray<64> {
    /// The course of the decoder through an array of 64 bytes, and the bytes.
    open spec fn read(reader: Reader) -> (Reader, Seq<u8>) {
        reader.array(64)
    }

    /// Reads an array of 64 bytes from where the cursor stands.
    fn decode<'de>(de: &mut RlpDeserializer<'de>) -> (out: Result<ByteArray<64>, RlpError>) {
        Ok(ByteArray(de.next_array::<64>()?))
    }

    proof fn lemma_read_weighs_down(reader: Reader) {
        broadcast use group_steps;

        if reader.cursor.took_array(64) is Ok {
            crate::rlp::deserializer::lemma_took_array_weight(reader.cursor, 64);
        }
    }
}

/// What a contract has logged.
#[derive(Debug, Clone, PartialEq)]
pub struct Log {
    pub address: ByteArray<20>,
    pub topics: NiceVec<ByteArray<64>>,
    pub data: ByteVec,
    pub block_number: u64,
    pub tx_hash: ByteArray<32>,
    pub tx_index: u64,
    pub block_hash: ByteArray<32>,
    pub log_index: u64,
    pub removed: bool,
}

/// A log as a value.
pub struct LogView {
    pub address: Seq<u8>,
    pub topics: Seq<Seq<u8>>,
    pub data: Seq<u8>,
    pub block_number: u64,
    pub tx_hash: Seq<u8>,
    pub tx_index: u64,
    pub block_hash: Seq<u8>,
    pub log_index: u64,
    pub removed: bool,
}

impl View for Log {
    type V = LogView;

    open spec fn view(&self) -> LogView {
        LogView {
            address: self.address@,
            topics: self.topics@,
            data: self.data@,
            block_number: self.block_number,
            tx_hash: self.tx_hash@,
            tx_index: self.tx_index,
            block_hash: self.block_hash@,
            log_index: self.log_index,
            removed: self.removed,
        }
    }
}

impl Record for Log {
    /// The course of the decoder through a log, and the log: a list of nine
    /// fields. The last one is a flag, which is set if its byte is 1.
    open spec fn read(reader: Reader) -> (Reader, LogView) {
        let reader = reader.entered();
        let (reader, address) = reader.field().array(20);
        let (reader, topics) = read_all::<ByteArray<64>>(reader.field());
        let (reader, data) = reader.field().bytes();
        let (reader, block_number) = reader.field().u64();
        let (reader, tx_hash) = reader.field().array(32);
        let (reader, tx_index) = reader.field().u64();
        let (reader, block_hash) = reader.field().array(32);
        let (reader, log_index) = reader.field().u64();
        let (reader, removed) = reader.field().u8();
        (
            reader,
            LogView {
                address,
                topics,
                data,
                block_number,
                tx_hash,
                tx_index,
                block_hash,
                log_index,
                removed: removed == 1,
            },
        )
    }

    /// Reads a log from where the cursor stands.
    fn decode<'de>(de: &mut RlpDeserializer<'de>) -> (out: Result<Log, RlpError>) {
        broadcast use lemma_read_all_weighs_down;

        de.parse()?;
        de.next_element(true)?;
        let address = ByteArray(de.next_array::<20>()?);
        de.next_element(true)?;
        let topics = NiceVec::<ByteArray<64>>::decode(de)?;
        de.next_element(true)?;
        let data = ByteVec(de.read_bytes()?);
        de.next_element(true)?;
        let block_number = de.next_u64()?;
        de.next_element(true)?;
        let tx_hash = ByteArray(de.next_array::<32>()?);
        de.next_element(true)?;
        let tx_index = de.next_u64()?;
        de.next_element(true)?;
        let block_hash = ByteArray(de.next_array::<32>()?);
        de.next_element(true)?;
        let log_index = de.next_u64()?;
        de.next_element(true)?;
        let removed = de.next_u8()? == 1;
        Ok(
            Log {
                address,
                topics,
                data,
                block_number,
                tx_hash,
                tx_index,
                block_hash,
                log_index,
                removed,
            },
        )
    }

    proof fn lemma_read_weighs_down(reader: Reader) {
        broadcast use group_steps;
        broadcast use lemma_read_all_weighs_down;

    }
}

/// The receipt of a transaction.
#[derive(Debug, Clone, PartialEq)]
pub struct TransactionReceipt {
    pub post_state: PostState,
    pub cum_gas_used: NiceBigUint,
    pub logs: NiceVec<Log>,
}

/// The receipt of a transaction as a value.
pub struct TransactionReceiptView {
    pub post_state: PostStateView,
    pub cum_gas_used: nat,
    pub logs: Seq<LogView>,
}

impl View for TransactionReceipt {
    type V = TransactionReceiptView;

    open spec fn view(&self) -> TransactionReceiptView {
        TransactionReceiptView {
            post_state: self.post_state@,
            cum_gas_used: self.cum_gas_used@,
            logs: self.logs@,
        }
    }
}

impl Record for TransactionReceipt {
    /// The course of the decoder through a receipt, and the receipt: a list of
    /// three fields.
    open spec fn read(reader: Reader) -> (Reader, TransactionReceiptView) {
        let reader = reader.entered();
        let (reader, post_state) = reader.field().bytes();
        let reader = reader.checked(PostState::of_bytes(post_state));
        let (reader, cum_gas_used) = reader.field().big();
        let (reader, logs) = read_all::<Log>(reader.field());
        (
            reader,
            TransactionReceiptView {
                post_state: PostState::of_bytes(post_state).unwrap(),
                cum_gas_used,
                logs,
            },
        )
    }

    /// Reads a receipt from where the cursor stands.
    fn decode<'de>(de: &mut RlpDeserializer<'de>) -> (out: Result<TransactionReceipt, RlpError>) {
        broadcast use lemma_read_all_weighs_down;

        de.parse()?;
        de.next_element(true)?;
        let post_state = PostState::from_bytes(de.read_bytes()?.as_slice())?;
        de.next_element(true)?;
        let cum_gas_used = NiceBigUint::new(de.read_digits()?);
        de.next_element(true)?;
        let logs = NiceVec::<Log>::decode(de)?;
        Ok(TransactionReceipt { post_state, cum_gas_used, logs })
    }

    proof fn lemma_read_weighs_down(reader: Reader) {
        broadcast use group_steps;
        broadcast use lemma_read_all_weighs_down;

    }
}

/// The receipts of the transactions of a block.
#[derive(Debug, Clone, PartialEq)]
pub struct Receipts(pub NiceVec<TransactionReceipt>);

impl View for Receipts {
    type V = Seq<TransactionReceiptView>;

    open spec fn view(&self) -> Seq<TransactionReceiptView> {
        self.0@
    }
}

impl Record for Receipts {
    /// The course of the decoder through the receipts of a block, and the
    /// receipts: a list that holds one receipt at least.
    open spec fn read(reader: Reader) -> (Reader, Seq<TransactionReceiptView>) {
        read_all::<TransactionReceipt>(reader.entered().element())
    }

    /// Reads the receipts of a block from where the cursor stands.
    fn decode<'de>(de: &mut RlpDeserializer<'de>) -> (out: Result<Receipts, RlpError>) {
        broadcast use lemma_read_all_weighs_down;

        de.parse()?;
        if !de.next_element(false)? {
            return Err(RlpError::NoInputLeft);
        }
        Ok(Receipts(NiceVec::<TransactionReceipt>::decode(de)?))
    }

    proof fn lemma_read_weighs_down(reader: Reader) {
        broadcast use group_steps;
        broadcast use lemma_read_all_weighs_down;

    }
}

impl Receipts {
    /// Reads the receipts of a block from the bytes of a record.
    pub fn from_rlp(bytes: &[u8]) -> (out: Result<Receipts, RlpError>)
        ensures
            match decoded::<Receipts>(bytes@) {
                Ok(value) => out matches Ok(found) && found@ == value,
                Err(failure) => out == Err::<Receipts, RlpError>(failure),
            },
    {
        from_rlp::<Receipts>(bytes)
    }
}

} // verus!
