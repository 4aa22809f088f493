//! The header of a block.

use super::record::{decoded, from_rlp, Record};
use super::{ByteArray, ByteVec, NiceBigUint};
use crate::rlp::deserializer::RlpDeserializer;
use crate::rlp::reader::{group_steps, Reader};
use crate::rlp::RlpError;
use vstd::prelude::*;

verus! {

/// The header of an Ethereum block.
#[derive(Debug, Clone, PartialEq)]
pub struct BlockHeader {
    pub parent_hash: ByteArray<32>,
    pub sha3_uncles: ByteArray<32>,
    pub miner: ByteArray<20>,
    pub state_root: ByteArray<32>,
    pub transactions_root: ByteArray<32>,
    pub receipts_root: ByteArray<32>,
    pub logs_bloom: ByteArray<256>,
    pub difficulty: NiceBigUint,
    pub number: u64,
    pub gas_limit: u64,
    pub gas_used: u64,
    pub timestamp: u64,
    pub extra_data: ByteVec,
    pub mix_hash: ByteArray<32>,
    pub nonce: ByteArray<8>,
}

/// The header of a block as a value.
pub struct BlockHeaderView {
    pub parent_hash: Seq<u8>,
    pub sha3_uncles: Seq<u8>,
    pub miner: Seq<u8>,
    pub state_root: Seq<u8>,
    pub transactions_root: Seq<u8>,
    pub receipts_root: Seq<u8>,
    pub logs_bloom: Seq<u8>,
    pub difficulty: nat,
    pub number: u64,
    pub gas_limit: u64,
    pub gas_used: u64,
    pub timestamp: u64,
    pub extra_data: Seq<u8>,
    pub mix_hash: Seq<u8>,
    pub nonce: Seq<u8>,
}

impl View for BlockHeader {
    type V = BlockHeaderView;

    open spec fn view(&self) -> BlockHeaderView {
        BlockHeaderView {
            parent_hash: self.parent_hash@,
            sha3_uncles: self.sha3_uncles@,
            miner: self.miner@,
            state_root: self.state_root@,
            transactions_root: self.transactions_root@,
            receipts_root: self.receipts_root@,
            logs_bloom: self.logs_bloom@,
            difficulty: self.difficulty@,
            number: self.number,
            gas_limit: self.gas_limit,
            gas_used: self.gas_used,
            timestamp: self.timestamp,
            extra_data: self.extra_data@,
            mix_hash: self.mix_hash@,
            nonce: self.nonce@,
        }
    }
}

impl Record for BlockHeader {
    /// The course of the decoder through a header, and the header: a list of
    /// fifteen fields.
    open spec fn read(reader: Reader) -> (Reader, BlockHeaderView) {
        let reader = reader.entered();
        let (reader, parent_hash) = reader.field().array(32);
        let (reader, sha3_uncles) = reader.field().array(32);
        let (reader, miner) = reader.field().array(20);
        let (reader, state_root) = reader.field().array(32);
        let (reader, transactions_root) = reader.field().array(32);
        let (reader, receipts_root) = reader.field().array(32);
        let (reader, logs_bloom) = reader.field().array(256);
        let (reader, difficulty) = reader.field().big();
        let (reader, number) = reader.field().u64();
        let (reader, gas_limit) = reader.field().u64();
        let (reader, gas_used) = reader.field().u64();
        let (reader, timestamp) = reader.field().u64();
        let (reader, extra_data) = reader.field().bytes();
        let (reader, mix_hash) = reader.field().array(32);
        let (reader, nonce) = reader.field().array(8);
        (
            reader,
            BlockHeaderView {
                parent_hash,
                sha3_uncles,
                miner,
                state_root,
                transactions_root,
                receipts_root,
                logs_bloom,
                difficulty,
                number,
                gas_limit,
                gas_used,
                timestamp,
                extra_data,
                mix_hash,
                nonce,
            },
        )
    }

    /// Reads a header from where the cursor stands.
    fn decode<'de>(de: &mut RlpDeserializer<'de>) -> (out: Result<BlockHeader, RlpError>) {
        de.parse()?;
        de.next_element(true)?;
        let parent_hash = ByteArray(de.next_array::<32>()?);
        de.next_element(true)?;
        let sha3_uncles = ByteArray(de.next_array::<32>()?);
        de.next_element(true)?;
        let miner = ByteArray(de.next_array::<20>()?);
        de.next_element(true)?;
        let state_root = ByteArray(de.next_array::<32>()?);
        de.next_element(true)?;
        let transactions_root = ByteArray(de.next_array::<32>()?);
        de.next_element(true)?;
        let receipts_root = ByteArray(de.next_array::<32>()?);
        de.next_element(true)?;
        let logs_bloom = ByteArray(de.next_array::<256>()?);
        de.next_element(true)?;
        let difficulty = NiceBigUint::new(de.read_digits()?);
        de.next_element(true)?;
        let number = de.next_u64()?;
        de.next_element(true)?;
        let gas_limit = de.next_u64()?;
        de.next_element(true)?;
        let gas_used = de.next_u64()?;
        de.next_element(true)?;
        let timestamp = de.next_u64()?;
        de.next_element(true)?;
        let extra_data = ByteVec(de.read_bytes()?);
        de.next_element(true)?;
        let mix_hash = ByteArray(de.next_array::<32>()?);
        de.next_element(true)?;
        let nonce = ByteArray(de.next_array::<8>()?);
        Ok(
            BlockHeader {
                parent_hash,
                sha3_uncles,
                miner,
                state_root,
                transactions_root,
                receipts_root,
                logs_bloom,
                difficulty,
                number,
                gas_limit,
                gas_used,
                timestamp,
                extra_data,
                mix_hash,
                nonce,
            },
        )
    }

    proof fn lemma_read_weighs_down(reader: Reader) {
        broadcast use group_steps;

    }
}

impl BlockHeader {
    /// Reads a header from the bytes of a record.
    pub fn from_rlp(bytes: &[u8]) -> (out: Result<BlockHeader, RlpError>)
        ensures
            match decoded::<BlockHeader>(bytes@) {
                Ok(value) => out matches Ok(found) && found@ == value,
                Err(failure) => out == Err::<BlockHeader, RlpError>(failure),
            },
    {
        from_rlp::<BlockHeader>(bytes)
    }
}

} // verus!
