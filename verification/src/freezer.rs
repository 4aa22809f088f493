//! The freezer: one index file and a row of numbered data files for each part
//! of a block.
//!
//! An index file is an array of 6-byte entries, one for each block number: the
//! number of a data file (2 bytes) and an offset into it (4 bytes), both
//! big-endian. The functions here say which bytes of which file hold the
//! records of a range of blocks, and cut the bytes that were read into
//! records. Reading the files is left to the caller.

use crate::numeric::{be_value, u16_from_bytes_be, u32_from_bytes_be, NumericError};
use crate::rlp::RlpError;
use crate::snappy::{decompress_block, snappy_block};
use crate::text::{digit_char, digit_text};
use crate::types::record::{decoded, from_rlp, Record};
use crate::types::values;
use std::collections::HashMap;
use vstd::prelude::*;

verus! {

/// The number of bytes of an index entry: 2 for the number of the data file,
/// 4 for the offset.
pub const INDEX_ENTRY_BYTE_SIZE: u64 = 6;

/// The part of a block that a freezer table holds.
#[derive(Debug, Clone, Copy, PartialEq, Eq, Structural)]
pub enum Freezer {
    Bodies,
    Headers,
    Hashes,
    Difficulty,
    Receipts,
}

/// What can go wrong between a range of block numbers and its records.
#[derive(Debug, PartialEq)]
pub enum FreezerError {
    /// The first block of the range does not lie below its end, or the range
    /// reaches beyond what an index file can address.
    BlockRange,
    /// Bytes of the index do not make up an entry.
    Conversion(NumericError),
    /// The length of a data file is needed and not known.
    FileMetadata,
    /// The offsets that the index holds do not bound a record.
    BlockOffset,
    /// A record of a compressed table is not a Snappy block.
    SnappyDecompress(snap::Error),
    /// A record is not the RLP encoding of the value asked for.
    RlpDeserialization(RlpError),
}

/// A run of bytes in a file.
#[derive(Debug, Clone, Copy, PartialEq, Eq, Structural)]
pub struct ByteSpan {
    /// The position of the first byte.
    pub start: u64,
    /// The number of bytes.
    pub len: u64,
}

/// One entry of an index file.
#[derive(Debug, Clone, Copy, PartialEq, Eq, Structural)]
pub struct IndexEntry {
    /// The number of the data file.
    pub file_number: u16,
    /// The offset into that data file.
    pub offset: u64,
}

/// A data file's number as it stands in the file's name: in decimal, with
/// zeros in front up to four digits.
pub open spec fn file_number_text(file_number: u16) -> Seq<char> {
    let low = seq![
        digit_char((file_number / 1000 % 10) as int),
        digit_char((file_number / 100 % 10) as int),
        digit_char((file_number / 10 % 10) as int),
        digit_char((file_number % 10) as int),
    ];
    if file_number >= 10000 {
        seq![digit_char((file_number / 10000) as int)] + low
    } else {
        low
    }
}

impl Freezer {
    /// The name of the table's index file.
    pub open spec fn index_name(self) -> Seq<char> {
        match self {
            Freezer::Bodies => "bodies.cidx"@,
            Freezer::Headers => "headers.cidx"@,
            Freezer::Hashes => "hashes.ridx"@,
            Freezer::Difficulty => "diffs.ridx"@,
            Freezer::Receipts => "receipts.cidx"@,
        }
    }

    /// What stands before the number in the names of the table's data files.
    pub open spec fn data_name_stem(self) -> Seq<char> {
        match self {
            Freezer::Bodies => "bodies."@,
            Freezer::Headers => "headers."@,
            Freezer::Hashes => "hashes."@,
            Freezer::Difficulty => "diffs."@,
            Freezer::Receipts => "receipts."@,
        }
    }

    /// What stands behind the number in the names of the table's data files.
    pub open spec fn data_name_ending(self) -> Seq<char> {
        if self.compressed() {
            ".cdat"@
        } else {
            ".rdat"@
        }
    }

    /// The name of the table's data file with the given number.
    pub open spec fn data_name(self, file_number: u16) -> Seq<char> {
        self.data_name_stem() + file_number_text(file_number) + self.data_name_ending()
    }

    /// Whether the table keeps its records as Snappy blocks.
    pub open spec fn compressed(self) -> bool {
        match self {
            Freezer::Bodies => true,
            Freezer::Headers => true,
            Freezer::Hashes => false,
            Freezer::Difficulty => false,
            Freezer::Receipts => true,
        }
    }

    /// The name of the table's index file.
    pub fn index_filename(&self) -> (name: &'static str)
        ensures
            name@ == self.index_name(),
    {
        match *self {
            Self::Bodies => "bodies.cidx",
            Self::Headers => "headers.cidx",
            Self::Hashes => "hashes.ridx",
            Self::Difficulty => "diffs.ridx",
            Self::Receipts => "receipts.cidx",
        }
    }

    /// The name of the table's data file with the given number.
    pub fn data_filename(&self, file_number: u16) -> (name: String)
        ensures
            name@ == self.data_name(file_number),
    {
        let stem = match *self {
            Self::Bodies => "bodies.",
            Self::Headers => "headers.",
            Self::Hashes => "hashes.",
            Self::Difficulty => "diffs.",
            Self::Receipts => "receipts.",
        };
        let ending = if self.is_compressed() {
            ".cdat"
        } else {
            ".rdat"
        };
        let mut name = String::from_str(stem);
        if file_number >= 10000 {
            name.append(digit_text((file_number / 10000) as u8));
        }
        name.append(digit_text((file_number / 1000 % 10) as u8));
        name.append(digit_text((file_number / 100 % 10) as u8));
        name.append(digit_text((file_number / 10 % 10) as u8));
        name.append(digit_text((file_number % 10) as u8));
        assert(name@ =~= self.data_name_stem() + file_number_text(file_number));
        name.append(ending);
        name
    }

    /// Whether the table keeps its records as Snappy blocks.
    pub fn is_compressed(&self) -> (compressed: bool)
        ensures
            compressed == self.compressed(),
    {
        match *self {
            Self::Bodies => true,
            Self::Headers => true,
            Self::Hashes => false,
            Self::Difficulty => false,
            Self::Receipts => true,
        }
    }
}

/// The bytes of an index file that hold the entries of the blocks from
/// `min_block` up to, and without, `max_block`.
pub open spec fn index_span_spec(min_block: u64, max_block: u64) -> Result<ByteSpan, FreezerError> {
    if min_block < max_block && max_block * 6 <= u64::MAX {
        Ok(ByteSpan { start: (min_block * 6) as u64, len: ((max_block - min_block) * 6) as u64 })
    } else {
        Err(FreezerError::BlockRange)
    }
}

/// The bytes of an index file that hold the entry of one block.
pub open spec fn entry_span_spec(block_number: u64) -> Result<ByteSpan, FreezerError> {
    if block_number * 6 + 6 <= u64::MAX {
        Ok(ByteSpan { start: (block_number * 6) as u64, len: 6 })
    } else {
        Err(FreezerError::BlockRange)
    }
}

/// The entry that six bytes of an index file hold.
pub open spec fn entry_of(chunk: Seq<u8>) -> IndexEntry {
    IndexEntry {
        file_number: be_value(chunk.subrange(0, 2)) as u16,
        offset: be_value(chunk.subrange(2, 6)) as u64,
    }
}

/// The error that a chunk of `len` bytes, `len` other than six, gives: its
/// first two bytes are read as the file number, the rest as the offset.
pub open spec fn entry_error(len: nat) -> NumericError {
    if len < 2 {
        NumericError::Conversion { expected: 2, found: len as usize }
    } else {
        NumericError::Conversion { expected: 4, found: (len - 2) as usize }
    }
}

/// The entries that the bytes of an index file hold, six bytes each.
pub open spec fn index_entries(raw: Seq<u8>) -> Seq<IndexEntry> {
    Seq::new(raw.len() / 6, |i: int| entry_of(raw.subrange(6 * i, 6 * i + 6)))
}

/// Where in an index file the entries of a range of blocks stand. The range
/// starts at `min_block` and ends before `max_block`; a range without blocks is
/// turned down, and so is one that lies beyond the last byte a file can have.
pub fn index_span(min_block: u64, max_block: u64) -> (out: Result<ByteSpan, FreezerError>)
    ensures
        out == index_span_spec(min_block, max_block),
        min_block >= max_block ==> out == Err::<ByteSpan, FreezerError>(FreezerError::BlockRange),
{
    if min_block >= max_block || max_block > u64::MAX / INDEX_ENTRY_BYTE_SIZE {
        return Err(FreezerError::BlockRange);
    }
    Ok(
        ByteSpan {
            start: INDEX_ENTRY_BYTE_SIZE * min_block,
            len: INDEX_ENTRY_BYTE_SIZE * (max_block - min_block),
        },
    )
}

/// Where in an index file the entry of one block stands.
pub fn entry_span(block_number: u64) -> (out: Result<ByteSpan, FreezerError>)
    ensures
        out == entry_span_spec(block_number),
{
    if block_number > (u64::MAX - INDEX_ENTRY_BYTE_SIZE) / INDEX_ENTRY_BYTE_SIZE {
        return Err(FreezerError::BlockRange);
    }
    Ok(ByteSpan { start: INDEX_ENTRY_BYTE_SIZE * block_number, len: INDEX_ENTRY_BYTE_SIZE })
}

impl IndexEntry {
    /// Reads one entry from the six bytes that hold it.
    pub fn from_bytes(chunk: &[u8]) -> (out: Result<IndexEntry, FreezerError>)
        ensures
            chunk@.len() == 6 ==> out == Ok::<IndexEntry, FreezerError>(entry_of(chunk@)),
            chunk@.len() != 6 ==> out == Err::<IndexEntry, FreezerError>(
                FreezerError::Conversion(entry_error(chunk@.len())),
            ),
    {
        let len = chunk.len();
        if len < 2 {
            return Err(
                FreezerError::Conversion(NumericError::Conversion { expected: 2, found: len }),
            );
        }
        let file_number = match u16_from_bytes_be(&chunk[0..2]) {
            Ok(number) => number,
            Err(error) => {
                return Err(FreezerError::Conversion(error));
            },
        };
        let offset = match u32_from_bytes_be(&chunk[2..len]) {
            Ok(offset) => offset,
            Err(error) => {
                return Err(FreezerError::Conversion(error));
            },
        };
        Ok(IndexEntry { file_number, offset: offset as u64 })
    }
}

/// Reads the entries that the bytes of an index file hold.
pub fn parse_index(raw_index: &[u8]) -> (out: Result<Vec<IndexEntry>, FreezerError>)
    ensures
        raw_index@.len() % 6 == 0 ==> (out matches Ok(entries) && entries@ == index_entries(
            raw_index@,
        )),
        raw_index@.len() % 6 != 0 ==> out == Err::<Vec<IndexEntry>, FreezerError>(
            FreezerError::Conversion(entry_error((raw_index@.len() % 6) as nat)),
        ),
{
    let len = raw_index.len();
    let mut entries: Vec<IndexEntry> = Vec::new();
    let mut at: usize = 0;
    while len - at >= 6
        invariant
            len == raw_index@.len(),
            at <= len,
            at % 6 == 0,
            entries@.len() == at / 6,
            forall|i: int|
                0 <= i < entries@.len() ==> entries@[i] == entry_of(
                    #[trigger] raw_index@.subrange(6 * i, 6 * i + 6),
                ),
        decreases len - at,
    {
        let entry = IndexEntry::from_bytes(&raw_index[at..at + 6])?;
        entries.push(entry);
        at = at + 6;
    }
    if at < len {
        IndexEntry::from_bytes(&raw_index[at..len])?;
    }
    assert(entries@ =~= index_entries(raw_index@));
    Ok(entries)
}

/// What is to be read of one data file.
#[derive(Debug, Clone, Copy, PartialEq, Eq, Structural)]
pub struct FileRead {
    /// The number of the data file.
    pub file_number: u16,
    /// The position of the first byte to read.
    pub start: u64,
    /// The position behind the last byte to read; `None` to read to the end of
    /// the file.
    pub end: Option<u64>,
}

/// The `i`-th read of the plan for the records that start in file
/// `first_file_number` at `first_offset` and end in file `last_file_number`
/// before `last_offset`.
pub open spec fn planned_read(
    first_file_number: u16,
    last_file_number: u16,
    first_offset: u64,
    last_offset: u64,
    i: int,
) -> FileRead {
    FileRead {
        file_number: (first_file_number + i) as u16,
        start: if i == 0 {
            first_offset
        } else {
            0
        },
        end: if first_file_number + i == last_file_number {
            Some(last_offset)
        } else {
            None
        },
    }
}

/// The reads that bring the records of a range of blocks into one buffer, one
/// read for each data file from the first to the last, in rising order. The
/// first file is read from `first_offset` on, the last one up to `last_offset`,
/// those between them whole. There is nothing to read where the last file comes
/// before the first.
///
/// Where both ends lie in one file and the end comes before the start, the
/// offsets bound nothing.
pub fn read_plan(
    first_file_number: u16,
    last_file_number: u16,
    first_offset: u64,
    last_offset: u64,
) -> (out: Result<Vec<FileRead>, FreezerError>)
    ensures
        first_file_number == last_file_number && last_offset < first_offset ==> out == Err::<
            Vec<FileRead>,
            FreezerError,
        >(FreezerError::BlockOffset),
        !(first_file_number == last_file_number && last_offset < first_offset) ==> (out matches Ok(
            plan,
        ) && plan@.len() == (if first_file_number <= last_file_number {
            last_file_number - first_file_number + 1
        } else {
            0
        }) && forall|i: int|
            0 <= i < plan@.len() ==> #[trigger] plan@[i] == planned_read(
                first_file_number,
                last_file_number,
                first_offset,
                last_offset,
                i,
            )),
{
    if first_file_number == last_file_number && last_offset < first_offset {
        return Err(FreezerError::BlockOffset);
    }
    let mut plan: Vec<FileRead> = Vec::new();
    if first_file_number > last_file_number {
        return Ok(plan);
    }
    let mut current = first_file_number;
    loop
        invariant_except_break
            first_file_number <= current <= last_file_number,
            plan@.len() == current - first_file_number,
            forall|i: int|
                0 <= i < plan@.len() ==> #[trigger] plan@[i] == planned_read(
                    first_file_number,
                    last_file_number,
                    first_offset,
                    last_offset,
                    i,
                ),
        ensures
            plan@.len() == last_file_number - first_file_number + 1,
            forall|i: int|
                0 <= i < plan@.len() ==> #[trigger] plan@[i] == planned_read(
                    first_file_number,
                    last_file_number,
                    first_offset,
                    last_offset,
                    i,
                ),
        decreases last_file_number - current,
    {
        let start = if current == first_file_number {
            first_offset
        } else {
            0
        };
        let end = if current == last_file_number {
            Some(last_offset)
        } else {
            None
        };
        plan.push(FileRead { file_number: current, start, end });
        if current == last_file_number {
            break ;
        }
        current = current + 1;
    }
    Ok(plan)
}

/// Where in a data file the records lie whose offsets are given: from the
/// first offset up to the last. The last offset bounds the last record and
/// starts none.
pub fn data_span(offsets: &[u64]) -> (out: Result<ByteSpan, FreezerError>)
    ensures
        offsets@.len() > 0 && offsets@.first() <= offsets@.last() ==> out == Ok::<
            ByteSpan,
            FreezerError,
        >(ByteSpan { start: offsets@.first(), len: (offsets@.last() - offsets@.first()) as u64 }),
        offsets@.len() == 0 || offsets@.first() > offsets@.last() ==> out == Err::<
            ByteSpan,
            FreezerError,
        >(FreezerError::BlockOffset),
{
    let len = offsets.len();
    if len == 0 {
        return Err(FreezerError::BlockOffset);
    }
    let first = offsets[0];
    let last = offsets[len - 1];
    if first > last {
        return Err(FreezerError::BlockOffset);
    }
    Ok(ByteSpan { start: first, len: last - first })
}

/// The length of the data file with the given number, where the table of
/// lengths holds it. The table starts with the file `first_file_number` and
/// goes on file by file.
pub open spec fn file_length(first_file_number: u16, file_lengths: Seq<u64>, file_number: int) -> Option<
    u64,
> {
    if first_file_number <= file_number < first_file_number + file_lengths.len() {
        Some(file_lengths[file_number - first_file_number])
    } else {
        None
    }
}

/// The record offsets into the buffer that the first `n` entries of an index
/// give, with the shift that is in force behind them.
///
/// The buffer starts at `first_offset` of the first data file, so the shift
/// starts as `-first_offset`. An entry with offset 0 that is not the first one
/// opens a new data file: from there on the shift is the length of the file
/// before it less the offset recorded last. Each entry's offset into the buffer
/// is its offset plus the shift.
pub open spec fn stitch_spec(
    entries: Seq<IndexEntry>,
    first_offset: u64,
    first_file_number: u16,
    file_lengths: Seq<u64>,
    n: nat,
) -> Result<(Seq<u64>, int), FreezerError>
    decreases n,
{
    if n == 0 {
        Ok((Seq::empty(), -(first_offset as int)))
    } else {
        match stitch_spec(entries, first_offset, first_file_number, file_lengths, (n - 1) as nat) {
            Err(error) => Err(error),
            Ok((offsets, shift)) => {
                let entry = entries[n - 1];
                let rolls = entry.offset == 0 && offsets.len() > 0;
                let before = file_length(first_file_number, file_lengths, entry.file_number - 1);
                if rolls && before is None {
                    Err(FreezerError::FileMetadata)
                } else if rolls && before.unwrap() < offsets.last() {
                    Err(FreezerError::BlockOffset)
                } else {
                    let shift = if rolls {
                        before.unwrap() - offsets.last()
                    } else {
                        shift
                    };
                    if 0 <= entry.offset + shift <= u64::MAX {
                        Ok((offsets.push((entry.offset + shift) as u64), shift))
                    } else {
                        Err(FreezerError::BlockOffset)
                    }
                }
            },
        }
    }
}

/// Once an entry has been turned down, the entries behind it change nothing.
proof fn lemma_stitch_error_stays(
    entries: Seq<IndexEntry>,
    first_offset: u64,
    first_file_number: u16,
    file_lengths: Seq<u64>,
    m: nat,
    n: nat,
)
    requires
        m <= n,
        stitch_spec(entries, first_offset, first_file_number, file_lengths, m) is Err,
    ensures
        stitch_spec(entries, first_offset, first_file_number, file_lengths, n) == stitch_spec(
            entries,
            first_offset,
            first_file_number,
            file_lengths,
            m,
        ),
    decreases n,
{
    if m < n {
        lemma_stitch_error_stays(
            entries,
            first_offset,
            first_file_number,
            file_lengths,
            m,
            (n - 1) as nat,
        );
    }
}

/// The offsets into the buffer that the entries of an index give, where none
/// of them is turned down.
pub open spec fn stitched(
    entries: Seq<IndexEntry>,
    first_offset: u64,
    first_file_number: u16,
    file_lengths: Seq<u64>,
) -> Seq<u64>
    recommends
        stitch_spec(entries, first_offset, first_file_number, file_lengths, entries.len()) is Ok,
{
    stitch_spec(entries, first_offset, first_file_number, file_lengths, entries.len()).unwrap().0
}

/// Where the first `n` entries give offsets, so do the first `m` of them, the
/// same ones; there is one offset for each entry, and the last one is the last
/// entry's offset plus the shift.
proof fn lemma_stitch_prefix(
    entries: Seq<IndexEntry>,
    first_offset: u64,
    first_file_number: u16,
    file_lengths: Seq<u64>,
    m: nat,
    n: nat,
)
    requires
        m <= n,
        stitch_spec(entries, first_offset, first_file_number, file_lengths, n) is Ok,
    ensures
        stitch_spec(entries, first_offset, first_file_number, file_lengths, m) is Ok,
        stitch_spec(entries, first_offset, first_file_number, file_lengths, n).unwrap().0.len()
            == n,
        stitch_spec(entries, first_offset, first_file_number, file_lengths, m).unwrap().0
            == stitch_spec(
            entries,
            first_offset,
            first_file_number,
            file_lengths,
            n,
        ).unwrap().0.subrange(0, m as int),
        n > 0 ==> stitch_spec(
            entries,
            first_offset,
            first_file_number,
            file_lengths,
            n,
        ).unwrap().0.last() == entries[n - 1].offset + stitch_spec(
            entries,
            first_offset,
            first_file_number,
            file_lengths,
            n,
        ).unwrap().1,
    decreases n,
{
    let whole = stitch_spec(entries, first_offset, first_file_number, file_lengths, n).unwrap().0;
    if n > 0 {
        let shorter = (n - 1) as nat;
        lemma_stitch_prefix(
            entries,
            first_offset,
            first_file_number,
            file_lengths,
            shorter,
            shorter,
        );
        if m < n {
            lemma_stitch_prefix(
                entries,
                first_offset,
                first_file_number,
                file_lengths,
                m,
                shorter,
            );
            let part = stitch_spec(
                entries,
                first_offset,
                first_file_number,
                file_lengths,
                shorter,
            ).unwrap().0;
            assert(part.subrange(0, m as int) =~= whole.subrange(0, m as int));
        } else {
            assert(whole.subrange(0, n as int) =~= whole);
        }
    } else {
        assert(whole.subrange(0, 0) =~= whole);
    }
}

/// Whether the entry `k` opens a new data file: its offset is 0, and it is not
/// the first entry.
pub open spec fn rolls_over(entries: Seq<IndexEntry>, k: int) -> bool {
    0 < k < entries.len() && entries[k].offset == 0
}

/// The offsets of an index whose records take up room come out in strictly
/// rising order: no two records start at the same place.
///
/// Asked of the index is that, within a data file, each entry's offset lies
/// above that of the entry before it, and that a data file which is followed
/// by another is more than twice as long as the offset recorded last for it.
pub proof fn lemma_offsets_strictly_increase(
    entries: Seq<IndexEntry>,
    first_offset: u64,
    first_file_number: u16,
    file_lengths: Seq<u64>,
    i: int,
    j: int,
)
    requires
        stitch_spec(entries, first_offset, first_file_number, file_lengths, entries.len()) is Ok,
        forall|k: int|
            0 < k < entries.len() && !rolls_over(entries, k) ==> (#[trigger] entries[k]).offset
                > entries[k - 1].offset,
        forall|k: int| #[trigger]
            rolls_over(entries, k) ==> file_length(
                first_file_number,
                file_lengths,
                entries[k].file_number - 1,
            ).unwrap() > 2 * stitched(entries, first_offset, first_file_number, file_lengths)[k
                - 1],
        0 <= i < j < entries.len(),
    ensures
        stitched(entries, first_offset, first_file_number, file_lengths)[i] < stitched(
            entries,
            first_offset,
            first_file_number,
            file_lengths,
        )[j],
    decreases j - i,
{
    let offsets = stitched(entries, first_offset, first_file_number, file_lengths);
    let n = entries.len();
    lemma_stitch_prefix(entries, first_offset, first_file_number, file_lengths, n, n);
    if i + 1 < j {
        lemma_offsets_strictly_increase(
            entries,
            first_offset,
            first_file_number,
            file_lengths,
            i,
            j - 1,
        );
    }
    // the step from j - 1 to j
    lemma_stitch_prefix(entries, first_offset, first_file_number, file_lengths, j as nat, n);
    lemma_stitch_prefix(entries, first_offset, first_file_number, file_lengths, (j + 1) as nat, n);
    let before = stitch_spec(entries, first_offset, first_file_number, file_lengths, j as nat);
    let behind = stitch_spec(
        entries,
        first_offset,
        first_file_number,
        file_lengths,
        (j + 1) as nat,
    );
    assert(before.unwrap().0.last() == offsets[j - 1]);
    assert(behind.unwrap().0.last() == offsets[j]);
    if rolls_over(entries, j) {
        assert(offsets[j - 1] < offsets[j]);
    } else {
        assert(entries[j].offset > entries[j - 1].offset);
        assert(offsets[j - 1] < offsets[j]);
    }
}

/// The shift behind the entry `j`, where the entry `k` opens a data file and
/// no entry from there up to `j` opens another: the length of the file before
/// it less the offset recorded last for that file.
proof fn lemma_shift_behind_rollover(
    entries: Seq<IndexEntry>,
    first_offset: u64,
    first_file_number: u16,
    file_lengths: Seq<u64>,
    k: int,
    j: int,
)
    requires
        stitch_spec(entries, first_offset, first_file_number, file_lengths, entries.len()) is Ok,
        rolls_over(entries, k),
        k <= j < entries.len(),
        forall|between: int| k < between <= j ==> !rolls_over(entries, between),
    ensures
        file_length(first_file_number, file_lengths, entries[k].file_number - 1) is Some,
        stitch_spec(entries, first_offset, first_file_number, file_lengths, (j + 1) as nat) is Ok,
        stitch_spec(
            entries,
            first_offset,
            first_file_number,
            file_lengths,
            (j + 1) as nat,
        ).unwrap().1 == file_length(
            first_file_number,
            file_lengths,
            entries[k].file_number - 1,
        ).unwrap() - stitched(entries, first_offset, first_file_number, file_lengths)[k - 1],
    decreases j - k,
{
    let n = entries.len();
    lemma_stitch_prefix(entries, first_offset, first_file_number, file_lengths, n, n);
    lemma_stitch_prefix(entries, first_offset, first_file_number, file_lengths, j as nat, n);
    lemma_stitch_prefix(entries, first_offset, first_file_number, file_lengths, (j + 1) as nat, n);
    if k < j {
        lemma_shift_behind_rollover(
            entries,
            first_offset,
            first_file_number,
            file_lengths,
            k,
            j - 1,
        );
        assert(!rolls_over(entries, j));
    } else {
        let before = stitch_spec(entries, first_offset, first_file_number, file_lengths, k as nat);
        assert(before.unwrap().0.len() == k);
        assert(before.unwrap().0.last() == stitched(
            entries,
            first_offset,
            first_file_number,
            file_lengths,
        )[k - 1]);
    }
}

/// Behind the start of a new data file the offsets into the buffer are the
/// index's offsets plus the length of the file before, less the offset recorded
/// last for that file.
pub proof fn lemma_offset_behind_rollover(
    entries: Seq<IndexEntry>,
    first_offset: u64,
    first_file_number: u16,
    file_lengths: Seq<u64>,
    k: int,
    j: int,
)
    requires
        stitch_spec(entries, first_offset, first_file_number, file_lengths, entries.len()) is Ok,
        rolls_over(entries, k),
        k <= j < entries.len(),
        forall|between: int| k < between <= j ==> !rolls_over(entries, between),
    ensures
        file_length(first_file_number, file_lengths, entries[k].file_number - 1) is Some,
        stitched(entries, first_offset, first_file_number, file_lengths)[j] == file_length(
            first_file_number,
            file_lengths,
            entries[k].file_number - 1,
        ).unwrap() + entries[j].offset - stitched(
            entries,
            first_offset,
            first_file_number,
            file_lengths,
        )[k - 1],
{
    let n = entries.len();
    lemma_shift_behind_rollover(entries, first_offset, first_file_number, file_lengths, k, j);
    lemma_stitch_prefix(entries, first_offset, first_file_number, file_lengths, (j + 1) as nat, n);
    lemma_stitch_prefix(
        entries,
        first_offset,
        first_file_number,
        file_lengths,
        (j + 1) as nat,
        (j + 1) as nat,
    );
    let behind = stitch_spec(
        entries,
        first_offset,
        first_file_number,
        file_lengths,
        (j + 1) as nat,
    ).unwrap();
    assert(behind.0.last() == stitched(entries, first_offset, first_file_number, file_lengths)[j]);
}

/// Where the offset recorded last for a data file is the offset at which the
/// buffer starts, the records of the file behind it lie in the buffer at the
/// length of the file before, plus their offset in their own file, less the
/// offset at which the buffer starts.
pub proof fn lemma_rollover_offset(
    entries: Seq<IndexEntry>,
    first_offset: u64,
    first_file_number: u16,
    file_lengths: Seq<u64>,
    k: int,
    j: int,
)
    requires
        stitch_spec(entries, first_offset, first_file_number, file_lengths, entries.len()) is Ok,
        rolls_over(entries, k),
        k <= j < entries.len(),
        forall|between: int| k < between <= j ==> !rolls_over(entries, between),
        stitched(entries, first_offset, first_file_number, file_lengths)[k - 1] == first_offset,
    ensures
        file_length(first_file_number, file_lengths, entries[k].file_number - 1) is Some,
        stitched(entries, first_offset, first_file_number, file_lengths)[j] == file_length(
            first_file_number,
            file_lengths,
            entries[k].file_number - 1,
        ).unwrap() + entries[j].offset - first_offset,
{
    lemma_offset_behind_rollover(entries, first_offset, first_file_number, file_lengths, k, j);
}

/// Up to the start of a second data file the offsets into the buffer are the
/// index's offsets less the offset at which the buffer starts.
pub proof fn lemma_offset_in_first_file(
    entries: Seq<IndexEntry>,
    first_offset: u64,
    first_file_number: u16,
    file_lengths: Seq<u64>,
    j: int,
)
    requires
        stitch_spec(entries, first_offset, first_file_number, file_lengths, entries.len()) is Ok,
        0 <= j < entries.len(),
        forall|between: int| 0 <= between <= j ==> !rolls_over(entries, between),
    ensures
        stitched(entries, first_offset, first_file_number, file_lengths)[j] == entries[j].offset
            - first_offset,
        stitch_spec(
            entries,
            first_offset,
            first_file_number,
            file_lengths,
            (j + 1) as nat,
        ).unwrap().1 == -first_offset,
    decreases j,
{
    let n = entries.len();
    lemma_stitch_prefix(entries, first_offset, first_file_number, file_lengths, n, n);
    lemma_stitch_prefix(entries, first_offset, first_file_number, file_lengths, j as nat, n);
    lemma_stitch_prefix(entries, first_offset, first_file_number, file_lengths, (j + 1) as nat, n);
    if j > 0 {
        lemma_offset_in_first_file(entries, first_offset, first_file_number, file_lengths, j - 1);
        assert(!rolls_over(entries, j));
    }
}

/// The offsets into the buffer at which the records of a range of blocks
/// start.
///
/// `entries` are the index entries of the blocks, `first_offset` is that of the
/// first of them, and `file_lengths` holds the lengths of the data files from
/// `first_file_number` on. The index counts each data file's offsets from 0;
/// the offsets returned count through, as the bytes lie in the buffer.
pub fn stitch_offsets(
    entries: &[IndexEntry],
    first_offset: u64,
    first_file_number: u16,
    file_lengths: &[u64],
) -> (out: Result<Vec<u64>, FreezerError>)
    ensures
        match stitch_spec(
            entries@,
            first_offset,
            first_file_number,
            file_lengths@,
            entries@.len(),
        ) {
            Ok((offsets, shift)) => out matches Ok(found) && found@ == offsets,
            Err(error) => out == Err::<Vec<u64>, FreezerError>(error),
        },
{
    let mut block_offsets: Vec<u64> = Vec::new();
    let mut offset_shift: i128 = -(first_offset as i128);
    let mut i: usize = 0;
    while i < entries.len()
        invariant
            i <= entries@.len(),
            stitch_spec(entries@, first_offset, first_file_number, file_lengths@, i as nat) == Ok::<
                (Seq<u64>, int),
                FreezerError,
            >((block_offsets@, offset_shift as int)),
            -(u64::MAX as int) <= offset_shift <= u64::MAX,
            block_offsets@.len() == i,
        decreases entries@.len() - i,
    {
        let entry = entries[i];
        proof {
            if stitch_spec(
                entries@,
                first_offset,
                first_file_number,
                file_lengths@,
                (i + 1) as nat,
            ) is Err {
                lemma_stitch_error_stays(
                    entries@,
                    first_offset,
                    first_file_number,
                    file_lengths@,
                    (i + 1) as nat,
                    entries@.len(),
                );
            }
        }
        if entry.offset == 0 && block_offsets.len() > 0 {
            if entry.file_number == 0 || entry.file_number - 1 < first_file_number {
                return Err(FreezerError::FileMetadata);
            }
            let table_index = (entry.file_number - 1 - first_file_number) as usize;
            if table_index >= file_lengths.len() {
                return Err(FreezerError::FileMetadata);
            }
            let file_len = file_lengths[table_index];
            let recorded = block_offsets[block_offsets.len() - 1];
            if file_len < recorded {
                return Err(FreezerError::BlockOffset);
            }
            offset_shift = (file_len - recorded) as i128;
        }
        let boundary: i128 = entry.offset as i128 + offset_shift;
        if boundary < 0 || boundary > u64::MAX as i128 {
            return Err(FreezerError::BlockOffset);
        }
        block_offsets.push(boundary as u64);
        i = i + 1;
    }
    Ok(block_offsets)
}

/// Reads the entries that the bytes of an index file hold and returns the
/// offsets into the buffer at which their records start.
pub fn export_index(
    raw_index: &[u8],
    first_offset: u64,
    first_file_number: u16,
    file_lengths: &[u64],
) -> (out: Result<Vec<u64>, FreezerError>)
    ensures
        raw_index@.len() % 6 != 0 ==> out == Err::<Vec<u64>, FreezerError>(
            FreezerError::Conversion(entry_error((raw_index@.len() % 6) as nat)),
        ),
        raw_index@.len() % 6 == 0 ==> match stitch_spec(
            index_entries(raw_index@),
            first_offset,
            first_file_number,
            file_lengths@,
            index_entries(raw_index@).len(),
        ) {
            Ok((offsets, shift)) => out matches Ok(found) && found@ == offsets,
            Err(error) => out == Err::<Vec<u64>, FreezerError>(error),
        },
{
    let entries = parse_index(raw_index)?;
    stitch_offsets(entries.as_slice(), first_offset, first_file_number, file_lengths)
}

/// The offsets of the entries that name the data file `file_number`, in the
/// order in which the entries come.
pub open spec fn offsets_in_file(entries: Seq<IndexEntry>, file_number: u16) -> Seq<u64>
    decreases entries.len(),
{
    if entries.len() == 0 {
        Seq::empty()
    } else {
        let before = offsets_in_file(entries.drop_last(), file_number);
        if entries.last().file_number == file_number {
            before.push(entries.last().offset)
        } else {
            before
        }
    }
}

/// The entries of an index by data file: for each file that an entry names,
/// the offsets of its entries.
pub open spec fn grouped(entries: Seq<IndexEntry>) -> Map<u16, Seq<u64>> {
    Map::new(
        |file_number: u16| offsets_in_file(entries, file_number).len() > 0,
        |file_number: u16| offsets_in_file(entries, file_number),
    )
}

/// Whether the data file `file_number` is one that the index leaves for the
/// next one, and whose length is known: whether the index holds offsets for
/// it and for the file behind it, and the table of lengths holds its length.
pub open spec fn rolled_over(
    groups: Map<u16, Seq<u64>>,
    first_file_number: u16,
    file_lengths: Seq<u64>,
    file_number: u16,
) -> bool {
    &&& groups.contains_key(file_number)
    &&& file_number < u16::MAX
    &&& groups.contains_key((file_number + 1) as u16)
    &&& file_length(first_file_number, file_lengths, file_number as int) is Some
}

/// The offsets of an index by data file, each file that the index leaves for
/// the next one closed by its length: the last record of such a file ends
/// where the file ends.
pub open spec fn closed_by_lengths(
    groups: Map<u16, Seq<u64>>,
    first_file_number: u16,
    file_lengths: Seq<u64>,
) -> Map<u16, Seq<u64>> {
    Map::new(
        |file_number: u16| groups.contains_key(file_number),
        |file_number: u16|
            if rolled_over(groups, first_file_number, file_lengths, file_number) {
                groups[file_number].push(
                    file_length(first_file_number, file_lengths, file_number as int).unwrap(),
                )
            } else {
                groups[file_number]
            },
    )
}

/// The part of an index that a range of blocks needs: the offsets of its
/// entries, gathered by the number of the data file.
#[derive(Debug, PartialEq)]
pub struct Index {
    pub offsets: HashMap<u16, Vec<u64>>,
}

impl View for Index {
    type V = Map<u16, Seq<u64>>;

    open spec fn view(&self) -> Map<u16, Seq<u64>> {
        Map::new(
            |file_number: u16| self.offsets@.contains_key(file_number),
            |file_number: u16| self.offsets@[file_number]@,
        )
    }
}

impl Index {
    /// Gathers the offsets of index entries by the number of the data file.
    pub fn new(entries: &[IndexEntry]) -> (index: Index)
        ensures
            index@ == grouped(entries@),
    {
        broadcast use vstd::std_specs::hash::group_hash_axioms;

        let mut offsets: HashMap<u16, Vec<u64>> = HashMap::new();
        let mut i: usize = 0;
        assert(entries@.subrange(0, 0) =~= Seq::<IndexEntry>::empty());
        while i < entries.len()
            invariant
                i <= entries@.len(),
                forall|file_number: u16| #[trigger]
                    offsets@.contains_key(file_number) <==> offsets_in_file(
                        entries@.subrange(0, i as int),
                        file_number,
                    ).len() > 0,
                forall|file_number: u16| #[trigger]
                    offsets@.contains_key(file_number) ==> offsets@[file_number]@
                        == offsets_in_file(entries@.subrange(0, i as int), file_number),
            decreases entries@.len() - i,
        {
            let entry = entries[i];
            let ghost seen = entries@.subrange(0, i as int);
            let ghost next = entries@.subrange(0, i + 1);
            proof {
                assert(next.drop_last() =~= seen);
                assert(next.last() == entry);
            }
            let mut in_file = match offsets.remove(&entry.file_number) {
                Some(found) => found,
                None => Vec::new(),
            };
            assert(in_file@ =~= offsets_in_file(seen, entry.file_number));
            in_file.push(entry.offset);
            offsets.insert(entry.file_number, in_file);
            i = i + 1;
        }
        assert(entries@.subrange(0, i as int) =~= entries@);
        let index = Index { offsets };
        assert(index@ =~= grouped(entries@));
        index
    }

    /// Puts the length of each data file that the index leaves for the next
    /// one behind the file's offsets, so that the file's last record has its
    /// end. `file_lengths` holds the lengths of the data files from
    /// `first_file_number` on; a file whose length it does not hold stays as it
    /// is.
    pub fn append_boundaries(&mut self, first_file_number: u16, file_lengths: &[u64])
        ensures
            final(self)@ == closed_by_lengths(old(self)@, first_file_number, file_lengths@),
    {
        broadcast use vstd::std_specs::hash::group_hash_axioms;

        let ghost given = self@;
        let mut i: usize = 0;
        while i < file_lengths.len() && i < 65535 - first_file_number as usize
            invariant
                i <= file_lengths@.len(),
                i <= 65535 - first_file_number,
                given == old(self)@,
                forall|file_number: u16| #[trigger]
                    self.offsets@.contains_key(file_number) <==> given.contains_key(file_number),
                forall|file_number: u16| #[trigger]
                    self.offsets@.contains_key(file_number) ==> self.offsets@[file_number]@ == (
                    if rolled_over(given, first_file_number, file_lengths@, file_number)
                        && file_number < first_file_number + i {
                        given[file_number].push(
                            file_length(
                                first_file_number,
                                file_lengths@,
                                file_number as int,
                            ).unwrap(),
                        )
                    } else {
                        given[file_number]
                    }),
            decreases file_lengths@.len() - i,
        {
            let file_number = first_file_number + i as u16;
            if self.offsets.contains_key(&file_number) && self.offsets.contains_key(
                &(file_number + 1),
            ) {
                let mut in_file = match self.offsets.remove(&file_number) {
                    Some(found) => found,
                    None => Vec::new(),
                };
                in_file.push(file_lengths[i]);
                self.offsets.insert(file_number, in_file);
            }
            i = i + 1;
        }
        assert(self@ =~= closed_by_lengths(given, first_file_number, file_lengths@));
    }
}

/// The byte strings that a vector holds.
pub open spec fn contents(records: Seq<Vec<u8>>) -> Seq<Seq<u8>> {
    Seq::new(records.len(), |i: int| records[i]@)
}

/// The bounds in a buffer of `data_len` bytes of the records that start at
/// `offsets`: each record ends where the next one starts, the last one at the
/// end of the buffer.
pub open spec fn record_bounds(offsets: Seq<u64>, data_len: nat) -> Seq<(int, int)> {
    Seq::new(
        offsets.len(),
        |k: int|
            (
                offsets[k] as int,
                if k + 1 < offsets.len() {
                    offsets[k + 1] as int
                } else {
                    data_len as int
                },
            ),
    )
}

/// The bounds of the records between `offsets` that count from the start of a
/// data file, in a buffer that starts at the first of them. The last offset
/// starts no record.
pub open spec fn window_bounds(offsets: Seq<u64>) -> Seq<(int, int)> {
    Seq::new(
        (offsets.len() - 1) as nat,
        |k: int| (offsets[k] - offsets[0], offsets[k + 1] - offsets[0]),
    )
}

impl Freezer {
    /// A record as it leaves the table: decompressed where the table is
    /// compressed, as it stands where it is not.
    pub open spec fn unpacked(self, record: Seq<u8>) -> Result<Seq<u8>, FreezerError> {
        if self.compressed() {
            match snappy_block(record) {
                Ok(bytes) => Ok(bytes),
                Err(error) => Err(FreezerError::SnappyDecompress(error)),
            }
        } else {
            Ok(record)
        }
    }

    /// A record of the table as RLP. The table of hashes keeps the 32 bytes
    /// of a hash bare: the prefix of a 32-byte string is put before them.
    pub open spec fn framed(self, record: Seq<u8>) -> Seq<u8> {
        if self == Freezer::Hashes {
            seq![0xa0u8] + record
        } else {
            record
        }
    }

    /// What becomes of the record that lies in `data` between `bounds`.
    pub open spec fn record_outcome(self, data: Seq<u8>, bounds: (int, int), frame: bool) -> Result<
        Seq<u8>,
        FreezerError,
    > {
        if 0 <= bounds.0 <= bounds.1 <= data.len() {
            match self.unpacked(data.subrange(bounds.0, bounds.1)) {
                Ok(record) => Ok(
                    if frame {
                        self.framed(record)
                    } else {
                        record
                    },
                ),
                Err(error) => Err(error),
            }
        } else {
            Err(FreezerError::BlockOffset)
        }
    }

    /// What becomes of the first `n` records that lie in `data` between
    /// `bounds`: all of them, or the error of the first that gives one.
    pub open spec fn records_outcome(
        self,
        data: Seq<u8>,
        bounds: Seq<(int, int)>,
        frame: bool,
        n: nat,
    ) -> Result<Seq<Seq<u8>>, FreezerError>
        decreases n,
    {
        if n == 0 {
            Ok(Seq::empty())
        } else {
            match self.records_outcome(data, bounds, frame, (n - 1) as nat) {
                Err(error) => Err(error),
                Ok(records) => match self.record_outcome(data, bounds[n - 1], frame) {
                    Err(error) => Err(error),
                    Ok(record) => Ok(records.push(record)),
                },
            }
        }
    }

    /// What becomes of the first `n` records that lie in `data` between
    /// `bounds` when each is read as a value of the type `T`: the values, or the
    /// error of the first record that gives one, be it by its bounds, as a
    /// Snappy block or as RLP.
    pub open spec fn values_outcome<T: Record>(
        self,
        data: Seq<u8>,
        bounds: Seq<(int, int)>,
        n: nat,
    ) -> Result<Seq<T::V>, FreezerError>
        decreases n,
    {
        if n == 0 {
            Ok(Seq::empty())
        } else {
            match self.values_outcome::<T>(data, bounds, (n - 1) as nat) {
                Err(error) => Err(error),
                Ok(found) => match self.record_outcome(data, bounds[n - 1], true) {
                    Err(error) => Err(error),
                    Ok(record) => match decoded::<T>(record) {
                        Err(failure) => Err(FreezerError::RlpDeserialization(failure)),
                        Ok(value) => Ok(found.push(value)),
                    },
                },
            }
        }
    }

    /// Once a record has given an error, the records behind it change nothing.
    proof fn lemma_values_error_stays<T: Record>(
        self,
        data: Seq<u8>,
        bounds: Seq<(int, int)>,
        m: nat,
        n: nat,
    )
        requires
            m <= n,
            self.values_outcome::<T>(data, bounds, m) is Err,
        ensures
            self.values_outcome::<T>(data, bounds, n) == self.values_outcome::<T>(data, bounds, m),
        decreases n,
    {
        if m < n {
            self.lemma_values_error_stays::<T>(data, bounds, m, (n - 1) as nat);
        }
    }

    /// Once a record has given an error, the records behind it change nothing.
    proof fn lemma_error_stays(
        self,
        data: Seq<u8>,
        bounds: Seq<(int, int)>,
        frame: bool,
        m: nat,
        n: nat,
    )
        requires
            m <= n,
            self.records_outcome(data, bounds, frame, m) is Err,
        ensures
            self.records_outcome(data, bounds, frame, n) == self.records_outcome(
                data,
                bounds,
                frame,
                m,
            ),
        decreases n,
    {
        if m < n {
            self.lemma_error_stays(data, bounds, frame, m, (n - 1) as nat);
        }
    }

    /// Reads the entries that the bytes of the table's index file hold and
    /// gathers their offsets by the number of the data file.
    pub fn init(&self, raw_index: &[u8]) -> (out: Result<Index, FreezerError>)
        ensures
            raw_index@.len() % 6 == 0 ==> (out matches Ok(index) && index@ == grouped(
                index_entries(raw_index@),
            )),
            raw_index@.len() % 6 != 0 ==> out == Err::<Index, FreezerError>(
                FreezerError::Conversion(entry_error((raw_index@.len() % 6) as nat)),
            ),
    {
        let entries = parse_index(raw_index)?;
        Ok(Index::new(entries.as_slice()))
    }

    /// Decompresses a record of a compressed table and copies a record of
    /// another table.
    pub fn decompress_record(&self, record: &[u8]) -> (out: Result<Vec<u8>, FreezerError>)
        ensures
            match self.unpacked(record@) {
                Ok(bytes) => out matches Ok(unpacked) && unpacked@ == bytes,
                Err(error) => out == Err::<Vec<u8>, FreezerError>(error),
            },
            !self.compressed() ==> (out matches Ok(unpacked) && unpacked@ == record@),
            self.compressed() && record@.len() == 0 ==> (out matches Err(error)
                && error is SnappyDecompress),
    {
        if self.is_compressed() {
            match decompress_block(record) {
                Ok(unpacked) => Ok(unpacked),
                Err(error) => Err(FreezerError::SnappyDecompress(error)),
            }
        } else {
            Ok(vstd::slice::slice_to_vec(record))
        }
    }

    /// Makes RLP of a record of the table: see [`Freezer::framed`].
    pub fn frame_record(&self, record: Vec<u8>) -> (out: Vec<u8>)
        ensures
            out@ == self.framed(record@),
    {
        match *self {
            Self::Hashes => {
                let mut framed: Vec<u8> = Vec::new();
                framed.push(0xa0);
                let mut i: usize = 0;
                while i < record.len()
                    invariant
                        i <= record@.len(),
                        framed@ == seq![0xa0u8] + record@.subrange(0, i as int),
                    decreases record@.len() - i,
                {
                    framed.push(record[i]);
                    i = i + 1;
                    assert(framed@ =~= seq![0xa0u8] + record@.subrange(0, i as int));
                }
                assert(record@.subrange(0, record@.len() as int) =~= record@);
                framed
            },
            _ => record,
        }
    }

    /// Cuts the record between `start` and `end` out of `data`.
    fn cut_record(&self, data: &[u8], start: u64, end: u64, frame: bool) -> (out: Result<
        Vec<u8>,
        FreezerError,
    >)
        ensures
            match self.record_outcome(data@, (start as int, end as int), frame) {
                Ok(record) => out matches Ok(found) && found@ == record,
                Err(error) => out == Err::<Vec<u8>, FreezerError>(error),
            },
    {
        if start > end || end > data.len() as u64 {
            return Err(FreezerError::BlockOffset);
        }
        let record = self.decompress_record(&data[start as usize..end as usize])?;
        if frame {
            Ok(self.frame_record(record))
        } else {
            Ok(record)
        }
    }

    /// Cuts the buffer `block_data` into the records that start at
    /// `block_offsets`, and decompresses each of them where the table is
    /// compressed. The last record ends where the buffer ends.
    pub fn decompress(&self, block_data: &[u8], block_offsets: &[u64]) -> (out: Result<
        Vec<Vec<u8>>,
        FreezerError,
    >)
        ensures
            block_offsets@.len() == 0 ==> out == Err::<Vec<Vec<u8>>, FreezerError>(
                FreezerError::BlockOffset,
            ),
            block_offsets@.len() > 0 ==> match self.records_outcome(
                block_data@,
                record_bounds(block_offsets@, block_data@.len()),
                false,
                block_offsets@.len(),
            ) {
                Ok(records) => out matches Ok(found) && contents(found@) == records,
                Err(error) => out == Err::<Vec<Vec<u8>>, FreezerError>(error),
            },
    {
        let count = block_offsets.len();
        if count == 0 {
            return Err(FreezerError::BlockOffset);
        }
        let ghost bounds = record_bounds(block_offsets@, block_data@.len());
        let mut block_parts: Vec<Vec<u8>> = Vec::new();
        let mut k: usize = 0;
        assert(contents(block_parts@) =~= Seq::<Seq<u8>>::empty());
        while k < count
            invariant
                count == block_offsets@.len(),
                k <= count,
                bounds == record_bounds(block_offsets@, block_data@.len()),
                self.records_outcome(block_data@, bounds, false, k as nat) == Ok::<
                    Seq<Seq<u8>>,
                    FreezerError,
                >(contents(block_parts@)),
            decreases count - k,
        {
            proof {
                if self.records_outcome(block_data@, bounds, false, (k + 1) as nat) is Err {
                    self.lemma_error_stays(
                        block_data@,
                        bounds,
                        false,
                        (k + 1) as nat,
                        count as nat,
                    );
                }
            }
            let end = if k + 1 < count {
                block_offsets[k + 1]
            } else {
                block_data.len() as u64
            };
            let ghost before = contents(block_parts@);
            let blob = self.cut_record(block_data, block_offsets[k], end, false)?;
            block_parts.push(blob);
            assert(contents(block_parts@) =~= before.push(blob@));
            k = k + 1;
        }
        Ok(block_parts)
    }

    /// Turns what was read for a range of blocks into the blocks' records: the
    /// index entries into offsets into the buffer, and the buffer into
    /// records, decompressed where the table is compressed.
    ///
    /// `raw_index` holds the index entries of the blocks, `first_offset` is the
    /// offset of the first of them, `file_lengths` holds the lengths of the
    /// data files from `first_file_number` on, and `block_data` is the buffer.
    pub fn load(
        &self,
        raw_index: &[u8],
        first_offset: u64,
        first_file_number: u16,
        file_lengths: &[u64],
        block_data: &[u8],
    ) -> (out: Result<Vec<Vec<u8>>, FreezerError>)
        ensures
            raw_index@.len() % 6 != 0 ==> out == Err::<Vec<Vec<u8>>, FreezerError>(
                FreezerError::Conversion(entry_error((raw_index@.len() % 6) as nat)),
            ),
            raw_index@.len() % 6 == 0 ==> match stitch_spec(
                index_entries(raw_index@),
                first_offset,
                first_file_number,
                file_lengths@,
                index_entries(raw_index@).len(),
            ) {
                Err(error) => out == Err::<Vec<Vec<u8>>, FreezerError>(error),
                Ok((offsets, shift)) => if offsets.len() == 0 {
                    out == Err::<Vec<Vec<u8>>, FreezerError>(FreezerError::BlockOffset)
                } else {
                    match self.records_outcome(
                        block_data@,
                        record_bounds(offsets, block_data@.len()),
                        false,
                        offsets.len(),
                    ) {
                        Ok(records) => out matches Ok(found) && contents(found@) == records,
                        Err(error) => out == Err::<Vec<Vec<u8>>, FreezerError>(error),
                    }
                },
            },
    {
        let block_offsets = export_index(raw_index, first_offset, first_file_number, file_lengths)?;
        self.decompress(block_data, block_offsets.as_slice())
    }

    /// Cuts the bytes `block_data` of one data file into the records between
    /// `block_offsets`, decompresses each of them where the table is
    /// compressed, and makes RLP of it. The offsets count from the start of the
    /// file, and `block_data` starts at the first of them; the last offset ends
    /// the last record.
    pub fn export_rlp(&self, block_offsets: &[u64], block_data: &[u8]) -> (out: Result<
        Vec<Vec<u8>>,
        FreezerError,
    >)
        ensures
            block_offsets@.len() == 0 ==> out == Err::<Vec<Vec<u8>>, FreezerError>(
                FreezerError::BlockOffset,
            ),
            block_offsets@.len() > 0 ==> match self.records_outcome(
                block_data@,
                window_bounds(block_offsets@),
                true,
                (block_offsets@.len() - 1) as nat,
            ) {
                Ok(records) => out matches Ok(found) && contents(found@) == records,
                Err(error) => out == Err::<Vec<Vec<u8>>, FreezerError>(error),
            },
    {
        if block_offsets.len() == 0 {
            return Err(FreezerError::BlockOffset);
        }
        let count = block_offsets.len() - 1;
        let offset_offset = block_offsets[0];
        let ghost bounds = window_bounds(block_offsets@);
        let mut block_objects: Vec<Vec<u8>> = Vec::new();
        let mut k: usize = 0;
        assert(contents(block_objects@) =~= Seq::<Seq<u8>>::empty());
        while k < count
            invariant
                count + 1 == block_offsets@.len(),
                k <= count,
                offset_offset == block_offsets@[0],
                bounds == window_bounds(block_offsets@),
                self.records_outcome(block_data@, bounds, true, k as nat) == Ok::<
                    Seq<Seq<u8>>,
                    FreezerError,
                >(contents(block_objects@)),
            decreases count - k,
        {
            proof {
                if self.records_outcome(block_data@, bounds, true, (k + 1) as nat) is Err {
                    self.lemma_error_stays(block_data@, bounds, true, (k + 1) as nat, count as nat);
                }
            }
            let start = block_offsets[k];
            let end = block_offsets[k + 1];
            if start < offset_offset || end < start {
                return Err(FreezerError::BlockOffset);
            }
            let ghost before = contents(block_objects@);
            let blob = self.cut_record(
                block_data,
                start - offset_offset,
                end - offset_offset,
                true,
            )?;
            block_objects.push(blob);
            assert(contents(block_objects@) =~= before.push(blob@));
            k = k + 1;
        }
        Ok(block_objects)
    }
}

impl Freezer {
    /// Cuts the bytes `block_data` of one data file into the records between
    /// `block_offsets`, as [`Freezer::export_rlp`] does, and reads each of them
    /// as a value of the type `T`.
    pub fn export_records<T: Record>(&self, block_offsets: &[u64], block_data: &[u8]) -> (out:
        Result<Vec<T>, FreezerError>)
        ensures
            block_offsets@.len() == 0 ==> out == Err::<Vec<T>, FreezerError>(
                FreezerError::BlockOffset,
            ),
            block_offsets@.len() > 0 ==> match self.values_outcome::<T>(
                block_data@,
                window_bounds(block_offsets@),
                (block_offsets@.len() - 1) as nat,
            ) {
                Ok(records) => out matches Ok(found) && values(found@) == records,
                Err(error) => out == Err::<Vec<T>, FreezerError>(error),
            },
    {
        if block_offsets.len() == 0 {
            return Err(FreezerError::BlockOffset);
        }
        let count = block_offsets.len() - 1;
        let offset_offset = block_offsets[0];
        let ghost bounds = window_bounds(block_offsets@);
        let mut block_objects: Vec<T> = Vec::new();
        let mut k: usize = 0;
        assert(values(block_objects@) =~= Seq::<T::V>::empty());
        while k < count
            invariant
                count + 1 == block_offsets@.len(),
                k <= count,
                offset_offset == block_offsets@[0],
                bounds == window_bounds(block_offsets@),
                self.values_outcome::<T>(block_data@, bounds, k as nat) == Ok::<
                    Seq<T::V>,
                    FreezerError,
                >(values(block_objects@)),
            decreases count - k,
        {
            proof {
                if self.values_outcome::<T>(block_data@, bounds, (k + 1) as nat) is Err {
                    self.lemma_values_error_stays::<T>(
                        block_data@,
                        bounds,
                        (k + 1) as nat,
                        count as nat,
                    );
                }
            }
            let start = block_offsets[k];
            let end = block_offsets[k + 1];
            if start < offset_offset || end < start {
                return Err(FreezerError::BlockOffset);
            }
            let ghost before = values(block_objects@);
            let blob = self.cut_record(
                block_data,
                start - offset_offset,
                end - offset_offset,
                true,
            )?;
            let record = match from_rlp::<T>(blob.as_slice()) {
                Ok(record) => record,
                Err(failure) => {
                    return Err(FreezerError::RlpDeserialization(failure));
                },
            };
            block_objects.push(record);
            assert(values(block_objects@) =~= before.push(record@));
            k = k + 1;
        }
        Ok(block_objects)
    }
}

} // verus!
