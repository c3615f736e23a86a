//! The indexed record container: an index stream of fixed-width entries
//! beside a data stream that the entries point into.
//!
//! An index entry is `|start:u32|length:u32|opt1:u16|opt2:u16|`, little
//! endian, and the entry of record `id` stands at byte `id * 12`. A start of
//! `0xFEFEFEFF` or `0xFFFFFFFF` marks a record that is not there.

use crate::error::MulError;
use crate::wire::{
    get_u16, get_u32, lemma_u16_bytes_read, lemma_u32_bytes_read, put_bytes, put_u16, put_u32,
    u16_at, u16_bytes, u32_at, u32_bytes,
};
use vstd::prelude::*;
use vstd::slice::{slice_subrange, slice_to_vec};

verus! {

/// The start value that marks an absent record.
pub const UNDEF_RECORD: u32 = 0xFEFEFEFF;

/// The width of one index entry in bytes.
pub const INDEX_SIZE: usize = 12;

/// An individual record, read from the data stream.
pub struct MulRecord {
    /// The record's bytes.
    pub data: Vec<u8>,
    /// Where the record starts in the data stream.
    pub start: u32,
    /// How many bytes the record holds.
    pub length: u32,
    /// A value whose meaning is up to the kind of data.
    pub opt1: u16,
    /// A value whose meaning is up to the kind of data.
    pub opt2: u16,
}

/// The mathematical value of a [`MulRecord`].
pub struct RecordView {
    pub data: Seq<u8>,
    pub start: u32,
    pub length: u32,
    pub opt1: u16,
    pub opt2: u16,
}

impl View for MulRecord {
    type V = RecordView;

    open spec fn view(&self) -> RecordView {
        RecordView {
            data: self.data@,
            start: self.start,
            length: self.length,
            opt1: self.opt1,
            opt2: self.opt2,
        }
    }
}

/// A start value that marks an absent record.
pub open spec fn is_absent(start: u32) -> bool {
    start == 0xFEFEFEFFu32 || start == 0xFFFFFFFFu32
}

/// The number of whole entries in an index stream.
pub open spec fn record_count(idx: Seq<u8>) -> int {
    idx.len() as int / 12
}

/// What looking up record `id` gives, for an index stream `idx` over a data
/// stream `data`.
pub open spec fn lookup(idx: Seq<u8>, data: Seq<u8>, id: u32) -> Result<RecordView, MulError> {
    let at = id as int * 12;
    let start = u32_at(idx, at);
    let length = u32_at(idx, at + 4);
    if at + 12 > idx.len() {
        Err(MulError::Truncated)
    } else if is_absent(start) {
        Err(MulError::NotFound)
    } else if start + length > data.len() {
        Err(MulError::Truncated)
    } else {
        Ok(
            RecordView {
                data: data.subrange(start as int, start + length),
                start,
                length,
                opt1: u16_at(idx, at + 8),
                opt2: u16_at(idx, at + 10),
            },
        )
    }
}

/// The index entry of a record of `length` bytes that starts at `start`.
pub open spec fn entry_bytes(start: u32, length: u32, opt1: u16, opt2: u16) -> Seq<u8> {
    u32_bytes(start) + u32_bytes(length) + u16_bytes(opt1) + u16_bytes(opt2)
}

/// Whether a result of a read is the given outcome of [`lookup`].
pub open spec fn read_matches(r: Result<MulRecord, MulError>, want: Result<RecordView, MulError>) -> bool {
    match r {
        Ok(rec) => want == Ok::<RecordView, MulError>(rec@),
        Err(e) => want == Err::<RecordView, MulError>(e),
    }
}

/// Reads records out of an index stream and a data stream.
pub struct MulReader {
    idx: Vec<u8>,
    data: Vec<u8>,
}

impl MulReader {
    /// The bytes of the index stream.
    pub closed spec fn index_bytes(&self) -> Seq<u8> {
        self.idx@
    }

    /// The bytes of the data stream.
    pub closed spec fn data_bytes(&self) -> Seq<u8> {
        self.data@
    }

    /// A reader over the two streams.
    pub fn from_readables(idx_reader: Vec<u8>, data_reader: Vec<u8>) -> (reader: MulReader)
        ensures
            reader.index_bytes() == idx_reader@,
            reader.data_bytes() == data_reader@,
    {
        MulReader { idx: idx_reader, data: data_reader }
    }

    /// The number of whole entries in the index stream.
    pub fn len(&self) -> (n: usize)
        ensures
            n == record_count(self.index_bytes()),
    {
        self.idx.len() / INDEX_SIZE
    }

    /// Looks up record `index`: its bytes and the two values of its entry.
    ///
    /// An entry that marks the record as absent gives `NotFound`, whatever
    /// its length says. An id past the last whole entry, and an entry that
    /// points outside the data stream, give `Truncated`.
    pub fn read(&self, index: u32) -> (r: Result<MulRecord, MulError>)
        ensures
            read_matches(r, lookup(self.index_bytes(), self.data_bytes(), index)),
            index >= record_count(self.index_bytes()) ==> r == Err::<MulRecord, MulError>(
                MulError::Truncated,
            ),
            index < record_count(self.index_bytes()) && is_absent(
                u32_at(self.index_bytes(), index as int * 12),
            ) ==> r == Err::<MulRecord, MulError>(MulError::NotFound),
    {
        let idx_len: usize = self.idx.len();
        if idx_len < INDEX_SIZE || (index as u64) > ((idx_len - INDEX_SIZE) / INDEX_SIZE) as u64 {
            return Err(MulError::Truncated);
        }
        let at: usize = index as usize * INDEX_SIZE;
        let start: u32 = get_u32(self.idx.as_slice(), at);
        if start == UNDEF_RECORD || start == u32::MAX {
            return Err(MulError::NotFound);
        }
        let length: u32 = get_u32(self.idx.as_slice(), at + 4);
        let opt1: u16 = get_u16(self.idx.as_slice(), at + 8);
        let opt2: u16 = get_u16(self.idx.as_slice(), at + 10);
        if start as u64 + length as u64 > self.data.len() as u64 {
            return Err(MulError::Truncated);
        }
        let data: Vec<u8> = slice_to_vec(
            slice_subrange(self.data.as_slice(), start as usize, start as usize + length as usize),
        );
        Ok(MulRecord { data, start, length, opt1, opt2 })
    }
}

/// How a writer treats what the streams already hold.
#[derive(Clone, Copy, Debug, PartialEq, Eq, Structural)]
pub enum MulWriterMode {
    /// Keep the records that are there and add after them.
    Append,
    /// Start from empty streams.
    Truncate,
}

/// Adds records at the end of an index stream and a data stream.
pub struct MulWriter {
    idx: Vec<u8>,
    data: Vec<u8>,
}

impl MulWriter {
    /// The bytes of the index stream.
    pub closed spec fn index_bytes(&self) -> Seq<u8> {
        self.idx@
    }

    /// The bytes of the data stream.
    pub closed spec fn data_bytes(&self) -> Seq<u8> {
        self.data@
    }

    /// A writer over the two streams, which `Truncate` empties first.
    pub fn new(idx_writer: Vec<u8>, data_writer: Vec<u8>, mode: MulWriterMode) -> (writer: MulWriter)
        ensures
            writer.index_bytes() == match mode {
                MulWriterMode::Append => idx_writer@,
                MulWriterMode::Truncate => Seq::<u8>::empty(),
            },
            writer.data_bytes() == match mode {
                MulWriterMode::Append => data_writer@,
                MulWriterMode::Truncate => Seq::<u8>::empty(),
            },
    {
        match mode {
            MulWriterMode::Append => MulWriter { idx: idx_writer, data: data_writer },
            MulWriterMode::Truncate => MulWriter { idx: Vec::new(), data: Vec::new() },
        }
    }

    /// Adds one record after the last: its bytes at the end of the data
    /// stream, and at the end of the index stream an entry with the place
    /// where they start, their number, and the two values, each 0 where
    /// none is given.
    ///
    /// Fails, and changes nothing, where the end of the record would lie
    /// past what a 32-bit start and length can say.
    pub fn append(&mut self, data: &Vec<u8>, opt1: Option<u16>, opt2: Option<u16>) -> (r: Result<
        (),
        MulError,
    >)
        ensures
            r is Ok <==> old(self).data_bytes().len() + data@.len() <= u32::MAX,
            r is Err ==> r == Err::<(), MulError>(MulError::OutOfBounds) && *final(self) == *old(
                self,
            ),
            r is Ok ==> final(self).data_bytes() == old(self).data_bytes() + data@,
            r is Ok ==> final(self).index_bytes() == old(self).index_bytes() + entry_bytes(
                old(self).data_bytes().len() as u32,
                data@.len() as u32,
                match opt1 {
                    Some(v) => v,
                    None => 0u16,
                },
                match opt2 {
                    Some(v) => v,
                    None => 0u16,
                },
            ),
    {
        let mul_size: usize = self.data.len();
        let len: usize = data.len();
        if mul_size as u64 > u32::MAX as u64 || len as u64 > u32::MAX as u64 - mul_size as u64 {
            return Err(MulError::OutOfBounds);
        }
        let start: u32 = mul_size as u32;
        let length: u32 = len as u32;
        let first: u16 = match opt1 {
            Some(value) => value,
            None => 0,
        };
        let second: u16 = match opt2 {
            Some(value) => value,
            None => 0,
        };
        put_bytes(&mut self.data, data.as_slice());
        put_u32(&mut self.idx, start);
        put_u32(&mut self.idx, length);
        put_u16(&mut self.idx, first);
        put_u16(&mut self.idx, second);
        assert(self.idx@ =~= old(self).idx@ + entry_bytes(start, length, first, second));
        Ok(())
    }

    /// Gives up the two streams: the index stream, then the data stream.
    pub fn into_streams(self) -> (streams: (Vec<u8>, Vec<u8>))
        ensures
            streams.0@ == self.index_bytes(),
            streams.1@ == self.data_bytes(),
    {
        (self.idx, self.data)
    }
}

/// The bytes of the first `n` of the given lists, one after the other.
pub open spec fn concat_first(lists: Seq<Seq<u8>>, n: int) -> Seq<u8>
    decreases n,
{
    if n <= 0 {
        Seq::<u8>::empty()
    } else {
        concat_first(lists, n - 1) + lists[n - 1]
    }
}

/// The index stream of a container that holds the first `n` of the given
/// lists as its records, one after the other, record `i` with the values
/// `opts[i]`.
pub open spec fn index_first(lists: Seq<Seq<u8>>, opts: Seq<(u16, u16)>, n: int) -> Seq<u8>
    decreases n,
{
    if n <= 0 {
        Seq::<u8>::empty()
    } else {
        index_first(lists, opts, n - 1) + entry_bytes(
            concat_first(lists, n - 1).len() as u32,
            lists[n - 1].len() as u32,
            opts[n - 1].0,
            opts[n - 1].1,
        )
    }
}

/// The bytes of each of the given vectors.
pub open spec fn datas_of(vectors: Seq<Vec<u8>>) -> Seq<Seq<u8>> {
    Seq::new(vectors.len(), |i: int| vectors[i]@)
}

/// The bytes of each of the given records.
pub open spec fn record_datas(records: Seq<MulRecord>) -> Seq<Seq<u8>> {
    Seq::new(records.len(), |i: int| records[i].data@)
}

/// The two values of each of the given records.
pub open spec fn record_opts(records: Seq<MulRecord>) -> Seq<(u16, u16)> {
    Seq::new(records.len(), |i: int| (records[i].opt1, records[i].opt2))
}

/// The same two values `n` times.
pub open spec fn same_opts(n: nat, opt1: u16, opt2: u16) -> Seq<(u16, u16)> {
    Seq::new(n, |i: int| (opt1, opt2))
}

/// The bytes of more lists are no fewer.
pub proof fn lemma_concat_first_grows(lists: Seq<Seq<u8>>, n: int, m: int)
    requires
        0 <= n <= m,
    ensures
        concat_first(lists, n).len() <= concat_first(lists, m).len(),
    decreases m - n,
{
    if n < m {
        lemma_concat_first_grows(lists, n, m - 1);
    }
}

/// A container that holds the given vectors as its records 0, 1, 2 and so
/// on, each with the same two values.
pub fn simple_from_vecs(vectors: Vec<Vec<u8>>, opt1: u16, opt2: u16) -> (reader: MulReader)
    requires
        concat_first(datas_of(vectors@), vectors@.len() as int).len() <= u32::MAX,
    ensures
        reader.data_bytes() == concat_first(datas_of(vectors@), vectors@.len() as int),
        reader.index_bytes() == index_first(
            datas_of(vectors@),
            same_opts(vectors@.len(), opt1, opt2),
            vectors@.len() as int,
        ),
{
    let ghost lists = datas_of(vectors@);
    let ghost opts = same_opts(vectors@.len(), opt1, opt2);
    let mut writer = MulWriter::new(Vec::new(), Vec::new(), MulWriterMode::Truncate);
    let mut i: usize = 0;
    while i < vectors.len()
        invariant
            i <= vectors.len(),
            lists == datas_of(vectors@),
            opts == same_opts(vectors@.len(), opt1, opt2),
            concat_first(lists, vectors@.len() as int).len() <= u32::MAX,
            writer.data_bytes() == concat_first(lists, i as int),
            writer.index_bytes() == index_first(lists, opts, i as int),
        decreases vectors.len() - i,
    {
        proof {
            lemma_concat_first_grows(lists, i + 1, vectors@.len() as int);
        }
        let r = writer.append(&vectors[i], Some(opt1), Some(opt2));
        assert(r is Ok);
        i += 1;
    }
    let (idx, data) = writer.into_streams();
    MulReader::from_readables(idx, data)
}

/// A container that holds the bytes of the given records as its records
/// 0, 1, 2 and so on, each with its own two values. Where the given records
/// say that they start, and how long they say they are, does not count.
pub fn simple_from_mul_records(records: Vec<MulRecord>) -> (reader: MulReader)
    requires
        concat_first(record_datas(records@), records@.len() as int).len() <= u32::MAX,
    ensures
        reader.data_bytes() == concat_first(record_datas(records@), records@.len() as int),
        reader.index_bytes() == index_first(
            record_datas(records@),
            record_opts(records@),
            records@.len() as int,
        ),
{
    let ghost lists = record_datas(records@);
    let ghost opts = record_opts(records@);
    let mut writer = MulWriter::new(Vec::new(), Vec::new(), MulWriterMode::Truncate);
    let mut i: usize = 0;
    while i < records.len()
        invariant
            i <= records.len(),
            lists == record_datas(records@),
            opts == record_opts(records@),
            concat_first(lists, records@.len() as int).len() <= u32::MAX,
            writer.data_bytes() == concat_first(lists, i as int),
            writer.index_bytes() == index_first(lists, opts, i as int),
        decreases records.len() - i,
    {
        proof {
            lemma_concat_first_grows(lists, i + 1, records@.len() as int);
        }
        let record = &records[i];
        let r = writer.append(&record.data, Some(record.opt1), Some(record.opt2));
        assert(r is Ok);
        i += 1;
    }
    let (idx, data) = writer.into_streams();
    MulReader::from_readables(idx, data)
}

/// An index entry is 12 bytes, from which its four values are read back.
pub proof fn lemma_entry_bytes(start: u32, length: u32, opt1: u16, opt2: u16)
    ensures
        entry_bytes(start, length, opt1, opt2).len() == 12,
        u32_at(entry_bytes(start, length, opt1, opt2), 0) == start,
        u32_at(entry_bytes(start, length, opt1, opt2), 4) == length,
        u16_at(entry_bytes(start, length, opt1, opt2), 8) == opt1,
        u16_at(entry_bytes(start, length, opt1, opt2), 10) == opt2,
{
    let e = entry_bytes(start, length, opt1, opt2);
    let a = u32_bytes(start);
    let b = u32_bytes(length);
    let c = u16_bytes(opt1);
    let d = u16_bytes(opt2);
    lemma_u32_bytes_read(start);
    lemma_u32_bytes_read(length);
    lemma_u16_bytes_read(opt1);
    lemma_u16_bytes_read(opt2);
    assert(e[0] == a[0] && e[1] == a[1] && e[2] == a[2] && e[3] == a[3]);
    assert(e[4] == b[0] && e[5] == b[1] && e[6] == b[2] && e[7] == b[3]);
    assert(e[8] == c[0] && e[9] == c[1]);
    assert(e[10] == d[0] && e[11] == d[1]);
}

/// A record that is added to a container is read back under the next id,
/// unless the place where it starts is one of the two values that mark an
/// absent record; and what the ids before it give stays as it was.
pub proof fn lemma_read_appended(
    idx: Seq<u8>,
    data: Seq<u8>,
    record: Seq<u8>,
    opt1: u16,
    opt2: u16,
    id: u32,
)
    requires
        idx.len() % 12 == 0,
        data.len() + record.len() <= u32::MAX,
        record_count(idx) <= u32::MAX,
    ensures
        ({
            let start = data.len() as u32;
            let length = record.len() as u32;
            let idx2 = idx + entry_bytes(start, length, opt1, opt2);
            let data2 = data + record;
            &&& record_count(idx2) == record_count(idx) + 1
            &&& !is_absent(start) ==> lookup(idx2, data2, record_count(idx) as u32) == Ok::<
                RecordView,
                MulError,
            >(RecordView { data: record, start, length, opt1, opt2 })
            &&& id < record_count(idx) && lookup(idx, data, id) is Ok ==> lookup(idx2, data2, id)
                == lookup(idx, data, id)
        }),
{
    let start = data.len() as u32;
    let length = record.len() as u32;
    let entry = entry_bytes(start, length, opt1, opt2);
    let idx2 = idx + entry;
    let data2 = data + record;
    lemma_entry_bytes(start, length, opt1, opt2);
    let at = idx.len() as int;
    assert(u32_at(idx2, at) == u32_at(entry, 0)) by {
        assert(idx2[at] == entry[0] && idx2[at + 1] == entry[1] && idx2[at + 2] == entry[2]
            && idx2[at + 3] == entry[3]);
    }
    assert(u32_at(idx2, at + 4) == u32_at(entry, 4)) by {
        assert(idx2[at + 4] == entry[4] && idx2[at + 5] == entry[5] && idx2[at + 6] == entry[6]
            && idx2[at + 7] == entry[7]);
    }
    assert(u16_at(idx2, at + 8) == u16_at(entry, 8)) by {
        assert(idx2[at + 8] == entry[8] && idx2[at + 9] == entry[9]);
    }
    assert(u16_at(idx2, at + 10) == u16_at(entry, 10)) by {
        assert(idx2[at + 10] == entry[10] && idx2[at + 11] == entry[11]);
    }
    assert(data2.subrange(start as int, start + length) =~= record);
    if id < record_count(idx) && lookup(idx, data, id) is Ok {
        let p = id as int * 12;
        assert(idx2[p] == idx[p] && idx2[p + 1] == idx[p + 1] && idx2[p + 2] == idx[p + 2] && idx2[p
            + 3] == idx[p + 3]);
        assert(idx2[p + 4] == idx[p + 4] && idx2[p + 5] == idx[p + 5] && idx2[p + 6] == idx[p + 6]
            && idx2[p + 7] == idx[p + 7]);
        assert(idx2[p + 8] == idx[p + 8] && idx2[p + 9] == idx[p + 9] && idx2[p + 10] == idx[p + 10]
            && idx2[p + 11] == idx[p + 11]);
        let s = u32_at(idx, p);
        let l = u32_at(idx, p + 4);
        assert(data2.subrange(s as int, s + l) =~= data.subrange(s as int, s + l));
    }
}

} // verus!
