use vstd::prelude::*;

verus! {

/// Opaque identifier of a storage partition. The filter core never
/// interprets it; it is carried along as a lookup and log key.
#[derive(Clone, Copy, PartialEq, Eq, Structural, Debug)]
pub struct PartitionId {
    pub value: i64,
}

impl PartitionId {
    pub fn new(value: i64) -> (r: Self)
        ensures
            r.value == value,
    {
        PartitionId { value }
    }
}

/// Immutable metadata of one columnar data file belonging to a partition:
/// enough identity to be counted and compared, and its size in bytes.
#[derive(Clone, Copy, PartialEq, Eq, Structural, Debug)]
pub struct ParquetFile {
    pub id: i64,
    pub file_size_bytes: u64,
}

impl ParquetFile {
    pub fn new(id: i64, file_size_bytes: u64) -> (r: Self)
        ensures
            r.id == id,
            r.file_size_bytes == file_size_bytes,
    {
        ParquetFile { id, file_size_bytes }
    }
}

/// Total size in bytes of a sequence of files.
pub open spec fn total_file_bytes(files: Seq<ParquetFile>) -> int
    decreases files.len(),
{
    if files.len() == 0 {
        0
    } else {
        total_file_bytes(files.drop_last()) + files.last().file_size_bytes
    }
}

pub proof fn lemma_total_file_bytes_nonneg(files: Seq<ParquetFile>)
    ensures
        0 <= total_file_bytes(files),
    decreases files.len(),
{
    if files.len() > 0 {
        lemma_total_file_bytes_nonneg(files.drop_last());
    }
}

/// Extending a prefix by one file adds that file's size to the total.
pub proof fn lemma_total_file_bytes_take_step(files: Seq<ParquetFile>, i: int)
    requires
        0 <= i < files.len(),
    ensures
        total_file_bytes(files.take(i + 1)) == total_file_bytes(files.take(i))
            + files[i].file_size_bytes,
{
    assert(files.take(i + 1).drop_last() =~= files.take(i));
    assert(files.take(i + 1).last() == files[i]);
}

/// A prefix never weighs more than the whole sequence.
pub proof fn lemma_total_file_bytes_take_le(files: Seq<ParquetFile>, i: int)
    requires
        0 <= i <= files.len(),
    ensures
        total_file_bytes(files.take(i)) <= total_file_bytes(files),
    decreases files.len() - i,
{
    if i == files.len() {
        assert(files.take(i) =~= files);
    } else {
        lemma_total_file_bytes_take_step(files, i);
        lemma_total_file_bytes_take_le(files, i + 1);
    }
}

} // verus!
