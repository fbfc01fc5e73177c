use vstd::prelude::*;
use vstd::string::StringExecFns;

use crate::data::{ParquetFile, PartitionId, total_file_bytes};
use crate::error::{FilterError, outcome_of};

verus! {

/// Filter that lets every partition proceed; a no-op for composition.
#[derive(Clone, Copy, PartialEq, Eq, Structural, Debug)]
pub struct TruePartitionFilter;

impl TruePartitionFilter {
    pub fn new() -> Self {
        TruePartitionFilter
    }

    pub fn apply(&self, _partition_id: PartitionId, _files: &Vec<ParquetFile>) -> (r: Result<
        bool,
        FilterError,
    >)
        ensures
            r == Ok::<bool, FilterError>(true),
    {
        Ok(true)
    }

    pub fn display_name(&self) -> (r: String)
        ensures
            r@ == "true"@,
    {
        "true".to_owned()
    }
}

/// Filter that excludes every partition; a no-op for composition.
#[derive(Clone, Copy, PartialEq, Eq, Structural, Debug)]
pub struct FalsePartitionFilter;

impl FalsePartitionFilter {
    pub fn new() -> Self {
        FalsePartitionFilter
    }

    pub fn apply(&self, _partition_id: PartitionId, _files: &Vec<ParquetFile>) -> (r: Result<
        bool,
        FilterError,
    >)
        ensures
            r == Ok::<bool, FilterError>(false),
    {
        Ok(false)
    }

    pub fn display_name(&self) -> (r: String)
        ensures
            r@ == "false"@,
    {
        "false".to_owned()
    }
}

/// Filter that never reaches a decision: it fails with a fixed message.
/// Stands in for a concrete filter whose evaluation failed.
#[derive(Debug)]
pub struct ErrorPartitionFilter {
    pub message: String,
}

impl ErrorPartitionFilter {
    pub fn new(message: String) -> (r: Self)
        ensures
            r.message == message,
    {
        ErrorPartitionFilter { message }
    }

    pub fn apply(&self, _partition_id: PartitionId, _files: &Vec<ParquetFile>) -> (r: Result<
        bool,
        FilterError,
    >)
        ensures
            outcome_of(r) == Err::<bool, Seq<char>>(self.message@),
    {
        Err(FilterError { message: self.message.clone() })
    }

    pub fn display_name(&self) -> (r: String)
        ensures
            r@ == "error"@,
    {
        "error".to_owned()
    }
}

/// Filter that lets a partition proceed only if it has at least one file.
#[derive(Clone, Copy, PartialEq, Eq, Structural, Debug)]
pub struct HasFilesPartitionFilter;

impl HasFilesPartitionFilter {
    pub fn new() -> Self {
        HasFilesPartitionFilter
    }

    pub fn apply(&self, _partition_id: PartitionId, files: &Vec<ParquetFile>) -> (r: Result<
        bool,
        FilterError,
    >)
        ensures
            r == Ok::<bool, FilterError>(files@.len() > 0),
    {
        Ok(files.len() > 0)
    }

    pub fn display_name(&self) -> (r: String)
        ensures
            r@ == "has_files"@,
    {
        "has_files".to_owned()
    }
}

/// Filter that lets a partition proceed only if its file count stays within
/// a fixed bound.
#[derive(Clone, Copy, PartialEq, Eq, Structural, Debug)]
pub struct MaxFilesPartitionFilter {
    pub max_files: usize,
}

impl MaxFilesPartitionFilter {
    pub fn new(max_files: usize) -> (r: Self)
        ensures
            r.max_files == max_files,
    {
        MaxFilesPartitionFilter { max_files }
    }

    pub fn apply(&self, _partition_id: PartitionId, files: &Vec<ParquetFile>) -> (r: Result<
        bool,
        FilterError,
    >)
        ensures
            r == Ok::<bool, FilterError>(files@.len() <= self.max_files),
    {
        Ok(files.len() <= self.max_files)
    }

    pub fn display_name(&self) -> (r: String)
        ensures
            r@ == "max_files"@,
    {
        "max_files".to_owned()
    }
}

/// Filter that lets a partition proceed only if the total size of its files
/// stays within a fixed byte budget.
#[derive(Clone, Copy, PartialEq, Eq, Structural, Debug)]
pub struct MaxParquetBytesPartitionFilter {
    pub max_bytes: u64,
}

impl MaxParquetBytesPartitionFilter {
    pub fn new(max_bytes: u64) -> (r: Self)
        ensures
            r.max_bytes == max_bytes,
    {
        MaxParquetBytesPartitionFilter { max_bytes }
    }

    pub fn apply(&self, _partition_id: PartitionId, files: &Vec<ParquetFile>) -> (r: Result<
        bool,
        FilterError,
    >)
        ensures
            r == Ok::<bool, FilterError>(total_file_bytes(files@) <= self.max_bytes),
    {
        let mut acc: u128 = 0;
        let mut i: usize = 0;
        while i < files.len()
            invariant
                i <= files@.len(),
                acc == total_file_bytes(files@.take(i as int)),
                acc <= self.max_bytes,
            decreases files@.len() - i,
        {
            proof {
                crate::data::lemma_total_file_bytes_take_step(files@, i as int);
            }
            let next = acc + (files[i].file_size_bytes as u128);
            if next > (self.max_bytes as u128) {
                proof {
                    crate::data::lemma_total_file_bytes_take_le(files@, i + 1);
                }
                return Ok(false);
            }
            acc = next;
            i = i + 1;
        }
        proof {
            assert(files@.take(files@.len() as int) =~= files@);
        }
        Ok(true)
    }

    pub fn display_name(&self) -> (r: String)
        ensures
            r@ == "max_parquet_bytes"@,
    {
        "max_parquet_bytes".to_owned()
    }
}

/// A filter over partitions: a leaf answering directly from the partition's
/// metadata, a boolean combinator over child filters, or a decorator that
/// observes the wrapped filter's outcome without altering it.
///
/// Evaluation is strictly left to right and short-circuits: `And` stops at
/// the first `false` or error, `Or` at the first `true` or error.
#[derive(Debug)]
pub enum Filter {
    True(TruePartitionFilter),
    False(FalsePartitionFilter),
    Error(ErrorPartitionFilter),
    HasFiles(HasFilesPartitionFilter),
    MaxFiles(MaxFilesPartitionFilter),
    MaxBytes(MaxParquetBytesPartitionFilter),
    And(Vec<Filter>),
    Or(Vec<Filter>),
    Logging(Box<Filter>),
    Metrics(Box<Filter>),
}

impl Filter {
    /// The outcome `apply` is bound to return: a function of the filter, the
    /// partition and its files alone.
    pub open spec fn decision(self, pid: PartitionId, files: Seq<ParquetFile>) -> Result<
        bool,
        Seq<char>,
    >
        decreases self, 0int, 0int,
    {
        match self {
            Filter::True(_) => Ok(true),
            Filter::False(_) => Ok(false),
            Filter::Error(e) => Err(e.message@),
            Filter::HasFiles(_) => Ok(files.len() > 0),
            Filter::MaxFiles(m) => Ok(files.len() <= m.max_files),
            Filter::MaxBytes(m) => Ok(total_file_bytes(files) <= m.max_bytes),
            Filter::And(children) => Self::and_decision(children@, pid, files, 0),
            Filter::Or(children) => Self::or_decision(children@, pid, files, 0),
            Filter::Logging(inner) => (*inner).decision(pid, files),
            Filter::Metrics(inner) => (*inner).decision(pid, files),
        }
    }

    /// Conjunction of the children from position `i` on: `true` as soon as
    /// none is left, otherwise the first `false` or error wins.
    pub open spec fn and_decision(
        cs: Seq<Filter>,
        pid: PartitionId,
        files: Seq<ParquetFile>,
        i: int,
    ) -> Result<bool, Seq<char>>
        decreases cs, cs.len() - i, 0int,
    {
        if i < 0 || i >= cs.len() {
            Ok(true)
        } else {
            match cs[i].decision(pid, files) {
                Ok(true) => Self::and_decision(cs, pid, files, i + 1),
                Ok(false) => Ok(false),
                Err(m) => Err(m),
            }
        }
    }

    /// Disjunction of the children from position `i` on: `false` as soon as
    /// none is left, otherwise the first `true` or error wins.
    pub open spec fn or_decision(
        cs: Seq<Filter>,
        pid: PartitionId,
        files: Seq<ParquetFile>,
        i: int,
    ) -> Result<bool, Seq<char>>
        decreases cs, cs.len() - i, 0int,
    {
        if i < 0 || i >= cs.len() {
            Ok(false)
        } else {
            match cs[i].decision(pid, files) {
                Ok(true) => Ok(true),
                Ok(false) => Self::or_decision(cs, pid, files, i + 1),
                Err(m) => Err(m),
            }
        }
    }

    /// The filter's display name. Combinators join their children's names,
    /// so a composed predicate describes itself in logs.
    pub open spec fn spec_name(self) -> Seq<char>
        decreases self, 0int, 0int,
    {
        match self {
            Filter::True(_) => "true"@,
            Filter::False(_) => "false"@,
            Filter::Error(_) => "error"@,
            Filter::HasFiles(_) => "has_files"@,
            Filter::MaxFiles(_) => "max_files"@,
            Filter::MaxBytes(_) => "max_parquet_bytes"@,
            Filter::And(children) => Self::joined_names(children@, " and "@, 0),
            Filter::Or(children) => Self::joined_names(children@, " or "@, 0),
            Filter::Logging(inner) => "logging("@ + (*inner).spec_name() + ")"@,
            Filter::Metrics(inner) => "metrics("@ + (*inner).spec_name() + ")"@,
        }
    }

    /// The children's parenthesized names from position `i` on, separated by
    /// `sep`.
    pub open spec fn joined_names(cs: Seq<Filter>, sep: Seq<char>, i: int) -> Seq<char>
        decreases cs, cs.len() - i, 0int,
    {
        if i < 0 || i >= cs.len() {
            Seq::empty()
        } else if i == cs.len() - 1 {
            "("@ + cs[i].spec_name() + ")"@
        } else {
            "("@ + cs[i].spec_name() + ")"@ + sep + Self::joined_names(cs, sep, i + 1)
        }
    }

    /// Evaluates the filter on one partition. The result is exactly
    /// `decision`: `Ok(true)` to proceed, `Ok(false)` to exclude, an error
    /// when no decision could be reached.
    #[verifier::loop_isolation(false)]
    pub fn apply(&self, partition_id: PartitionId, files: &Vec<ParquetFile>) -> (r: Result<
        bool,
        FilterError,
    >)
        ensures
            outcome_of(r) == self.decision(partition_id, files@),
        decreases *self, 0int, 0int,
    {
        match self {
            Filter::True(t) => t.apply(partition_id, files),
            Filter::False(t) => t.apply(partition_id, files),
            Filter::Error(t) => t.apply(partition_id, files),
            Filter::HasFiles(t) => t.apply(partition_id, files),
            Filter::MaxFiles(t) => t.apply(partition_id, files),
            Filter::MaxBytes(t) => t.apply(partition_id, files),
            Filter::And(children) => {
                let mut i: usize = 0;
                while i < children.len()
                    invariant
                        i <= children@.len(),
                        Self::and_decision(children@, partition_id, files@, 0)
                            == Self::and_decision(children@, partition_id, files@, i as int),
                    decreases children@.len() - i,
                {
                    proof {
                        assert(decreases_to!(*self => children@[i as int]));
                    }
                    match children[i].apply(partition_id, files) {
                        Ok(true) => {
                            i = i + 1;
                        },
                        Ok(false) => {
                            return Ok(false);
                        },
                        Err(e) => {
                            return Err(e);
                        },
                    }
                }
                Ok(true)
            },
            Filter::Or(children) => {
                let mut i: usize = 0;
                while i < children.len()
                    invariant
                        i <= children@.len(),
                        Self::or_decision(children@, partition_id, files@, 0)
                            == Self::or_decision(children@, partition_id, files@, i as int),
                    decreases children@.len() - i,
                {
                    proof {
                        assert(decreases_to!(*self => children@[i as int]));
                    }
                    match children[i].apply(partition_id, files) {
                        Ok(true) => {
                            return Ok(true);
                        },
                        Ok(false) => {
                            i = i + 1;
                        },
                        Err(e) => {
                            return Err(e);
                        },
                    }
                }
                Ok(false)
            },
            Filter::Logging(inner) => inner.apply(partition_id, files),
            Filter::Metrics(inner) => inner.apply(partition_id, files),
        }
    }

    /// The display name as a string; its characters are exactly `spec_name`.
    pub fn display_name(&self) -> (r: String)
        ensures
            r@ == self.spec_name(),
        decreases *self, 0int, 0int,
    {
        match self {
            Filter::True(t) => t.display_name(),
            Filter::False(t) => t.display_name(),
            Filter::Error(t) => t.display_name(),
            Filter::HasFiles(t) => t.display_name(),
            Filter::MaxFiles(t) => t.display_name(),
            Filter::MaxBytes(t) => t.display_name(),
            Filter::And(children) => Self::join_names(children, " and ", 0),
            Filter::Or(children) => Self::join_names(children, " or ", 0),
            Filter::Logging(inner) => {
                let mut s = "logging(".to_owned();
                s.append(inner.display_name().as_str());
                s.append(")");
                s
            },
            Filter::Metrics(inner) => {
                let mut s = "metrics(".to_owned();
                s.append(inner.display_name().as_str());
                s.append(")");
                s
            },
        }
    }

    /// Joins the children's parenthesized names from position `i` on.
    fn join_names(children: &Vec<Filter>, sep: &str, i: usize) -> (r: String)
        ensures
            r@ == Self::joined_names(children@, sep@, i as int),
        decreases children@, children@.len() - i, 1int,
    {
        if i >= children.len() {
            String::new()
        } else {
            let mut s = "(".to_owned();
            proof {
                assert(decreases_to!(children@ => children@[i as int]));
            }
            s.append(children[i].display_name().as_str());
            s.append(")");
            if i + 1 < children.len() {
                s.append(sep);
                let rest = Self::join_names(children, sep, i + 1);
                s.append(rest.as_str());
            }
            s
        }
    }
}

} // verus!
