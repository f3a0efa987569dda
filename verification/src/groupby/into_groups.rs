//! Grouping of a column by its values.

use crate::array::{
    count_present,
    lemma_count_present_bounds,
    lemma_count_present_none,
};
use crate::chunked_array::{ChunkedArray, IsSorted};
use crate::error::{PolarsError, PolarsResult};
use crate::groupby::grouping::{
    group_first,
    group_len,
    hashed_groups,
    hashes_follow_keys,
    is_clustered,
    is_grouping_by,
    is_run,
    is_run_partition,
    is_uniform,
    lemma_grouping_by_rekey,
    lemma_hashed_groups_by_key,
    lemma_hashed_groups_cover,
    lemma_rekey_hashed_groups,
    lemma_run_partition_concat,
    lemma_run_partition_rows,
    lemma_runs_cover,
    same_key,
    same_key_rows,
    same_pattern,
};
use crate::datatypes::{BinaryChunked, BooleanChunked, DataType};
use crate::groupby::hashing::{
    concat_all,
    groupby,
    groupby_threaded_num,
    key_hashes,
    key_views,
    BytesHash,
    GroupKey,
};
use crate::groupby::random_state::{hash_all, new_random_state};
use crate::groupby::proxy::{
    covers_exactly_once,
    slice_view,
    GroupsProxy,
    GroupsSlice,
    IdxSize,
};
use crate::groupby::sorted::{
    create_clean_partitions,
    is_clean_part,
    is_clean_partitioning,
    partition_to_groups,
};
use crate::native::NativeType;
use crate::pool::WorkerPool;
use vstd::prelude::*;
use vstd::slice::slice_subrange;
use vstd::string::StringSliceAdditionalSpecFns;

verus! {

/// The null rows are the first `nulls` rows.
pub open spec fn nulls_first_layout<T>(rows: Seq<Option<T>>, nulls: int) -> bool {
    &&& 0 <= nulls <= rows.len()
    &&& forall|i: int| 0 <= i < rows.len() ==> ((#[trigger] rows[i]).is_none() <==> i < nulls)
}

/// The null rows are the last `nulls` rows.
pub open spec fn nulls_last_layout<T>(rows: Seq<Option<T>>, nulls: int) -> bool {
    &&& 0 <= nulls <= rows.len()
    &&& forall|i: int|
        0 <= i < rows.len() ==> ((#[trigger] rows[i]).is_none() <==> i >= rows.len() - nulls)
}

/// The null rows stand together at the head or at the tail of the column, as
/// they do in a sorted column.
pub open spec fn nulls_at_one_end<T>(rows: Seq<Option<T>>) -> bool {
    exists|nulls: int| #[trigger] nulls_together(rows, nulls)
}

/// The null rows are the first `nulls` rows or the last `nulls` rows.
pub open spec fn nulls_together<T>(rows: Seq<Option<T>>, nulls: int) -> bool {
    nulls_first_layout(rows, nulls) || nulls_last_layout(rows, nulls)
}

/// Whether rows `i` and `j` are two rows that hold a value.
pub open spec fn both_present<T>(rows: Seq<Option<T>>, i: int, j: int) -> bool {
    0 <= i < j < rows.len() && rows[i].is_some() && rows[j].is_some()
}

/// Whether the rows are sorted: the null rows stand together at one end, no
/// value is NaN, and the values do not decrease (or, for `descending`, do
/// not increase) from row to row.
pub open spec fn is_sorted_rows<T: NativeType>(rows: Seq<Option<T>>, descending: bool) -> bool {
    &&& nulls_at_one_end(rows)
    &&& forall|i: int|
        0 <= i < rows.len() && (#[trigger] rows[i]).is_some() ==> !rows[i].unwrap().is_nan_spec()
    &&& forall|i: int, j: int| #[trigger]
        both_present(rows, i, j) ==> if descending {
            rows[i].unwrap().rank() >= rows[j].unwrap().rank()
        } else {
            rows[i].unwrap().rank() <= rows[j].unwrap().rank()
        }
}

/// In a sorted column of integers equal keys stand together.
pub proof fn lemma_sorted_is_clustered<T: NativeType>(rows: Seq<Option<T>>, descending: bool)
    requires
        is_sorted_rows(rows, descending),
        !T::is_float_spec(),
    ensures
        is_clustered(rows),
{
    let nulls = choose|nulls: int| #[trigger] nulls_together(rows, nulls);
    assert forall|i: int, k: int| #[trigger] same_key_rows(rows, i, k) implies is_uniform(
        rows,
        i,
        k + 1,
    ) by {
        assert forall|r: int| i <= r < k + 1 implies #[trigger] rows[r] == rows[i] by {
            if i < r < k {
                if rows[i].is_none() {
                    assert(rows[k].is_none());
                    assert(rows[r].is_none());
                } else {
                    assert(rows[k].is_some());
                    assert(rows[r].is_some());
                    assert(both_present(rows, i, r));
                    assert(both_present(rows, r, k));
                    T::lemma_rank_injective(rows[r].unwrap(), rows[i].unwrap());
                }
            }
        }
    }
}

/// The number of values in a column whose null rows stand together.
proof fn lemma_layout_count<T>(rows: Seq<Option<T>>, nulls: int, m: int)
    requires
        nulls_first_layout(rows, nulls) || nulls_last_layout(rows, nulls),
        0 <= m <= rows.len(),
    ensures
        nulls_first_layout(rows, nulls) ==> count_present(rows, 0, m) == if m <= nulls {
            0
        } else {
            m - nulls
        },
        nulls_last_layout(rows, nulls) ==> count_present(rows, 0, m) == if m <= rows.len()
            - nulls {
            m
        } else {
            rows.len() - nulls
        },
    decreases m,
{
    if m > 0 {
        lemma_layout_count(rows, nulls, m - 1);
        assert(rows[m - 1].is_none() || rows[m - 1].is_some());
    }
}

/// What can be grouped: it yields, for every distinct key among its rows, the
/// rows that hold the key.
pub trait IntoGroupsProxy {
    /// Number of rows.
    spec fn rows_len(&self) -> nat;

    /// The groups of the rows. The first row of a group is the first row
    /// that holds its key; the rows of a group include the first row. No row
    /// is dropped: every row lies in exactly one group.
    fn group_tuples(&self, pool: &WorkerPool, multithreaded: bool, sorted: bool) -> (out:
        PolarsResult<GroupsProxy>)
        ensures
            out matches Ok(groups) ==> covers_exactly_once(groups@, self.rows_len() as int),
    ;
}

/// Whether a column is long enough for grouping it in partitions to pay.
pub fn group_multithreaded<T>(ca: &ChunkedArray<T>) -> (pays: bool)
    ensures
        pays == (ca@.len() > 1000),
{
    ca.len() > 1000
}

/// The hashes under which the rows of a numeric column are grouped.
pub open spec fn numeric_hashes<T: NativeType>(rows: Seq<Option<T>>) -> Seq<u64> {
    key_hashes::<Option<T>, Option<T>>(rows)
}

/// The number of partitions that a numeric column is grouped in.
pub open spec fn numeric_partitions(len: int, pool: WorkerPool, multithreaded: bool) -> int {
    if multithreaded && len > 1000 {
        pool.partitions()
    } else {
        1
    }
}

/// Groups a numeric column by hashing: in the partitions of the pool where
/// that is asked for and the column is long enough, else in one go.
pub fn num_groups_proxy<T: NativeType>(
    ca: &ChunkedArray<T>,
    pool: &WorkerPool,
    multithreaded: bool,
    sorted: bool,
) -> (groups: GroupsProxy)
    ensures
        groups is Idx,
        groups@ == hashed_groups(
            ca@,
            numeric_hashes(ca@),
            numeric_partitions(ca@.len() as int, *pool, multithreaded),
        ),
{
    let keys: Vec<Option<T>> = ca.to_options();
    proof {
        assert(key_views::<Option<T>, Option<T>>(keys@) =~= ca@);
    }
    if multithreaded && group_multithreaded(ca) {
        let n_partitions: u64 = pool.partition_size() as u64;
        let mut buffers: Vec<Vec<Option<T>>> = Vec::new();
        buffers.push(keys);
        proof {
            assert(concat_all(buffers@, 0) =~= Seq::<Option<T>>::empty());
            assert(concat_all(buffers@, 1) =~= ca@);
        }
        groupby_threaded_num(buffers, 0, n_partitions, sorted)
    } else {
        groupby(keys.as_slice(), sorted)
    }
}

/// The column is put together from a stretch of null rows and a stretch of
/// values, and `out` from the group of the null rows and the runs of the
/// values.
proof fn lemma_assemble_sorted<T>(
    out: Seq<[IdxSize; 2]>,
    rows: Seq<Option<T>>,
    values: Seq<T>,
    lo: int,
    hi: int,
    nulls: int,
    nulls_first: bool,
)
    requires
        0 <= lo < hi <= rows.len(),
        values.len() == hi - lo,
        forall|r: int| 0 <= r < hi - lo ==> #[trigger] rows[lo + r] == Some(values[r]),
        forall|i: int| 0 <= i < rows.len() && !(lo <= i < hi) ==> (#[trigger] rows[i]).is_none(),
        nulls == rows.len() - (hi - lo),
        nulls_first ==> lo == nulls && nulls > 0,
        !nulls_first ==> lo == 0,
        ({
            let before: int = if nulls_first {
                1
            } else {
                0
            };
            let after: int = if !nulls_first && nulls > 0 {
                1
            } else {
                0
            };
            &&& out.len() >= before + after
            &&& is_run_partition(out.subrange(before, out.len() - after), values, lo)
            &&& before == 1 ==> out[0]@[0] == 0 && out[0]@[1] == nulls
            &&& after == 1 ==> out[out.len() - 1]@[0] == hi && out[out.len() - 1]@[1] == nulls
        }),
    ensures
        is_run_partition(out, rows, 0),
{
    let before: int = if nulls_first {
        1
    } else {
        0
    };
    let after: int = if !nulls_first && nulls > 0 {
        1
    } else {
        0
    };
    let runs = out.subrange(before, out.len() - after);
    let middle = rows.subrange(lo, hi);
    assert forall|i: int| 0 <= i < middle.len() implies #[trigger] middle[i] == Some(values[i]) by {
        assert(rows[lo + i] == Some(values[i]));
    }
    lemma_run_partition_rows(runs, values, middle, lo);
    if nulls_first {
        let head = out.subrange(0, 1);
        let left = rows.subrange(0, lo);
        assert(is_run(head, left, 0, 0)) by {
            assert forall|r: int| 0 <= r < lo implies #[trigger] left[r] == left[0] by {
                assert(rows[r].is_none() && rows[0].is_none());
            }
        }
        assert(is_run_partition(head, left, 0));
        assert(rows.subrange(lo, rows.len() as int) =~= middle);
        assert(rows[lo + 0] == Some(values[0]));
        lemma_run_partition_concat(head, runs, rows, lo, 0);
        assert(head + runs =~= out);
    } else if nulls > 0 {
        let tail = out.subrange(out.len() - 1, out.len() as int);
        let right = rows.subrange(hi, rows.len() as int);
        assert(is_run(tail, right, hi, 0)) by {
            assert forall|r: int| 0 <= r < nulls implies #[trigger] right[r] == right[0] by {
                assert(rows[hi + r].is_none() && rows[hi].is_none());
            }
        }
        assert(is_run_partition(tail, right, hi));
        assert(rows.subrange(0, hi) =~= middle);
        assert(rows[lo + (hi - 1)] == Some(values[hi - 1]));
        lemma_run_partition_concat(runs, tail, rows, hi, 0);
        assert(runs + tail =~= out);
    } else {
        assert(rows =~= middle);
        assert(runs =~= out);
    }
}

impl<T: NativeType> ChunkedArray<T> {
    /// Whether the sortedness flag says no more than is so.
    pub open spec fn flag_holds(&self) -> bool {
        match self.sorted_flag() {
            IsSorted::Ascending => is_sorted_rows(self@, false),
            IsSorted::Descending => is_sorted_rows(self@, true),
            IsSorted::Not => true,
        }
    }

    /// Whether the column is grouped by the sorted fast path: its flag says
    /// that it is sorted, and it is one chunk.
    pub open spec fn takes_sorted_path(&self) -> bool {
        self.sorted_flag() != IsSorted::Not && self.chunk_views().len() == 1
    }

    /// The groups of a sorted column of one chunk: the null rows, where
    /// there are any, and the runs of equal values. With `multithreaded` and
    /// more than one worker the values are cut into stretches that end where
    /// a run ends, the runs of each stretch are found on their own, and the
    /// results are put one after the other.
    ///
    /// The null rows are taken to stand together at the end of the column
    /// at which its first row shows them to be, as they do in a sorted
    /// column. Of any other column the groups still hold every row once,
    /// but they are not the runs of its rows.
    pub fn create_groups_from_sorted(&self, pool: &WorkerPool, multithreaded: bool) -> (groups:
        GroupsSlice)
        requires
            self.chunk_views().len() == 1,
        ensures
            covers_exactly_once(slice_view(groups@), self@.len() as int),
            nulls_at_one_end(self@) ==> is_run_partition(groups@, self@, 0),
    {
        let arr = self.chunk(0);
        let ghost rows = self@;
        let mut out: GroupsSlice = Vec::new();
        if arr.is_empty() {
            proof {
                lemma_runs_cover(out@, rows);
            }
            return out;
        }
        let values = arr.values();
        let null_count: usize = arr.null_count();
        let length: usize = values.len();
        proof {
            lemma_count_present_bounds(rows, 0, length as int);
        }
        if null_count == length {
            out.push([0, length]);
            proof {
                lemma_count_present_none(rows, 0, length as int);
                assert(is_run(out@, rows, 0, 0)) by {
                    assert forall|r: int| 0 <= r < length implies #[trigger] rows[r] == rows[0] by {
                        assert(rows[r].is_none() && rows[0].is_none());
                    }
                }
                lemma_runs_cover(out@, rows);
            }
            return out;
        }
        let nulls_first: bool = null_count > 0 && !arr.is_valid(0);
        let lo: usize = if nulls_first {
            null_count
        } else {
            0
        };
        let hi: usize = if nulls_first {
            length
        } else {
            length - null_count
        };
        let vals = slice_subrange(values, lo, hi);
        let ghost labels = Seq::new(
            length as nat,
            |i: int|
                if lo <= i < hi {
                    Some(values@[i])
                } else {
                    None
                },
        );
        let n_threads: usize = pool.current_num_threads();
        if multithreaded && n_threads > 1 {
            let parts = create_clean_partitions(vals, n_threads);
            if nulls_first {
                out.push([0, null_count]);
            }
            let ghost before: int = out@.len() as int;
            let mut p: usize = 0;
            let mut done: usize = 0;
            proof {
                assert(is_run_partition(
                    out@.subrange(before, out@.len() as int),
                    vals@.subrange(0, 0),
                    lo as int,
                ));
            }
            while p < parts.len()
                invariant
                    0 <= p <= parts@.len(),
                    0 <= lo < hi <= length,
                    vals@.len() == hi - lo,
                    is_clean_partitioning(parts@, vals@),
                    0 <= done <= vals@.len(),
                    p < parts@.len() ==> done == parts@[p as int].0,
                    p == parts@.len() ==> done == vals@.len(),
                    before <= out@.len(),
                    before == (if nulls_first {
                        1int
                    } else {
                        0int
                    }),
                    before == 1 ==> out@[0]@[0] == 0 && out@[0]@[1] == null_count,
                    is_run_partition(
                        out@.subrange(before, out@.len() as int),
                        vals@.subrange(0, done as int),
                        lo as int,
                    ),
                decreases parts@.len() - p,
            {
                let (offset, len) = parts[p];
                proof {
                    assert(is_clean_part(parts@, vals@, p as int));
                }
                let part = slice_subrange(vals, offset, offset + len);
                let mut found = partition_to_groups(part, 0, false, lo + offset);
                let ghost acc = out@.subrange(before, out@.len() as int);
                let ghost old_out = out@;
                let ghost added = found@;
                out.append(&mut found);
                proof {
                    let keys = vals@.subrange(0, offset + len);
                    assert(added.subrange(0, added.len() as int) =~= added);
                    assert(keys.subrange(0, offset as int) =~= vals@.subrange(0, offset as int));
                    assert(keys.subrange(offset as int, offset + len) =~= part@);
                    lemma_run_partition_concat(acc, added, keys, offset as int, lo as int);
                    assert(out@.subrange(before, out@.len() as int) =~= acc + added);
                    if before == 1 {
                        assert(out@[0] == old_out[0]);
                    }
                    if p + 1 == parts@.len() {
                        assert(offset + len == vals@.len());
                    } else {
                        assert(is_clean_part(parts@, vals@, p + 1));
                    }
                }
                done = offset + len;
                p = p + 1;
            }
            proof {
                assert(vals@.subrange(0, done as int) =~= vals@);
            }
            if !nulls_first && null_count > 0 {
                let ghost with_runs = out@;
                out.push([hi, null_count]);
                proof {
                    assert(out@.subrange(before, out@.len() - 1) =~= with_runs.subrange(
                        before,
                        with_runs.len() as int,
                    ));
                }
            }
        } else {
            out = partition_to_groups(vals, null_count, nulls_first, 0);
        }
        proof {
            lemma_assemble_sorted(
                out@,
                labels,
                vals@,
                lo as int,
                hi as int,
                null_count as int,
                nulls_first,
            );
            lemma_runs_cover(out@, labels);
            if nulls_at_one_end(rows) {
                let layout = choose|nulls: int| #[trigger] nulls_together(rows, nulls);
                lemma_layout_count(rows, layout, length as int);
                assert(layout == null_count);
                if nulls_first {
                    assert(rows[0].is_none());
                    assert(nulls_first_layout(rows, layout));
                } else if null_count > 0 {
                    assert(rows[0].is_some());
                    assert(nulls_last_layout(rows, layout));
                }
                assert forall|i: int| 0 <= i < length implies labels[i] == #[trigger] rows[i] by {
                    if lo <= i < hi {
                        assert(rows[i].is_some());
                    }
                }
                assert(labels =~= rows);
            }
        }
        out
    }
}

impl<T: NativeType> IntoGroupsProxy for ChunkedArray<T> {
    open spec fn rows_len(&self) -> nat {
        self@.len()
    }

    /// A column whose flag says that it is sorted and that is one chunk is
    /// grouped by the sorted fast path; the result is made of slices, in the
    /// order of the rows. Where the null rows stand together at one end, as
    /// they do where the flag holds, the slices are the runs of equal rows;
    /// where the column is sorted as its flag says, these are the groups
    /// that hashing would find. Any other column is grouped by hashing the
    /// bit patterns of its values; the result is made of index groups.
    fn group_tuples(&self, pool: &WorkerPool, multithreaded: bool, sorted: bool) -> (out:
        PolarsResult<GroupsProxy>)
        ensures
            out is Ok,
            self.takes_sorted_path() ==> (out.unwrap() matches GroupsProxy::Slice {
                groups,
                rolling,
            } && !rolling && (nulls_at_one_end(self@) || self.flag_holds() ==> is_run_partition(
                groups@,
                self@,
                0,
            ))),
            !self.takes_sorted_path() ==> out.unwrap() is Idx && out.unwrap()@ == hashed_groups(
                self@,
                numeric_hashes(self@),
                numeric_partitions(self@.len() as int, *pool, multithreaded),
            ) && is_grouping_by(out.unwrap()@, self@),
    {
        if (self.is_sorted_ascending_flag() || self.is_sorted_descending_flag()) && self.n_chunks()
            == 1 {
            let groups = self.create_groups_from_sorted(pool, multithreaded);
            return Ok(GroupsProxy::Slice { groups, rolling: false });
        }
        let out = num_groups_proxy(self, pool, multithreaded, sorted);
        proof {
            WorkerPool::lemma_partitions(pool.threads());
            lemma_numeric_hashes_follow(self@);
            lemma_hashed_groups_cover(
                self@,
                numeric_hashes(self@),
                numeric_partitions(self@.len() as int, *pool, multithreaded),
            );
            lemma_hashed_groups_by_key(
                self@,
                numeric_hashes(self@),
                numeric_partitions(self@.len() as int, *pool, multithreaded),
            );
        }
        Ok(out)
    }
}

/// Sorted fast path equivalence for columns: the runs of a column of
/// integers that is sorted, as a flag that holds says it is, are the groups
/// that the hashing path finds in it with one partition, in the same order.
pub proof fn lemma_sorted_column_groups<T: NativeType>(
    rows: Seq<Option<T>>,
    descending: bool,
    groups: Seq<[IdxSize; 2]>,
)
    requires
        is_sorted_rows(rows, descending),
        !T::is_float_spec(),
        is_run_partition(groups, rows, 0),
    ensures
        crate::groupby::proxy::slice_view(groups) == hashed_groups(rows, numeric_hashes(rows), 1),
{
    lemma_sorted_is_clustered(rows, descending);
    lemma_numeric_hashes_follow(rows);
    crate::groupby::grouping::lemma_sorted_path_equivalence(groups, rows, numeric_hashes(rows));
}

/// Rows of a numeric column with the same value have the same hash.
pub proof fn lemma_numeric_hashes_follow<T: NativeType>(rows: Seq<Option<T>>)
    ensures
        hashes_follow_keys(rows, numeric_hashes(rows)),
{
}

/// Whether the ranges, each an offset and a length, follow each other
/// without a gap from row 0 to row `len`.
pub open spec fn is_split(ranges: Seq<(usize, usize)>, len: int) -> bool {
    &&& ranges.len() > 0
    &&& ranges[0].0 == 0
    &&& ranges[ranges.len() - 1].0 + ranges[ranges.len() - 1].1 == len
    &&& forall|p: int| 0 <= p < ranges.len() ==> #[trigger] is_followed(ranges, len, p)
}

/// Whether range `p` lies within the rows and ends where the next range
/// starts.
pub open spec fn is_followed(ranges: Seq<(usize, usize)>, len: int, p: int) -> bool {
    &&& ranges[p].0 + ranges[p].1 <= len
    &&& p + 1 < ranges.len() ==> ranges[p].0 + ranges[p].1 == ranges[p + 1].0
}

/// Splits `len` rows into `n` ranges of the same length, but for the last,
/// which takes what is left.
pub fn _split_offsets(len: usize, n: usize) -> (ranges: Vec<(usize, usize)>)
    requires
        n >= 1,
    ensures
        ranges@.len() == n,
        is_split(ranges@, len as int),
        forall|p: int| 0 <= p < n - 1 ==> (#[trigger] ranges@[p]).1 == len as int / n as int,
{
    let mut ranges: Vec<(usize, usize)> = Vec::with_capacity(n);
    if n == 1 {
        ranges.push((0, len));
        assert(is_followed(ranges@, len as int, 0));
        return ranges;
    }
    let chunk_size: usize = len / n;
    let mut offset: usize = 0;
    let mut partition: usize = 0;
    while partition < n - 1
        invariant
            n >= 2,
            chunk_size == len / n,
            0 <= partition <= n - 1,
            offset == partition * chunk_size,
            offset <= len,
            ranges@.len() == partition,
            forall|p: int| 0 <= p < partition ==> (#[trigger] ranges@[p]).0 == p * chunk_size
                && ranges@[p].1 == chunk_size,
        decreases n - partition,
    {
        assert((partition + 1) * chunk_size <= len) by (nonlinear_arith)
            requires
                partition + 1 <= n,
                n >= 1,
                chunk_size == len / n,
        ;
        assert((partition + 1) * chunk_size == partition * chunk_size + chunk_size)
            by (nonlinear_arith);
        ranges.push((offset, chunk_size));
        offset = offset + chunk_size;
        partition = partition + 1;
    }
    ranges.push((offset, len - offset));
    proof {
        assert forall|p: int| 0 <= p < ranges@.len() implies #[trigger] is_followed(
            ranges@,
            len as int,
            p,
        ) by {
            assert((p + 1) * chunk_size == p * chunk_size + chunk_size) by (nonlinear_arith);
            if p < n - 1 {
                assert((p + 1) * chunk_size <= (n - 1) * chunk_size) by (nonlinear_arith)
                    requires
                        p + 1 <= n - 1,
                        chunk_size >= 0,
                ;
            }
        }
        assert(0 * chunk_size == 0) by (nonlinear_arith);
    }
    ranges
}

/// A value that is grouped by its bytes.
pub trait HasBytes {
    /// The bytes of the value.
    spec fn bytes_view(&self) -> Seq<u8>;

    /// The bytes of the value.
    fn as_byte_slice(&self) -> (bytes: &[u8])
        ensures
            bytes@ == self.bytes_view(),
    ;
}

impl HasBytes for String {
    /// A string is grouped by its text in UTF-8.
    open spec fn bytes_view(&self) -> Seq<u8> {
        vstd::utf8::encode_utf8(self@)
    }

    fn as_byte_slice(&self) -> (bytes: &[u8]) {
        self.as_str().as_bytes()
    }
}

impl HasBytes for Vec<u8> {
    open spec fn bytes_view(&self) -> Seq<u8> {
        self@
    }

    fn as_byte_slice(&self) -> (bytes: &[u8]) {
        self.as_slice()
    }
}

/// The bytes that a row is grouped by; none for a null row.
pub open spec fn row_bytes<T: HasBytes>(row: Option<T>) -> Option<Seq<u8>> {
    match row {
        Some(value) => Some(value.bytes_view()),
        None => None,
    }
}

/// The bytes that the rows of a column are grouped by.
pub open spec fn payload_rows<T: HasBytes>(rows: Seq<Option<T>>) -> Seq<Option<Seq<u8>>> {
    Seq::new(rows.len(), |i: int| row_bytes(rows[i]))
}

/// The texts of the rows of a column of strings.
pub open spec fn text_rows(rows: Seq<Option<String>>) -> Seq<Option<Seq<char>>> {
    Seq::new(
        rows.len(),
        |i: int|
            match rows[i] {
                Some(text) => Some(text@),
                None => None,
            },
    )
}

/// The bytes of the keys.
pub open spec fn key_payloads<'a>(keys: Seq<BytesHash<'a>>) -> Seq<Option<Seq<u8>>> {
    Seq::new(keys.len(), |i: int| keys[i].payload())
}

/// The hashes of the keys.
pub open spec fn key_hash_values<'a>(keys: Seq<BytesHash<'a>>) -> Seq<u64> {
    Seq::new(keys.len(), |i: int| keys[i].hash_value())
}

/// The hash that stands in for the key of a null row: the hash of a fixed
/// byte string under the given state.
pub fn get_null_hash_value(state: &ahash::RandomState) -> u64 {
    let seed: [u8; 4] = [0x0f, 0x54, 0x0a, 0xbe];
    let mut rows: Vec<&[u8]> = Vec::new();
    rows.push(seed.as_slice());
    let hashes = hash_all(state, rows.as_slice());
    hashes[0]
}

/// The keys of the rows `offset..offset + len`: the bytes of each row with
/// their hash, and the hash `null_hash` for a null row. All rows are hashed
/// under the one state, so rows with the same bytes have the same hash.
pub fn hash_rows<'a, T: HasBytes>(
    ca: &'a ChunkedArray<T>,
    state: &ahash::RandomState,
    null_hash: u64,
    offset: usize,
    len: usize,
) -> (keys: Vec<BytesHash<'a>>)
    requires
        offset + len <= ca@.len(),
    ensures
        keys@.len() == len,
        forall|i: int|
            0 <= i < len ==> (#[trigger] keys@[i]).payload() == row_bytes(ca@[offset + i]),
        forall|i: int|
            0 <= i < len && ca@[offset + i].is_none() ==> (#[trigger] keys@[i]).hash_value()
                == null_hash,
        hashes_follow_keys(key_payloads(keys@), key_hash_values(keys@)),
{
    let total: usize = ca.len();
    let nothing: [u8; 0] = [];
    let mut slices: Vec<&[u8]> = Vec::with_capacity(len);
    let mut i: usize = 0;
    while i < len
        invariant
            offset + len <= ca@.len(),
            total == ca@.len(),
            0 <= i <= len,
            slices@.len() == i,
            forall|j: int|
                0 <= j < i && ca@[offset + j].is_some() ==> Some((#[trigger] slices@[j])@)
                    == row_bytes(ca@[offset + j]),
        decreases len - i,
    {
        match ca.get_ref(offset + i) {
            Some(value) => {
                slices.push(value.as_byte_slice());
            },
            None => {
                slices.push(nothing.as_slice());
            },
        }
        i = i + 1;
    }
    let hashes = hash_all(state, slices.as_slice());
    let mut keys: Vec<BytesHash<'a>> = Vec::with_capacity(len);
    let mut i: usize = 0;
    while i < len
        invariant
            offset + len <= ca@.len(),
            total == ca@.len(),
            hashes@.len() == len,
            0 <= i <= len,
            keys@.len() == i,
            forall|j: int|
                0 <= j < i ==> (#[trigger] keys@[j]).payload() == row_bytes(ca@[offset + j]),
            forall|j: int|
                0 <= j < i ==> (#[trigger] keys@[j]).hash_value() == if ca@[offset + j].is_none() {
                    null_hash
                } else {
                    hashes@[j]
                },
        decreases len - i,
    {
        let key = match ca.get_ref(offset + i) {
            Some(value) => BytesHash::new(Some(value.as_byte_slice()), hashes[i]),
            None => BytesHash::new(None, null_hash),
        };
        keys.push(key);
        i = i + 1;
    }
    proof {
        let payloads = key_payloads(keys@);
        let values = key_hash_values(keys@);
        assert forall|i: int, j: int|
            0 <= i < payloads.len() && 0 <= j < payloads.len() && payloads[i]
                == payloads[j] implies values[i] == values[j] by {
            assert(keys@[i].payload() == row_bytes(ca@[offset + i]));
            assert(keys@[j].payload() == row_bytes(ca@[offset + j]));
            if ca@[offset + i].is_some() {
                assert(Some(slices@[i]@) == row_bytes(ca@[offset + i]));
                assert(Some(slices@[j]@) == row_bytes(ca@[offset + j]));
                assert(hashes@[i] == hashes@[j]);
            }
        }
    }
    keys
}

/// The number of partitions that a column grouped by bytes is grouped in.
pub open spec fn byte_partitions(pool: WorkerPool, multithreaded: bool) -> int {
    if multithreaded {
        pool.partitions()
    } else {
        1
    }
}

/// What the grouping of a column by its bytes yields: the grouping of the
/// hashing path over the bytes of the rows, for hashes of the rows under
/// which rows with the same bytes, and so all null rows, have the same hash.
/// The hashes decide only the partition and with it the place of a group:
/// two rows share a group exactly when their bytes are equal.
pub open spec fn is_byte_grouping<T: HasBytes>(
    groups: GroupsProxy,
    rows: Seq<Option<T>>,
    parts: int,
) -> bool {
    &&& groups is Idx
    &&& is_grouping_by(groups@, payload_rows(rows))
    &&& exists|hashes: Seq<u64>|
        hashes_follow_keys(payload_rows(rows), hashes) && groups@ == #[trigger] hashed_groups(
            payload_rows(rows),
            hashes,
            parts,
        )
}

/// Groups a column by the bytes of its values. Every row is hashed once,
/// all rows under one state; with `multithreaded` the keys are handed on
/// range by range and grouped in the partitions of the pool.
pub fn group_tuples_bytes<T: HasBytes>(
    ca: &ChunkedArray<T>,
    pool: &WorkerPool,
    multithreaded: bool,
    sorted: bool,
) -> (groups: GroupsProxy)
    ensures
        is_byte_grouping(groups, ca@, byte_partitions(*pool, multithreaded)),
        covers_exactly_once(groups@, ca@.len() as int),
{
    let state = new_random_state();
    let null_hash: u64 = get_null_hash_value(&state);
    let n: usize = ca.len();
    let keys = hash_rows(ca, &state, null_hash, 0, n);
    proof {
        WorkerPool::lemma_partitions(pool.threads());
    }
    if multithreaded {
        let n_partitions: usize = pool.partition_size();
        let split = _split_offsets(n, n_partitions);
        let mut buffers: Vec<Vec<BytesHash<'_>>> = Vec::with_capacity(n_partitions);
        let mut p: usize = 0;
        let mut done: usize = 0;
        proof {
            assert(concat_all(buffers@, 0) =~= keys@.subrange(0, 0));
        }
        while p < split.len()
            invariant
                n == keys@.len(),
                is_split(split@, n as int),
                0 <= p <= split@.len(),
                0 <= done <= n,
                p < split@.len() ==> done == split@[p as int].0,
                p == split@.len() ==> done == n,
                buffers@.len() == p,
                concat_all(buffers@, p as int) == keys@.subrange(0, done as int),
            decreases split@.len() - p,
        {
            let (offset, len) = split[p];
            proof {
                assert(is_followed(split@, n as int, p as int));
            }
            let mut buffer: Vec<BytesHash<'_>> = Vec::with_capacity(len);
            let mut j: usize = 0;
            while j < len
                invariant
                    n == keys@.len(),
                    offset + len <= keys@.len(),
                    0 <= j <= len,
                    buffer@ == keys@.subrange(offset as int, offset + j),
                decreases len - j,
            {
                buffer.push(keys[offset + j]);
                assert(buffer@ =~= keys@.subrange(offset as int, offset + j + 1));
                j = j + 1;
            }
            let ghost before = buffers@;
            let ghost flat = concat_all(buffers@, p as int);
            let ghost added = buffer@;
            buffers.push(buffer);
            proof {
                lemma_concat_all_same(before, buffers@, p as int);
                assert(concat_all(buffers@, p + 1) == flat + added);
                assert(flat + added =~= keys@.subrange(0, offset + len));
            }
            done = offset + len;
            p = p + 1;
        }
        proof {
            assert(keys@.subrange(0, n as int) =~= keys@);
        }
        let out = groupby_threaded_num(buffers, 0, n_partitions as u64, sorted);
        proof {
            lemma_byte_grouping(out, ca@, keys@, n_partitions as int);
        }
        out
    } else {
        let out = groupby(keys.as_slice(), sorted);
        proof {
            lemma_byte_grouping(out, ca@, keys@, 1);
        }
        out
    }
}

/// The buffers one after the other depend only on what the buffers hold.
proof fn lemma_concat_all_same<K>(a: Seq<Vec<K>>, b: Seq<Vec<K>>, upto: int)
    requires
        0 <= upto <= a.len(),
        upto <= b.len(),
        forall|c: int| 0 <= c < upto ==> a[c] == b[c],
    ensures
        concat_all(a, upto) == concat_all(b, upto),
    decreases upto,
{
    if upto > 0 {
        lemma_concat_all_same(a, b, upto - 1);
    }
}

/// The grouping of the keys that were made of the rows is a grouping of the
/// rows by their bytes: the hash in a key adds nothing where rows with the
/// same bytes have the same hash.
proof fn lemma_byte_grouping<'a, T: HasBytes>(
    groups: GroupsProxy,
    rows: Seq<Option<T>>,
    keys: Seq<BytesHash<'a>>,
    parts: int,
)
    requires
        parts > 0,
        groups is Idx,
        keys.len() == rows.len(),
        forall|i: int| 0 <= i < rows.len() ==> (#[trigger] keys[i]).payload() == row_bytes(rows[i]),
        hashes_follow_keys(key_payloads(keys), key_hash_values(keys)),
        groups@ == hashed_groups(
            key_views::<(u64, Option<Seq<u8>>), BytesHash<'a>>(keys),
            key_hashes::<(u64, Option<Seq<u8>>), BytesHash<'a>>(keys),
            parts,
        ),
    ensures
        is_byte_grouping(groups, rows, parts),
        covers_exactly_once(groups@, rows.len() as int),
{
    let hashes = key_hashes::<(u64, Option<Seq<u8>>), BytesHash<'a>>(keys);
    let views = key_views::<(u64, Option<Seq<u8>>), BytesHash<'a>>(keys);
    let payloads = payload_rows(rows);
    assert(payloads =~= key_payloads(keys));
    assert(hashes =~= key_hash_values(keys));
    assert(hashes_follow_keys(views, hashes));
    assert(same_pattern(views, payloads)) by {
        assert forall|i: int, j: int| 0 <= i < views.len() && 0 <= j < views.len() implies (
        #[trigger] same_key(views, i, j) == same_key(payloads, i, j)) by {
            assert(views[i] == (hashes[i], payloads[i]));
            assert(views[j] == (hashes[j], payloads[j]));
        }
    }
    lemma_rekey_hashed_groups(views, payloads, hashes, parts, parts);
    lemma_hashed_groups_by_key(payloads, hashes, parts);
    lemma_hashed_groups_cover(payloads, hashes, parts);
}

/// Two strings have the same bytes exactly when they have the same text.
pub proof fn lemma_text_rows_pattern(rows: Seq<Option<String>>)
    ensures
        same_pattern(payload_rows(rows), text_rows(rows)),
{
    let payloads = payload_rows(rows);
    let texts = text_rows(rows);
    assert forall|i: int, j: int| 0 <= i < payloads.len() && 0 <= j < payloads.len() implies (
    #[trigger] same_key(payloads, i, j) == same_key(texts, i, j)) by {
        if rows[i].is_some() && rows[j].is_some() {
            vstd::utf8::encode_utf8_decode_utf8(rows[i].unwrap()@);
            vstd::utf8::encode_utf8_decode_utf8(rows[j].unwrap()@);
        }
    }
}

impl IntoGroupsProxy for ChunkedArray<String> {
    open spec fn rows_len(&self) -> nat {
        self@.len()
    }

    /// A column of strings is grouped by the bytes of its strings: two rows
    /// share a group exactly when they hold the same text or are both null.
    fn group_tuples(&self, pool: &WorkerPool, multithreaded: bool, sorted: bool) -> (out:
        PolarsResult<GroupsProxy>)
        ensures
            out matches Ok(groups) && is_byte_grouping(
                groups,
                self@,
                byte_partitions(*pool, multithreaded),
            ) && is_grouping_by(groups@, text_rows(self@)),
    {
        let groups = group_tuples_bytes(self, pool, multithreaded, sorted);
        proof {
            lemma_text_rows_pattern(self@);
            lemma_grouping_by_rekey(groups@, payload_rows(self@), text_rows(self@));
        }
        Ok(groups)
    }
}

impl IntoGroupsProxy for ChunkedArray<Vec<u8>> {
    open spec fn rows_len(&self) -> nat {
        self@.len()
    }

    /// A column of byte strings is grouped by its byte strings: two rows
    /// share a group exactly when they hold the same bytes or are both null.
    fn group_tuples(&self, pool: &WorkerPool, multithreaded: bool, sorted: bool) -> (out:
        PolarsResult<GroupsProxy>)
        ensures
            out matches Ok(groups) && is_byte_grouping(
                groups,
                self@,
                byte_partitions(*pool, multithreaded),
            ),
    {
        Ok(group_tuples_bytes(self, pool, multithreaded, sorted))
    }
}

/// A column of lists of numbers. Every row is held by the bytes of the
/// numbers of its list, one number after the other.
pub struct ListChunked {
    inner_dtype: DataType,
    rows: BinaryChunked,
}

impl ListChunked {
    /// The data type of the values of the lists.
    pub closed spec fn inner_dtype_spec(&self) -> DataType {
        self.inner_dtype
    }

    /// The bytes of the lists, row by row.
    pub closed spec fn view(&self) -> Seq<Option<Vec<u8>>> {
        self.rows@
    }

    /// A column of lists of values of type `inner_dtype`, from the bytes of
    /// the lists.
    pub fn new(inner_dtype: DataType, rows: BinaryChunked) -> (ca: Self)
        ensures
            ca.inner_dtype_spec() == inner_dtype,
            ca@ == rows@,
    {
        ListChunked { inner_dtype, rows }
    }

    /// The data type of the values of the lists.
    pub fn inner_dtype(&self) -> (dtype: DataType)
        ensures
            dtype == self.inner_dtype_spec(),
    {
        self.inner_dtype
    }

    /// Number of rows.
    pub fn len(&self) -> (n: usize)
        ensures
            n == self@.len(),
    {
        self.rows.len()
    }
}

impl IntoGroupsProxy for ListChunked {
    open spec fn rows_len(&self) -> nat {
        self@.len()
    }

    /// A column of lists is grouped by the bytes of its lists where the
    /// lists hold numbers: two rows share a group exactly when their lists
    /// have the same bytes or are both null. It is refused where the lists
    /// hold anything else.
    fn group_tuples(&self, pool: &WorkerPool, multithreaded: bool, sorted: bool) -> (out:
        PolarsResult<GroupsProxy>)
        ensures
            self.inner_dtype_spec().to_physical_spec().is_numeric_spec() ==> (out matches Ok(
                groups,
            ) && is_byte_grouping(groups, self@, byte_partitions(*pool, multithreaded))),
            !self.inner_dtype_spec().to_physical_spec().is_numeric_spec() ==> out matches Err(
                PolarsError::ComputeError(_),
            ),
    {
        if !self.inner_dtype.to_physical().is_numeric() {
            return Err(
                PolarsError::ComputeError(
                    "Grouping on List type is only allowed if the inner type is numeric".to_owned(),
                ),
            );
        }
        Ok(group_tuples_bytes(&self.rows, pool, multithreaded, sorted))
    }
}

/// The number that stands for a truth value when a column of them is grouped.
pub open spec fn bool_key(row: Option<bool>) -> Option<u32> {
    match row {
        Some(true) => Some(1u32),
        Some(false) => Some(0u32),
        None => None,
    }
}

/// The keys of a column of truth values.
pub open spec fn bool_keys(rows: Seq<Option<bool>>) -> Seq<Option<u32>> {
    Seq::new(rows.len(), |i: int| bool_key(rows[i]))
}

impl IntoGroupsProxy for ChunkedArray<bool> {
    open spec fn rows_len(&self) -> nat {
        self@.len()
    }

    /// A column of truth values is cast to a column of small integers, which
    /// is grouped by hashing.
    fn group_tuples(&self, pool: &WorkerPool, multithreaded: bool, sorted: bool) -> (out:
        PolarsResult<GroupsProxy>)
        ensures
            out matches Ok(groups) && groups is Idx && groups@ == hashed_groups(
                bool_keys(self@),
                numeric_hashes(bool_keys(self@)),
                numeric_partitions(self@.len() as int, *pool, multithreaded),
            ),
    {
        let n: usize = self.len();
        let mut items: Vec<Option<u32>> = Vec::with_capacity(n);
        let mut i: usize = 0;
        while i < n
            invariant
                n == self@.len(),
                0 <= i <= n,
                items@.len() == i,
                forall|j: int| 0 <= j < i ==> #[trigger] items@[j] == bool_key(self@[j]),
            decreases n - i,
        {
            let item: Option<u32> = match self.get_ref(i) {
                Some(flag) => if *flag {
                    Some(1u32)
                } else {
                    Some(0u32)
                },
                None => None,
            };
            items.push(item);
            i = i + 1;
        }
        assert(items@ =~= bool_keys(self@));
        let ca: ChunkedArray<u32> = ChunkedArray::from_options(self.name(), items.as_slice());
        ca.group_tuples(pool, multithreaded, sorted)
    }
}

} // verus!
