//! The sorted fast path: in a sorted column the rows of a group are a run of
//! consecutive rows, so one scan that cuts the column where the value changes
//! finds the groups.

use crate::groupby::grouping::{
    group_first,
    group_len,
    is_run,
    is_run_partition,
    is_uniform,
    lemma_run_partition_concat,
};
use crate::groupby::proxy::{GroupsSlice, IdxSize};
use crate::native::NativeType;
use vstd::prelude::*;
use vstd::slice::slice_subrange;

verus! {

/// Whether range `p` is not empty, is followed without a gap by the next
/// range, and starts with a value that differs from the one before it.
pub open spec fn is_clean_part<T>(parts: Seq<(usize, usize)>, values: Seq<T>, p: int) -> bool {
    &&& parts[p].1 >= 1
    &&& parts[p].0 + parts[p].1 <= values.len()
    &&& p + 1 < parts.len() ==> parts[p].0 + parts[p].1 == parts[p + 1].0
    &&& p > 0 ==> parts[p].0 > 0 && values[parts[p].0 - 1] != values[parts[p].0 as int]
}

/// Whether the ranges, each an offset and a length, cut `values` into
/// stretches that follow each other without a gap, none of them empty, and
/// no cut falls between two equal values.
pub open spec fn is_clean_partitioning<T>(parts: Seq<(usize, usize)>, values: Seq<T>) -> bool {
    &&& (parts.len() == 0 <==> values.len() == 0)
    &&& parts.len() > 0 ==> parts[0].0 == 0
    &&& parts.len() > 0 ==> parts[parts.len() - 1].0 + parts[parts.len() - 1].1 == values.len()
    &&& forall|p: int| 0 <= p < parts.len() ==> #[trigger] is_clean_part(parts, values, p)
}

/// The ranges found so far: as a clean partitioning, but the last range ends
/// at `last`, where the next range will start.
pub open spec fn is_clean_so_far<T>(parts: Seq<(usize, usize)>, values: Seq<T>, last: int) -> bool {
    &&& 0 <= last <= values.len()
    &&& parts.len() == 0 ==> last == 0
    &&& parts.len() > 0 ==> parts[0].0 == 0 && parts[parts.len() - 1].0 + parts[parts.len()
        - 1].1 == last
    &&& forall|p: int| 0 <= p < parts.len() ==> #[trigger] is_clean_part(parts, values, p)
    &&& 0 < last < values.len() ==> values[last - 1] != values[last]
}

/// One more range that ends at a clean cut keeps the ranges clean.
proof fn lemma_clean_push<T>(parts: Seq<(usize, usize)>, values: Seq<T>, last: int, cut: int)
    requires
        is_clean_so_far(parts, values, last),
        last < cut <= values.len(),
        last <= usize::MAX,
        cut <= usize::MAX,
        cut < values.len() ==> values[cut - 1] != values[cut],
    ensures
        is_clean_so_far(parts.push((last as usize, (cut - last) as usize)), values, cut),
{
    let next = parts.push((last as usize, (cut - last) as usize));
    assert forall|p: int| 0 <= p < next.len() implies #[trigger] is_clean_part(next, values, p) by {
        if p < parts.len() {
            assert(is_clean_part(parts, values, p));
            assert(next[p] == parts[p]);
            if p + 1 < parts.len() {
                assert(next[p + 1] == parts[p + 1]);
            }
        } else if p > 0 {
            assert(is_clean_part(parts, values, p - 1));
        }
    }
}

/// Cuts `values` into at most `n` stretches of about the same length for as
/// many workers. A cut that would fall inside a run of equal values is moved
/// back to the start of the run, and dropped where that start is the
/// previous cut.
pub fn create_clean_partitions<T: NativeType>(values: &[T], n: usize) -> (parts: Vec<
    (usize, usize),
>)
    ensures
        is_clean_partitioning(parts@, values@),
        parts@.len() <= n || parts@.len() <= 1,
{
    let len: usize = values.len();
    let mut parts: Vec<(usize, usize)> = Vec::new();
    if len == 0 {
        return parts;
    }
    let n: usize = if n > len {
        len / 2
    } else {
        n
    };
    if n < 2 {
        parts.push((0, len));
        assert(is_clean_part(parts@, values@, 0));
        return parts;
    }
    let chunk_size: usize = len / n;
    assert(chunk_size >= 1) by (nonlinear_arith)
        requires
            2 <= n <= len,
            chunk_size == len / n,
    ;
    let mut last: usize = 0;
    let mut target: usize = chunk_size;
    while target < len && parts.len() + 1 < n
        invariant
            len == values@.len(),
            chunk_size >= 1,
            last <= target,
            last < len,
            parts@.len() < n,
            is_clean_so_far(parts@, values@, last as int),
        decreases len - target,
    {
        let mut cut: usize = target;
        while cut > last && values[cut - 1].equals(&values[cut])
            invariant
                len == values@.len(),
                last <= cut < len,
                cut <= target,
            decreases cut,
        {
            cut = cut - 1;
        }
        if cut > last {
            proof {
                lemma_clean_push(parts@, values@, last as int, cut as int);
            }
            parts.push((last, cut - last));
            last = cut;
        }
        if len - target <= chunk_size {
            break ;
        }
        target = target + chunk_size;
    }
    proof {
        lemma_clean_push(parts@, values@, last as int, len as int);
    }
    parts.push((last, len - last));
    parts
}

/// The group of null rows that `partition_to_groups` puts before the runs.
pub open spec fn null_group_before(first_group_offset: IdxSize, nulls_first: bool) -> bool {
    nulls_first && first_group_offset > 0
}

/// The group of null rows that `partition_to_groups` puts after the runs.
pub open spec fn null_group_after(first_group_offset: IdxSize, nulls_first: bool) -> bool {
    !nulls_first && first_group_offset > 0
}

/// The row of the column that holds the first of the values handed to
/// `partition_to_groups`.
pub open spec fn runs_base(first_group_offset: IdxSize, nulls_first: bool, offset: IdxSize) -> int {
    if nulls_first {
        first_group_offset + offset
    } else {
        offset as int
    }
}

/// The runs of equal values of one stretch of the values of a column, as
/// groups of rows of the column. `offset` is the place of the stretch among
/// the values; `first_group_offset` is the number of null rows, which come
/// before all values (`nulls_first`) or after them. Where there are null
/// rows they form a group of their own, put before the runs or after them
/// as the null rows are. Nothing is returned for a stretch without values.
pub fn partition_to_groups<T: NativeType>(
    values: &[T],
    first_group_offset: IdxSize,
    nulls_first: bool,
    offset: IdxSize,
) -> (groups: GroupsSlice)
    requires
        first_group_offset + offset + values@.len() <= usize::MAX,
    ensures
        values@.len() == 0 ==> groups@.len() == 0,
        values@.len() > 0 ==> {
            let before: int = if null_group_before(first_group_offset, nulls_first) {
                1
            } else {
                0
            };
            let after: int = if null_group_after(first_group_offset, nulls_first) {
                1
            } else {
                0
            };
            &&& groups@.len() >= before + after
            &&& is_run_partition(
                groups@.subrange(before, groups@.len() - after),
                values@,
                runs_base(first_group_offset, nulls_first, offset),
            )
            &&& before == 1 ==> groups@[0]@[0] == 0 && groups@[0]@[1] == first_group_offset
            &&& after == 1 ==> groups@[groups@.len() - 1]@[0] == values@.len() + offset
                && groups@[groups@.len() - 1]@[1] == first_group_offset
        },
{
    let n: usize = values.len();
    let mut out: GroupsSlice = Vec::new();
    if n == 0 {
        return out;
    }
    if nulls_first && first_group_offset > 0 {
        out.push([0, first_group_offset]);
    }
    let ghost before: int = out@.len() as int;
    let base: usize = if nulls_first {
        first_group_offset + offset
    } else {
        offset
    };
    let mut run_start: usize = 0;
    let mut i: usize = 1;
    proof {
        assert(is_run_partition(
            out@.subrange(before, out@.len() as int),
            values@.subrange(0, 0),
            base as int,
        ));
    }
    while i < n
        invariant
            n == values@.len(),
            n > 0,
            base + n <= usize::MAX,
            base == runs_base(first_group_offset, nulls_first, offset),
            0 <= run_start < i <= n,
            before <= out@.len(),
            before == 1 ==> out@[0]@[0] == 0 && out@[0]@[1] == first_group_offset,
            before == (if null_group_before(first_group_offset, nulls_first) {
                1int
            } else {
                0int
            }),
            is_run_partition(
                out@.subrange(before, out@.len() as int),
                values@.subrange(0, run_start as int),
                base as int,
            ),
            is_uniform(values@, run_start as int, i as int),
            run_start > 0 ==> values@[run_start - 1] != values@[run_start as int],
        decreases n - i,
    {
        if !values[i].equals(&values[run_start]) {
            let ghost runs = out@.subrange(before, out@.len() as int);
            let ghost old_out = out@;
            out.push([base + run_start, i - run_start]);
            proof {
                let one = Seq::<[IdxSize; 2]>::empty().push(out@[out@.len() - 1]);
                let keys = values@.subrange(0, i as int);
                assert(out@.subrange(before, out@.len() as int) =~= runs + one);
                assert(keys.subrange(0, run_start as int) =~= values@.subrange(
                    0,
                    run_start as int,
                ));
                let right = keys.subrange(run_start as int, i as int);
                assert(is_run(one, right, base + run_start, 0)) by {
                    assert forall|r: int| 0 <= r < i - run_start implies #[trigger] right[r]
                        == right[0] by {
                        assert(values@[run_start + r] == values@[run_start as int]);
                    }
                }
                assert(is_run_partition(one, right, base + run_start));
                lemma_run_partition_concat(runs, one, keys, run_start as int, base as int);
                if before == 1 {
                    assert(out@[0] == old_out[0]);
                }
            }
            run_start = i;
        }
        i = i + 1;
    }
    let ghost runs = out@.subrange(before, out@.len() as int);
    let ghost old_out = out@;
    out.push([base + run_start, n - run_start]);
    proof {
        let one = Seq::<[IdxSize; 2]>::empty().push(out@[out@.len() - 1]);
        let keys = values@;
        assert(out@.subrange(before, out@.len() as int) =~= runs + one);
        assert(keys.subrange(0, run_start as int) =~= values@.subrange(0, run_start as int));
        let right = keys.subrange(run_start as int, n as int);
        assert(is_run(one, right, base + run_start, 0)) by {
            assert forall|r: int| 0 <= r < n - run_start implies #[trigger] right[r]
                == right[0] by {
                assert(values@[run_start + r] == values@[run_start as int]);
            }
        }
        assert(is_run_partition(one, right, base + run_start));
        lemma_run_partition_concat(runs, one, keys, run_start as int, base as int);
        if before == 1 {
            assert(out@[0] == old_out[0]);
        }
    }
    if !nulls_first && first_group_offset > 0 {
        let ghost with_runs = out@;
        out.push([n + offset, first_group_offset]);
        proof {
            assert(out@.subrange(before, out@.len() - 1) =~= with_runs.subrange(
                before,
                with_runs.len() as int,
            ));
        }
    }
    out
}

} // verus!
