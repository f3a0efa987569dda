//! What a grouping is, stated over the sequence of the keys.
//!
//! Keys are any values with an equality. Each row also has a hash, which only
//! decides the partition that the group of the row is built in.

use crate::groupby::proxy::{covers_exactly_once, row_appears, Group, IdxSize};
use vstd::prelude::*;

verus! {

/// The rows below `n` that hold the key `key`, in increasing order.
pub open spec fn rows_with_key<K>(keys: Seq<K>, key: K, n: int) -> Seq<int>
    decreases n,
{
    if n <= 0 {
        Seq::empty()
    } else if keys[n - 1] == key {
        rows_with_key(keys, key, n - 1).push(n - 1)
    } else {
        rows_with_key(keys, key, n - 1)
    }
}

/// Whether no row before row `i` holds the key of row `i`.
pub open spec fn is_first_occurrence<K>(keys: Seq<K>, i: int) -> bool {
    forall|j: int| 0 <= j < i ==> #[trigger] keys[j] != keys[i]
}

/// Whether row `i` falls into partition `part` of `parts`.
pub open spec fn in_partition(hashes: Seq<u64>, parts: int, part: int, i: int) -> bool {
    hashes[i] as int % parts == part
}

/// Rows with the same key have the same hash.
pub open spec fn hashes_follow_keys<K>(keys: Seq<K>, hashes: Seq<u64>) -> bool {
    &&& hashes.len() == keys.len()
    &&& forall|i: int, j: int|
        0 <= i < keys.len() && 0 <= j < keys.len() && keys[i] == keys[j] ==> hashes[i]
            == hashes[j]
}

/// The rows below `n` that are the first with their key and fall into
/// partition `part`, in increasing order.
pub open spec fn first_rows<K>(
    keys: Seq<K>,
    hashes: Seq<u64>,
    parts: int,
    part: int,
    n: int,
) -> Seq<int>
    decreases n,
{
    if n <= 0 {
        Seq::empty()
    } else if is_first_occurrence(keys, n - 1) && in_partition(hashes, parts, part, n - 1) {
        first_rows(keys, hashes, parts, part, n - 1).push(n - 1)
    } else {
        first_rows(keys, hashes, parts, part, n - 1)
    }
}

/// The groups of the keys that fall into partition `part`, after the first `n`
/// rows: one group for each such key, in the order in which the keys first
/// occur, each with all rows below `n` that hold its key.
pub open spec fn partition_groups<K>(
    keys: Seq<K>,
    hashes: Seq<u64>,
    parts: int,
    part: int,
    n: int,
) -> Seq<Group> {
    let firsts = first_rows(keys, hashes, parts, part, n);
    Seq::new(firsts.len(), |g: int| (firsts[g], rows_with_key(keys, keys[firsts[g]], n)))
}

/// The groups of the first `upto` partitions, one partition after the other.
pub open spec fn hashed_groups_upto<K>(
    keys: Seq<K>,
    hashes: Seq<u64>,
    parts: int,
    upto: int,
) -> Seq<Group>
    decreases upto,
{
    if upto <= 0 {
        Seq::empty()
    } else {
        hashed_groups_upto(keys, hashes, parts, upto - 1) + partition_groups(
            keys,
            hashes,
            parts,
            upto - 1,
            keys.len() as int,
        )
    }
}

/// The grouping that the hashing path yields with `parts` partitions: the
/// groups of partition 0, then those of partition 1, and so on. With one
/// partition the groups stand in the order in which their keys first occur.
pub open spec fn hashed_groups<K>(keys: Seq<K>, hashes: Seq<u64>, parts: int) -> Seq<Group> {
    hashed_groups_upto(keys, hashes, parts, parts)
}

/// The rows with a key are rows below `n` that hold the key, in strictly
/// increasing order, and every such row is among them.
pub proof fn lemma_rows_with_key<K>(keys: Seq<K>, key: K, n: int)
    requires
        0 <= n <= keys.len(),
    ensures
        rows_with_key(keys, key, n).len() <= n,
        forall|j: int|
            0 <= j < rows_with_key(keys, key, n).len() ==> 0 <= #[trigger] rows_with_key(
                keys,
                key,
                n,
            )[j] < n && keys[rows_with_key(keys, key, n)[j]] == key,
        forall|j: int, k: int|
            0 <= j < k < rows_with_key(keys, key, n).len() ==> rows_with_key(keys, key, n)[j]
                < rows_with_key(keys, key, n)[k],
        forall|i: int|
            0 <= i < n && keys[i] == key ==> exists|j: int|
                0 <= j < rows_with_key(keys, key, n).len() && #[trigger] rows_with_key(
                    keys,
                    key,
                    n,
                )[j] == i,
    decreases n,
{
    if n > 0 {
        lemma_rows_with_key(keys, key, n - 1);
        let prev = rows_with_key(keys, key, n - 1);
        let cur = rows_with_key(keys, key, n);
        assert forall|i: int| 0 <= i < n && keys[i] == key implies exists|j: int|
            0 <= j < cur.len() && #[trigger] cur[j] == i by {
            if i < n - 1 {
                let j = choose|j: int| 0 <= j < prev.len() && #[trigger] prev[j] == i;
                assert(cur[j] == i);
            } else {
                assert(cur[cur.len() - 1] == i);
            }
        }
    }
}

/// A key that no row below `n` holds has no rows.
pub proof fn lemma_rows_with_key_absent<K>(keys: Seq<K>, key: K, n: int)
    requires
        0 <= n <= keys.len(),
        forall|j: int| 0 <= j < n ==> keys[j] != key,
    ensures
        rows_with_key(keys, key, n) == Seq::<int>::empty(),
    decreases n,
{
    if n > 0 {
        lemma_rows_with_key_absent(keys, key, n - 1);
    }
}

/// The first row of the rows with a key is the first row that holds the key.
pub proof fn lemma_rows_with_key_first<K>(keys: Seq<K>, first: int, n: int)
    requires
        0 <= first < n <= keys.len(),
        is_first_occurrence(keys, first),
    ensures
        rows_with_key(keys, keys[first], n).len() > 0,
        rows_with_key(keys, keys[first], n)[0] == first,
    decreases n,
{
    if n - 1 == first {
        lemma_rows_with_key_absent(keys, keys[first], first);
    } else {
        lemma_rows_with_key_first(keys, first, n - 1);
    }
}

/// The first rows of a partition are rows below `n` that fall into the
/// partition and are the first with their key, in strictly increasing order;
/// and the key of every row below `n` that falls into the partition is the
/// key of one of them.
pub proof fn lemma_first_rows<K>(keys: Seq<K>, hashes: Seq<u64>, parts: int, part: int, n: int)
    requires
        0 <= n <= keys.len(),
        hashes_follow_keys(keys, hashes),
        parts > 0,
    ensures
        first_rows(keys, hashes, parts, part, n).len() <= n,
        forall|g: int|
            0 <= g < first_rows(keys, hashes, parts, part, n).len() ==> {
                let f = #[trigger] first_rows(keys, hashes, parts, part, n)[g];
                0 <= f < n && is_first_occurrence(keys, f) && in_partition(hashes, parts, part, f)
            },
        forall|g: int, h: int|
            0 <= g < h < first_rows(keys, hashes, parts, part, n).len() ==> first_rows(
                keys,
                hashes,
                parts,
                part,
                n,
            )[g] < first_rows(keys, hashes, parts, part, n)[h],
        forall|i: int|
            0 <= i < n && in_partition(hashes, parts, part, i) ==> exists|g: int|
                0 <= g < first_rows(keys, hashes, parts, part, n).len() && keys[#[trigger] first_rows(
                    keys,
                    hashes,
                    parts,
                    part,
                    n,
                )[g]] == keys[i],
        forall|f: int|
            0 <= f < n && is_first_occurrence(keys, f) && in_partition(hashes, parts, part, f)
                ==> exists|g: int|
                0 <= g < first_rows(keys, hashes, parts, part, n).len() && #[trigger] first_rows(
                    keys,
                    hashes,
                    parts,
                    part,
                    n,
                )[g] == f,
    decreases n,
{
    if n > 0 {
        lemma_first_rows(keys, hashes, parts, part, n - 1);
        let prev = first_rows(keys, hashes, parts, part, n - 1);
        let cur = first_rows(keys, hashes, parts, part, n);
        assert forall|i: int| 0 <= i < n && in_partition(hashes, parts, part, i) implies exists|
            g: int,
        |
            0 <= g < cur.len() && keys[#[trigger] cur[g]] == keys[i] by {
            if i < n - 1 {
                let g = choose|g: int| 0 <= g < prev.len() && keys[#[trigger] prev[g]] == keys[i];
                assert(cur[g] == prev[g]);
            } else if is_first_occurrence(keys, n - 1) {
                assert(cur[cur.len() - 1] == n - 1);
            } else {
                let j = choose|j: int| 0 <= j < n - 1 && #[trigger] keys[j] == keys[n - 1];
                assert(in_partition(hashes, parts, part, j));
                let g = choose|g: int| 0 <= g < prev.len() && keys[#[trigger] prev[g]] == keys[j];
                assert(cur[g] == prev[g]);
            }
        }
        assert forall|f: int|
            0 <= f < n && is_first_occurrence(keys, f) && in_partition(
                hashes,
                parts,
                part,
                f,
            ) implies exists|g: int| 0 <= g < cur.len() && #[trigger] cur[g] == f by {
            if f < n - 1 {
                let g = choose|g: int| 0 <= g < prev.len() && #[trigger] prev[g] == f;
                assert(cur[g] == f);
            } else {
                assert(cur[cur.len() - 1] == f);
            }
        }
    }
}

/// One of the first rows of a partition: a row below `n` that falls into the
/// partition and is the first with its key.
pub proof fn lemma_first_row_at<K>(
    keys: Seq<K>,
    hashes: Seq<u64>,
    parts: int,
    part: int,
    n: int,
    g: int,
)
    requires
        0 <= n <= keys.len(),
        hashes_follow_keys(keys, hashes),
        parts > 0,
        0 <= g < first_rows(keys, hashes, parts, part, n).len(),
    ensures
        0 <= first_rows(keys, hashes, parts, part, n)[g] < n,
        is_first_occurrence(keys, first_rows(keys, hashes, parts, part, n)[g]),
        in_partition(hashes, parts, part, first_rows(keys, hashes, parts, part, n)[g]),
{
    lemma_first_rows(keys, hashes, parts, part, n);
}

/// A row that is the first with its key is among the first rows of its
/// partition, at the place that is returned.
pub proof fn lemma_first_rows_has<K>(
    keys: Seq<K>,
    hashes: Seq<u64>,
    parts: int,
    part: int,
    n: int,
    f: int,
) -> (g: int)
    requires
        0 <= n <= keys.len(),
        hashes_follow_keys(keys, hashes),
        parts > 0,
        0 <= f < n,
        is_first_occurrence(keys, f),
        in_partition(hashes, parts, part, f),
    ensures
        0 <= g < first_rows(keys, hashes, parts, part, n).len(),
        first_rows(keys, hashes, parts, part, n)[g] == f,
{
    lemma_first_rows(keys, hashes, parts, part, n);
    choose|g: int|
        0 <= g < first_rows(keys, hashes, parts, part, n).len() && #[trigger] first_rows(
            keys,
            hashes,
            parts,
            part,
            n,
        )[g] == f
}

/// The first rows of a partition stand in increasing order.
pub proof fn lemma_first_rows_increasing<K>(
    keys: Seq<K>,
    hashes: Seq<u64>,
    parts: int,
    part: int,
    n: int,
    g: int,
    h: int,
)
    requires
        0 <= n <= keys.len(),
        hashes_follow_keys(keys, hashes),
        parts > 0,
        0 <= g < h < first_rows(keys, hashes, parts, part, n).len(),
    ensures
        first_rows(keys, hashes, parts, part, n)[g] < first_rows(keys, hashes, parts, part, n)[h],
{
    lemma_first_rows(keys, hashes, parts, part, n);
}

/// Different first rows of a partition hold different keys.
pub proof fn lemma_first_rows_distinct<K>(
    keys: Seq<K>,
    hashes: Seq<u64>,
    parts: int,
    part: int,
    n: int,
    g: int,
    h: int,
)
    requires
        0 <= n <= keys.len(),
        hashes_follow_keys(keys, hashes),
        parts > 0,
        0 <= g < first_rows(keys, hashes, parts, part, n).len(),
        0 <= h < first_rows(keys, hashes, parts, part, n).len(),
        g != h,
    ensures
        first_rows(keys, hashes, parts, part, n)[g] != first_rows(keys, hashes, parts, part, n)[h],
        keys[first_rows(keys, hashes, parts, part, n)[g]] != keys[first_rows(
            keys,
            hashes,
            parts,
            part,
            n,
        )[h]],
{
    lemma_first_rows(keys, hashes, parts, part, n);
    let firsts = first_rows(keys, hashes, parts, part, n);
    if g < h {
        assert(firsts[g] < firsts[h]);
    } else {
        assert(firsts[h] < firsts[g]);
    }
    if keys[firsts[g]] == keys[firsts[h]] {
        lemma_first_row_at(keys, hashes, parts, part, n, g);
        lemma_first_row_at(keys, hashes, parts, part, n, h);
        lemma_first_occurrence_unique(keys, firsts[g], firsts[h]);
    }
}

/// Two first rows with the same key are the same row.
pub proof fn lemma_first_occurrence_unique<K>(keys: Seq<K>, a: int, b: int)
    requires
        0 <= a < keys.len(),
        0 <= b < keys.len(),
        is_first_occurrence(keys, a),
        is_first_occurrence(keys, b),
        keys[a] == keys[b],
    ensures
        a == b,
{
}

/// Whether `group` is the group of a key that first occurs in row `group.0`
/// and falls into one of the first `upto` partitions.
pub open spec fn is_group_of<K>(
    keys: Seq<K>,
    hashes: Seq<u64>,
    parts: int,
    upto: int,
    group: Group,
) -> bool {
    &&& 0 <= group.0 < keys.len()
    &&& is_first_occurrence(keys, group.0)
    &&& 0 <= hashes[group.0] as int % parts < upto
    &&& group.1 == rows_with_key(keys, keys[group.0], keys.len() as int)
}

/// Whether one of the groups starts at row `first`.
pub open spec fn has_group_at(groups: Seq<Group>, first: int) -> bool {
    exists|x: int| 0 <= x < groups.len() && (#[trigger] groups[x]).0 == first
}

/// The groups of the first `upto` partitions are the groups of the keys that
/// fall into these partitions, each key once.
pub proof fn lemma_hashed_groups_structure<K>(
    keys: Seq<K>,
    hashes: Seq<u64>,
    parts: int,
    upto: int,
)
    requires
        parts > 0,
        0 <= upto <= parts,
        hashes_follow_keys(keys, hashes),
    ensures
        forall|x: int|
            0 <= x < hashed_groups_upto(keys, hashes, parts, upto).len() ==> is_group_of(
                keys,
                hashes,
                parts,
                upto,
                #[trigger] hashed_groups_upto(keys, hashes, parts, upto)[x],
            ),
        forall|f: int|
            0 <= f < keys.len() && is_first_occurrence(keys, f) && hashes[f] as int % parts < upto
                ==> #[trigger] has_group_at(hashed_groups_upto(keys, hashes, parts, upto), f),
        forall|x: int, y: int|
            0 <= x < y < hashed_groups_upto(keys, hashes, parts, upto).len() ==> (
            #[trigger] hashed_groups_upto(keys, hashes, parts, upto)[x]).0 != (
            #[trigger] hashed_groups_upto(keys, hashes, parts, upto)[y]).0,
    decreases upto,
{
    if upto > 0 {
        let n = keys.len() as int;
        lemma_hashed_groups_structure(keys, hashes, parts, upto - 1);
        let prev = hashed_groups_upto(keys, hashes, parts, upto - 1);
        let firsts = first_rows(keys, hashes, parts, upto - 1, n);
        let last = partition_groups(keys, hashes, parts, upto - 1, n);
        let cur = hashed_groups_upto(keys, hashes, parts, upto);
        assert(cur == prev + last);
        assert(last.len() == firsts.len());
        assert forall|x: int| 0 <= x < cur.len() implies is_group_of(
            keys,
            hashes,
            parts,
            upto,
            #[trigger] cur[x],
        ) by {
            if x < prev.len() {
                assert(cur[x] == prev[x]);
                assert(is_group_of(keys, hashes, parts, upto - 1, prev[x]));
            } else {
                let g = x - prev.len();
                assert(cur[x] == last[g]);
                assert(last[g].0 == firsts[g]);
                lemma_first_row_at(keys, hashes, parts, upto - 1, n, g);
            }
        }
        assert forall|f: int|
            0 <= f < keys.len() && is_first_occurrence(keys, f) && hashes[f] as int % parts
                < upto implies #[trigger] has_group_at(cur, f) by {
            if hashes[f] as int % parts < upto - 1 {
                assert(has_group_at(prev, f));
                let x = choose|x: int| 0 <= x < prev.len() && (#[trigger] prev[x]).0 == f;
                assert(cur[x] == prev[x]);
            } else {
                assert(in_partition(hashes, parts, upto - 1, f));
                let g = lemma_first_rows_has(keys, hashes, parts, upto - 1, n, f);
                assert(last[g].0 == f);
                assert(cur[prev.len() + g] == last[g]);
            }
        }
        assert forall|x: int, y: int| 0 <= x < y < cur.len() implies (#[trigger] cur[x]).0 != (
        #[trigger] cur[y]).0 by {
            if y < prev.len() {
                assert(cur[x] == prev[x] && cur[y] == prev[y]);
            } else if x < prev.len() {
                assert(cur[x] == prev[x]);
                assert(is_group_of(keys, hashes, parts, upto - 1, prev[x]));
                let g = y - prev.len();
                assert(cur[y] == last[g]);
                assert(last[g].0 == firsts[g]);
                lemma_first_row_at(keys, hashes, parts, upto - 1, n, g);
            } else {
                let g = x - prev.len();
                let h = y - prev.len();
                assert(cur[x] == last[g] && cur[y] == last[h]);
                lemma_first_rows_increasing(keys, hashes, parts, upto - 1, n, g, h);
            }
        }
    }
}

/// The first row that holds the key of row `i`.
pub open spec fn first_row_of<K>(keys: Seq<K>, i: int) -> int
    decreases i,
{
    if i <= 0 {
        0
    } else if exists|j: int| 0 <= j < i && #[trigger] keys[j] == keys[i] {
        first_row_of(keys, choose|j: int| 0 <= j < i && #[trigger] keys[j] == keys[i])
    } else {
        i
    }
}

/// The first row that holds the key of a row is a row at or before it that
/// holds the same key, and no row before it does.
pub proof fn lemma_first_row_of<K>(keys: Seq<K>, i: int)
    requires
        0 <= i < keys.len(),
    ensures
        0 <= first_row_of(keys, i) <= i,
        keys[first_row_of(keys, i)] == keys[i],
        is_first_occurrence(keys, first_row_of(keys, i)),
    decreases i,
{
    if i > 0 && exists|j: int| 0 <= j < i && #[trigger] keys[j] == keys[i] {
        let j = choose|j: int| 0 <= j < i && #[trigger] keys[j] == keys[i];
        lemma_first_row_of(keys, j);
    }
}

/// Index coverage: in the grouping of the hashing path, whatever the number
/// of partitions, every row of the column lies in exactly one group, at
/// exactly one place, and the groups hold nothing else.
pub proof fn lemma_hashed_groups_cover<K>(keys: Seq<K>, hashes: Seq<u64>, parts: int)
    requires
        parts > 0,
        hashes_follow_keys(keys, hashes),
    ensures
        covers_exactly_once(hashed_groups(keys, hashes, parts), keys.len() as int),
{
    let n = keys.len() as int;
    let groups = hashed_groups(keys, hashes, parts);
    lemma_hashed_groups_structure(keys, hashes, parts, parts);
    assert forall|g: int, j: int| 0 <= g < groups.len() && 0 <= j < groups[g].1.len() implies 0
        <= #[trigger] groups[g].1[j] < n by {
        assert(is_group_of(keys, hashes, parts, parts, groups[g]));
        lemma_rows_with_key(keys, keys[groups[g].0], n);
    }
    assert forall|i: int| 0 <= i < n implies #[trigger] row_appears(groups, i) by {
        lemma_first_row_of(keys, i);
        let f = first_row_of(keys, i);
        assert(has_group_at(groups, f));
        let g = choose|g: int| 0 <= g < groups.len() && (#[trigger] groups[g]).0 == f;
        assert(is_group_of(keys, hashes, parts, parts, groups[g]));
        lemma_rows_with_key(keys, keys[f], n);
        let rows = rows_with_key(keys, keys[f], n);
        let j = choose|j: int| 0 <= j < rows.len() && #[trigger] rows[j] == i;
        assert(groups[g].1[j] == i);
    }
    assert forall|g1: int, j1: int, g2: int, j2: int|
        0 <= g1 < groups.len() && 0 <= j1 < groups[g1].1.len() && 0 <= g2 < groups.len() && 0
            <= j2 < groups[g2].1.len() && #[trigger] groups[g1].1[j1]
            == #[trigger] groups[g2].1[j2] implies g1 == g2 && j1 == j2 by {
        assert(is_group_of(keys, hashes, parts, parts, groups[g1]));
        assert(is_group_of(keys, hashes, parts, parts, groups[g2]));
        lemma_rows_with_key(keys, keys[groups[g1].0], n);
        lemma_rows_with_key(keys, keys[groups[g2].0], n);
        let r = groups[g1].1[j1];
        assert(keys[r] == keys[groups[g1].0]);
        assert(keys[r] == keys[groups[g2].0]);
        lemma_first_occurrence_unique(keys, groups[g1].0, groups[g2].0);
        if g1 < g2 {
            assert(groups[g1].0 != groups[g2].0);
        }
        if g2 < g1 {
            assert(groups[g2].0 != groups[g1].0);
        }
        let rows = groups[g1].1;
        if j1 < j2 {
            assert(rows[j1] < rows[j2]);
        }
        if j2 < j1 {
            assert(rows[j2] < rows[j1]);
        }
    }
}

/// Partition independence: the hashing path yields the same groups, each with
/// the same first row and the same rows, whatever the number of partitions;
/// only the order of the groups depends on it.
pub proof fn lemma_partition_independence<K>(
    keys: Seq<K>,
    hashes: Seq<u64>,
    parts_a: int,
    parts_b: int,
)
    requires
        parts_a > 0,
        parts_b > 0,
        hashes_follow_keys(keys, hashes),
    ensures
        hashed_groups(keys, hashes, parts_a).to_set() == hashed_groups(
            keys,
            hashes,
            parts_b,
        ).to_set(),
{
    lemma_groups_contained(keys, hashes, parts_a, parts_b);
    lemma_groups_contained(keys, hashes, parts_b, parts_a);
    assert(hashed_groups(keys, hashes, parts_a).to_set() =~= hashed_groups(
        keys,
        hashes,
        parts_b,
    ).to_set());
}

/// Every group found with `parts_a` partitions is found with `parts_b`.
proof fn lemma_groups_contained<K>(keys: Seq<K>, hashes: Seq<u64>, parts_a: int, parts_b: int)
    requires
        parts_a > 0,
        parts_b > 0,
        hashes_follow_keys(keys, hashes),
    ensures
        forall|group: Group|
            hashed_groups(keys, hashes, parts_a).contains(group) ==> hashed_groups(
                keys,
                hashes,
                parts_b,
            ).contains(group),
{
    let a = hashed_groups(keys, hashes, parts_a);
    let b = hashed_groups(keys, hashes, parts_b);
    lemma_hashed_groups_structure(keys, hashes, parts_a, parts_a);
    lemma_hashed_groups_structure(keys, hashes, parts_b, parts_b);
    assert forall|group: Group| a.contains(group) implies b.contains(group) by {
        let x = choose|x: int| 0 <= x < a.len() && a[x] == group;
        assert(is_group_of(keys, hashes, parts_a, parts_a, a[x]));
        let f = group.0;
        assert(has_group_at(b, f));
        let y = choose|y: int| 0 <= y < b.len() && (#[trigger] b[y]).0 == f;
        assert(is_group_of(keys, hashes, parts_b, parts_b, b[y]));
        assert(b[y] == group);
    }
}

/// Whether the keys in rows `lo..hi` are all equal.
pub open spec fn is_uniform<K>(keys: Seq<K>, lo: int, hi: int) -> bool {
    forall|r: int| lo <= r < hi ==> #[trigger] keys[r] == keys[lo]
}

/// The first row of slice group `j`.
pub open spec fn group_first(groups: Seq<[IdxSize; 2]>, j: int) -> int {
    groups[j]@[0] as int
}

/// The number of rows of slice group `j`.
pub open spec fn group_len(groups: Seq<[IdxSize; 2]>, j: int) -> int {
    groups[j]@[1] as int
}

/// Whether slice group `j` is a run of equal keys of `keys`, where row
/// `base + r` of the column holds `keys[r]`: it is not empty, lies within the
/// rows of `keys`, holds equal keys, is followed without a gap by the next
/// group, and starts with a key that differs from the one before it.
pub open spec fn is_run<K>(groups: Seq<[IdxSize; 2]>, keys: Seq<K>, base: int, j: int) -> bool {
    let first = group_first(groups, j) - base;
    let len = group_len(groups, j);
    &&& len >= 1
    &&& 0 <= first
    &&& first + len <= keys.len()
    &&& is_uniform(keys, first, first + len)
    &&& j + 1 < groups.len() ==> group_first(groups, j + 1) - base == first + len
    &&& j > 0 ==> keys[first - 1] != keys[first]
}

/// Whether the slice groups are the runs of equal keys of `keys`, where row
/// `base + r` of the column holds `keys[r]`: the groups follow each other
/// without a gap from row `base` to the last row, no group is empty, the keys
/// within a group are equal, and the keys on the two sides of a boundary
/// differ.
pub open spec fn is_run_partition<K>(groups: Seq<[IdxSize; 2]>, keys: Seq<K>, base: int) -> bool {
    &&& (groups.len() == 0 <==> keys.len() == 0)
    &&& groups.len() > 0 ==> group_first(groups, 0) == base
    &&& groups.len() > 0 ==> group_first(groups, groups.len() - 1) + group_len(
        groups,
        groups.len() - 1,
    ) == base + keys.len()
    &&& forall|j: int| 0 <= j < groups.len() ==> #[trigger] is_run(groups, keys, base, j)
}

/// The runs of two stretches of a column that meet at a boundary between
/// different keys are, one after the other, the runs of the two stretches
/// together.
pub proof fn lemma_run_partition_concat<K>(
    a: Seq<[IdxSize; 2]>,
    b: Seq<[IdxSize; 2]>,
    keys: Seq<K>,
    mid: int,
    base: int,
)
    requires
        0 <= mid <= keys.len(),
        is_run_partition(a, keys.subrange(0, mid), base),
        is_run_partition(b, keys.subrange(mid, keys.len() as int), base + mid),
        0 < mid < keys.len() ==> keys[mid - 1] != keys[mid],
    ensures
        is_run_partition(a + b, keys, base),
{
    let all = a + b;
    let left = keys.subrange(0, mid);
    let right = keys.subrange(mid, keys.len() as int);
    assert forall|j: int| 0 <= j < all.len() implies #[trigger] is_run(all, keys, base, j) by {
        if j < a.len() {
            assert(all[j] == a[j]);
            assert(is_run(a, left, base, j));
            let first = group_first(a, j) - base;
            let len = group_len(a, j);
            assert forall|r: int| first <= r < first + len implies #[trigger] keys[r]
                == keys[first] by {
                assert(left[r] == left[first]);
            }
            if j + 1 < a.len() {
                assert(all[j + 1] == a[j + 1]);
            } else if j + 1 < all.len() {
                assert(all[j + 1] == b[0]);
                assert(is_run(b, right, base + mid, 0));
            }
            if j > 0 {
                assert(is_run(a, left, base, j - 1));
                assert(left[first - 1] != left[first]);
            }
        } else {
            let k = j - a.len();
            assert(all[j] == b[k]);
            assert(is_run(b, right, base + mid, k));
            let first = group_first(b, k) - base;
            let len = group_len(b, k);
            assert forall|r: int| first <= r < first + len implies #[trigger] keys[r]
                == keys[first] by {
                assert(right[r - mid] == right[first - mid]);
            }
            if j + 1 < all.len() {
                assert(all[j + 1] == b[k + 1]);
            }
            if k > 0 {
                assert(is_run(b, right, base + mid, k - 1));
                assert(right[first - mid - 1] != right[first - mid]);
            } else if j > 0 {
                assert(is_run(a, left, base, a.len() - 1));
                assert(first == mid);
            }
        }
    }
    if a.len() > 0 {
        assert(all[0] == a[0]);
    } else if b.len() > 0 {
        assert(all[0] == b[0]);
    }
    if b.len() > 0 {
        assert(all[all.len() - 1] == b[b.len() - 1]);
    } else if a.len() > 0 {
        assert(all[all.len() - 1] == a[a.len() - 1]);
    }
}

/// The runs of the values of a stretch without null rows are the runs of its
/// rows.
pub proof fn lemma_run_partition_rows<T>(
    groups: Seq<[IdxSize; 2]>,
    values: Seq<T>,
    rows: Seq<Option<T>>,
    base: int,
)
    requires
        is_run_partition(groups, values, base),
        rows.len() == values.len(),
        forall|i: int| 0 <= i < rows.len() ==> #[trigger] rows[i] == Some(values[i]),
    ensures
        is_run_partition(groups, rows, base),
{
    assert forall|j: int| 0 <= j < groups.len() implies #[trigger] is_run(
        groups,
        rows,
        base,
        j,
    ) by {
        assert(is_run(groups, values, base, j));
        let first = group_first(groups, j) - base;
        let len = group_len(groups, j);
        assert forall|r: int| first <= r < first + len implies #[trigger] rows[r]
            == rows[first] by {
            assert(values[r] == values[first]);
        }
        if j > 0 {
            assert(is_run(groups, values, base, j - 1));
            assert(rows[first - 1] == Some(values[first - 1]));
            assert(rows[first] == Some(values[first]));
        }
    }
}

/// A later run starts where an earlier run has ended, or after it.
pub proof fn lemma_run_order<K>(groups: Seq<[IdxSize; 2]>, keys: Seq<K>, base: int, j: int, k: int)
    requires
        is_run_partition(groups, keys, base),
        0 <= j < k < groups.len(),
    ensures
        group_first(groups, j) + group_len(groups, j) <= group_first(groups, k),
    decreases k - j,
{
    assert(is_run(groups, keys, base, j));
    if j + 1 < k {
        lemma_run_order(groups, keys, base, j + 1, k);
        assert(is_run(groups, keys, base, j + 1));
    }
}

/// The run that holds a row, looked for among the runs up to run `upto`.
pub proof fn lemma_find_run<K>(
    groups: Seq<[IdxSize; 2]>,
    keys: Seq<K>,
    base: int,
    i: int,
    upto: int,
) -> (j: int)
    requires
        is_run_partition(groups, keys, base),
        0 <= upto < groups.len(),
        base <= i < group_first(groups, upto) + group_len(groups, upto),
    ensures
        0 <= j <= upto,
        group_first(groups, j) <= i < group_first(groups, j) + group_len(groups, j),
    decreases upto,
{
    if i >= group_first(groups, upto) {
        upto
    } else {
        assert(upto > 0);
        assert(is_run(groups, keys, base, upto - 1));
        lemma_find_run(groups, keys, base, i, upto - 1)
    }
}

/// Index coverage for the sorted path: the runs of a column hold every row
/// of it exactly once.
pub proof fn lemma_runs_cover<K>(groups: Seq<[IdxSize; 2]>, keys: Seq<K>)
    requires
        is_run_partition(groups, keys, 0),
    ensures
        covers_exactly_once(crate::groupby::proxy::slice_view(groups), keys.len() as int),
{
    let view = crate::groupby::proxy::slice_view(groups);
    let n = keys.len() as int;
    assert forall|g: int, j: int| 0 <= g < view.len() && 0 <= j < view[g].1.len() implies 0
        <= #[trigger] view[g].1[j] < n by {
        assert(is_run(groups, keys, 0, g));
    }
    assert forall|i: int| 0 <= i < n implies #[trigger] row_appears(view, i) by {
        let g = lemma_find_run(groups, keys, 0, i, groups.len() - 1);
        let j = i - group_first(groups, g);
        assert(view[g].1[j] == i);
    }
    assert forall|g1: int, j1: int, g2: int, j2: int|
        0 <= g1 < view.len() && 0 <= j1 < view[g1].1.len() && 0 <= g2 < view.len() && 0 <= j2
            < view[g2].1.len() && #[trigger] view[g1].1[j1]
            == #[trigger] view[g2].1[j2] implies g1 == g2 && j1 == j2 by {
        if g1 < g2 {
            lemma_run_order(groups, keys, 0, g1, g2);
        }
        if g2 < g1 {
            lemma_run_order(groups, keys, 0, g2, g1);
        }
    }
}

/// Whether rows `i` and `k` are two rows with the same key.
pub open spec fn same_key_rows<K>(keys: Seq<K>, i: int, k: int) -> bool {
    0 <= i < k < keys.len() && keys[i] == keys[k]
}

/// Whether equal keys stand together: between two rows with the same key all
/// rows hold that key. This is so in a sorted column.
pub open spec fn is_clustered<K>(keys: Seq<K>) -> bool {
    forall|i: int, k: int| #[trigger] same_key_rows(keys, i, k) ==> is_uniform(keys, i, k + 1)
}

/// Rows between two rows without a first occurrence add no first row.
proof fn lemma_first_rows_no_new<K>(
    keys: Seq<K>,
    hashes: Seq<u64>,
    parts: int,
    part: int,
    from: int,
    to: int,
)
    requires
        0 <= from <= to <= keys.len(),
        forall|r: int| from <= r < to ==> !#[trigger] is_first_occurrence(keys, r),
    ensures
        first_rows(keys, hashes, parts, part, to) == first_rows(keys, hashes, parts, part, from),
    decreases to - from,
{
    if from < to {
        assert(!is_first_occurrence(keys, to - 1));
        lemma_first_rows_no_new(keys, hashes, parts, part, from, to - 1);
    }
}

/// The rows with a key that is held by the rows `s..e` and by no other row.
proof fn lemma_rows_with_key_range<K>(keys: Seq<K>, key: K, s: int, e: int, m: int)
    requires
        0 <= s <= e <= keys.len(),
        0 <= m <= keys.len(),
        forall|i: int| 0 <= i < keys.len() ==> (#[trigger] keys[i] == key <==> s <= i < e),
    ensures
        rows_with_key(keys, key, m) == crate::groupby::proxy::row_range(
            s,
            if m <= s {
                0
            } else if m <= e {
                m - s
            } else {
                e - s
            },
        ),
    decreases m,
{
    if m > 0 {
        lemma_rows_with_key_range(keys, key, s, e, m - 1);
        assert(keys[m - 1] == key <==> s <= m - 1 < e);
    }
    let len = if m <= s {
        0
    } else if m <= e {
        m - s
    } else {
        e - s
    };
    assert(rows_with_key(keys, key, m) =~= crate::groupby::proxy::row_range(s, len));
}

/// In a column where equal keys stand together, a run starts with the first
/// row of its key and holds all rows of its key.
proof fn lemma_run_is_group<K>(groups: Seq<[IdxSize; 2]>, keys: Seq<K>, j: int)
    requires
        is_run_partition(groups, keys, 0),
        is_clustered(keys),
        0 <= j < groups.len(),
    ensures
        is_first_occurrence(keys, group_first(groups, j)),
        rows_with_key(keys, keys[group_first(groups, j)], keys.len() as int)
            == crate::groupby::proxy::row_range(group_first(groups, j), group_len(groups, j)),
{
    let s = group_first(groups, j);
    let e = s + group_len(groups, j);
    let key = keys[s];
    assert(is_run(groups, keys, 0, j));
    assert forall|i: int| 0 <= i < s implies #[trigger] keys[i] != key by {
        if keys[i] == key {
            assert(same_key_rows(keys, i, s));
            assert(is_uniform(keys, i, s + 1));
            assert(keys[s - 1] == keys[i]);
        }
    }
    assert forall|i: int| 0 <= i < keys.len() implies (#[trigger] keys[i] == key <==> s <= i
        < e) by {
        if s <= i < e {
            assert(keys[i] == keys[s]);
        } else if i >= e && keys[i] == key {
            assert(same_key_rows(keys, s, i));
            assert(is_uniform(keys, s, i + 1));
            assert(keys[e] == keys[s]);
            assert(keys[e - 1] == keys[s]);
            assert(j + 1 < groups.len());
            assert(is_run(groups, keys, 0, j + 1));
        }
    }
    lemma_rows_with_key_range(keys, key, s, e, keys.len() as int);
}

/// The first rows up to the end of run `j` are the starts of the runs up to
/// run `j`.
proof fn lemma_first_rows_are_run_starts<K>(
    groups: Seq<[IdxSize; 2]>,
    keys: Seq<K>,
    hashes: Seq<u64>,
    j: int,
)
    requires
        is_run_partition(groups, keys, 0),
        is_clustered(keys),
        hashes.len() == keys.len(),
        -1 <= j < groups.len(),
    ensures
        first_rows(
            keys,
            hashes,
            1,
            0,
            if j < 0 {
                0
            } else {
                group_first(groups, j) + group_len(groups, j)
            },
        ) == Seq::new((j + 1) as nat, |g: int| group_first(groups, g)),
    decreases j + 1,
{
    if j >= 0 {
        lemma_first_rows_are_run_starts(groups, keys, hashes, j - 1);
        let s = group_first(groups, j);
        let e = s + group_len(groups, j);
        assert(is_run(groups, keys, 0, j));
        if j > 0 {
            assert(is_run(groups, keys, 0, j - 1));
        }
        let before = first_rows(keys, hashes, 1, 0, s);
        lemma_run_is_group(groups, keys, j);
        assert(in_partition(hashes, 1, 0, s));
        assert(first_rows(keys, hashes, 1, 0, s + 1) == before.push(s));
        assert forall|r: int| s + 1 <= r < e implies !#[trigger] is_first_occurrence(keys, r) by {
            assert(keys[r] == keys[s]);
        }
        lemma_first_rows_no_new(keys, hashes, 1, 0, s + 1, e);
        assert(first_rows(keys, hashes, 1, 0, e) =~= Seq::new(
            (j + 1) as nat,
            |g: int| group_first(groups, g),
        ));
    } else {
        assert(first_rows(keys, hashes, 1, 0, 0) =~= Seq::new(
            0 as nat,
            |g: int| group_first(groups, g),
        ));
    }
}

/// Sorted fast path equivalence: in a column where equal keys stand together,
/// as they do in a sorted column, the runs of the column are the groups that
/// the hashing path finds, in the order in which it finds them with one
/// partition.
pub proof fn lemma_sorted_path_equivalence<K>(
    groups: Seq<[IdxSize; 2]>,
    keys: Seq<K>,
    hashes: Seq<u64>,
)
    requires
        is_run_partition(groups, keys, 0),
        is_clustered(keys),
        hashes_follow_keys(keys, hashes),
    ensures
        crate::groupby::proxy::slice_view(groups) == hashed_groups(keys, hashes, 1),
{
    let n = keys.len() as int;
    let view = crate::groupby::proxy::slice_view(groups);
    lemma_first_rows_are_run_starts(groups, keys, hashes, groups.len() - 1);
    let firsts = first_rows(keys, hashes, 1, 0, n);
    let target = partition_groups(keys, hashes, 1, 0, n);
    assert(firsts.len() == groups.len());
    assert forall|g: int| 0 <= g < view.len() implies view[g] == target[g] by {
        lemma_run_is_group(groups, keys, g);
        assert(firsts[g] == group_first(groups, g));
    }
    assert(view =~= target);
    assert(hashed_groups_upto(keys, hashes, 1, 0) =~= Seq::<Group>::empty());
    assert(hashed_groups(keys, hashes, 1) =~= target);
}

/// Whether rows `i` and `j` hold the same key.
pub open spec fn same_key<K>(keys: Seq<K>, i: int, j: int) -> bool {
    keys[i] == keys[j]
}

/// Whether two sequences of keys tell the same rows apart: two rows hold the
/// same key in the one exactly when they do in the other.
pub open spec fn same_pattern<K, L>(keys: Seq<K>, other: Seq<L>) -> bool {
    &&& keys.len() == other.len()
    &&& forall|i: int, j: int|
        0 <= i < keys.len() && 0 <= j < keys.len() ==> (#[trigger] same_key(keys, i, j)
            == same_key(other, i, j))
}

/// Whether row `i` is a row of group `g`.
pub open spec fn in_group(groups: Seq<Group>, g: int, i: int) -> bool {
    0 <= g < groups.len() && exists|a: int|
        0 <= a < groups[g].1.len() && #[trigger] groups[g].1[a] == i
}

/// Whether rows `i` and `j` are rows of one group.
pub open spec fn share_group(groups: Seq<Group>, i: int, j: int) -> bool {
    exists|g: int| #[trigger] in_group(groups, g, i) && in_group(groups, g, j)
}

/// Whether the groups are a grouping of the rows by their keys: every row
/// lies in exactly one group, and two rows lie in the same group exactly
/// when they hold the same key.
pub open spec fn is_grouping_by<K>(groups: Seq<Group>, keys: Seq<K>) -> bool {
    &&& covers_exactly_once(groups, keys.len() as int)
    &&& forall|i: int, j: int|
        0 <= i < keys.len() && 0 <= j < keys.len() ==> (#[trigger] share_group(groups, i, j)
            <==> keys[i] == keys[j])
}

/// What the hashing path yields is a grouping by key, whatever the number of
/// partitions and whatever the hashes, as long as rows with the same key
/// have the same hash: two rows share a group exactly when their keys are
/// equal.
pub proof fn lemma_hashed_groups_by_key<K>(keys: Seq<K>, hashes: Seq<u64>, parts: int)
    requires
        parts > 0,
        hashes_follow_keys(keys, hashes),
    ensures
        is_grouping_by(hashed_groups(keys, hashes, parts), keys),
{
    let n = keys.len() as int;
    let groups = hashed_groups(keys, hashes, parts);
    lemma_hashed_groups_cover(keys, hashes, parts);
    lemma_hashed_groups_structure(keys, hashes, parts, parts);
    assert forall|i: int, j: int| 0 <= i < n && 0 <= j < n implies (#[trigger] share_group(
        groups,
        i,
        j,
    ) <==> keys[i] == keys[j]) by {
        if share_group(groups, i, j) {
            let g = choose|g: int| #[trigger] in_group(groups, g, i) && in_group(groups, g, j);
            assert(is_group_of(keys, hashes, parts, parts, groups[g]));
            lemma_rows_with_key(keys, keys[groups[g].0], n);
            let a = choose|a: int| 0 <= a < groups[g].1.len() && #[trigger] groups[g].1[a] == i;
            let b = choose|b: int| 0 <= b < groups[g].1.len() && #[trigger] groups[g].1[b] == j;
            assert(keys[groups[g].1[a]] == keys[groups[g].0]);
            assert(keys[groups[g].1[b]] == keys[groups[g].0]);
        }
        if keys[i] == keys[j] {
            lemma_first_row_of(keys, i);
            lemma_first_row_of(keys, j);
            let f = first_row_of(keys, i);
            lemma_first_occurrence_unique(keys, f, first_row_of(keys, j));
            assert(has_group_at(groups, f));
            let g = choose|g: int| 0 <= g < groups.len() && (#[trigger] groups[g]).0 == f;
            assert(is_group_of(keys, hashes, parts, parts, groups[g]));
            lemma_rows_with_key(keys, keys[f], n);
            let rows = rows_with_key(keys, keys[f], n);
            let a = choose|a: int| 0 <= a < rows.len() && #[trigger] rows[a] == i;
            let b = choose|b: int| 0 <= b < rows.len() && #[trigger] rows[b] == j;
            assert(groups[g].1[a] == i);
            assert(groups[g].1[b] == j);
            assert(in_group(groups, g, i) && in_group(groups, g, j));
        }
    }
}

/// A grouping by keys is a grouping by any other keys that tell the same
/// rows apart.
pub proof fn lemma_grouping_by_rekey<K, L>(groups: Seq<Group>, keys: Seq<K>, other: Seq<L>)
    requires
        is_grouping_by(groups, keys),
        same_pattern(keys, other),
    ensures
        is_grouping_by(groups, other),
{
    assert forall|i: int, j: int| 0 <= i < other.len() && 0 <= j < other.len() implies (
    #[trigger] share_group(groups, i, j) <==> other[i] == other[j]) by {
        assert(same_key(keys, i, j) == same_key(other, i, j));
    }
}

/// The rows with the key of a row are the same for keys that tell the same
/// rows apart.
proof fn lemma_rekey_rows_with_key<K, L>(keys: Seq<K>, other: Seq<L>, f: int, n: int)
    requires
        same_pattern(keys, other),
        0 <= f < keys.len(),
        0 <= n <= keys.len(),
    ensures
        rows_with_key(keys, keys[f], n) == rows_with_key(other, other[f], n),
    decreases n,
{
    if n > 0 {
        lemma_rekey_rows_with_key(keys, other, f, n - 1);
        assert(same_key(keys, n - 1, f) == same_key(other, n - 1, f));
    }
}

/// A row is the first with its key under keys exactly when it is under keys
/// that tell the same rows apart.
proof fn lemma_rekey_first_occurrence<K, L>(keys: Seq<K>, other: Seq<L>, i: int)
    requires
        same_pattern(keys, other),
        0 <= i < keys.len(),
    ensures
        is_first_occurrence(keys, i) == is_first_occurrence(other, i),
{
    if is_first_occurrence(keys, i) {
        assert forall|j: int| 0 <= j < i implies #[trigger] other[j] != other[i] by {
            assert(same_key(keys, j, i) == same_key(other, j, i));
        }
    }
    if is_first_occurrence(other, i) {
        assert forall|j: int| 0 <= j < i implies #[trigger] keys[j] != keys[i] by {
            assert(same_key(keys, j, i) == same_key(other, j, i));
        }
    }
}

/// The first rows of a partition are the same for keys that tell the same
/// rows apart.
proof fn lemma_rekey_first_rows<K, L>(
    keys: Seq<K>,
    other: Seq<L>,
    hashes: Seq<u64>,
    parts: int,
    part: int,
    n: int,
)
    requires
        same_pattern(keys, other),
        0 <= n <= keys.len(),
    ensures
        first_rows(keys, hashes, parts, part, n) == first_rows(other, hashes, parts, part, n),
    decreases n,
{
    if n > 0 {
        lemma_rekey_first_rows(keys, other, hashes, parts, part, n - 1);
        lemma_rekey_first_occurrence(keys, other, n - 1);
    }
}

/// The hashing path yields the same groups for keys that tell the same rows
/// apart: the grouping depends on the keys only through their equality.
pub proof fn lemma_rekey_hashed_groups<K, L>(
    keys: Seq<K>,
    other: Seq<L>,
    hashes: Seq<u64>,
    parts: int,
    upto: int,
)
    requires
        same_pattern(keys, other),
        hashes_follow_keys(keys, hashes),
        parts > 0,
        0 <= upto <= parts,
    ensures
        hashed_groups_upto(keys, hashes, parts, upto) == hashed_groups_upto(
            other,
            hashes,
            parts,
            upto,
        ),
    decreases upto,
{
    if upto > 0 {
        let n = keys.len() as int;
        lemma_rekey_hashed_groups(keys, other, hashes, parts, upto - 1);
        lemma_rekey_first_rows(keys, other, hashes, parts, upto - 1, n);
        let firsts = first_rows(keys, hashes, parts, upto - 1, n);
        let a = partition_groups(keys, hashes, parts, upto - 1, n);
        let b = partition_groups(other, hashes, parts, upto - 1, n);
        assert forall|g: int| 0 <= g < a.len() implies a[g] == b[g] by {
            lemma_first_row_at(keys, hashes, parts, upto - 1, n, g);
            lemma_rekey_rows_with_key(keys, other, firsts[g], n);
        }
        assert(a =~= b);
    }
}

} // verus!
