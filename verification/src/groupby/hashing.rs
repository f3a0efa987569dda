//! The general hashing path: groups are found with a hash map from the hash
//! of a key to the groups whose keys have that hash.
//!
//! With several partitions every key belongs to the partition that its hash
//! names, the groups of one partition are built by one scan over all rows,
//! and the results are put one after the other in the order of the
//! partitions.

use crate::groupby::grouping::{
    first_rows,
    hashed_groups,
    hashed_groups_upto,
    hashes_follow_keys,
    in_partition,
    is_first_occurrence,
    lemma_first_row_at,
    lemma_first_rows,
    lemma_first_rows_distinct,
    lemma_rows_with_key_absent,
    partition_groups,
    rows_with_key,
};
use crate::groupby::proxy::{idx_view, rows_view, GroupsIdx, GroupsProxy, IdxSize};
use std::collections::HashMap;
use vstd::prelude::*;
use vstd::string::StringSliceAdditionalSpecFns;

verus! {

broadcast use vstd::std_specs::hash::group_hash_axioms;

/// A value that rows are grouped by. `V` is the key as the contracts see it:
/// two rows are in one group exactly when their keys are equal.
pub trait GroupKey<V>: Sized {
    /// The key.
    spec fn key(&self) -> V;

    /// The hash of a key.
    spec fn hash_of(key: V) -> u64;

    /// The hash of the key.
    fn hash(&self) -> (h: u64)
        ensures
            h == Self::hash_of(self.key()),
    ;

    /// Whether the two have the same key.
    fn same_key(&self, other: &Self) -> (same: bool)
        ensures
            same == (self.key() == other.key()),
    ;
}

/// The keys of the rows.
pub open spec fn key_views<V, K: GroupKey<V>>(keys: Seq<K>) -> Seq<V> {
    Seq::new(keys.len(), |i: int| keys[i].key())
}

/// The hashes of the rows.
pub open spec fn key_hashes<V, K: GroupKey<V>>(keys: Seq<K>) -> Seq<u64> {
    Seq::new(keys.len(), |i: int| K::hash_of(keys[i].key()))
}

/// Whether bucket `h` of the map lists group `g`.
pub open spec fn bucket_has(map: Map<u64, Vec<usize>>, h: u64, g: int) -> bool {
    map.contains_key(h) && exists|b: int| 0 <= b < map[h]@.len() && #[trigger] map[h]@[b] == g
}

/// The map lists every group under the hash of its key, and nothing else.
pub open spec fn map_tracks(
    map: Map<u64, Vec<usize>>,
    groups: Seq<(IdxSize, Vec<IdxSize>)>,
    hashes: Seq<u64>,
) -> bool {
    &&& forall|h: u64, b: int|
        map.contains_key(h) && 0 <= b < map[h]@.len() ==> (#[trigger] map[h]@[b]) < groups.len()
            && hashes[groups[map[h]@[b] as int].0 as int] == h
    &&& forall|g: int|
        0 <= g < groups.len() ==> #[trigger] bucket_has(map, hashes[groups[g].0 as int], g)
}

/// Looks for the group with the key of row `i` among the groups listed under
/// the hash `h` of that key.
fn find_group<V, K: GroupKey<V>>(
    groups: &GroupsIdx,
    map: &HashMap<u64, Vec<usize>>,
    keys: &[K],
    i: usize,
    h: u64,
) -> (found: Option<usize>)
    requires
        i < keys@.len(),
        h == key_hashes(keys@)[i as int],
        map_tracks(map@, groups@, key_hashes(keys@)),
        forall|g: int| 0 <= g < groups@.len() ==> (#[trigger] groups@[g]).0 < keys@.len(),
    ensures
        match found {
            Some(g) => g < groups@.len() && key_views(keys@)[groups@[g as int].0 as int]
                == key_views(keys@)[i as int],
            None => forall|g: int|
                0 <= g < groups@.len() ==> key_views(keys@)[(#[trigger] groups@[g]).0 as int]
                    != key_views(keys@)[i as int],
        },
{
    let ghost kv = key_views(keys@);
    let ghost hs = key_hashes(keys@);
    match map.get(&h) {
        None => {
            assert forall|g: int| 0 <= g < groups@.len() implies kv[(#[trigger] groups@[g]).0 as int]
                != kv[i as int] by {
                assert(bucket_has(map@, hs[groups@[g].0 as int], g));
            }
            None
        },
        Some(bucket) => {
            let mut b: usize = 0;
            while b < bucket.len()
                invariant
                    i < keys@.len(),
                    kv == key_views(keys@),
                    hs == key_hashes(keys@),
                    h == hs[i as int],
                    map@.contains_key(h),
                    *bucket == map@[h],
                    map_tracks(map@, groups@, hs),
                    forall|g: int| 0 <= g < groups@.len() ==> (#[trigger] groups@[g]).0 < keys@.len(),
                    0 <= b <= bucket@.len(),
                    forall|c: int|
                        0 <= c < b ==> kv[groups@[(#[trigger] bucket@[c]) as int].0 as int]
                            != kv[i as int],
                decreases bucket@.len() - b,
            {
                let g: usize = bucket[b];
                assert(map@[h]@[b as int] < groups@.len());
                let first: usize = groups[g].0;
                if keys[first].same_key(&keys[i]) {
                    return Some(g);
                }
                b = b + 1;
            }
            assert forall|g: int| 0 <= g < groups@.len() implies kv[(#[trigger] groups@[g]).0 as int]
                != kv[i as int] by {
                if kv[groups@[g].0 as int] == kv[i as int] {
                    assert(bucket_has(map@, hs[groups@[g].0 as int], g));
                    assert(hs[groups@[g].0 as int] == h);
                    let c = choose|c: int| 0 <= c < map@[h]@.len() && #[trigger] map@[h]@[c] == g;
                    assert(kv[groups@[bucket@[c] as int].0 as int] != kv[i as int]);
                }
            }
            None
        },
    }
}

/// Lists group `g` under the hash `h`.
fn bucket_add(map: &mut HashMap<u64, Vec<usize>>, h: u64, g: usize)
    ensures
        final(map)@.dom() == old(map)@.dom().insert(h),
        final(map)@[h]@ == (if old(map)@.contains_key(h) {
            old(map)@[h]@
        } else {
            Seq::empty()
        }).push(g),
        forall|k: u64| k != h && old(map)@.contains_key(k) ==> final(map)@[k] == old(map)@[k],
{
    let mut bucket: Vec<usize> = match map.remove(&h) {
        Some(b) => b,
        None => Vec::new(),
    };
    bucket.push(g);
    map.insert(h, bucket);
}

/// The groups built so far are the groups of the partition after `n` rows.
pub open spec fn groups_match<K>(
    groups: Seq<(IdxSize, Vec<IdxSize>)>,
    keys: Seq<K>,
    hashes: Seq<u64>,
    parts: int,
    part: int,
    n: int,
) -> bool {
    let firsts = first_rows(keys, hashes, parts, part, n);
    &&& groups.len() == firsts.len()
    &&& forall|g: int|
        0 <= g < groups.len() ==> (#[trigger] groups[g]).0 == firsts[g] && rows_view(groups[g].1@)
            == rows_with_key(keys, keys[firsts[g]], n)
}

/// Groups that match the groups of the partition are these groups.
proof fn lemma_groups_match_view<K>(
    groups: Seq<(IdxSize, Vec<IdxSize>)>,
    keys: Seq<K>,
    hashes: Seq<u64>,
    parts: int,
    part: int,
    n: int,
)
    requires
        groups_match(groups, keys, hashes, parts, part, n),
    ensures
        idx_view(groups) == partition_groups(keys, hashes, parts, part, n),
{
    let target = partition_groups(keys, hashes, parts, part, n);
    assert forall|g: int| 0 <= g < groups.len() implies idx_view(groups)[g] == target[g] by {
        assert(groups[g].0 == first_rows(keys, hashes, parts, part, n)[g]);
    }
    assert(idx_view(groups) =~= target);
}

/// A row of another partition changes nothing.
proof fn lemma_step_skip<K>(
    groups: Seq<(IdxSize, Vec<IdxSize>)>,
    keys: Seq<K>,
    hashes: Seq<u64>,
    parts: int,
    part: int,
    i: int,
)
    requires
        0 <= i < keys.len(),
        parts > 0,
        hashes_follow_keys(keys, hashes),
        groups_match(groups, keys, hashes, parts, part, i),
        !in_partition(hashes, parts, part, i),
    ensures
        groups_match(groups, keys, hashes, parts, part, i + 1),
{
    lemma_first_rows(keys, hashes, parts, part, i);
    let firsts = first_rows(keys, hashes, parts, part, i);
    assert forall|g: int| 0 <= g < groups.len() implies (#[trigger] groups[g]).0 == firsts[g]
        && rows_view(groups[g].1@) == rows_with_key(keys, keys[firsts[g]], i + 1) by {
        let f = firsts[g];
        assert(in_partition(hashes, parts, part, f));
        if keys[f] == keys[i] {
            assert(hashes[f] == hashes[i]);
        }
    }
}

/// A row whose key has a group joins that group.
proof fn lemma_step_hit<K>(
    before: Seq<(IdxSize, Vec<IdxSize>)>,
    after: Seq<(IdxSize, Vec<IdxSize>)>,
    keys: Seq<K>,
    hashes: Seq<u64>,
    parts: int,
    part: int,
    i: int,
    hit: int,
)
    requires
        0 <= i < keys.len(),
        i <= usize::MAX,
        parts > 0,
        hashes_follow_keys(keys, hashes),
        groups_match(before, keys, hashes, parts, part, i),
        in_partition(hashes, parts, part, i),
        0 <= hit < before.len(),
        keys[before[hit].0 as int] == keys[i],
        after.len() == before.len(),
        after[hit].0 == before[hit].0,
        after[hit].1@ == before[hit].1@.push(i as usize),
        forall|g: int| 0 <= g < before.len() && g != hit ==> after[g] == before[g],
    ensures
        groups_match(after, keys, hashes, parts, part, i + 1),
{
    let firsts = first_rows(keys, hashes, parts, part, i);
    assert(before[hit].0 == firsts[hit]);
    lemma_first_row_at(keys, hashes, parts, part, i, hit);
    assert(!is_first_occurrence(keys, i)) by {
        assert(keys[firsts[hit]] == keys[i]);
    }
    assert(first_rows(keys, hashes, parts, part, i + 1) == firsts);
    assert forall|g: int| 0 <= g < after.len() implies (#[trigger] after[g]).0 == firsts[g]
        && rows_view(after[g].1@) == rows_with_key(keys, keys[firsts[g]], i + 1) by {
        assert(before[g].0 == firsts[g]);
        if g == hit {
            assert(rows_view(after[g].1@) =~= rows_view(before[g].1@).push(i));
        } else {
            lemma_first_rows_distinct(keys, hashes, parts, part, i, g, hit);
            assert(after[g] == before[g]);
        }
    }
}

/// A row whose key has no group yet opens a group.
proof fn lemma_step_miss<K>(
    before: Seq<(IdxSize, Vec<IdxSize>)>,
    after: Seq<(IdxSize, Vec<IdxSize>)>,
    keys: Seq<K>,
    hashes: Seq<u64>,
    parts: int,
    part: int,
    i: int,
)
    requires
        0 <= i < keys.len(),
        i <= usize::MAX,
        parts > 0,
        hashes_follow_keys(keys, hashes),
        groups_match(before, keys, hashes, parts, part, i),
        in_partition(hashes, parts, part, i),
        forall|g: int| 0 <= g < before.len() ==> keys[(#[trigger] before[g]).0 as int] != keys[i],
        after.len() == before.len() + 1,
        after[before.len() as int].0 == i,
        after[before.len() as int].1@ == Seq::<usize>::empty().push(i as usize),
        forall|g: int| 0 <= g < before.len() ==> after[g] == before[g],
    ensures
        groups_match(after, keys, hashes, parts, part, i + 1),
        is_first_occurrence(keys, i),
{
    lemma_first_rows(keys, hashes, parts, part, i);
    let firsts = first_rows(keys, hashes, parts, part, i);
    assert forall|j: int| 0 <= j < i implies #[trigger] keys[j] != keys[i] by {
        if keys[j] == keys[i] {
            assert(hashes[j] == hashes[i]);
            assert(in_partition(hashes, parts, part, j));
            let k = choose|k: int| 0 <= k < firsts.len() && keys[#[trigger] firsts[k]] == keys[j];
            assert(before[k].0 == firsts[k]);
        }
    }
    lemma_rows_with_key_absent(keys, keys[i], i);
    let next = first_rows(keys, hashes, parts, part, i + 1);
    assert(next == firsts.push(i));
    assert forall|g: int| 0 <= g < after.len() implies (#[trigger] after[g]).0 == next[g]
        && rows_view(after[g].1@) == rows_with_key(keys, keys[next[g]], i + 1) by {
        if g < before.len() {
            assert(before[g].0 == firsts[g]);
        } else {
            assert(rows_view(after[g].1@) =~= Seq::<int>::empty().push(i));
        }
    }
}

/// Joining a group leaves the map as it was.
proof fn lemma_map_after_hit(
    map: Map<u64, Vec<usize>>,
    before: Seq<(IdxSize, Vec<IdxSize>)>,
    after: Seq<(IdxSize, Vec<IdxSize>)>,
    hashes: Seq<u64>,
)
    requires
        map_tracks(map, before, hashes),
        after.len() == before.len(),
        forall|g: int| 0 <= g < before.len() ==> (#[trigger] after[g]).0 == before[g].0,
    ensures
        map_tracks(map, after, hashes),
{
    assert forall|g: int| 0 <= g < after.len() implies #[trigger] bucket_has(
        map,
        hashes[after[g].0 as int],
        g,
    ) by {
        assert(after[g].0 == before[g].0);
        assert(bucket_has(map, hashes[before[g].0 as int], g));
    }
    assert forall|h: u64, b: int| map.contains_key(h) && 0 <= b < map[h]@.len() implies (
    #[trigger] map[h]@[b]) < after.len() && hashes[after[map[h]@[b] as int].0 as int] == h by {
        let g = map[h]@[b] as int;
        assert(g < before.len());
        assert(after[g].0 == before[g].0);
    }
}

/// A new group is listed under the hash of its key.
proof fn lemma_map_after_miss(
    old_map: Map<u64, Vec<usize>>,
    map: Map<u64, Vec<usize>>,
    before: Seq<(IdxSize, Vec<IdxSize>)>,
    after: Seq<(IdxSize, Vec<IdxSize>)>,
    hashes: Seq<u64>,
    h: u64,
)
    requires
        map_tracks(old_map, before, hashes),
        after.len() == before.len() + 1,
        before.len() <= usize::MAX,
        forall|g: int| 0 <= g < before.len() ==> after[g] == before[g],
        hashes[after[before.len() as int].0 as int] == h,
        map.dom() == old_map.dom().insert(h),
        map[h]@ == (if old_map.contains_key(h) {
            old_map[h]@
        } else {
            Seq::empty()
        }).push(before.len() as usize),
        forall|k: u64| k != h && old_map.contains_key(k) ==> map[k] == old_map[k],
    ensures
        map_tracks(map, after, hashes),
{
    let g_new = before.len() as int;
    assert forall|g: int| 0 <= g < after.len() implies #[trigger] bucket_has(
        map,
        hashes[after[g].0 as int],
        g,
    ) by {
        if g < g_new {
            let hk = hashes[before[g].0 as int];
            assert(bucket_has(old_map, hk, g));
            let b = choose|b: int| 0 <= b < old_map[hk]@.len() && #[trigger] old_map[hk]@[b] == g;
            assert(map[hk]@[b] == g);
        } else {
            assert(map[h]@[map[h]@.len() - 1] == g);
        }
    }
    assert forall|hh: u64, b: int| map.contains_key(hh) && 0 <= b < map[hh]@.len() implies (
    #[trigger] map[hh]@[b]) < after.len() && hashes[after[map[hh]@[b] as int].0 as int]
        == hh by {
        if hh == h {
            if b < map[h]@.len() - 1 {
                assert(old_map.contains_key(h));
                assert(old_map[h]@[b] == map[h]@[b]);
            }
        } else {
            assert(old_map.contains_key(hh));
            assert(old_map[hh]@[b] == map[hh]@[b]);
        }
    }
}

/// The groups of one partition: one scan over all rows, which takes the rows
/// whose hash names the partition and leaves the others.
pub fn group_partition<V, K: GroupKey<V>>(keys: &[K], n_partitions: u64, partition: u64) -> (groups:
    GroupsIdx)
    requires
        partition < n_partitions,
    ensures
        idx_view(groups@) == partition_groups(
            key_views(keys@),
            key_hashes(keys@),
            n_partitions as int,
            partition as int,
            keys@.len() as int,
        ),
{
    let ghost kv = key_views(keys@);
    let ghost hs = key_hashes(keys@);
    let ghost parts = n_partitions as int;
    let ghost part = partition as int;
    let n: usize = keys.len();
    let mut groups: GroupsIdx = Vec::new();
    let mut map: HashMap<u64, Vec<usize>> = HashMap::new();
    let mut i: usize = 0;
    assert(hashes_follow_keys(kv, hs));
    while i < n
        invariant
            n == keys@.len(),
            kv == key_views(keys@),
            hs == key_hashes(keys@),
            parts == n_partitions,
            part == partition,
            partition < n_partitions,
            hashes_follow_keys(kv, hs),
            0 <= i <= n,
            groups_match(groups@, kv, hs, parts, part, i as int),
            map_tracks(map@, groups@, hs),
        decreases n - i,
    {
        let ghost before = groups@;
        proof {
            lemma_first_rows(kv, hs, parts, part, i as int);
        }
        let h: u64 = keys[i].hash();
        if h % n_partitions == partition {
            let found = find_group(&groups, &map, keys, i, h);
            match found {
                Some(g) => {
                    groups[g].1.push(i);
                    proof {
                        lemma_step_hit(before, groups@, kv, hs, parts, part, i as int, g as int);
                        lemma_map_after_hit(map@, before, groups@, hs);
                    }
                },
                None => {
                    let g: usize = groups.len();
                    let mut members: Vec<IdxSize> = Vec::new();
                    members.push(i);
                    groups.push((i, members));
                    let ghost old_map = map@;
                    bucket_add(&mut map, h, g);
                    proof {
                        lemma_step_miss(before, groups@, kv, hs, parts, part, i as int);
                        lemma_map_after_miss(old_map, map@, before, groups@, hs, h);
                    }
                },
            }
        } else {
            proof {
                lemma_step_skip(groups@, kv, hs, parts, part, i as int);
            }
        }
        i = i + 1;
    }
    proof {
        lemma_groups_match_view(groups@, kv, hs, parts, part, n as int);
    }
    groups
}

/// The buffers one after the other.
pub open spec fn concat_all<T>(bufs: Seq<Vec<T>>, upto: int) -> Seq<T>
    decreases upto,
{
    if upto <= 0 {
        Seq::empty()
    } else {
        concat_all(bufs, upto - 1) + bufs[upto - 1]@
    }
}

/// Copies the buffers into one, in their order.
pub fn flatten<T: Copy>(bufs: &[Vec<T>]) -> (flat: Vec<T>)
    ensures
        flat@ == concat_all(bufs@, bufs@.len() as int),
{
    let mut flat: Vec<T> = Vec::new();
    let mut b: usize = 0;
    while b < bufs.len()
        invariant
            0 <= b <= bufs@.len(),
            flat@ == concat_all(bufs@, b as int),
        decreases bufs@.len() - b,
    {
        let buf = &bufs[b];
        let ghost start = flat@;
        let mut j: usize = 0;
        while j < buf.len()
            invariant
                0 <= j <= buf@.len(),
                flat@ == start + buf@.subrange(0, j as int),
            decreases buf@.len() - j,
        {
            flat.push(buf[j]);
            assert(flat@ =~= start + buf@.subrange(0, j + 1));
            j = j + 1;
        }
        assert(buf@.subrange(0, buf@.len() as int) =~= buf@);
        b = b + 1;
    }
    flat
}

/// Whether a key with hash `h` belongs to partition `partition` of
/// `n_partitions`.
pub fn this_partition(h: u64, partition: u64, n_partitions: u64) -> (mine: bool)
    requires
        n_partitions > 0,
    ensures
        mine == (h as int % n_partitions as int == partition),
{
    h % n_partitions == partition
}

/// Groups the rows by key with one hash map, in the order of the rows. The
/// groups come out in the order in which their keys first occur, which is the
/// order that `sorted` asks for.
pub fn groupby<V, K: GroupKey<V>>(keys: &[K], sorted: bool) -> (groups: GroupsProxy)
    ensures
        groups is Idx,
        groups@ == hashed_groups(key_views(keys@), key_hashes(keys@), 1),
{
    let found = group_partition(keys, 1, 0);
    let ghost kv = key_views(keys@);
    let ghost hs = key_hashes(keys@);
    proof {
        assert(hashed_groups_upto(kv, hs, 1, 0) =~= Seq::<crate::groupby::proxy::Group>::empty());
        assert(hashed_groups(kv, hs, 1) =~= partition_groups(kv, hs, 1, 0, kv.len() as int));
    }
    GroupsProxy::Idx(found)
}

/// Groups the rows by key in `n_partitions` partitions. The rows come in
/// buffers, one after the other; every key belongs to the partition that its
/// hash names, and the groups of a partition are found by a scan over all
/// buffers. The result lists the groups of partition 0, then those of
/// partition 1, and so on; within a partition the groups stand in the order
/// in which their keys first occur, whether `sorted` asks for it or not.
pub fn groupby_threaded_num<V, K: GroupKey<V> + Copy>(
    keys: Vec<Vec<K>>,
    group_size_hint: usize,
    n_partitions: u64,
    sorted: bool,
) -> (groups: GroupsProxy)
    requires
        n_partitions > 0,
    ensures
        groups is Idx,
        groups@ == hashed_groups(
            key_views(concat_all(keys@, keys@.len() as int)),
            key_hashes(concat_all(keys@, keys@.len() as int)),
            n_partitions as int,
        ),
{
    let flat = flatten(keys.as_slice());
    let ghost kv = key_views(flat@);
    let ghost hs = key_hashes(flat@);
    let mut out: GroupsIdx = Vec::with_capacity(group_size_hint);
    let mut partition: u64 = 0;
    assert(idx_view(out@) =~= hashed_groups_upto(kv, hs, n_partitions as int, 0));
    while partition < n_partitions
        invariant
            0 <= partition <= n_partitions,
            kv == key_views(flat@),
            hs == key_hashes(flat@),
            idx_view(out@) == hashed_groups_upto(kv, hs, n_partitions as int, partition as int),
        decreases n_partitions - partition,
    {
        let mut found = group_partition(flat.as_slice(), n_partitions, partition);
        let ghost before = out@;
        let ghost added = found@;
        out.append(&mut found);
        assert(idx_view(out@) =~= idx_view(before) + idx_view(added));
        partition = partition + 1;
    }
    GroupsProxy::Idx(out)
}

/// The hash that stands in for the key of a null row of a numeric column.
pub const NULL_KEY_HASH: u64 = 0x3fff_ffff_ffff_ffff;

impl<T: crate::native::NativeType> GroupKey<Option<T>> for Option<T> {
    open spec fn key(&self) -> Option<T> {
        *self
    }

    open spec fn hash_of(key: Option<T>) -> u64 {
        match key {
            Some(value) => value.key(),
            None => NULL_KEY_HASH,
        }
    }

    fn hash(&self) -> (h: u64) {
        match self {
            Some(value) => value.as_u64(),
            None => NULL_KEY_HASH,
        }
    }

    fn same_key(&self, other: &Self) -> (same: bool) {
        match (self, other) {
            (Some(a), Some(b)) => {
                proof {
                    if a.key() == b.key() {
                        T::lemma_key_injective(*a, *b);
                    }
                }
                a.as_u64() == b.as_u64()
            },
            (None, None) => true,
            _ => false,
        }
    }
}

/// A key of variable length together with its hash, computed once.
#[derive(Clone, Copy)]
pub struct BytesHash<'a> {
    payload: Option<&'a [u8]>,
    hash: u64,
}

/// Whether two byte strings are the same.
pub fn bytes_eq(a: &[u8], b: &[u8]) -> (same: bool)
    ensures
        same == (a@ == b@),
{
    if a.len() != b.len() {
        return false;
    }
    let mut i: usize = 0;
    while i < a.len()
        invariant
            a@.len() == b@.len(),
            0 <= i <= a@.len(),
            forall|j: int| 0 <= j < i ==> a@[j] == b@[j],
        decreases a@.len() - i,
    {
        if a[i] != b[i] {
            return false;
        }
        i = i + 1;
    }
    assert(a@ =~= b@);
    true
}

impl<'a> BytesHash<'a> {
    /// The bytes of the key; `None` for a null row.
    pub closed spec fn payload(&self) -> Option<Seq<u8>> {
        match self.payload {
            Some(bytes) => Some(bytes@),
            None => None,
        }
    }

    /// The hash that was handed in with the key.
    pub closed spec fn hash_value(&self) -> u64 {
        self.hash
    }

    /// The key with the given bytes and their hash.
    pub fn new(payload: Option<&'a [u8]>, hash: u64) -> (key: Self)
        ensures
            key.payload() == match payload {
                Some(bytes) => Some(bytes@),
                None => None,
            },
            key.hash_value() == hash,
    {
        BytesHash { payload, hash }
    }

    /// The key with the bytes of the given text and their hash.
    pub fn new_from_str(payload: Option<&'a str>, hash: u64) -> (key: Self)
        ensures
            key.payload() == match payload {
                Some(text) => Some(text.spec_bytes()),
                None => None,
            },
            key.hash_value() == hash,
    {
        match payload {
            Some(text) => BytesHash { payload: Some(text.as_bytes()), hash },
            None => BytesHash { payload: None, hash },
        }
    }
}

impl<'a> GroupKey<(u64, Option<Seq<u8>>)> for BytesHash<'a> {
    /// Two rows have the same key where their bytes and their hashes are the
    /// same.
    open spec fn key(&self) -> (u64, Option<Seq<u8>>) {
        (self.hash_value(), self.payload())
    }

    open spec fn hash_of(key: (u64, Option<Seq<u8>>)) -> u64 {
        key.0
    }

    fn hash(&self) -> (h: u64) {
        self.hash
    }

    fn same_key(&self, other: &Self) -> (same: bool) {
        self.hash == other.hash && match (self.payload, other.payload) {
            (Some(a), Some(b)) => bytes_eq(a, b),
            (None, None) => true,
            _ => false,
        }
    }
}

} // verus!
