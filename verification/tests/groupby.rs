use polars::chunked_array::{ChunkedArray, IsSorted};
use polars::datatypes::{BinaryChunked, BooleanChunked, DataType, Int32Chunked, Utf8Chunked};
use polars::error::PolarsError;
use polars::groupby::hashing::{
    bytes_eq, flatten, group_partition, groupby, groupby_threaded_num, this_partition, BytesHash,
};
use polars::groupby::into_groups::{
    _split_offsets, group_multithreaded, hash_rows, num_groups_proxy, IntoGroupsProxy, ListChunked,
};
use polars::groupby::proxy::GroupsProxy;
use polars::groupby::sorted::{create_clean_partitions, partition_to_groups};
use polars::native::Float64;
use polars::pool::WorkerPool;

fn groups_of(proxy: &GroupsProxy) -> Vec<(usize, Vec<usize>)> {
    (0..proxy.len())
        .map(|g| (proxy.first(g), proxy.members(g)))
        .collect()
}

fn canonical(proxy: &GroupsProxy) -> Vec<(usize, Vec<usize>)> {
    let mut groups = groups_of(proxy);
    groups.sort();
    groups
}

fn covers(proxy: &GroupsProxy, len: usize) {
    let mut seen: Vec<usize> = groups_of(proxy).into_iter().flat_map(|g| g.1).collect();
    seen.sort();
    assert_eq!(seen, (0..len).collect::<Vec<_>>());
}

#[test]
fn integer_keys_single_threaded() {
    let ca = Int32Chunked::new("key", &[3, 1, 1, 3, 2]);
    let pool = WorkerPool::new(4);
    let groups = ca.group_tuples(&pool, false, true).unwrap();
    assert!(matches!(groups, GroupsProxy::Idx(_)));
    assert_eq!(
        groups_of(&groups),
        vec![(0, vec![0, 3]), (1, vec![1, 2]), (4, vec![4])]
    );
}

#[test]
fn null_keys_form_one_group() {
    let ca = Int32Chunked::from_options("key", &[None, Some(7), None, Some(7), Some(-7)]);
    let pool = WorkerPool::new(1);
    let groups = ca.group_tuples(&pool, false, true).unwrap();
    assert_eq!(
        groups_of(&groups),
        vec![(0, vec![0, 2]), (1, vec![1, 3]), (4, vec![4])]
    );
}

#[test]
fn the_null_sentinel_is_a_key_of_its_own() {
    let sentinel: u64 = u64::MAX >> 2;
    let keys = [Some(sentinel), None, Some(sentinel), None];
    let groups = groupby(&keys, true);
    assert_eq!(groups_of(&groups), vec![(0, vec![0, 2]), (1, vec![1, 3])]);
}

#[test]
fn every_row_lies_in_exactly_one_group() {
    let keys: Vec<Option<i64>> = (0..200)
        .map(|i| if i % 7 == 0 { None } else { Some((i * i) % 13 - 6) })
        .collect();
    for parts in [1u64, 2, 3, 4, 8] {
        let groups = groupby_threaded_num(vec![keys.clone()], 0, parts, false);
        covers(&groups, keys.len());
        for (first, members) in groups_of(&groups) {
            assert_eq!(members[0], first);
            assert!(members.windows(2).all(|w| w[0] < w[1]));
            assert!(members.iter().all(|&m| keys[m] == keys[first]));
        }
    }
}

#[test]
fn the_groups_do_not_depend_on_the_number_of_partitions() {
    let keys: Vec<Option<u32>> = vec![
        Some(5), Some(9), None, Some(5), Some(2), Some(9), Some(9), None, Some(1), Some(2),
    ];
    let one = groupby(&keys, true);
    assert_eq!(
        groups_of(&one),
        vec![
            (0, vec![0, 3]),
            (1, vec![1, 5, 6]),
            (2, vec![2, 7]),
            (4, vec![4, 9]),
            (8, vec![8]),
        ]
    );
    for parts in [2u64, 3, 4, 16] {
        let many = groupby_threaded_num(vec![keys.clone()], 0, parts, true);
        assert_eq!(canonical(&many), canonical(&one));
    }
}

#[test]
fn partitions_come_one_after_the_other() {
    let keys: Vec<Option<u64>> = vec![Some(3), Some(2), Some(1), Some(4), Some(2), Some(3)];
    let groups = groupby_threaded_num(vec![keys[..2].to_vec(), keys[2..].to_vec()], 0, 2, true);
    assert_eq!(
        groups_of(&groups),
        vec![(1, vec![1, 4]), (3, vec![3]), (0, vec![0, 5]), (2, vec![2])]
    );
    assert!(this_partition(6, 0, 2));
    assert!(!this_partition(6, 1, 2));
    assert!(this_partition(7, 3, 4));
}

#[test]
fn long_columns_are_grouped_in_partitions() {
    let values: Vec<i32> = (0..1500).map(|i| i % 10).collect();
    let ca = Int32Chunked::new("key", &values);
    assert!(group_multithreaded(&ca));
    assert!(!group_multithreaded(&Int32Chunked::new("key", &values[..1000])));
    let pool = WorkerPool::new(6);
    assert_eq!(pool.partition_size(), 4);
    let single = num_groups_proxy(&ca, &pool, false, true);
    let multi = num_groups_proxy(&ca, &pool, true, true);
    assert_eq!(single.len(), 10);
    assert_eq!(canonical(&multi), canonical(&single));
    assert_eq!(
        groups_of(&multi).iter().map(|g| g.0).collect::<Vec<_>>(),
        vec![0, 4, 8, 1, 5, 9, 2, 6, 3, 7]
    );
    covers(&multi, 1500);
}

#[test]
fn partition_size_is_a_power_of_two() {
    let sizes: Vec<usize> = [0usize, 1, 2, 3, 4, 5, 7, 8, 9, 16, 31, 33]
        .iter()
        .map(|&n| WorkerPool::new(n).partition_size())
        .collect();
    assert_eq!(sizes, vec![1, 1, 2, 2, 4, 4, 4, 8, 8, 16, 16, 32]);
    assert_eq!(WorkerPool::new(12).current_num_threads(), 12);
}

#[test]
fn sorted_column_is_grouped_by_its_runs() {
    let mut ca = Int32Chunked::new("key", &[1, 1, 2, 5, 5, 5, 9]);
    ca.set_sorted_flag(IsSorted::Ascending);
    for (threads, multithreaded) in [(1usize, false), (4, true), (2, true), (64, true)] {
        let pool = WorkerPool::new(threads);
        let groups = ca.group_tuples(&pool, multithreaded, false).unwrap();
        match &groups {
            GroupsProxy::Slice { groups, rolling } => {
                assert!(!rolling);
                assert_eq!(groups, &vec![[0, 2], [2, 1], [3, 3], [6, 1]]);
            }
            _ => panic!("a sorted column yields slices"),
        }
        covers(&groups, 7);
    }
}

#[test]
fn sorted_column_with_nulls() {
    let pool = WorkerPool::new(3);
    let mut first = Int32Chunked::from_options("key", &[None, None, Some(1), Some(1), Some(4)]);
    first.set_sorted_flag(IsSorted::Ascending);
    let mut last = Int32Chunked::from_options("key", &[Some(8), Some(8), Some(3), None]);
    last.set_sorted_flag(IsSorted::Descending);
    let mut nulls = Int32Chunked::from_options("key", &[None, None, None]);
    nulls.set_sorted_flag(IsSorted::Ascending);
    let mut empty = Int32Chunked::new("key", &[]);
    empty.set_sorted_flag(IsSorted::Ascending);
    for multithreaded in [false, true] {
        let groups = first.create_groups_from_sorted(&pool, multithreaded);
        assert_eq!(groups, vec![[0, 2], [2, 2], [4, 1]]);
        let groups = last.create_groups_from_sorted(&pool, multithreaded);
        assert_eq!(groups, vec![[0, 2], [2, 1], [3, 1]]);
        let groups = nulls.create_groups_from_sorted(&pool, multithreaded);
        assert_eq!(groups, vec![[0, 3]]);
        let groups = empty.create_groups_from_sorted(&pool, multithreaded);
        assert_eq!(groups, Vec::<[usize; 2]>::new());
    }
}

#[test]
fn sorted_path_and_hashing_path_find_the_same_groups() {
    let values = [2, 2, 2, 3, 7, 7, 8, 8, 8, 8, 11];
    let unsorted = Int32Chunked::new("key", &values);
    let mut sorted = Int32Chunked::new("key", &values);
    sorted.set_sorted_flag(IsSorted::Ascending);
    let pool = WorkerPool::new(4);
    let by_hash = unsorted.group_tuples(&pool, false, true).unwrap();
    let by_runs = sorted.group_tuples(&pool, true, true).unwrap();
    assert!(matches!(by_hash, GroupsProxy::Idx(_)));
    assert!(matches!(by_runs, GroupsProxy::Slice { .. }));
    assert_eq!(groups_of(&by_runs), groups_of(&by_hash));
}

#[test]
fn a_sorted_flag_on_several_chunks_takes_the_hashing_path() {
    let mut ca = Int32Chunked::new("key", &[1, 1, 2]);
    ca.append(&Int32Chunked::new("key", &[2, 3]));
    ca.set_sorted_flag(IsSorted::Ascending);
    let groups = ca.group_tuples(&WorkerPool::new(2), true, true).unwrap();
    assert!(matches!(groups, GroupsProxy::Idx(_)));
    assert_eq!(
        groups_of(&groups),
        vec![(0, vec![0, 1]), (2, vec![2, 3]), (4, vec![4])]
    );
}

#[test]
fn clean_partitions_do_not_cut_runs() {
    let values = [1, 1, 1, 1, 1, 2, 2, 3, 3, 3];
    assert_eq!(create_clean_partitions(&values, 2), vec![(0, 5), (5, 5)]);
    assert_eq!(create_clean_partitions(&values, 3), vec![(0, 5), (5, 2), (7, 3)]);
    assert_eq!(create_clean_partitions(&values, 5), vec![(0, 5), (5, 2), (7, 3)]);
    assert_eq!(create_clean_partitions(&values, 1), vec![(0, 10)]);
    assert_eq!(create_clean_partitions(&values, 0), vec![(0, 10)]);
    assert_eq!(create_clean_partitions(&[4, 4, 4, 4], 4), vec![(0, 4)]);
    assert_eq!(create_clean_partitions::<i32>(&[], 4), vec![]);
}

#[test]
fn partition_to_groups_offsets() {
    let values = [5, 5, 6, 7, 7, 7];
    assert_eq!(
        partition_to_groups(&values, 0, false, 0),
        vec![[0, 2], [2, 1], [3, 3]]
    );
    assert_eq!(
        partition_to_groups(&values, 2, true, 0),
        vec![[0, 2], [2, 2], [4, 1], [5, 3]]
    );
    assert_eq!(
        partition_to_groups(&values, 2, false, 10),
        vec![[10, 2], [12, 1], [13, 3], [16, 2]]
    );
    assert_eq!(partition_to_groups::<i32>(&[], 3, true, 0), Vec::<[usize; 2]>::new());
}

#[test]
fn float_columns_are_grouped_by_their_bits() {
    let bits = |x: f64| Float64::from_bits(x.to_bits());
    let ca = ChunkedArray::new("key", &[bits(0.0), bits(-0.0), bits(1.5), bits(0.0), bits(1.5)]);
    let groups = ca.group_tuples(&WorkerPool::new(1), false, true).unwrap();
    assert_eq!(
        groups_of(&groups),
        vec![(0, vec![0, 3]), (1, vec![1]), (2, vec![2, 4])]
    );
    let quiet = Float64::from_bits(0x7ff8_0000_0000_0000);
    let other = Float64::from_bits(0x7ff8_0000_0000_0001);
    let ca = ChunkedArray::new("key", &[quiet, other, quiet]);
    let groups = ca.group_tuples(&WorkerPool::new(1), false, true).unwrap();
    assert_eq!(groups_of(&groups), vec![(0, vec![0, 2]), (1, vec![1])]);
}

#[test]
fn strings_are_grouped_by_their_bytes() {
    let rows = [
        Some("a".to_string()),
        Some("bc".to_string()),
        None,
        Some("a".to_string()),
        Some("".to_string()),
        None,
        Some("bc".to_string()),
    ];
    let ca = Utf8Chunked::from_options("key", &rows);
    let single = ca.group_tuples(&WorkerPool::new(1), false, true).unwrap();
    assert_eq!(
        groups_of(&single),
        vec![
            (0, vec![0, 3]),
            (1, vec![1, 6]),
            (2, vec![2, 5]),
            (4, vec![4]),
        ]
    );
    let multi = ca.group_tuples(&WorkerPool::new(4), true, true).unwrap();
    assert_eq!(canonical(&multi), canonical(&single));
}

#[test]
fn byte_strings_are_grouped() {
    let rows = [Some(vec![1u8, 2]), Some(vec![1u8]), Some(vec![1u8, 2]), None];
    let ca = BinaryChunked::from_chunk("key", polars::array::PrimitiveArray::from_data(
        rows.iter().map(|r| r.clone().unwrap_or_default()).collect(),
        Some(polars::bitmap::from_bools(&[true, true, true, false])),
    ));
    let groups = ca.group_tuples(&WorkerPool::new(2), true, false).unwrap();
    assert_eq!(
        canonical(&groups),
        vec![(0, vec![0, 2]), (1, vec![1]), (3, vec![3])]
    );
}

#[test]
fn keys_with_the_same_bytes_and_other_hashes_are_other_keys() {
    let keys = [
        BytesHash::new(Some(b"x".as_slice()), 1),
        BytesHash::new(Some(b"x".as_slice()), 2),
        BytesHash::new(Some(b"y".as_slice()), 1),
        BytesHash::new(Some(b"x".as_slice()), 1),
        BytesHash::new_from_str(Some("y"), 1),
        BytesHash::new(None, 1),
    ];
    let groups = groupby(&keys, true);
    assert_eq!(
        groups_of(&groups),
        vec![(0, vec![0, 3]), (1, vec![1]), (2, vec![2, 4]), (5, vec![5])]
    );
}

#[test]
fn lists_of_numbers_are_grouped_and_others_refused() {
    let rows = BinaryChunked::from_chunk(
        "key",
        polars::array::PrimitiveArray::from_vec(vec![vec![1u8, 0, 0, 0], vec![2, 0, 0, 0], vec![1, 0, 0, 0]]),
    );
    let lists = ListChunked::new(DataType::Int32, rows);
    let groups = lists.group_tuples(&WorkerPool::new(1), false, true).unwrap();
    assert_eq!(groups_of(&groups), vec![(0, vec![0, 2]), (1, vec![1])]);

    let rows = BinaryChunked::from_chunk("key", polars::array::PrimitiveArray::from_vec(vec![vec![1u8]]));
    let lists = ListChunked::new(DataType::Utf8, rows);
    match lists.group_tuples(&WorkerPool::new(1), false, true) {
        Err(PolarsError::ComputeError(text)) => assert_eq!(
            text,
            "Grouping on List type is only allowed if the inner type is numeric"
        ),
        _ => panic!("lists of strings are refused"),
    }
}

#[test]
fn truth_values_are_grouped() {
    let ca = BooleanChunked::from_options("key", &[Some(true), Some(false), None, Some(true)]);
    let groups = ca.group_tuples(&WorkerPool::new(1), false, true).unwrap();
    assert_eq!(
        groups_of(&groups),
        vec![(0, vec![0, 3]), (1, vec![1]), (2, vec![2])]
    );
}

#[test]
fn split_offsets() {
    assert_eq!(_split_offsets(10, 1), vec![(0, 10)]);
    assert_eq!(_split_offsets(10, 3), vec![(0, 3), (3, 3), (6, 4)]);
    assert_eq!(_split_offsets(2, 4), vec![(0, 0), (0, 0), (0, 0), (0, 2)]);
    assert_eq!(_split_offsets(0, 2), vec![(0, 0), (0, 0)]);
}

#[test]
fn flatten_and_bytes() {
    assert_eq!(flatten(&[vec![1, 2], vec![], vec![3]]), vec![1, 2, 3]);
    assert_eq!(flatten::<u8>(&[]), Vec::<u8>::new());
    assert!(bytes_eq(b"abc", b"abc"));
    assert!(!bytes_eq(b"abc", b"abd"));
    assert!(!bytes_eq(b"abc", b"ab"));
    assert!(bytes_eq(b"", b""));
}

#[test]
fn one_partition_at_a_time() {
    let keys: Vec<Option<u64>> = vec![Some(4), Some(7), Some(4), None, Some(6), Some(7)];
    assert_eq!(
        group_partition(&keys, 2, 0),
        vec![(0, vec![0, 2]), (4, vec![4])]
    );
    assert_eq!(
        group_partition(&keys, 2, 1),
        vec![(1, vec![1, 5]), (3, vec![3])]
    );
}

#[test]
fn hashing_the_null_row() {
    let ca = Utf8Chunked::from_options("key", &[Some("a".to_string()), None, Some("a".to_string())]);
    let state = ahash::RandomState::default();
    let null_hash = polars::groupby::into_groups::get_null_hash_value(&state);
    let keys = hash_rows(&ca, &state, null_hash, 0, 3);
    assert_eq!(keys.len(), 3);
    let groups = groupby(&keys, true);
    assert_eq!(groups_of(&groups), vec![(0, vec![0, 2]), (1, vec![1])]);
}

#[test]
fn a_flagged_column_of_one_chunk_always_yields_slices() {
    let mut ca = Int32Chunked::from_options("key", &[Some(1), None, Some(1), None, Some(2)]);
    ca.set_sorted_flag(IsSorted::Ascending);
    for multithreaded in [false, true] {
        let groups = ca.group_tuples(&WorkerPool::new(2), multithreaded, true).unwrap();
        match &groups {
            GroupsProxy::Slice { groups, rolling } => {
                assert!(!rolling);
                assert_eq!(groups, &vec![[0, 1], [1, 1], [2, 1], [3, 2]]);
            }
            _ => panic!("a flagged column of one chunk yields slices"),
        }
        covers(&groups, 5);
    }
    let mut ca = Int32Chunked::from_options("key", &[None, Some(4), None, Some(4)]);
    ca.set_sorted_flag(IsSorted::Descending);
    let groups = ca.group_tuples(&WorkerPool::new(1), false, false).unwrap();
    assert!(matches!(groups, GroupsProxy::Slice { rolling: false, .. }));
    covers(&groups, 4);
    let mut unflagged = Int32Chunked::from_options("key", &[None, Some(4)]);
    unflagged.set_sorted_flag(IsSorted::Not);
    let groups = unflagged.group_tuples(&WorkerPool::new(1), false, false).unwrap();
    assert!(matches!(groups, GroupsProxy::Idx(_)));
}

#[test]
fn equal_strings_share_a_group_whatever_their_range() {
    let rows: Vec<Option<String>> = (0..40)
        .map(|i| if i % 5 == 0 { None } else { Some(format!("k{}", i % 7)) })
        .collect();
    let ca = Utf8Chunked::from_options("key", &rows);
    for (threads, multithreaded) in [(1usize, false), (2, true), (8, true), (16, true)] {
        let groups = ca.group_tuples(&WorkerPool::new(threads), multithreaded, false).unwrap();
        covers(&groups, rows.len());
        let groups = groups_of(&groups);
        assert_eq!(groups.len(), 8);
        for (first, members) in &groups {
            assert_eq!(members[0], *first);
            assert!(members.iter().all(|&m| rows[m] == rows[*first]));
        }
        for a in &groups {
            for b in &groups {
                assert!(a.0 == b.0 || rows[a.0] != rows[b.0]);
            }
        }
    }
}

#[test]
fn null_lists_form_one_group() {
    let rows = BinaryChunked::from_chunk(
        "key",
        polars::array::PrimitiveArray::from_data(
            vec![vec![], vec![1u8, 0], vec![], vec![], vec![1, 0]],
            Some(polars::bitmap::from_bools(&[false, true, true, false, true])),
        ),
    );
    let lists = ListChunked::new(DataType::Int16, rows);
    for multithreaded in [false, true] {
        let groups = lists.group_tuples(&WorkerPool::new(4), multithreaded, true).unwrap();
        assert_eq!(
            canonical(&groups),
            vec![(0, vec![0, 3]), (1, vec![1, 4]), (2, vec![2])]
        );
    }
}

#[test]
fn null_rows_get_the_null_hash() {
    let ca = Utf8Chunked::from_options("key", &[None, Some("a".to_string()), None, Some("a".to_string())]);
    let state = ahash::RandomState::default();
    let keys = hash_rows(&ca, &state, 42, 0, 4);
    let groups = groupby(&keys, true);
    assert_eq!(groups_of(&groups), vec![(0, vec![0, 2]), (1, vec![1, 3])]);
    let tail = hash_rows(&ca, &state, 42, 2, 2);
    assert_eq!(tail.len(), 2);
    let null = BytesHash::new(None, 42);
    let joined = [keys[0], tail[0], null, keys[1], tail[1]];
    assert_eq!(groups_of(&groupby(&joined, true)), vec![(0, vec![0, 1, 2]), (3, vec![3, 4])]);
}
