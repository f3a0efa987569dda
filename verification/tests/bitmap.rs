use arrow2::bitmap::{Bitmap, MutableBitmap};
use polars::array::PrimitiveArray;
use polars::bitmap::{count_nulls, filled, from_bools, to_bools};
use polars::native::{Float32, Float64, Value};

#[test]
fn bitmap_keeps_its_rows() {
    let rows: Vec<bool> = (0..37).map(|i| i % 3 != 0).collect();
    let bitmap = from_bools(&rows);
    assert_eq!(bitmap.len(), 37);
    assert_eq!(to_bools(&bitmap), rows);
    assert_eq!(bitmap, Bitmap::from(rows.clone()));
    assert_eq!(count_nulls(&bitmap), 13);
    let (bytes, offset, len) = bitmap.as_slice();
    assert_eq!((offset, len), (0, 37));
    assert_eq!(bytes.len(), 5);
    assert_eq!(bytes[0], 0b1011_0110);
}

#[test]
fn nulls_are_counted_from_the_offset_of_a_slice() {
    let rows: Vec<bool> = (0..50).map(|i| i % 4 == 0).collect();
    let bitmap = Bitmap::from(rows.clone()).sliced(11, 30);
    assert_eq!(to_bools(&bitmap), rows[11..41].to_vec());
    assert_eq!(count_nulls(&bitmap), 22);
    let empty = Bitmap::from(rows).sliced(7, 0);
    assert_eq!(count_nulls(&empty), 0);
    assert_eq!(to_bools(&empty), Vec::<bool>::new());
}

#[test]
fn filled_bitmaps() {
    let mut bitmap: MutableBitmap = filled(11, true);
    bitmap.set(3, false);
    bitmap.set(10, false);
    let frozen = Bitmap::from(bitmap);
    assert_eq!(
        to_bools(&frozen),
        vec![true, true, true, false, true, true, true, true, true, true, false]
    );
    assert_eq!(count_nulls(&frozen), 2);
    assert_eq!(to_bools(&Bitmap::from(filled(3, false))), vec![false, false, false]);
    assert_eq!(filled(0, true).len(), 0);
}

#[test]
fn chunk_rows() {
    let arr = PrimitiveArray::from_options(&[Some(3u8), None, Some(5)]);
    assert_eq!(arr.len(), 3);
    assert!(arr.has_validity());
    assert!(arr.is_valid(0));
    assert!(!arr.is_valid(1));
    assert_eq!(arr.get(2), Some(5));
    assert_eq!(arr.get(1), None);
    assert_eq!(arr.null_count(), 1);
    assert_eq!(arr.values().len(), 3);
    assert_eq!(to_bools(arr.validity().unwrap()), vec![true, false, true]);
    let dense = PrimitiveArray::from_vec(vec![1i16, 2]);
    assert!(!dense.has_validity());
    assert_eq!(dense.null_count(), 0);
    assert_eq!(dense.to_options(), vec![Some(1), Some(2)]);
    assert!(PrimitiveArray::<i32>::from_vec(vec![]).is_empty());
}

#[test]
fn chunk_over_a_sliced_bitmap() {
    let validity = Bitmap::from(&[false, true, false, true, true, false]).sliced(1, 4);
    let arr = PrimitiveArray::from_data(vec![10i32, 20, 30, 40], Some(validity));
    assert_eq!(arr.to_options(), vec![Some(10), None, Some(30), Some(40)]);
    assert_eq!(arr.null_count(), 1);
    let out = polars::rolling::rolling_sum(&arr, 2, 1, false).to_options();
    assert_eq!(out, vec![Some(10), Some(10), Some(30), Some(70)]);
}

#[test]
fn null_rows_hold_the_filler() {
    assert_eq!(<i8 as Value>::filler(), 0);
    assert_eq!(<i16 as Value>::filler(), 0);
    assert_eq!(<i32 as Value>::filler(), 0);
    assert_eq!(<i64 as Value>::filler(), 0);
    assert_eq!(<u8 as Value>::filler(), 0);
    assert_eq!(<u16 as Value>::filler(), 0);
    assert_eq!(<u32 as Value>::filler(), 0);
    assert_eq!(<u64 as Value>::filler(), 0);
    assert!(!<bool as Value>::filler());
    assert_eq!(<String as Value>::filler(), "");
    assert_eq!(<Float32 as Value>::filler().to_bits(), 0);
    assert_eq!(<Float64 as Value>::filler().to_bits(), 0);
    let arr = PrimitiveArray::from_options(&[Some(7i32), None]);
    assert_eq!(arr.values(), &[7, 0]);
}
