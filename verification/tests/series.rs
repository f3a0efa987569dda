use polars::chunked_array::{ChunkedArray, IsSorted};
use polars::datatypes::{
    AnyType, BooleanChunked, DataType, Field, Int32Chunked, Int64Chunked, UInt32Chunked,
};
use polars::groupby::into_groups::IntoGroupsProxy;
use polars::pool::WorkerPool;
use polars::error::PolarsError;
use polars::native::{Float32, Float64};
use polars::series::{NamedFrom, Series};

fn days() -> Series {
    Series::init("days", [0i32, 1, 2, 3, 4].as_ref())
}

#[test]
fn series_name_and_rename() {
    let mut s = days();
    assert_eq!(s.name(), "days");
    s.rename("d");
    assert_eq!(s.name(), "d");
    assert_eq!(s.len(), 5);
    assert_eq!(s.dtype(), DataType::Int32);
}

#[test]
fn series_unpacks_to_its_own_type_only() {
    let s = days();
    assert_eq!(s.i32().unwrap().to_options(), vec![Some(0), Some(1), Some(2), Some(3), Some(4)]);
    assert!(matches!(s.i64(), Err(PolarsError::DataTypeMisMatch)));
    assert!(matches!(s.u32(), Err(PolarsError::DataTypeMisMatch)));
    assert!(matches!(s.float32(), Err(PolarsError::DataTypeMisMatch)));
    assert!(matches!(s.float64(), Err(PolarsError::DataTypeMisMatch)));
    assert!(matches!(s.bool(), Err(PolarsError::DataTypeMisMatch)));
    assert!(matches!(s.utf8(), Err(PolarsError::DataTypeMisMatch)));
    assert!(matches!(s.date32(), Err(PolarsError::DataTypeMisMatch)));
    assert!(matches!(s.date64(), Err(PolarsError::DataTypeMisMatch)));
    assert!(matches!(s.time64ns(), Err(PolarsError::DataTypeMisMatch)));
    assert!(matches!(s.duration_ns(), Err(PolarsError::DataTypeMisMatch)));
    let date = Series::Date32(Int32Chunked::new("date", &[18000]));
    assert!(date.date32().is_ok());
    assert!(matches!(date.i32(), Err(PolarsError::DataTypeMisMatch)));
    assert_eq!(date.dtype(), DataType::Date32);
    assert_eq!(date.get(0), AnyType::Date32(18000));
}

#[test]
fn series_of_every_type() {
    let text = ["a".to_string(), "b".to_string()];
    let series: Vec<(Series, DataType)> = vec![
        (Series::init("x", [true, false].as_ref()), DataType::Boolean),
        (Series::init("x", [1u32, 2].as_ref()), DataType::UInt32),
        (Series::init("x", [1i64, 2].as_ref()), DataType::Int64),
        (
            Series::init("x", [Float32::from_bits(1.5f32.to_bits()), Float32::from_bits(0)].as_ref()),
            DataType::Float32,
        ),
        (
            Series::init("x", [Float64::from_bits(22.1f64.to_bits()), Float64::from_bits(0)].as_ref()),
            DataType::Float64,
        ),
        (Series::init("x", text.as_ref()), DataType::Utf8),
        (Series::Date64(Int64Chunked::new("x", &[1, 2])), DataType::Date64),
        (Series::Time64Ns(Int64Chunked::new("x", &[1, 2])), DataType::Time64Ns),
        (Series::DurationNs(Int64Chunked::new("x", &[1, 2])), DataType::DurationNs),
    ];
    for (s, dtype) in series {
        assert_eq!(s.dtype(), dtype);
        assert_eq!(s.len(), 2);
        assert_eq!(s.name(), "x");
    }
    let s = Series::init("x", text.as_ref());
    assert_eq!(s.get(1), AnyType::Utf8("b".to_string()));
    assert_eq!(s.utf8().unwrap().get(0), Some("a".to_string()));
}

#[test]
fn series_limit() {
    let s = days();
    let head = s.limit(2).unwrap();
    assert_eq!(head.i32().unwrap().to_options(), vec![Some(0), Some(1)]);
    assert_eq!(head.name(), "days");
    assert_eq!(s.limit(9).unwrap().len(), 5);
    assert_eq!(s.limit(0).unwrap().len(), 0);
}

#[test]
fn series_filter() {
    let s = days();
    let mask = BooleanChunked::from_options("mask", &[Some(true), Some(false), None, Some(true), Some(false)]);
    let kept = s.filter(&mask).unwrap();
    assert_eq!(kept.i32().unwrap().to_options(), vec![Some(0), Some(3)]);
    let short = BooleanChunked::new("mask", &[true]);
    assert!(matches!(s.filter(&short), Err(PolarsError::ShapeMisMatch)));
}

#[test]
fn series_get() {
    let s = Series::Int32(Int32Chunked::from_options("a", &[Some(4), None]));
    assert_eq!(s.get(0), AnyType::Int32(4));
    assert_eq!(s.get(1), AnyType::Null);
}

#[test]
fn series_rechunk_keeps_the_rows() {
    let mut a = Int32Chunked::new("a", &[1, 2, 3]);
    a.append(&Int32Chunked::from_options("b", &[None, Some(5)]));
    assert_eq!(a.n_chunks(), 2);
    assert_eq!(a.len(), 5);
    assert_eq!(a.get(3), None);
    assert_eq!(a.get(4), Some(5));
    let mut s = Series::Int32(a);
    s.rechunk();
    let ca = s.i32().unwrap();
    assert_eq!(ca.n_chunks(), 1);
    assert_eq!(ca.to_options(), vec![Some(1), Some(2), Some(3), None, Some(5)]);
    assert_eq!(ca.name(), "a");
}

#[test]
fn chunked_array_flags_and_nulls() {
    let mut ca = Int32Chunked::new("a", &[1, 2]);
    assert_eq!(ca.is_sorted_flag(), IsSorted::Not);
    assert!(!ca.has_validity());
    ca.set_sorted_flag(IsSorted::Ascending);
    assert!(ca.is_sorted_ascending_flag());
    assert!(!ca.is_sorted_descending_flag());
    assert_eq!(ca.is_sorted_flag().reverse(), IsSorted::Descending);
    ca.append(&Int32Chunked::new("a", &[0]));
    assert_eq!(ca.is_sorted_flag(), IsSorted::Not);
    let nulls: ChunkedArray<i64> = ChunkedArray::full_null("n", 3);
    assert_eq!(nulls.to_options(), vec![None, None, None]);
    assert!(nulls.has_validity());
    assert_eq!(nulls.chunk(0).null_count(), 3);
    assert!(!nulls.is_empty());
    assert_eq!(nulls.get_ref(1), None);
}

#[test]
fn series_sort_puts_nulls_first() {
    let mut s = Series::Int32(Int32Chunked::from_options(
        "a",
        &[Some(3), None, Some(-1), Some(3), None, Some(0)],
    ));
    s.sort();
    assert_eq!(
        s.i32().unwrap().to_options(),
        vec![None, None, Some(-1), Some(0), Some(3), Some(3)]
    );
    assert_eq!(s.name(), "a");
    let nan = Float64::from_bits(f64::NAN.to_bits());
    let number = |x: f64| Float64::from_bits(x.to_bits());
    let mut floats = ChunkedArray::new("f", &[number(2.5), nan, number(-1.0), number(0.0)]);
    floats.sort_in_place();
    let sorted: Vec<f64> = floats
        .to_options()
        .into_iter()
        .map(|v| f64::from_bits(v.unwrap().to_bits()))
        .collect();
    assert_eq!(&sorted[..3], &[-1.0, 0.0, 2.5]);
    assert!(sorted[3].is_nan());
}

#[test]
fn error_messages() {
    assert_eq!(PolarsError::InvalidOperation.message(), "Invalid operation");
    assert_eq!(PolarsError::ChunkMisMatch.message(), "Chunks don't match");
    assert_eq!(PolarsError::DataTypeMisMatch.message(), "Data types don't match");
    assert_eq!(PolarsError::NotFound.message(), "Not found");
    assert_eq!(PolarsError::ShapeMisMatch.message(), "Lengths don't match");
    assert_eq!(PolarsError::ComputeError("why".to_string()).message(), "why");
    assert_eq!(PolarsError::Other("which".to_string()).message(), "which");
    assert_eq!(PolarsError::NoSelection.message(), "No selection was made");
    assert_eq!(PolarsError::OutOfBounds.message(), "Out of bounds");
    assert_eq!(PolarsError::NoSlice.message(), "Not contiguous or null values");
    assert_eq!(PolarsError::NoData.message(), "Such empty...");
    assert_eq!(PolarsError::MemoryNotAligned.message(), "Memory should be 64 byte aligned");
    assert_eq!(
        PolarsError::HasNullValues.message(),
        "This operation requires data without None values"
    );
}

#[test]
fn data_types() {
    assert!(DataType::Int8.is_numeric());
    assert!(DataType::Float64.is_numeric());
    assert!(!DataType::Utf8.is_numeric());
    assert!(!DataType::Date32.is_numeric());
    assert!(DataType::Date32.to_physical().is_numeric());
    assert_eq!(DataType::Date32.to_physical(), DataType::Int32);
    assert_eq!(DataType::Time64Ns.to_physical(), DataType::Int64);
    assert_eq!(DataType::List.to_physical(), DataType::List);
    assert!(DataType::Date64.is_integer_like());
    assert!(DataType::UInt32.is_integer_like());
    assert!(!DataType::Float32.is_integer_like());
    assert!(!DataType::UInt64.is_integer_like());
    assert!(!DataType::Boolean.is_integer_like());
}

#[test]
fn series_argsort_names_every_row_once() {
    let s = Series::Int32(Int32Chunked::from_options(
        "a",
        &[Some(3), None, Some(-1), Some(3), None, Some(0)],
    ));
    let order = s.argsort();
    assert_eq!(
        order.to_options(),
        vec![Some(1), Some(4), Some(2), Some(5), Some(0), Some(3)]
    );
    assert_eq!(order.name(), "a");
    let empty = Series::Int64(Int64Chunked::new("e", &[]));
    assert_eq!(empty.argsort().len(), 0);
}

#[test]
fn sort_buf_sorts_with_nan_last() {
    let mut ints = vec![3u8, 1, 2, 1];
    polars::rolling::compare::sort_buf(&mut ints);
    assert_eq!(ints, vec![1, 1, 2, 3]);
    let mut floats: Vec<Float64> = [0.5, f64::NAN, -2.0, f64::INFINITY, f64::NAN, 0.0]
        .iter()
        .map(|x| Float64::from_bits(x.to_bits()))
        .collect();
    polars::rolling::compare::sort_buf(&mut floats);
    let back: Vec<f64> = floats.iter().map(|v| f64::from_bits(v.to_bits())).collect();
    assert_eq!(&back[..4], &[-2.0, 0.0, 0.5, f64::INFINITY]);
    assert!(back[4].is_nan() && back[5].is_nan());
    let mut empty: Vec<i32> = vec![];
    polars::rolling::compare::sort_buf(&mut empty);
    assert!(empty.is_empty());
}

#[test]
fn series_take_by_index() {
    let s = Series::Int32(Int32Chunked::from_options("a", &[Some(10), None, Some(30)]));
    let indices = UInt32Chunked::from_options("i", &[Some(2), Some(0), None, Some(1), Some(2)]);
    let out = s.take(&indices).unwrap();
    assert_eq!(
        out.i32().unwrap().to_options(),
        vec![Some(30), Some(10), None, None, Some(30)]
    );
    assert_eq!(out.name(), "a");
    let beyond = UInt32Chunked::new("i", &[0, 3]);
    assert!(matches!(s.take(&beyond), Err(PolarsError::OutOfBounds)));
    let none = UInt32Chunked::new("i", &[]);
    assert_eq!(s.take(&none).unwrap().len(), 0);
}

#[test]
fn series_field() {
    let s = days();
    let field = s.field();
    assert_eq!(field.name(), "days");
    assert_eq!(field.data_type(), DataType::Int32);
    let field = Field::new("x", DataType::Utf8);
    assert_eq!(field.name(), "x");
}

#[test]
fn rows_of_a_group_are_taken_by_their_indices() {
    let keys = Int32Chunked::new("key", &[3, 1, 1, 3, 2]);
    let values = Series::Int64(Int64Chunked::new("value", &[10, 20, 30, 40, 50]));
    let pool = WorkerPool::new(1);
    let groups = keys.group_tuples(&pool, false, true).unwrap();
    let sums: Vec<i64> = (0..groups.len())
        .map(|g| {
            let rows: Vec<Option<u32>> = groups.members(g).iter().map(|&r| Some(r as u32)).collect();
            let indices = UInt32Chunked::from_options("rows", &rows);
            let taken = values.take(&indices).unwrap();
            taken.i64().unwrap().to_options().iter().map(|v| v.unwrap()).sum()
        })
        .collect();
    assert_eq!(sums, vec![50, 50, 50]);
}

#[test]
fn cast_between_integers() {
    let ar = Int32Chunked::new("a", &[1, 2]);
    let s = Series::Int32(ar);
    let s2 = s.cast_integer(DataType::Int64).unwrap();
    match &s2 {
        Series::Int64(ca) => assert_eq!(ca.to_options(), vec![Some(1), Some(2)]),
        _ => panic!("a cast to Int64 gives Int64"),
    }
    assert_eq!(s2.name(), "a");
    let wide = Series::Int64(Int64Chunked::from_options(
        "w",
        &[Some(-1), None, Some(5_000_000_000), Some(7), Some(i64::MIN)],
    ));
    let narrow = wide.cast_integer(DataType::UInt32).unwrap();
    assert_eq!(
        narrow.u32().unwrap().to_options(),
        vec![None, None, None, Some(7), None]
    );
    let narrow = wide.cast_integer(DataType::Int32).unwrap();
    assert_eq!(
        narrow.i32().unwrap().to_options(),
        vec![Some(-1), None, None, Some(7), None]
    );
    let date = wide.cast_integer(DataType::Date32).unwrap();
    assert_eq!(date.dtype(), DataType::Date32);
    assert_eq!(date.get(3), AnyType::Date32(7));
    let back = date.cast_integer(DataType::DurationNs).unwrap();
    assert_eq!(back.get(0), AnyType::DurationNs(-1));
    let unsigned = Series::UInt32(UInt32Chunked::new("u", &[u32::MAX]));
    assert_eq!(unsigned.cast_integer(DataType::Int32).unwrap().get(0), AnyType::Null);
    assert_eq!(
        unsigned.cast_integer(DataType::Time64Ns).unwrap().get(0),
        AnyType::Time64Ns(u32::MAX as i64)
    );
}

#[test]
fn cast_integer_refuses_other_types() {
    let s = days();
    assert!(matches!(s.cast_integer(DataType::Float32), Err(PolarsError::DataTypeMisMatch)));
    assert!(matches!(s.cast_integer(DataType::Utf8), Err(PolarsError::DataTypeMisMatch)));
    assert!(matches!(s.cast_integer(DataType::UInt64), Err(PolarsError::DataTypeMisMatch)));
    let text = ["a".to_string()];
    let s = Series::init("x", text.as_ref());
    assert!(matches!(s.cast_integer(DataType::Int32), Err(PolarsError::DataTypeMisMatch)));
    let s = Series::init("x", [true].as_ref());
    assert!(matches!(s.cast_integer(DataType::Int32), Err(PolarsError::DataTypeMisMatch)));
    let s = Series::init("x", [Float64::from_bits(0)].as_ref());
    assert!(matches!(s.cast_integer(DataType::Int64), Err(PolarsError::DataTypeMisMatch)));
}

#[test]
fn column_from_chunks() {
    let chunks = vec![
        polars::array::PrimitiveArray::from_vec(vec![1i32, 2]),
        polars::array::PrimitiveArray::from_options(&[None, Some(4)]),
    ];
    let ca = ChunkedArray::from_chunks("c", chunks);
    assert_eq!(ca.n_chunks(), 2);
    assert_eq!(ca.to_options(), vec![Some(1), Some(2), None, Some(4)]);
    assert_eq!(ca.name(), "c");
    assert_eq!(ca.is_sorted_flag(), IsSorted::Not);
}

fn float_casts(value: AnyType, dtype: DataType) -> AnyType {
    let number: f64 = match value {
        AnyType::UInt32(v) => v as f64,
        AnyType::Int32(v) | AnyType::Date32(v) => v as f64,
        AnyType::Int64(v) | AnyType::Date64(v) | AnyType::Time64Ns(v) | AnyType::DurationNs(v) => {
            v as f64
        }
        AnyType::Float32(v) => f32::from_bits(v.to_bits()) as f64,
        AnyType::Float64(v) => f64::from_bits(v.to_bits()),
        _ => return AnyType::Null,
    };
    let whole = number.is_finite() && number.fract() == 0.0;
    match dtype {
        DataType::Float32 => AnyType::Float32(Float32::from_bits((number as f32).to_bits())),
        DataType::Float64 => AnyType::Float64(Float64::from_bits(number.to_bits())),
        DataType::Int32 if whole && number.abs() < 2147483648.0 => AnyType::Int32(number as i32),
        DataType::Int64 if whole && number.abs() < 9.0e18 => AnyType::Int64(number as i64),
        DataType::UInt32 if whole && (0.0..4294967296.0).contains(&number) => {
            AnyType::UInt32(number as u32)
        }
        _ => AnyType::Null,
    }
}

#[test]
fn cast() {
    let ar = Int32Chunked::new("a", &[1, 2]);
    let s = Series::Int32(ar);
    let s2 = s.cast(DataType::Int64, float_casts).unwrap();
    match s2 {
        Series::Int64(_) => assert!(true),
        _ => assert!(false),
    }
    let s2 = s.cast(DataType::Float32, float_casts).unwrap();
    match s2 {
        Series::Float32(_) => assert!(true),
        _ => assert!(false),
    }
}

#[test]
fn cast_to_and_from_floats_takes_what_the_conversion_gives() {
    let s = Series::Int32(Int32Chunked::from_options("a", &[Some(1), None, Some(-2)]));
    let floats = s.cast(DataType::Float64, float_casts).unwrap();
    assert_eq!(floats.name(), "a");
    assert_eq!(floats.dtype(), DataType::Float64);
    let values: Vec<Option<f64>> = floats
        .float64()
        .unwrap()
        .to_options()
        .into_iter()
        .map(|v| v.map(|bits| f64::from_bits(bits.to_bits())))
        .collect();
    assert_eq!(values, vec![Some(1.0), None, Some(-2.0)]);
    let halves = Series::init(
        "h",
        [Float64::from_bits(2.0f64.to_bits()), Float64::from_bits(2.5f64.to_bits())].as_ref(),
    );
    let whole = halves.cast(DataType::Int32, float_casts).unwrap();
    assert_eq!(whole.i32().unwrap().to_options(), vec![Some(2), None]);
    let wrong = s.cast(DataType::Float32, |_: AnyType, _: DataType| AnyType::Int32(7)).unwrap();
    assert_eq!(wrong.float32().unwrap().to_options(), vec![None, None, None]);
    let same = s.cast(DataType::Date32, |_: AnyType, _: DataType| AnyType::Null).unwrap();
    assert_eq!(same.date32().unwrap().to_options(), vec![Some(1), None, Some(-2)]);
}

#[test]
fn cast_refuses_strings_and_truth_values() {
    let text = ["a".to_string()];
    let s = Series::init("x", text.as_ref());
    assert!(matches!(s.cast(DataType::Float64, float_casts), Err(PolarsError::DataTypeMisMatch)));
    let s = Series::init("x", [true].as_ref());
    assert!(matches!(s.cast(DataType::Int32, float_casts), Err(PolarsError::DataTypeMisMatch)));
    assert!(matches!(days().cast(DataType::Utf8, float_casts), Err(PolarsError::DataTypeMisMatch)));
    assert!(matches!(days().cast(DataType::UInt64, float_casts), Err(PolarsError::DataTypeMisMatch)));
}
