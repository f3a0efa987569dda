use polars::arithmetic::{arithmetic_helper, concat_binary_arrs, Operation};
use polars::datatypes::Int32Chunked;

fn create_two_chunked() -> (Int32Chunked, Int32Chunked) {
    let mut a1 = Int32Chunked::new("a", &[1, 2, 3]);
    let a2 = Int32Chunked::new("a", &[4, 5, 6]);
    let a3 = Int32Chunked::new("a", &[1, 2, 3, 4, 5, 6]);
    a1.append(&a2);
    (a1, a3)
}

#[test]
#[allow(clippy::eq_op)]
fn test_chunk_mismatch() {
    let (a1, a2) = create_two_chunked();
    // with different chunks
    let _ = &a1 + &a2;
    let _ = &a1 - &a2;
    let _ = &a1 / &a2;
    let _ = &a1 * &a2;

    // with same chunks
    let _ = &a1 + &a1;
    let _ = &a1 - &a1;
    let _ = &a1 / &a1;
    let _ = &a1 * &a1;
}

#[test]
fn arithmetic_across_chunks_is_row_by_row() {
    let (a1, a2) = create_two_chunked();
    assert_eq!(a1.n_chunks(), 2);
    assert_eq!(a2.n_chunks(), 1);
    let sum = &a1 + &a2;
    assert_eq!(
        sum.to_options(),
        vec![Some(2), Some(4), Some(6), Some(8), Some(10), Some(12)]
    );
    let difference = &a1 - &a2;
    assert_eq!(difference.to_options(), vec![Some(0); 6]);
    let product = &a1 * &a2;
    assert_eq!(
        product.to_options(),
        vec![Some(1), Some(4), Some(9), Some(16), Some(25), Some(36)]
    );
    let quotient = &a1 / &a2;
    assert_eq!(quotient.to_options(), vec![Some(1); 6]);
    let remainder = &a1 % &a2;
    assert_eq!(remainder.to_options(), vec![Some(0); 6]);
    assert_eq!(sum.name(), "a");
}

#[test]
fn arithmetic_broadcasts_a_single_row() {
    let left = Int32Chunked::from_options("left", &[Some(10), None, Some(30)]);
    let one = Int32Chunked::new("one", &[7]);
    let out = arithmetic_helper(&left, &one, Operation::Add);
    assert_eq!(out.to_options(), vec![Some(17), None, Some(37)]);
    assert_eq!(out.name(), "left");
    let out = arithmetic_helper(&one, &left, Operation::Sub);
    assert_eq!(out.to_options(), vec![Some(-3), None, Some(-23)]);
    assert_eq!(out.name(), "one");
    let null = Int32Chunked::from_options("null", &[None]);
    let out = arithmetic_helper(&left, &null, Operation::Mul);
    assert_eq!(out.to_options(), vec![None, None, None]);
}

#[test]
fn arithmetic_wraps_on_overflow() {
    let left = Int32Chunked::new("left", &[i32::MAX, i32::MIN]);
    let right = Int32Chunked::new("right", &[1, -1]);
    let out = &left + &right;
    assert_eq!(out.to_options(), vec![Some(i32::MIN), Some(i32::MAX)]);
}

#[test]
fn concat_binary_arrs_appends() {
    assert_eq!(concat_binary_arrs(&[1, 2], &[3]), vec![1, 2, 3]);
    assert_eq!(concat_binary_arrs(&[], &[]), Vec::<u8>::new());
}
