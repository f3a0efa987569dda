//! Arithmetic on columns of integers, row by row.
//!
//! Two columns of the same length are combined row by row; a column of one
//! row is combined with every row of the other. A row of the result is null
//! where a row that goes into it is null. Sums, differences and products
//! wrap; quotients and remainders are asked for only where they exist.

use crate::chunked_array::{ChunkedArray, IsSorted};
use crate::native::NumericNative;
use vstd::prelude::*;

verus! {

/// An operation on two numbers.
#[derive(Clone, Copy, PartialEq, Eq, Structural, Debug)]
pub enum Operation {
    Add,
    Sub,
    Mul,
    Div,
    Rem,
}

/// What the operation makes of two numbers; nothing where it is a division
/// by zero or a quotient that is not a value of the type.
pub open spec fn apply_spec<T: NumericNative>(op: Operation, a: T, b: T) -> Option<T> {
    match op {
        Operation::Add => Some(a.wrapping_sum(b)),
        Operation::Sub => Some(a.wrapping_difference(b)),
        Operation::Mul => Some(a.wrapping_product(b)),
        Operation::Div => a.quotient(b),
        Operation::Rem => a.remainder(b),
    }
}

/// Whether the operation is defined on the values of two rows; it is on rows
/// of which one is null.
pub open spec fn is_defined<T: NumericNative>(
    op: Operation,
    left: Option<T>,
    right: Option<T>,
) -> bool {
    match (left, right) {
        (Some(a), Some(b)) => apply_spec(op, a, b).is_some(),
        _ => true,
    }
}

/// What the operation makes of two rows: null where one of them is null.
pub open spec fn combine<T: NumericNative>(
    op: Operation,
    left: Option<T>,
    right: Option<T>,
) -> Option<T> {
    match (left, right) {
        (Some(a), Some(b)) => apply_spec(op, a, b),
        _ => None,
    }
}

/// The row of `rows` that goes into row `i` of the result: row `i`, or the
/// only row where the column is broadcast.
pub open spec fn operand<T>(rows: Seq<Option<T>>, broadcast: bool, i: int) -> Option<T> {
    if broadcast {
        rows[0]
    } else {
        rows[i]
    }
}

/// Whether the two columns can be combined: they have the same length, or
/// one of them has one row.
pub open spec fn shapes_match(left: int, right: int) -> bool {
    left == right || left == 1 || right == 1
}

/// Number of rows of the result of combining columns of these lengths.
pub open spec fn result_len(left: int, right: int) -> int {
    if left == right {
        left
    } else if right == 1 {
        left
    } else {
        right
    }
}

/// Whether the operation is defined on the rows that go into row `i` of the
/// result.
pub open spec fn row_defined<T: NumericNative>(
    op: Operation,
    left: Seq<Option<T>>,
    right: Seq<Option<T>>,
    i: int,
) -> bool {
    is_defined(
        op,
        operand(left, left.len() != right.len() && left.len() == 1, i),
        operand(right, left.len() != right.len() && right.len() == 1, i),
    )
}

/// Whether the operation is defined on all rows that it would combine.
pub open spec fn all_defined<T: NumericNative>(
    op: Operation,
    left: Seq<Option<T>>,
    right: Seq<Option<T>>,
) -> bool {
    forall|i: int|
        0 <= i < result_len(left.len() as int, right.len() as int) ==> #[trigger] row_defined(
            op,
            left,
            right,
            i,
        )
}

/// Row `i` of the result of combining two columns.
pub open spec fn result_row<T: NumericNative>(
    op: Operation,
    left: Seq<Option<T>>,
    right: Seq<Option<T>>,
    i: int,
) -> Option<T> {
    combine(
        op,
        operand(left, left.len() != right.len() && left.len() == 1, i),
        operand(right, left.len() != right.len() && right.len() == 1, i),
    )
}

/// Applies the operation to two numbers on which it is defined.
pub fn apply<T: NumericNative>(op: Operation, a: T, b: T) -> (out: T)
    requires
        apply_spec(op, a, b).is_some(),
    ensures
        Some(out) == apply_spec(op, a, b),
{
    match op {
        Operation::Add => a.add_wrapping(b),
        Operation::Sub => a.sub_wrapping(b),
        Operation::Mul => a.mul_wrapping(b),
        Operation::Div => a.div_checked(b).unwrap(),
        Operation::Rem => a.rem_checked(b).unwrap(),
    }
}

/// Combines two columns row by row. The columns need not be chunked alike.
/// The result is one chunk under the name of the left column; nothing is
/// claimed of the order of its rows.
pub fn arithmetic_helper<T: NumericNative>(
    lhs: &ChunkedArray<T>,
    rhs: &ChunkedArray<T>,
    op: Operation,
) -> (out: ChunkedArray<T>)
    requires
        shapes_match(lhs@.len() as int, rhs@.len() as int),
        all_defined(op, lhs@, rhs@),
    ensures
        out@.len() == result_len(lhs@.len() as int, rhs@.len() as int),
        forall|i: int| 0 <= i < out@.len() ==> #[trigger] out@[i] == result_row(op, lhs@, rhs@, i),
        out.name_view() == lhs.name_view(),
        out.sorted_flag() == IsSorted::Not,
        out.chunk_views().len() == 1,
{
    let left_len: usize = lhs.len();
    let right_len: usize = rhs.len();
    let broadcast_left: bool = left_len != right_len && left_len == 1;
    let broadcast_right: bool = left_len != right_len && right_len == 1;
    let n: usize = if left_len == right_len {
        left_len
    } else if right_len == 1 {
        left_len
    } else {
        right_len
    };
    let mut items: Vec<Option<T>> = Vec::with_capacity(n);
    let mut i: usize = 0;
    while i < n
        invariant
            left_len == lhs@.len(),
            right_len == rhs@.len(),
            shapes_match(left_len as int, right_len as int),
            all_defined(op, lhs@, rhs@),
            broadcast_left == (left_len != right_len && left_len == 1),
            broadcast_right == (left_len != right_len && right_len == 1),
            n == result_len(left_len as int, right_len as int),
            0 <= i <= n,
            items@.len() == i,
            forall|j: int| 0 <= j < i ==> #[trigger] items@[j] == result_row(op, lhs@, rhs@, j),
        decreases n - i,
    {
        let left = if broadcast_left {
            lhs.get(0)
        } else {
            lhs.get(i)
        };
        let right = if broadcast_right {
            rhs.get(0)
        } else {
            rhs.get(i)
        };
        proof {
            assert(row_defined(op, lhs@, rhs@, i as int));
        }
        let item = match (left, right) {
            (Some(a), Some(b)) => Some(apply(op, a, b)),
            _ => None,
        };
        items.push(item);
        i = i + 1;
    }
    ChunkedArray::from_options(lhs.name(), items.as_slice())
}

/// The sum of two columns, row by row.
impl<'a, T: NumericNative> core::ops::Add for &'a ChunkedArray<T> {
    type Output = ChunkedArray<T>;

    fn add(self, rhs: Self) -> (out: Self::Output)
        ensures
            out@.len() == result_len(self@.len() as int, rhs@.len() as int),
            forall|i: int|
                0 <= i < out@.len() ==> #[trigger] out@[i] == result_row(
                    Operation::Add,
                    self@,
                    rhs@,
                    i,
                ),
            out.name_view() == self.name_view(),
            out.sorted_flag() == IsSorted::Not,
    {
        arithmetic_helper(self, rhs, Operation::Add)
    }
}

impl<'a, T: NumericNative> vstd::std_specs::ops::AddSpecImpl for &'a ChunkedArray<T> {
    /// The result is stated by the operator itself, not by `add_spec`.
    open spec fn obeys_add_spec() -> bool {
        false
    }

    open spec fn add_req(self, rhs: Self) -> bool {
        shapes_match(self@.len() as int, rhs@.len() as int) && all_defined(
            Operation::Add,
            self@,
            rhs@,
        )
    }

    open spec fn add_spec(self, rhs: Self) -> Self::Output {
        arbitrary()
    }
}

/// The difference of two columns, row by row.
impl<'a, T: NumericNative> core::ops::Sub for &'a ChunkedArray<T> {
    type Output = ChunkedArray<T>;

    fn sub(self, rhs: Self) -> (out: Self::Output)
        ensures
            out@.len() == result_len(self@.len() as int, rhs@.len() as int),
            forall|i: int|
                0 <= i < out@.len() ==> #[trigger] out@[i] == result_row(
                    Operation::Sub,
                    self@,
                    rhs@,
                    i,
                ),
            out.name_view() == self.name_view(),
            out.sorted_flag() == IsSorted::Not,
    {
        arithmetic_helper(self, rhs, Operation::Sub)
    }
}

impl<'a, T: NumericNative> vstd::std_specs::ops::SubSpecImpl for &'a ChunkedArray<T> {
    /// The result is stated by the operator itself, not by `sub_spec`.
    open spec fn obeys_sub_spec() -> bool {
        false
    }

    open spec fn sub_req(self, rhs: Self) -> bool {
        shapes_match(self@.len() as int, rhs@.len() as int) && all_defined(
            Operation::Sub,
            self@,
            rhs@,
        )
    }

    open spec fn sub_spec(self, rhs: Self) -> Self::Output {
        arbitrary()
    }
}

/// The product of two columns, row by row.
impl<'a, T: NumericNative> core::ops::Mul for &'a ChunkedArray<T> {
    type Output = ChunkedArray<T>;

    fn mul(self, rhs: Self) -> (out: Self::Output)
        ensures
            out@.len() == result_len(self@.len() as int, rhs@.len() as int),
            forall|i: int|
                0 <= i < out@.len() ==> #[trigger] out@[i] == result_row(
                    Operation::Mul,
                    self@,
                    rhs@,
                    i,
                ),
            out.name_view() == self.name_view(),
            out.sorted_flag() == IsSorted::Not,
    {
        arithmetic_helper(self, rhs, Operation::Mul)
    }
}

impl<'a, T: NumericNative> vstd::std_specs::ops::MulSpecImpl for &'a ChunkedArray<T> {
    /// The result is stated by the operator itself, not by `mul_spec`.
    open spec fn obeys_mul_spec() -> bool {
        false
    }

    open spec fn mul_req(self, rhs: Self) -> bool {
        shapes_match(self@.len() as int, rhs@.len() as int) && all_defined(
            Operation::Mul,
            self@,
            rhs@,
        )
    }

    open spec fn mul_spec(self, rhs: Self) -> Self::Output {
        arbitrary()
    }
}

/// The quotient of two columns, row by row.
impl<'a, T: NumericNative> core::ops::Div for &'a ChunkedArray<T> {
    type Output = ChunkedArray<T>;

    fn div(self, rhs: Self) -> (out: Self::Output)
        ensures
            out@.len() == result_len(self@.len() as int, rhs@.len() as int),
            forall|i: int|
                0 <= i < out@.len() ==> #[trigger] out@[i] == result_row(
                    Operation::Div,
                    self@,
                    rhs@,
                    i,
                ),
            out.name_view() == self.name_view(),
            out.sorted_flag() == IsSorted::Not,
    {
        arithmetic_helper(self, rhs, Operation::Div)
    }
}

impl<'a, T: NumericNative> vstd::std_specs::ops::DivSpecImpl for &'a ChunkedArray<T> {
    /// The result is stated by the operator itself, not by `div_spec`.
    open spec fn obeys_div_spec() -> bool {
        false
    }

    open spec fn div_req(self, rhs: Self) -> bool {
        shapes_match(self@.len() as int, rhs@.len() as int) && all_defined(
            Operation::Div,
            self@,
            rhs@,
        )
    }

    open spec fn div_spec(self, rhs: Self) -> Self::Output {
        arbitrary()
    }
}

/// The remainder of two columns, row by row.
impl<'a, T: NumericNative> core::ops::Rem for &'a ChunkedArray<T> {
    type Output = ChunkedArray<T>;

    fn rem(self, rhs: Self) -> (out: Self::Output)
        ensures
            out@.len() == result_len(self@.len() as int, rhs@.len() as int),
            forall|i: int|
                0 <= i < out@.len() ==> #[trigger] out@[i] == result_row(
                    Operation::Rem,
                    self@,
                    rhs@,
                    i,
                ),
            out.name_view() == self.name_view(),
            out.sorted_flag() == IsSorted::Not,
    {
        arithmetic_helper(self, rhs, Operation::Rem)
    }
}

impl<'a, T: NumericNative> vstd::std_specs::ops::RemSpecImpl for &'a ChunkedArray<T> {
    /// The result is stated by the operator itself, not by `rem_spec`.
    open spec fn obeys_rem_spec() -> bool {
        false
    }

    open spec fn rem_req(self, rhs: Self) -> bool {
        shapes_match(self@.len() as int, rhs@.len() as int) && all_defined(
            Operation::Rem,
            self@,
            rhs@,
        )
    }

    open spec fn rem_spec(self, rhs: Self) -> Self::Output {
        arbitrary()
    }
}

/// The two byte strings, one after the other.
pub fn concat_binary_arrs(l: &[u8], r: &[u8]) -> (out: Vec<u8>)
    ensures
        out@ == l@ + r@,
{
    let mut v: Vec<u8> = Vec::with_capacity(l.len().saturating_add(r.len()));
    v.extend_from_slice(l);
    v.extend_from_slice(r);
    v
}

} // verus!
