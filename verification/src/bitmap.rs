//! Validity bitmaps: one bit per row, least significant bit first, a set bit
//! marking a value that is present.
//!
//! The bitmaps are those of `arrow2`. This module says what their methods do
//! to the rows that a bitmap stands for, and what the bit utilities of
//! `arrow2` read from the bytes behind a bitmap.

use vstd::prelude::*;

verus! {

/// `arrow2::bitmap::Bitmap`, known only by the rows that it stands for.
#[verifier::external_type_specification]
#[verifier::external_body]
pub struct ExBitmap(arrow2::bitmap::Bitmap);

/// `arrow2::bitmap::MutableBitmap`, known only by the rows that it stands
/// for.
#[verifier::external_type_specification]
#[verifier::external_body]
pub struct ExMutableBitmap(arrow2::bitmap::MutableBitmap);

/// The rows of a bitmap, `true` for a valid row.
pub uninterp spec fn bitmap_rows(bitmap: arrow2::bitmap::Bitmap) -> Seq<bool>;

/// The rows of a bitmap under construction, `true` for a valid row.
pub uninterp spec fn mutable_rows(bitmap: arrow2::bitmap::MutableBitmap) -> Seq<bool>;

/// The number of bytes that a bitmap under construction holds its rows in.
pub uninterp spec fn mutable_bytes(bitmap: arrow2::bitmap::MutableBitmap) -> nat;

/// Whether a bitmap under construction holds no more bytes than its rows
/// need: the row that is appended next goes into the last byte, or into a
/// new one.
pub open spec fn is_tight(bitmap: arrow2::bitmap::MutableBitmap) -> bool {
    mutable_bytes(bitmap) == (mutable_rows(bitmap).len() + 7) / 8
}

/// The greatest number of rows of the bitmaps that the library works with:
/// the number of the bytes of such a bitmap is found without overflow.
pub const MAX_ROWS: usize = usize::MAX - 14;

/// The byte with only bit `i` set, for `0 <= i < 8`.
pub open spec fn bit_mask(i: int) -> u8 {
    if i == 0 {
        1
    } else if i == 1 {
        2
    } else if i == 2 {
        4
    } else if i == 3 {
        8
    } else if i == 4 {
        16
    } else if i == 5 {
        32
    } else if i == 6 {
        64
    } else {
        128
    }
}

/// Whether bit `i` of `bytes` is set, counting from the least significant bit
/// of the first byte.
pub open spec fn bit_at(bytes: Seq<u8>, i: int) -> bool {
    bytes[i / 8] & bit_mask(i % 8) != 0
}

/// The `len` bits of `bytes` that start at bit `offset`.
pub open spec fn bits_of(bytes: Seq<u8>, offset: int, len: int) -> Seq<bool> {
    Seq::new(len as nat, |i: int| bit_at(bytes, offset + i))
}

/// Number of `false` entries among the first `n` of `bits`.
pub open spec fn count_false(bits: Seq<bool>, n: int) -> int
    decreases n,
{
    if n <= 0 {
        0
    } else {
        count_false(bits, n - 1) + if bits[n - 1] {
            0int
        } else {
            1int
        }
    }
}

/// Number of unset bits among the `len` bits of `bytes` that start at `offset`.
pub open spec fn count_unset(bytes: Seq<u8>, offset: int, len: int) -> int {
    count_false(bits_of(bytes, offset, len), len)
}

/// `arrow2::bitmap::MutableBitmap::with_capacity` makes an empty bitmap: it
/// has room for the rows but holds no byte yet.
pub assume_specification[ arrow2::bitmap::MutableBitmap::with_capacity ](capacity: usize) -> (bitmap:
    arrow2::bitmap::MutableBitmap)
    ensures
        mutable_rows(bitmap) == Seq::<bool>::empty(),
        mutable_bytes(bitmap) == 0,
;

/// `arrow2::bitmap::MutableBitmap::extend_constant` appends `additional`
/// rows, each equal to `value`. It fills up the last byte and adds the bytes
/// that the longer bitmap needs, so it is asked only of a bitmap whose last
/// byte is the one that the next row goes into, and leaves such a bitmap.
/// The number of bytes for the longer bitmap is found by rounding the number
/// of rows up to a multiple of 8, which the bound keeps from overflowing.
pub assume_specification[ arrow2::bitmap::MutableBitmap::extend_constant ](
    bitmap: &mut arrow2::bitmap::MutableBitmap,
    additional: usize,
    value: bool,
)
    requires
        mutable_rows(*old(bitmap)).len() + additional <= usize::MAX - 7,
        is_tight(*old(bitmap)),
    ensures
        mutable_rows(*final(bitmap)) == mutable_rows(*old(bitmap)) + Seq::new(
            additional as nat,
            |i: int| value,
        ),
        is_tight(*final(bitmap)),
;

/// `arrow2::bitmap::MutableBitmap::set` sets row `index` to `value` and
/// leaves the other rows as they are. It is asked only for a row of the
/// bitmap.
pub assume_specification[ arrow2::bitmap::MutableBitmap::set ](
    bitmap: &mut arrow2::bitmap::MutableBitmap,
    index: usize,
    value: bool,
)
    requires
        index < mutable_rows(*old(bitmap)).len(),
    ensures
        mutable_rows(*final(bitmap)) == mutable_rows(*old(bitmap)).update(index as int, value),
        mutable_bytes(*final(bitmap)) == mutable_bytes(*old(bitmap)),
;

/// `From<MutableBitmap> for Bitmap` of `arrow2` turns a bitmap under
/// construction into a bitmap with the same rows.
pub assume_specification[ <arrow2::bitmap::Bitmap as core::convert::From<
    arrow2::bitmap::MutableBitmap,
>>::from ](buffer: arrow2::bitmap::MutableBitmap) -> (bitmap: arrow2::bitmap::Bitmap)
    ensures
        bitmap_rows(bitmap) == mutable_rows(buffer),
;

/// `arrow2::bitmap::Bitmap::len` is the number of rows.
pub assume_specification[ arrow2::bitmap::Bitmap::len ](bitmap: &arrow2::bitmap::Bitmap) -> (n:
    usize)
    ensures
        n == bitmap_rows(*bitmap).len(),
;

/// `arrow2::bitmap::Bitmap::get_bit` is row `i`. It is asked only for a row
/// of the bitmap.
pub assume_specification[ arrow2::bitmap::Bitmap::get_bit ](
    bitmap: &arrow2::bitmap::Bitmap,
    i: usize,
) -> (set: bool)
    requires
        i < bitmap_rows(*bitmap).len(),
    ensures
        set == bitmap_rows(*bitmap)[i as int],
;

/// `arrow2::bitmap::Bitmap::as_slice` hands out the bytes behind the bitmap
/// from the byte that holds the first row on, the bit of that byte at which
/// the rows start, and the number of rows. The bytes reach as far as the
/// rows do. The bound keeps the rounding that finds the number of the bytes
/// from overflowing.
pub assume_specification<'a>[ arrow2::bitmap::Bitmap::as_slice ](
    bitmap: &'a arrow2::bitmap::Bitmap,
) -> (parts: (&'a [u8], usize, usize))
    requires
        bitmap_rows(*bitmap).len() <= MAX_ROWS,
    ensures
        parts.2 == bitmap_rows(*bitmap).len(),
        parts.1 < 8,
        parts.1 + parts.2 <= parts.0@.len() * 8,
        bits_of(parts.0@, parts.1 as int, parts.2 as int) == bitmap_rows(*bitmap),
;

/// Reads one bit through `arrow2::bitmap::utils::get_bit`, which tests the
/// byte `i / 8` against the mask of bit `i % 8` and panics when that byte is
/// not there.
#[verifier::external_body]
pub(crate) fn get_bit_at(bytes: &[u8], i: usize) -> (set: bool)
    requires
        i < bytes@.len() * 8,
    ensures
        set == bit_at(bytes@, i as int),
{
    arrow2::bitmap::utils::get_bit(bytes, i)
}

/// Counts through `arrow2::bitmap::utils::count_zeros` the unset bits among
/// the `len` bits that start at bit `offset`. That function panics when the
/// range runs past the last byte.
#[verifier::external_body]
pub(crate) fn count_zeros(bytes: &[u8], offset: usize, len: usize) -> (zeros: usize)
    requires
        offset + len <= bytes@.len() * 8,
        offset + len + 7 <= usize::MAX,
    ensures
        zeros == count_unset(bytes@, offset as int, len as int),
{
    arrow2::bitmap::utils::count_zeros(bytes, offset, len)
}

/// The bitmap whose rows are `values`.
pub fn from_bools(values: &[bool]) -> (bitmap: arrow2::bitmap::Bitmap)
    requires
        values@.len() <= MAX_ROWS,
    ensures
        bitmap_rows(bitmap) == values@,
{
    let n: usize = values.len();
    let mut builder = arrow2::bitmap::MutableBitmap::with_capacity(n);
    builder.extend_constant(n, false);
    let mut i: usize = 0;
    while i < n
        invariant
            n == values@.len(),
            0 <= i <= n,
            mutable_rows(builder).len() == n,
            forall|j: int| 0 <= j < i ==> mutable_rows(builder)[j] == values@[j],
        decreases n - i,
    {
        builder.set(i, values[i]);
        i = i + 1;
    }
    assert(mutable_rows(builder) =~= values@);
    arrow2::bitmap::Bitmap::from(builder)
}

/// A bitmap of `len` rows that are all equal to `value`, ready to have
/// single rows set.
pub fn filled(len: usize, value: bool) -> (bitmap: arrow2::bitmap::MutableBitmap)
    requires
        len <= MAX_ROWS,
    ensures
        mutable_rows(bitmap) == Seq::new(len as nat, |i: int| value),
        is_tight(bitmap),
{
    let mut bitmap = arrow2::bitmap::MutableBitmap::with_capacity(len);
    bitmap.extend_constant(len, value);
    assert(mutable_rows(bitmap) =~= Seq::new(len as nat, |i: int| value));
    bitmap
}

/// The rows of a bitmap as a vector of flags.
pub fn to_bools(bitmap: &arrow2::bitmap::Bitmap) -> (values: Vec<bool>)
    ensures
        values@ == bitmap_rows(*bitmap),
{
    let n: usize = bitmap.len();
    let mut values: Vec<bool> = Vec::with_capacity(n);
    let mut i: usize = 0;
    while i < n
        invariant
            n == bitmap_rows(*bitmap).len(),
            0 <= i <= n,
            values@.len() == i,
            forall|j: int| 0 <= j < i ==> values@[j] == bitmap_rows(*bitmap)[j],
        decreases n - i,
    {
        values.push(bitmap.get_bit(i));
        i = i + 1;
    }
    assert(values@ =~= bitmap_rows(*bitmap));
    values
}

/// Number of rows of a bitmap that are not valid, counted from its bytes.
pub fn count_nulls(bitmap: &arrow2::bitmap::Bitmap) -> (zeros: usize)
    requires
        bitmap_rows(*bitmap).len() <= MAX_ROWS,
    ensures
        zeros == count_false(bitmap_rows(*bitmap), bitmap_rows(*bitmap).len() as int),
{
    let (bytes, offset, len) = bitmap.as_slice();
    count_zeros(bytes, offset, len)
}

} // verus!
