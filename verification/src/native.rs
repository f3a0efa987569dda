//! The primitive element types of a values buffer.

use vstd::prelude::*;

verus! {

/// A value that a chunk can hold: one that can be duplicated.
pub trait Value: Sized {
    /// A value equal to this one.
    fn duplicate(&self) -> (copy: Self)
        ensures
            copy == *self,
    ;

    /// Whether the value is the one that stands in the values buffer where a
    /// row is null: zero for a number, `false` for a truth value, the empty
    /// string for a string.
    spec fn is_filler(&self) -> bool;

    /// The value that stands in the values buffer where a row is null.
    fn filler() -> (value: Self)
        ensures
            value.is_filler(),
    ;
}

impl Value for bool {
    fn duplicate(&self) -> (copy: Self) {
        *self
    }

    open spec fn is_filler(&self) -> bool {
        *self == false
    }

    fn filler() -> Self {
        false
    }
}

impl Value for String {
    fn duplicate(&self) -> (copy: Self) {
        self.clone()
    }

    open spec fn is_filler(&self) -> bool {
        self@ == Seq::<char>::empty()
    }

    fn filler() -> Self {
        String::new()
    }
}

/// An element type of a values buffer: it can be copied, has a value to fill
/// null slots with, and is ordered, with the possible exception of NaN.
pub trait NativeType: Copy + Sized + Value {
    /// Whether the type is a floating point type.
    spec fn is_float_spec() -> bool;

    /// Whether the value is NaN; never so for an integer type.
    spec fn is_nan_spec(&self) -> bool;

    /// The place of a value that is not NaN in the order of the type.
    spec fn rank(&self) -> int;

    /// The value that stands in a null slot.
    spec fn default_spec() -> Self;

    /// The bit pattern of the value, widened to 64 bits without sign
    /// extension: the key under which the groupby engine hashes the value.
    spec fn key(&self) -> u64;

    /// Different values have different keys.
    proof fn lemma_key_injective(a: Self, b: Self)
        requires
            a.key() == b.key(),
        ensures
            a == b,
    ;

    /// Integers of the same rank are the same value.
    proof fn lemma_rank_injective(a: Self, b: Self)
        ensures
            !Self::is_float_spec() && a.rank() == b.rank() ==> a == b,
    ;

    /// An integer type has no NaN.
    proof fn lemma_integers_have_no_nan(a: Self)
        ensures
            !Self::is_float_spec() ==> !a.is_nan_spec(),
    ;

    fn is_float() -> (float: bool)
        ensures
            float == Self::is_float_spec(),
    ;

    fn is_nan(&self) -> (nan: bool)
        ensures
            nan == self.is_nan_spec(),
    ;

    /// Whether the two are the same value.
    fn equals(&self, other: &Self) -> (same: bool)
        ensures
            same == (*self == *other),
    ;

    /// `self < other`, which is false when either is NaN.
    fn less_than(&self, other: &Self) -> (less: bool)
        ensures
            less == (!self.is_nan_spec() && !other.is_nan_spec() && self.rank() < other.rank()),
    ;

    fn default_value() -> (value: Self)
        ensures
            value == Self::default_spec(),
    ;

    fn as_u64(&self) -> (key: u64)
        ensures
            key == self.key(),
    ;
}

/// An integer element type: one whose values can be summed.
pub trait NumericNative: NativeType {
    /// The sum of two values, wrapped into the range of the type.
    spec fn wrapping_sum(self, other: Self) -> Self;

    /// The least value of the type.
    spec fn min_rank() -> int;

    /// The greatest value of the type.
    spec fn max_rank() -> int;

    /// A sum that the type can hold is not wrapped.
    proof fn lemma_sum_in_range(a: Self, b: Self)
        ensures
            Self::min_rank() <= a.rank() <= Self::max_rank(),
            Self::min_rank() <= a.rank() + b.rank() <= Self::max_rank() ==> a.wrapping_sum(
                b,
            ).rank() == a.rank() + b.rank(),
    ;

    /// The value zero.
    spec fn zero_spec() -> Self;

    proof fn lemma_zero_rank()
        ensures
            Self::zero_spec().rank() == 0,
    ;

    fn zero() -> (zero: Self)
        ensures
            zero == Self::zero_spec(),
    ;

    /// The difference of two values, wrapped into the range of the type.
    spec fn wrapping_difference(self, other: Self) -> Self;

    /// The product of two values, wrapped into the range of the type.
    spec fn wrapping_product(self, other: Self) -> Self;

    /// The quotient of two values, rounded towards zero; nothing where the
    /// divisor is zero or the quotient is not a value of the type.
    spec fn quotient(self, other: Self) -> Option<Self>;

    /// The remainder that goes with the quotient; nothing where the divisor
    /// is zero or the quotient is not a value of the type.
    spec fn remainder(self, other: Self) -> Option<Self>;

    /// The value as a wide integer.
    fn to_i128(&self) -> (wide: i128)
        ensures
            wide == self.rank(),
    ;

    /// The value of the type that is the given integer, if the type has it.
    fn from_i128(wide: i128) -> (value: Option<Self>)
        ensures
            match value {
                Some(value) => value.rank() == wide,
                None => wide < Self::min_rank() || wide > Self::max_rank(),
            },
    ;

    fn add_wrapping(self, other: Self) -> (sum: Self)
        ensures
            sum == self.wrapping_sum(other),
    ;

    fn sub_wrapping(self, other: Self) -> (difference: Self)
        ensures
            difference == self.wrapping_difference(other),
    ;

    fn mul_wrapping(self, other: Self) -> (product: Self)
        ensures
            product == self.wrapping_product(other),
    ;

    fn div_checked(self, other: Self) -> (quotient: Option<Self>)
        ensures
            quotient == self.quotient(other),
    ;

    fn rem_checked(self, other: Self) -> (remainder: Option<Self>)
        ensures
            remainder == self.remainder(other),
    ;
}

impl Value for i8 {
    fn duplicate(&self) -> (copy: Self) {
        *self
    }

    open spec fn is_filler(&self) -> bool {
        *self == 0
    }

    fn filler() -> Self {
        0
    }
}

impl NativeType for i8 {
    open spec fn is_float_spec() -> bool {
        false
    }

    open spec fn is_nan_spec(&self) -> bool {
        false
    }

    open spec fn rank(&self) -> int {
        *self as int
    }

    open spec fn default_spec() -> Self {
        0
    }

    open spec fn key(&self) -> u64 {
        if *self >= 0 {
            *self as u64
        } else {
            (*self + 0x100) as u64
        }
    }

    proof fn lemma_key_injective(a: Self, b: Self) {
    }

    proof fn lemma_rank_injective(a: Self, b: Self) {
    }

    proof fn lemma_integers_have_no_nan(a: Self) {
    }

    fn is_float() -> (float: bool) {
        false
    }

    fn is_nan(&self) -> (nan: bool) {
        false
    }

    fn equals(&self, other: &Self) -> (same: bool) {
        *self == *other
    }

    fn less_than(&self, other: &Self) -> (less: bool) {
        *self < *other
    }

    fn default_value() -> (value: Self) {
        0
    }

    fn as_u64(&self) -> (key: u64) {
        if *self >= 0 {
            *self as u64
        } else {
            ((*self - i8::MIN) as u64) + 0x80u64
        }
    }
}

impl NumericNative for i8 {
    open spec fn min_rank() -> int {
        i8::MIN as int
    }

    open spec fn max_rank() -> int {
        i8::MAX as int
    }

    fn to_i128(&self) -> (wide: i128) {
        *self as i128
    }

    fn from_i128(wide: i128) -> (value: Option<Self>) {
        if wide >= i8::MIN as i128 && wide <= i8::MAX as i128 {
            Some(wide as i8)
        } else {
            None
        }
    }

    open spec fn wrapping_sum(self, other: Self) -> Self {
        vstd::wrapping::i8_specs::wrapping_add(self, other)
    }

    open spec fn wrapping_difference(self, other: Self) -> Self {
        vstd::wrapping::i8_specs::wrapping_sub(self, other)
    }

    open spec fn wrapping_product(self, other: Self) -> Self {
        vstd::wrapping::i8_specs::wrapping_mul(self, other)
    }

    open spec fn quotient(self, other: Self) -> Option<Self> {
        self.checked_div(other)
    }

    open spec fn remainder(self, other: Self) -> Option<Self> {
        self.checked_rem(other)
    }

    open spec fn zero_spec() -> Self {
        0
    }

    proof fn lemma_zero_rank() {
    }

    proof fn lemma_sum_in_range(a: Self, b: Self) {
    }

    fn zero() -> (zero: Self) {
        0
    }

    fn add_wrapping(self, other: Self) -> (sum: Self) {
        self.wrapping_add(other)
    }

    fn sub_wrapping(self, other: Self) -> (difference: Self) {
        self.wrapping_sub(other)
    }

    fn mul_wrapping(self, other: Self) -> (product: Self) {
        self.wrapping_mul(other)
    }

    fn div_checked(self, other: Self) -> (quotient: Option<Self>) {
        self.checked_div(other)
    }

    fn rem_checked(self, other: Self) -> (remainder: Option<Self>) {
        self.checked_rem(other)
    }
}

impl Value for i16 {
    fn duplicate(&self) -> (copy: Self) {
        *self
    }

    open spec fn is_filler(&self) -> bool {
        *self == 0
    }

    fn filler() -> Self {
        0
    }
}

impl NativeType for i16 {
    open spec fn is_float_spec() -> bool {
        false
    }

    open spec fn is_nan_spec(&self) -> bool {
        false
    }

    open spec fn rank(&self) -> int {
        *self as int
    }

    open spec fn default_spec() -> Self {
        0
    }

    open spec fn key(&self) -> u64 {
        if *self >= 0 {
            *self as u64
        } else {
            (*self + 0x1_0000) as u64
        }
    }

    proof fn lemma_key_injective(a: Self, b: Self) {
    }

    proof fn lemma_rank_injective(a: Self, b: Self) {
    }

    proof fn lemma_integers_have_no_nan(a: Self) {
    }

    fn is_float() -> (float: bool) {
        false
    }

    fn is_nan(&self) -> (nan: bool) {
        false
    }

    fn equals(&self, other: &Self) -> (same: bool) {
        *self == *other
    }

    fn less_than(&self, other: &Self) -> (less: bool) {
        *self < *other
    }

    fn default_value() -> (value: Self) {
        0
    }

    fn as_u64(&self) -> (key: u64) {
        if *self >= 0 {
            *self as u64
        } else {
            ((*self - i16::MIN) as u64) + 0x8000u64
        }
    }
}

impl NumericNative for i16 {
    open spec fn min_rank() -> int {
        i16::MIN as int
    }

    open spec fn max_rank() -> int {
        i16::MAX as int
    }

    fn to_i128(&self) -> (wide: i128) {
        *self as i128
    }

    fn from_i128(wide: i128) -> (value: Option<Self>) {
        if wide >= i16::MIN as i128 && wide <= i16::MAX as i128 {
            Some(wide as i16)
        } else {
            None
        }
    }

    open spec fn wrapping_sum(self, other: Self) -> Self {
        vstd::wrapping::i16_specs::wrapping_add(self, other)
    }

    open spec fn wrapping_difference(self, other: Self) -> Self {
        vstd::wrapping::i16_specs::wrapping_sub(self, other)
    }

    open spec fn wrapping_product(self, other: Self) -> Self {
        vstd::wrapping::i16_specs::wrapping_mul(self, other)
    }

    open spec fn quotient(self, other: Self) -> Option<Self> {
        self.checked_div(other)
    }

    open spec fn remainder(self, other: Self) -> Option<Self> {
        self.checked_rem(other)
    }

    open spec fn zero_spec() -> Self {
        0
    }

    proof fn lemma_zero_rank() {
    }

    proof fn lemma_sum_in_range(a: Self, b: Self) {
    }

    fn zero() -> (zero: Self) {
        0
    }

    fn add_wrapping(self, other: Self) -> (sum: Self) {
        self.wrapping_add(other)
    }

    fn sub_wrapping(self, other: Self) -> (difference: Self) {
        self.wrapping_sub(other)
    }

    fn mul_wrapping(self, other: Self) -> (product: Self) {
        self.wrapping_mul(other)
    }

    fn div_checked(self, other: Self) -> (quotient: Option<Self>) {
        self.checked_div(other)
    }

    fn rem_checked(self, other: Self) -> (remainder: Option<Self>) {
        self.checked_rem(other)
    }
}

impl Value for i32 {
    fn duplicate(&self) -> (copy: Self) {
        *self
    }

    open spec fn is_filler(&self) -> bool {
        *self == 0
    }

    fn filler() -> Self {
        0
    }
}

impl NativeType for i32 {
    open spec fn is_float_spec() -> bool {
        false
    }

    open spec fn is_nan_spec(&self) -> bool {
        false
    }

    open spec fn rank(&self) -> int {
        *self as int
    }

    open spec fn default_spec() -> Self {
        0
    }

    open spec fn key(&self) -> u64 {
        if *self >= 0 {
            *self as u64
        } else {
            (*self + 0x1_0000_0000) as u64
        }
    }

    proof fn lemma_key_injective(a: Self, b: Self) {
    }

    proof fn lemma_rank_injective(a: Self, b: Self) {
    }

    proof fn lemma_integers_have_no_nan(a: Self) {
    }

    fn is_float() -> (float: bool) {
        false
    }

    fn is_nan(&self) -> (nan: bool) {
        false
    }

    fn equals(&self, other: &Self) -> (same: bool) {
        *self == *other
    }

    fn less_than(&self, other: &Self) -> (less: bool) {
        *self < *other
    }

    fn default_value() -> (value: Self) {
        0
    }

    fn as_u64(&self) -> (key: u64) {
        if *self >= 0 {
            *self as u64
        } else {
            ((*self - i32::MIN) as u64) + 0x8000_0000u64
        }
    }
}

impl NumericNative for i32 {
    open spec fn min_rank() -> int {
        i32::MIN as int
    }

    open spec fn max_rank() -> int {
        i32::MAX as int
    }

    fn to_i128(&self) -> (wide: i128) {
        *self as i128
    }

    fn from_i128(wide: i128) -> (value: Option<Self>) {
        if wide >= i32::MIN as i128 && wide <= i32::MAX as i128 {
            Some(wide as i32)
        } else {
            None
        }
    }

    open spec fn wrapping_sum(self, other: Self) -> Self {
        vstd::wrapping::i32_specs::wrapping_add(self, other)
    }

    open spec fn wrapping_difference(self, other: Self) -> Self {
        vstd::wrapping::i32_specs::wrapping_sub(self, other)
    }

    open spec fn wrapping_product(self, other: Self) -> Self {
        vstd::wrapping::i32_specs::wrapping_mul(self, other)
    }

    open spec fn quotient(self, other: Self) -> Option<Self> {
        self.checked_div(other)
    }

    open spec fn remainder(self, other: Self) -> Option<Self> {
        self.checked_rem(other)
    }

    open spec fn zero_spec() -> Self {
        0
    }

    proof fn lemma_zero_rank() {
    }

    proof fn lemma_sum_in_range(a: Self, b: Self) {
    }

    fn zero() -> (zero: Self) {
        0
    }

    fn add_wrapping(self, other: Self) -> (sum: Self) {
        self.wrapping_add(other)
    }

    fn sub_wrapping(self, other: Self) -> (difference: Self) {
        self.wrapping_sub(other)
    }

    fn mul_wrapping(self, other: Self) -> (product: Self) {
        self.wrapping_mul(other)
    }

    fn div_checked(self, other: Self) -> (quotient: Option<Self>) {
        self.checked_div(other)
    }

    fn rem_checked(self, other: Self) -> (remainder: Option<Self>) {
        self.checked_rem(other)
    }
}

impl Value for i64 {
    fn duplicate(&self) -> (copy: Self) {
        *self
    }

    open spec fn is_filler(&self) -> bool {
        *self == 0
    }

    fn filler() -> Self {
        0
    }
}

impl NativeType for i64 {
    open spec fn is_float_spec() -> bool {
        false
    }

    open spec fn is_nan_spec(&self) -> bool {
        false
    }

    open spec fn rank(&self) -> int {
        *self as int
    }

    open spec fn default_spec() -> Self {
        0
    }

    open spec fn key(&self) -> u64 {
        if *self >= 0 {
            *self as u64
        } else {
            (*self + 0x1_0000_0000_0000_0000) as u64
        }
    }

    proof fn lemma_key_injective(a: Self, b: Self) {
    }

    proof fn lemma_rank_injective(a: Self, b: Self) {
    }

    proof fn lemma_integers_have_no_nan(a: Self) {
    }

    fn is_float() -> (float: bool) {
        false
    }

    fn is_nan(&self) -> (nan: bool) {
        false
    }

    fn equals(&self, other: &Self) -> (same: bool) {
        *self == *other
    }

    fn less_than(&self, other: &Self) -> (less: bool) {
        *self < *other
    }

    fn default_value() -> (value: Self) {
        0
    }

    fn as_u64(&self) -> (key: u64) {
        if *self >= 0 {
            *self as u64
        } else {
            ((*self - i64::MIN) as u64) + 0x8000_0000_0000_0000u64
        }
    }
}

impl NumericNative for i64 {
    open spec fn min_rank() -> int {
        i64::MIN as int
    }

    open spec fn max_rank() -> int {
        i64::MAX as int
    }

    fn to_i128(&self) -> (wide: i128) {
        *self as i128
    }

    fn from_i128(wide: i128) -> (value: Option<Self>) {
        if wide >= i64::MIN as i128 && wide <= i64::MAX as i128 {
            Some(wide as i64)
        } else {
            None
        }
    }

    open spec fn wrapping_sum(self, other: Self) -> Self {
        vstd::wrapping::i64_specs::wrapping_add(self, other)
    }

    open spec fn wrapping_difference(self, other: Self) -> Self {
        vstd::wrapping::i64_specs::wrapping_sub(self, other)
    }

    open spec fn wrapping_product(self, other: Self) -> Self {
        vstd::wrapping::i64_specs::wrapping_mul(self, other)
    }

    open spec fn quotient(self, other: Self) -> Option<Self> {
        self.checked_div(other)
    }

    open spec fn remainder(self, other: Self) -> Option<Self> {
        self.checked_rem(other)
    }

    open spec fn zero_spec() -> Self {
        0
    }

    proof fn lemma_zero_rank() {
    }

    proof fn lemma_sum_in_range(a: Self, b: Self) {
    }

    fn zero() -> (zero: Self) {
        0
    }

    fn add_wrapping(self, other: Self) -> (sum: Self) {
        self.wrapping_add(other)
    }

    fn sub_wrapping(self, other: Self) -> (difference: Self) {
        self.wrapping_sub(other)
    }

    fn mul_wrapping(self, other: Self) -> (product: Self) {
        self.wrapping_mul(other)
    }

    fn div_checked(self, other: Self) -> (quotient: Option<Self>) {
        self.checked_div(other)
    }

    fn rem_checked(self, other: Self) -> (remainder: Option<Self>) {
        self.checked_rem(other)
    }
}

impl Value for u8 {
    fn duplicate(&self) -> (copy: Self) {
        *self
    }

    open spec fn is_filler(&self) -> bool {
        *self == 0
    }

    fn filler() -> Self {
        0
    }
}

impl NativeType for u8 {
    open spec fn is_float_spec() -> bool {
        false
    }

    open spec fn is_nan_spec(&self) -> bool {
        false
    }

    open spec fn rank(&self) -> int {
        *self as int
    }

    open spec fn default_spec() -> Self {
        0
    }

    open spec fn key(&self) -> u64 {
        *self as u64
    }

    proof fn lemma_key_injective(a: Self, b: Self) {
    }

    proof fn lemma_rank_injective(a: Self, b: Self) {
    }

    proof fn lemma_integers_have_no_nan(a: Self) {
    }

    fn is_float() -> (float: bool) {
        false
    }

    fn is_nan(&self) -> (nan: bool) {
        false
    }

    fn equals(&self, other: &Self) -> (same: bool) {
        *self == *other
    }

    fn less_than(&self, other: &Self) -> (less: bool) {
        *self < *other
    }

    fn default_value() -> (value: Self) {
        0
    }

    fn as_u64(&self) -> (key: u64) {
        *self as u64
    }
}

impl NumericNative for u8 {
    open spec fn min_rank() -> int {
        u8::MIN as int
    }

    open spec fn max_rank() -> int {
        u8::MAX as int
    }

    fn to_i128(&self) -> (wide: i128) {
        *self as i128
    }

    fn from_i128(wide: i128) -> (value: Option<Self>) {
        if wide >= u8::MIN as i128 && wide <= u8::MAX as i128 {
            Some(wide as u8)
        } else {
            None
        }
    }

    open spec fn wrapping_sum(self, other: Self) -> Self {
        vstd::wrapping::u8_specs::wrapping_add(self, other)
    }

    open spec fn wrapping_difference(self, other: Self) -> Self {
        vstd::wrapping::u8_specs::wrapping_sub(self, other)
    }

    open spec fn wrapping_product(self, other: Self) -> Self {
        vstd::wrapping::u8_specs::wrapping_mul(self, other)
    }

    open spec fn quotient(self, other: Self) -> Option<Self> {
        self.checked_div(other)
    }

    open spec fn remainder(self, other: Self) -> Option<Self> {
        self.checked_rem(other)
    }

    open spec fn zero_spec() -> Self {
        0
    }

    proof fn lemma_zero_rank() {
    }

    proof fn lemma_sum_in_range(a: Self, b: Self) {
    }

    fn zero() -> (zero: Self) {
        0
    }

    fn add_wrapping(self, other: Self) -> (sum: Self) {
        self.wrapping_add(other)
    }

    fn sub_wrapping(self, other: Self) -> (difference: Self) {
        self.wrapping_sub(other)
    }

    fn mul_wrapping(self, other: Self) -> (product: Self) {
        self.wrapping_mul(other)
    }

    fn div_checked(self, other: Self) -> (quotient: Option<Self>) {
        self.checked_div(other)
    }

    fn rem_checked(self, other: Self) -> (remainder: Option<Self>) {
        self.checked_rem(other)
    }
}

impl Value for u16 {
    fn duplicate(&self) -> (copy: Self) {
        *self
    }

    open spec fn is_filler(&self) -> bool {
        *self == 0
    }

    fn filler() -> Self {
        0
    }
}

impl NativeType for u16 {
    open spec fn is_float_spec() -> bool {
        false
    }

    open spec fn is_nan_spec(&self) -> bool {
        false
    }

    open spec fn rank(&self) -> int {
        *self as int
    }

    open spec fn default_spec() -> Self {
        0
    }

    open spec fn key(&self) -> u64 {
        *self as u64
    }

    proof fn lemma_key_injective(a: Self, b: Self) {
    }

    proof fn lemma_rank_injective(a: Self, b: Self) {
    }

    proof fn lemma_integers_have_no_nan(a: Self) {
    }

    fn is_float() -> (float: bool) {
        false
    }

    fn is_nan(&self) -> (nan: bool) {
        false
    }

    fn equals(&self, other: &Self) -> (same: bool) {
        *self == *other
    }

    fn less_than(&self, other: &Self) -> (less: bool) {
        *self < *other
    }

    fn default_value() -> (value: Self) {
        0
    }

    fn as_u64(&self) -> (key: u64) {
        *self as u64
    }
}

impl NumericNative for u16 {
    open spec fn min_rank() -> int {
        u16::MIN as int
    }

    open spec fn max_rank() -> int {
        u16::MAX as int
    }

    fn to_i128(&self) -> (wide: i128) {
        *self as i128
    }

    fn from_i128(wide: i128) -> (value: Option<Self>) {
        if wide >= u16::MIN as i128 && wide <= u16::MAX as i128 {
            Some(wide as u16)
        } else {
            None
        }
    }

    open spec fn wrapping_sum(self, other: Self) -> Self {
        vstd::wrapping::u16_specs::wrapping_add(self, other)
    }

    open spec fn wrapping_difference(self, other: Self) -> Self {
        vstd::wrapping::u16_specs::wrapping_sub(self, other)
    }

    open spec fn wrapping_product(self, other: Self) -> Self {
        vstd::wrapping::u16_specs::wrapping_mul(self, other)
    }

    open spec fn quotient(self, other: Self) -> Option<Self> {
        self.checked_div(other)
    }

    open spec fn remainder(self, other: Self) -> Option<Self> {
        self.checked_rem(other)
    }

    open spec fn zero_spec() -> Self {
        0
    }

    proof fn lemma_zero_rank() {
    }

    proof fn lemma_sum_in_range(a: Self, b: Self) {
    }

    fn zero() -> (zero: Self) {
        0
    }

    fn add_wrapping(self, other: Self) -> (sum: Self) {
        self.wrapping_add(other)
    }

    fn sub_wrapping(self, other: Self) -> (difference: Self) {
        self.wrapping_sub(other)
    }

    fn mul_wrapping(self, other: Self) -> (product: Self) {
        self.wrapping_mul(other)
    }

    fn div_checked(self, other: Self) -> (quotient: Option<Self>) {
        self.checked_div(other)
    }

    fn rem_checked(self, other: Self) -> (remainder: Option<Self>) {
        self.checked_rem(other)
    }
}

impl Value for u32 {
    fn duplicate(&self) -> (copy: Self) {
        *self
    }

    open spec fn is_filler(&self) -> bool {
        *self == 0
    }

    fn filler() -> Self {
        0
    }
}

impl NativeType for u32 {
    open spec fn is_float_spec() -> bool {
        false
    }

    open spec fn is_nan_spec(&self) -> bool {
        false
    }

    open spec fn rank(&self) -> int {
        *self as int
    }

    open spec fn default_spec() -> Self {
        0
    }

    open spec fn key(&self) -> u64 {
        *self as u64
    }

    proof fn lemma_key_injective(a: Self, b: Self) {
    }

    proof fn lemma_rank_injective(a: Self, b: Self) {
    }

    proof fn lemma_integers_have_no_nan(a: Self) {
    }

    fn is_float() -> (float: bool) {
        false
    }

    fn is_nan(&self) -> (nan: bool) {
        false
    }

    fn equals(&self, other: &Self) -> (same: bool) {
        *self == *other
    }

    fn less_than(&self, other: &Self) -> (less: bool) {
        *self < *other
    }

    fn default_value() -> (value: Self) {
        0
    }

    fn as_u64(&self) -> (key: u64) {
        *self as u64
    }
}

impl NumericNative for u32 {
    open spec fn min_rank() -> int {
        u32::MIN as int
    }

    open spec fn max_rank() -> int {
        u32::MAX as int
    }

    fn to_i128(&self) -> (wide: i128) {
        *self as i128
    }

    fn from_i128(wide: i128) -> (value: Option<Self>) {
        if wide >= u32::MIN as i128 && wide <= u32::MAX as i128 {
            Some(wide as u32)
        } else {
            None
        }
    }

    open spec fn wrapping_sum(self, other: Self) -> Self {
        vstd::wrapping::u32_specs::wrapping_add(self, other)
    }

    open spec fn wrapping_difference(self, other: Self) -> Self {
        vstd::wrapping::u32_specs::wrapping_sub(self, other)
    }

    open spec fn wrapping_product(self, other: Self) -> Self {
        vstd::wrapping::u32_specs::wrapping_mul(self, other)
    }

    open spec fn quotient(self, other: Self) -> Option<Self> {
        self.checked_div(other)
    }

    open spec fn remainder(self, other: Self) -> Option<Self> {
        self.checked_rem(other)
    }

    open spec fn zero_spec() -> Self {
        0
    }

    proof fn lemma_zero_rank() {
    }

    proof fn lemma_sum_in_range(a: Self, b: Self) {
    }

    fn zero() -> (zero: Self) {
        0
    }

    fn add_wrapping(self, other: Self) -> (sum: Self) {
        self.wrapping_add(other)
    }

    fn sub_wrapping(self, other: Self) -> (difference: Self) {
        self.wrapping_sub(other)
    }

    fn mul_wrapping(self, other: Self) -> (product: Self) {
        self.wrapping_mul(other)
    }

    fn div_checked(self, other: Self) -> (quotient: Option<Self>) {
        self.checked_div(other)
    }

    fn rem_checked(self, other: Self) -> (remainder: Option<Self>) {
        self.checked_rem(other)
    }
}

impl Value for u64 {
    fn duplicate(&self) -> (copy: Self) {
        *self
    }

    open spec fn is_filler(&self) -> bool {
        *self == 0
    }

    fn filler() -> Self {
        0
    }
}

impl NativeType for u64 {
    open spec fn is_float_spec() -> bool {
        false
    }

    open spec fn is_nan_spec(&self) -> bool {
        false
    }

    open spec fn rank(&self) -> int {
        *self as int
    }

    open spec fn default_spec() -> Self {
        0
    }

    open spec fn key(&self) -> u64 {
        *self as u64
    }

    proof fn lemma_key_injective(a: Self, b: Self) {
    }

    proof fn lemma_rank_injective(a: Self, b: Self) {
    }

    proof fn lemma_integers_have_no_nan(a: Self) {
    }

    fn is_float() -> (float: bool) {
        false
    }

    fn is_nan(&self) -> (nan: bool) {
        false
    }

    fn equals(&self, other: &Self) -> (same: bool) {
        *self == *other
    }

    fn less_than(&self, other: &Self) -> (less: bool) {
        *self < *other
    }

    fn default_value() -> (value: Self) {
        0
    }

    fn as_u64(&self) -> (key: u64) {
        *self as u64
    }
}

impl NumericNative for u64 {
    open spec fn min_rank() -> int {
        u64::MIN as int
    }

    open spec fn max_rank() -> int {
        u64::MAX as int
    }

    fn to_i128(&self) -> (wide: i128) {
        *self as i128
    }

    fn from_i128(wide: i128) -> (value: Option<Self>) {
        if wide >= u64::MIN as i128 && wide <= u64::MAX as i128 {
            Some(wide as u64)
        } else {
            None
        }
    }

    open spec fn wrapping_sum(self, other: Self) -> Self {
        vstd::wrapping::u64_specs::wrapping_add(self, other)
    }

    open spec fn wrapping_difference(self, other: Self) -> Self {
        vstd::wrapping::u64_specs::wrapping_sub(self, other)
    }

    open spec fn wrapping_product(self, other: Self) -> Self {
        vstd::wrapping::u64_specs::wrapping_mul(self, other)
    }

    open spec fn quotient(self, other: Self) -> Option<Self> {
        self.checked_div(other)
    }

    open spec fn remainder(self, other: Self) -> Option<Self> {
        self.checked_rem(other)
    }

    open spec fn zero_spec() -> Self {
        0
    }

    proof fn lemma_zero_rank() {
    }

    proof fn lemma_sum_in_range(a: Self, b: Self) {
    }

    fn zero() -> (zero: Self) {
        0
    }

    fn add_wrapping(self, other: Self) -> (sum: Self) {
        self.wrapping_add(other)
    }

    fn sub_wrapping(self, other: Self) -> (difference: Self) {
        self.wrapping_sub(other)
    }

    fn mul_wrapping(self, other: Self) -> (product: Self) {
        self.wrapping_mul(other)
    }

    fn div_checked(self, other: Self) -> (quotient: Option<Self>) {
        self.checked_div(other)
    }

    fn rem_checked(self, other: Self) -> (remainder: Option<Self>) {
        self.checked_rem(other)
    }
}

/// A floating point number of 32 bits, held by its bit pattern: a sign bit,
/// then the exponent, then the fraction. The pattern tells whether the number
/// is NaN and, where it is not, its place in the order of the numbers.
#[derive(Clone, Copy, PartialEq, Eq, Structural, Debug)]
pub struct Float32 {
    pub bits: u32,
}

impl Float32 {
    /// The bits below the sign bit.
    pub open spec fn magnitude_spec(&self) -> int {
        if self.bits >= 0x8000_0000 {
            self.bits - 0x8000_0000
        } else {
            self.bits as int
        }
    }

    /// The number with the given bit pattern.
    pub fn from_bits(bits: u32) -> (number: Self)
        ensures
            number.bits == bits,
    {
        Float32 { bits }
    }

    /// The bit pattern of the number.
    pub fn to_bits(&self) -> (bits: u32)
        ensures
            bits == self.bits,
    {
        self.bits
    }

    /// The bits below the sign bit.
    pub fn magnitude(&self) -> (bits: u32)
        ensures
            bits == self.magnitude_spec(),
    {
        if self.bits >= 0x8000_0000 {
            self.bits - 0x8000_0000
        } else {
            self.bits
        }
    }

    /// Whether the sign bit is set.
    pub fn is_negative(&self) -> (negative: bool)
        ensures
            negative == (self.bits >= 0x8000_0000),
    {
        self.bits >= 0x8000_0000
    }
}

impl Value for Float32 {
    fn duplicate(&self) -> (copy: Self) {
        *self
    }

    /// The number zero with a clear sign bit.
    open spec fn is_filler(&self) -> bool {
        self.bits == 0
    }

    fn filler() -> Self {
        Float32 { bits: 0 }
    }
}

impl NativeType for Float32 {
    open spec fn is_float_spec() -> bool {
        true
    }

    /// NaN has all exponent bits set and a fraction that is not zero.
    open spec fn is_nan_spec(&self) -> bool {
        self.magnitude_spec() > 0x7f80_0000
    }

    /// Numbers compare like their magnitudes where they are not negative and
    /// the other way round where they are; the two zeros are equal.
    open spec fn rank(&self) -> int {
        if self.bits >= 0x8000_0000 {
            -self.magnitude_spec()
        } else {
            self.magnitude_spec()
        }
    }

    open spec fn default_spec() -> Self {
        Float32 { bits: 0 }
    }

    open spec fn key(&self) -> u64 {
        self.bits as u64
    }

    proof fn lemma_key_injective(a: Self, b: Self) {
    }

    proof fn lemma_rank_injective(a: Self, b: Self) {
    }

    proof fn lemma_integers_have_no_nan(a: Self) {
    }

    fn is_float() -> (float: bool) {
        true
    }

    fn is_nan(&self) -> (nan: bool) {
        self.magnitude() > 0x7f80_0000
    }

    fn equals(&self, other: &Self) -> (same: bool) {
        self.bits == other.bits
    }

    fn less_than(&self, other: &Self) -> (less: bool) {
        if self.is_nan() || other.is_nan() {
            false
        } else if self.is_negative() {
            if other.is_negative() {
                self.magnitude() > other.magnitude()
            } else {
                self.magnitude() > 0 || other.magnitude() > 0
            }
        } else {
            if other.is_negative() {
                false
            } else {
                self.magnitude() < other.magnitude()
            }
        }
    }

    fn default_value() -> (value: Self) {
        Float32 { bits: 0 }
    }

    fn as_u64(&self) -> (key: u64) {
        self.bits as u64
    }
}

/// A floating point number of 64 bits, held by its bit pattern: a sign bit,
/// then the exponent, then the fraction. The pattern tells whether the number
/// is NaN and, where it is not, its place in the order of the numbers.
#[derive(Clone, Copy, PartialEq, Eq, Structural, Debug)]
pub struct Float64 {
    pub bits: u64,
}

impl Float64 {
    /// The bits below the sign bit.
    pub open spec fn magnitude_spec(&self) -> int {
        if self.bits >= 0x8000_0000_0000_0000 {
            self.bits - 0x8000_0000_0000_0000
        } else {
            self.bits as int
        }
    }

    /// The number with the given bit pattern.
    pub fn from_bits(bits: u64) -> (number: Self)
        ensures
            number.bits == bits,
    {
        Float64 { bits }
    }

    /// The bit pattern of the number.
    pub fn to_bits(&self) -> (bits: u64)
        ensures
            bits == self.bits,
    {
        self.bits
    }

    /// The bits below the sign bit.
    pub fn magnitude(&self) -> (bits: u64)
        ensures
            bits == self.magnitude_spec(),
    {
        if self.bits >= 0x8000_0000_0000_0000 {
            self.bits - 0x8000_0000_0000_0000
        } else {
            self.bits
        }
    }

    /// Whether the sign bit is set.
    pub fn is_negative(&self) -> (negative: bool)
        ensures
            negative == (self.bits >= 0x8000_0000_0000_0000),
    {
        self.bits >= 0x8000_0000_0000_0000
    }
}

impl Value for Float64 {
    fn duplicate(&self) -> (copy: Self) {
        *self
    }

    /// The number zero with a clear sign bit.
    open spec fn is_filler(&self) -> bool {
        self.bits == 0
    }

    fn filler() -> Self {
        Float64 { bits: 0 }
    }
}

impl NativeType for Float64 {
    open spec fn is_float_spec() -> bool {
        true
    }

    /// NaN has all exponent bits set and a fraction that is not zero.
    open spec fn is_nan_spec(&self) -> bool {
        self.magnitude_spec() > 0x7ff0_0000_0000_0000
    }

    /// Numbers compare like their magnitudes where they are not negative and
    /// the other way round where they are; the two zeros are equal.
    open spec fn rank(&self) -> int {
        if self.bits >= 0x8000_0000_0000_0000 {
            -self.magnitude_spec()
        } else {
            self.magnitude_spec()
        }
    }

    open spec fn default_spec() -> Self {
        Float64 { bits: 0 }
    }

    open spec fn key(&self) -> u64 {
        self.bits as u64
    }

    proof fn lemma_key_injective(a: Self, b: Self) {
    }

    proof fn lemma_rank_injective(a: Self, b: Self) {
    }

    proof fn lemma_integers_have_no_nan(a: Self) {
    }

    fn is_float() -> (float: bool) {
        true
    }

    fn is_nan(&self) -> (nan: bool) {
        self.magnitude() > 0x7ff0_0000_0000_0000
    }

    fn equals(&self, other: &Self) -> (same: bool) {
        self.bits == other.bits
    }

    fn less_than(&self, other: &Self) -> (less: bool) {
        if self.is_nan() || other.is_nan() {
            false
        } else if self.is_negative() {
            if other.is_negative() {
                self.magnitude() > other.magnitude()
            } else {
                self.magnitude() > 0 || other.magnitude() > 0
            }
        } else {
            if other.is_negative() {
                false
            } else {
                self.magnitude() < other.magnitude()
            }
        }
    }

    fn default_value() -> (value: Self) {
        Float64 { bits: 0 }
    }

    fn as_u64(&self) -> (key: u64) {
        self.bits as u64
    }
}

} // verus!
