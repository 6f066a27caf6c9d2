//! Three-way comparison of numeric constants.
use vstd::prelude::*;

use std::cmp::Ordering;

use crate::numeric::{
    float_is_nan, float_key, float_nan, float_order_key, FloatKind, FloatValue, IntegerValue,
    NumericError,
};

verus! {

/// The ordering of two mathematical integers.
pub open spec fn int_ordering(a: int, b: int) -> Ordering {
    if a < b {
        Ordering::Less
    } else if a == b {
        Ordering::Equal
    } else {
        Ordering::Greater
    }
}

/// IEEE partial ordering of two bit patterns of the same format.
pub open spec fn float_partial_ordering(kind: FloatKind, a: int, b: int) -> Option<Ordering> {
    if float_is_nan(kind, a) || float_is_nan(kind, b) {
        None
    } else {
        Some(int_ordering(float_order_key(kind, a), float_order_key(kind, b)))
    }
}

fn order_u64(a: u64, b: u64) -> (r: Ordering)
    ensures
        (r == Ordering::Less) == (a < b),
        (r == Ordering::Equal) == (a == b),
        (r == Ordering::Greater) == (a > b),
{
    if a < b {
        Ordering::Less
    } else if a == b {
        Ordering::Equal
    } else {
        Ordering::Greater
    }
}

fn order_i64(a: i64, b: i64) -> (r: Ordering)
    ensures
        (r == Ordering::Less) == (a < b),
        (r == Ordering::Equal) == (a == b),
        (r == Ordering::Greater) == (a > b),
{
    if a < b {
        Ordering::Less
    } else if a == b {
        Ordering::Equal
    } else {
        Ordering::Greater
    }
}

fn order_i128(a: i128, b: i128) -> (r: Ordering)
    ensures
        (r == Ordering::Less) == (a < b),
        (r == Ordering::Equal) == (a == b),
        (r == Ordering::Greater) == (a > b),
{
    if a < b {
        Ordering::Less
    } else if a == b {
        Ordering::Equal
    } else {
        Ordering::Greater
    }
}

impl IntegerValue {
    /// Compares two integers of the same exact kind by their values.
    pub fn compare(self, right: Self) -> (r: Result<Ordering, NumericError>)
        ensures
            self.integer_kind() != right.integer_kind() ==> r == Err::<Ordering, NumericError>(
                NumericError::KindMismatch,
            ),
            self.integer_kind() == right.integer_kind() ==> r == Ok::<Ordering, NumericError>(
                int_ordering(self.value(), right.value()),
            ),
    {
        if self.kind() != right.kind() {
            return Err(NumericError::KindMismatch);
        }
        match (self.signed(), right.signed()) {
            (Some(a), Some(b)) => Ok(order_i64(a, b)),
            _ => match (self.unsigned(), right.unsigned()) {
                (Some(a), Some(b)) => Ok(order_u64(a, b)),
                _ => Err(NumericError::KindMismatch),
            },
        }
    }
}

impl FloatValue {
    /// IEEE partial comparison of two values of the same format: `None` when
    /// either is a NaN, and the two zeros compare equal.
    pub fn partial_compare(self, right: Self) -> (r: Result<Option<Ordering>, NumericError>)
        ensures
            self.float_kind() != right.float_kind() ==> r == Err::<Option<Ordering>, NumericError>(
                NumericError::KindMismatch,
            ),
            self.float_kind() == right.float_kind() ==> r == Ok::<Option<Ordering>, NumericError>(
                float_partial_ordering(self.float_kind(), self.raw_bits(), right.raw_bits()),
            ),
    {
        let kind = self.kind();
        if kind != right.kind() {
            return Err(NumericError::KindMismatch);
        }
        let a = self.bits();
        let b = right.bits();
        if float_nan(kind, a) || float_nan(kind, b) {
            return Ok(None);
        }
        Ok(Some(order_i128(float_key(kind, a), float_key(kind, b))))
    }
}

} // verus!
