//! Trusted integer narrowing through the outside numeric-cast crate.
//!
//! The conversion protocol narrows guest integers to host integer types
//! and widens host integers to guest integers with the checked casts of
//! `num_traits`: `cast::<S, D>(n)` yields the same value when it is
//! representable in the destination type, and nothing otherwise. Each
//! wrapper below names one such cast and states exactly that.
use vstd::prelude::*;

verus! {

/// Relies on num_traits::cast from i64 to i8: the value when it fits,
/// nothing otherwise.
#[verifier::external_body]
pub(crate) fn cast_i64_to_i8(n: i64) -> (r: Option<i8>)
    ensures
        r == if i8::MIN <= n <= i8::MAX {
            Some(n as i8)
        } else {
            None::<i8>
        },
{
    num_traits::cast(n)
}

/// Relies on num_traits::cast from i64 to u8: the value when it fits,
/// nothing otherwise.
#[verifier::external_body]
pub(crate) fn cast_i64_to_u8(n: i64) -> (r: Option<u8>)
    ensures
        r == if 0 <= n <= u8::MAX {
            Some(n as u8)
        } else {
            None::<u8>
        },
{
    num_traits::cast(n)
}

/// Relies on num_traits::cast from i64 to i16: the value when it fits,
/// nothing otherwise.
#[verifier::external_body]
pub(crate) fn cast_i64_to_i16(n: i64) -> (r: Option<i16>)
    ensures
        r == if i16::MIN <= n <= i16::MAX {
            Some(n as i16)
        } else {
            None::<i16>
        },
{
    num_traits::cast(n)
}

/// Relies on num_traits::cast from i64 to u16: the value when it fits,
/// nothing otherwise.
#[verifier::external_body]
pub(crate) fn cast_i64_to_u16(n: i64) -> (r: Option<u16>)
    ensures
        r == if 0 <= n <= u16::MAX {
            Some(n as u16)
        } else {
            None::<u16>
        },
{
    num_traits::cast(n)
}

/// Relies on num_traits::cast from i64 to i32: the value when it fits,
/// nothing otherwise.
#[verifier::external_body]
pub(crate) fn cast_i64_to_i32(n: i64) -> (r: Option<i32>)
    ensures
        r == if i32::MIN <= n <= i32::MAX {
            Some(n as i32)
        } else {
            None::<i32>
        },
{
    num_traits::cast(n)
}

/// Relies on num_traits::cast from i64 to u32: the value when it fits,
/// nothing otherwise.
#[verifier::external_body]
pub(crate) fn cast_i64_to_u32(n: i64) -> (r: Option<u32>)
    ensures
        r == if 0 <= n <= u32::MAX {
            Some(n as u32)
        } else {
            None::<u32>
        },
{
    num_traits::cast(n)
}

/// Relies on num_traits::cast from i64 to u64: the value when it is not
/// negative, nothing otherwise.
#[verifier::external_body]
pub(crate) fn cast_i64_to_u64(n: i64) -> (r: Option<u64>)
    ensures
        r == if 0 <= n {
            Some(n as u64)
        } else {
            None::<u64>
        },
{
    num_traits::cast(n)
}

/// Relies on num_traits::cast from i64 to usize: the value when it fits,
/// nothing otherwise.
#[verifier::external_body]
pub(crate) fn cast_i64_to_usize(n: i64) -> (r: Option<usize>)
    ensures
        r == if 0 <= n <= usize::MAX {
            Some(n as usize)
        } else {
            None::<usize>
        },
{
    num_traits::cast(n)
}

/// Relies on num_traits::cast from u64 to i64: the value when it fits,
/// nothing otherwise.
#[verifier::external_body]
pub(crate) fn cast_u64_to_i64(n: u64) -> (r: Option<i64>)
    ensures
        r == if n <= i64::MAX {
            Some(n as i64)
        } else {
            None::<i64>
        },
{
    num_traits::cast(n)
}

/// Relies on num_traits::cast from usize to i64: the value when it fits,
/// nothing otherwise.
#[verifier::external_body]
pub(crate) fn cast_usize_to_i64(n: usize) -> (r: Option<i64>)
    ensures
        r == if n <= i64::MAX {
            Some(n as i64)
        } else {
            None::<i64>
        },
{
    num_traits::cast(n)
}

/// Relies on num_traits::cast from i64 to isize: the value when it fits,
/// nothing otherwise.
#[verifier::external_body]
pub(crate) fn cast_i64_to_isize(n: i64) -> (r: Option<isize>)
    ensures
        r == if isize::MIN <= n <= isize::MAX {
            Some(n as isize)
        } else {
            None::<isize>
        },
{
    num_traits::cast(n)
}

/// Relies on num_traits::cast from i128 to i64: the value when it fits,
/// nothing otherwise.
#[verifier::external_body]
pub(crate) fn cast_i128_to_i64(n: i128) -> (r: Option<i64>)
    ensures
        r == if i64::MIN <= n <= i64::MAX {
            Some(n as i64)
        } else {
            None::<i64>
        },
{
    num_traits::cast(n)
}

/// Relies on num_traits::cast from u128 to i64: the value when it fits,
/// nothing otherwise.
#[verifier::external_body]
pub(crate) fn cast_u128_to_i64(n: u128) -> (r: Option<i64>)
    ensures
        r == if n <= i64::MAX {
            Some(n as i64)
        } else {
            None::<i64>
        },
{
    num_traits::cast(n)
}

} // verus!
