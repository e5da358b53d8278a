//! Arbitrary-precision integers, held as `num_bigint::BigInt` values.
//!
//! A `BigInt` is opaque to the verifier; the spec function `big_of` names the
//! mathematical integer a `BigInt` holds, and each operation the library needs
//! is a trusted wrapper whose contract speaks over `big_of`.

use vstd::prelude::*;

use num_bigint::BigInt;
use num_traits::Zero;

verus! {

#[verifier::external_type_specification]
#[verifier::external_body]
pub struct ExBigInt(BigInt);

/// The mathematical integer that a `BigInt` holds.
pub uninterp spec fn big_of(b: BigInt) -> int;

/// Integer division truncated toward zero, the rounding that `BigInt`
/// division uses (Verus's own `/` on `int` rounds toward negative infinity).
pub open spec fn trunc_div(a: int, b: int) -> int {
    if (a < 0) == (b < 0) {
        abs_of(a) / abs_of(b)
    } else {
        -(abs_of(a) / abs_of(b))
    }
}

/// The absolute value of an integer.
pub open spec fn abs_of(a: int) -> int {
    if a < 0 {
        -a
    } else {
        a
    }
}

/// True of the decimal-digit characters `'0'` through `'9'`.
pub open spec fn is_digit(c: char) -> bool {
    '0' as int <= c as int && c as int <= '9' as int
}

/// The value of one decimal digit.
pub open spec fn digit_val(c: char) -> int {
    c as int - '0' as int
}

/// The value of a run of decimal digits, most significant first.
pub open spec fn digits_val(s: Seq<char>) -> int
    decreases s.len(),
{
    if s.len() == 0 {
        0
    } else {
        digits_val(s.drop_last()) * 10 + digit_val(s.last())
    }
}

/// True when every character of `s` is a decimal digit.
pub open spec fn all_digits(s: Seq<char>) -> bool {
    forall|i: int| 0 <= i < s.len() ==> is_digit(s[i])
}

/// True of the texts the language reads as integer literals: an optional
/// leading `-`, then one or more decimal digits, and nothing else.
pub open spec fn is_int_literal(s: Seq<char>) -> bool {
    if s.len() > 0 && s[0] == '-' {
        s.len() > 1 && all_digits(s.skip(1))
    } else {
        s.len() > 0 && all_digits(s)
    }
}

/// The integer that an integer literal denotes.
pub open spec fn int_literal_val(s: Seq<char>) -> int {
    if s.len() > 0 && s[0] == '-' {
        -digits_val(s.skip(1))
    } else {
        digits_val(s)
    }
}

/// Relies on `Add for &BigInt` (num-bigint): exact arbitrary-precision
/// addition.
#[verifier::external_body]
pub(crate) fn big_add(a: &BigInt, b: &BigInt) -> (r: BigInt)
    ensures
        big_of(r) == big_of(*a) + big_of(*b),
{
    a + b
}

/// Relies on `Sub for &BigInt` (num-bigint): exact arbitrary-precision
/// subtraction.
#[verifier::external_body]
pub(crate) fn big_sub(a: &BigInt, b: &BigInt) -> (r: BigInt)
    ensures
        big_of(r) == big_of(*a) - big_of(*b),
{
    a - b
}

/// Relies on `Mul for &BigInt` (num-bigint): exact arbitrary-precision
/// multiplication.
#[verifier::external_body]
pub(crate) fn big_mul(a: &BigInt, b: &BigInt) -> (r: BigInt)
    ensures
        big_of(r) == big_of(*a) * big_of(*b),
{
    a * b
}

/// Relies on `Div for &BigInt` (num-bigint), which takes the quotient of
/// `Integer::div_rem`: division truncated toward zero. It panics on a zero
/// divisor, which the `requires` rules out.
#[verifier::external_body]
pub(crate) fn big_div(a: &BigInt, b: &BigInt) -> (r: BigInt)
    requires
        big_of(*b) != 0,
    ensures
        big_of(r) == trunc_div(big_of(*a), big_of(*b)),
{
    a / b
}

/// Relies on `num_traits::Zero::is_zero` for `BigInt`: true exactly of the
/// additive identity.
#[verifier::external_body]
pub(crate) fn big_is_zero(b: &BigInt) -> (r: bool)
    ensures
        r == (big_of(*b) == 0),
{
    b.is_zero()
}

/// Relies on `Clone for BigInt` (num-bigint): the copy holds the same value.
#[verifier::external_body]
pub(crate) fn big_clone(b: &BigInt) -> (r: BigInt)
    ensures
        big_of(r) == big_of(*b),
{
    b.clone()
}

/// Relies on `PartialEq for BigInt` (num-bigint): equality of the numeric
/// values.
#[verifier::external_body]
pub(crate) fn big_eq(a: &BigInt, b: &BigInt) -> (r: bool)
    ensures
        r == (big_of(*a) == big_of(*b)),
{
    a == b
}

/// Relies on `FromStr for BigInt` (num-bigint): on a text of an optional `-`
/// sign followed by decimal digits it returns the denoted integer. The
/// `requires` admits only such texts, on which `from_str` cannot fail.
#[verifier::external_body]
pub(crate) fn big_from_decimal(s: &String) -> (r: BigInt)
    requires
        is_int_literal(s@),
    ensures
        big_of(r) == int_literal_val(s@),
{
    match s.parse() {
        Ok(n) => n,
        Err(_) => BigInt::zero(),
    }
}

} // verus!
