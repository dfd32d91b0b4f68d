//! The numbers of the geometry.
//!
//! A scalar is any type with the four arithmetic operations, a partial order
//! and a conversion from `u8`: a floating-point type first of all. What an
//! operation computes is named by the spec functions that `vstd` attaches to
//! the operator traits; the contracts of this crate are stated over those
//! names, and say what is computed operation by operation, in the order in
//! which the operations are made.

use core::cmp::Ordering;
use core::ops::Add;
use core::ops::Div;
use core::ops::Mul;
use core::ops::Sub;
use vstd::prelude::*;
use vstd::std_specs::cmp::PartialEqSpec;
use vstd::std_specs::cmp::PartialOrdIs;
use vstd::std_specs::cmp::PartialOrdSpec;
use vstd::std_specs::convert::FromSpec;
use vstd::std_specs::ops::AddSpec;
use vstd::std_specs::ops::DivSpec;
use vstd::std_specs::ops::MulSpec;
use vstd::std_specs::ops::SubSpec;

verus! {

/// The bounds that every scalar type meets, under one name.
pub trait Scalar: Copy + PartialOrd + From<u8> + Add<Output = Self> + Sub<Output = Self> + Mul<
    Output = Self,
> + Div<Output = Self> {

}

impl<T> Scalar for T where
    T: Copy + PartialOrd + From<u8> + Add<Output = T> + Sub<Output = T> + Mul<Output = T> + Div<
        Output = T,
    >,
 {

}

/// Every operation of `T` returns what its spec function names: the four
/// arithmetic operations, the comparisons and the conversion from `u8`.
pub open spec fn is_specified<T: Scalar>() -> bool {
    &&& arithmetic_is_specified::<T>()
    &&& comparison_is_specified::<T>()
    &&& conversion_is_specified::<T>()
}

/// `+`, `-`, `*` and `/` return the value of their spec functions.
pub open spec fn arithmetic_is_specified<T: Scalar>() -> bool {
    &&& T::obeys_add_spec()
    &&& T::obeys_sub_spec()
    &&& T::obeys_mul_spec()
    &&& T::obeys_div_spec()
}

/// `<`, `<=`, `>` and `==` return what `partial_cmp_spec` and `eq_spec` say.
pub open spec fn comparison_is_specified<T: Scalar>() -> bool {
    T::obeys_partial_cmp_spec() && T::obeys_eq_spec()
}

/// The conversion from `u8` returns what `from_spec` says.
pub open spec fn conversion_is_specified<T: Scalar>() -> bool {
    <T as FromSpec<u8>>::obeys_from_spec()
}

/// `+`, `-`, `*` and `/` accept every pair of operands: none overflows, and
/// no divisor is refused.
pub open spec fn arithmetic_is_total<T: Scalar>() -> bool {
    &&& forall|a: T, b: T| #[trigger] a.add_req(b)
    &&& forall|a: T, b: T| #[trigger] a.sub_req(b)
    &&& forall|a: T, b: T| #[trigger] a.mul_req(b)
    &&& forall|a: T, b: T| #[trigger] a.div_req(b)
}

/// The operations of `T` are specified and never fail, as those of the
/// floating-point types do: there no sum overflows and no divisor is
/// refused.
///
/// A function that computes in a few steps asks only that those steps do
/// not fail, and says which they are. A function that computes through
/// many steps, as long as its input asks for, asks this of the type
/// instead.
pub open spec fn lawful<T: Scalar>() -> bool {
    is_specified::<T>() && arithmetic_is_total::<T>()
}

/// Any two scalars compare; they compare equal only when they are the same
/// scalar; `a < b` is `b > a`; and `<=` is transitive.
pub open spec fn totally_ordered<T: Scalar>() -> bool {
    &&& forall|a: T, b: T| (#[trigger] a.partial_cmp_spec(&b)) is Some
    &&& forall|a: T, b: T| (#[trigger] a.partial_cmp_spec(&b)) == Some(Ordering::Equal) <==> a == b
    &&& forall|a: T, b: T| #![trigger a.partial_cmp_spec(&b)] a.is_lt(&b) <==> b.is_gt(&a)
    &&& forall|a: T, b: T, c: T|
        #![trigger a.partial_cmp_spec(&b), b.partial_cmp_spec(&c)]
        a.is_le(&b) && b.is_le(&c) ==> a.is_le(&c)
}

/// The order of the operands of `+` does not matter.
pub open spec fn addition_commutes<T: Scalar>() -> bool {
    forall|a: T, b: T| #[trigger] a.add_spec(b) == b.add_spec(a)
}

/// The scalar that the small integer `n` converts to.
pub open spec fn small<T: Scalar>(n: u8) -> T {
    T::from_spec(n)
}

/// The scalar that 0 converts to.
pub open spec fn zero_spec<T: Scalar>() -> T {
    small::<T>(0)
}

/// The scalar that 1 converts to.
pub open spec fn one_spec<T: Scalar>() -> T {
    small::<T>(1)
}

/// The tolerance of every near-equality test: one divided by a hundred
/// thousand, the divisor built as `(100 * 100) * 10`.
pub open spec fn epsilon_spec<T: Scalar>() -> T {
    one_spec::<T>().div_spec(
        small::<T>(100).mul_spec(small::<T>(100)).mul_spec(small::<T>(10)),
    )
}

/// The operations that compute the tolerance and its negative do not fail.
pub open spec fn tolerance_req<T: Scalar>() -> bool {
    &&& small::<T>(100).mul_req(small::<T>(100))
    &&& small::<T>(100).mul_spec(small::<T>(100)).mul_req(small::<T>(10))
    &&& one_spec::<T>().div_req(
        small::<T>(100).mul_spec(small::<T>(100)).mul_spec(small::<T>(10)),
    )
    &&& zero_spec::<T>().sub_req(epsilon_spec::<T>())
}

/// `x` lies strictly between minus the tolerance and the tolerance.
pub open spec fn is_zero_spec<T: Scalar>(x: T) -> bool {
    zero_spec::<T>().sub_spec(epsilon_spec::<T>()).is_lt(&x) && x.is_lt(&epsilon_spec::<T>())
}

/// The difference `a - b` is within the tolerance of zero.
pub open spec fn approx_eq_spec<T: Scalar>(a: T, b: T) -> bool {
    is_zero_spec(a.sub_spec(b))
}

/// Zero.
#[verifier::when_used_as_spec(zero_spec)]
pub fn zero<T: Scalar>() -> (r: T)
    requires
        conversion_is_specified::<T>(),
    ensures
        r == zero_spec::<T>(),
{
    T::from(0u8)
}

/// One.
#[verifier::when_used_as_spec(one_spec)]
pub fn one<T: Scalar>() -> (r: T)
    requires
        conversion_is_specified::<T>(),
    ensures
        r == one_spec::<T>(),
{
    T::from(1u8)
}

/// The tolerance.
#[verifier::when_used_as_spec(epsilon_spec)]
pub fn epsilon<T: Scalar>() -> (r: T)
    requires
        conversion_is_specified::<T>(),
        arithmetic_is_specified::<T>(),
        tolerance_req::<T>(),
    ensures
        r == epsilon_spec::<T>(),
{
    let hundred: T = T::from(100u8);
    let ten: T = T::from(10u8);
    one::<T>() / (hundred * hundred * ten)
}

/// Whether `x` is zero within the tolerance.
#[verifier::when_used_as_spec(is_zero_spec)]
pub fn is_zero<T: Scalar>(x: T) -> (r: bool)
    requires
        is_specified::<T>(),
        tolerance_req::<T>(),
    ensures
        r == is_zero_spec(x),
{
    let eps: T = epsilon::<T>();
    zero::<T>() - eps < x && x < eps
}

/// Whether `a` and `b` are equal within the tolerance.
#[verifier::when_used_as_spec(approx_eq_spec)]
pub fn approx_eq<T: Scalar>(a: T, b: T) -> (r: bool)
    requires
        is_specified::<T>(),
        tolerance_req::<T>(),
        a.sub_req(b),
    ensures
        r == approx_eq_spec(a, b),
{
    is_zero(a - b)
}

} // verus!
