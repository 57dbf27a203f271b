use vstd::prelude::*;

verus! {

/// The exponential function of an element type.
pub trait Exp: Sized {
    fn exp(self) -> Self;
}

/// The natural logarithm of an element type.
pub trait Ln: Sized {
    fn ln(self) -> Self;
}

/// Raising an element to the power of another element.
pub trait Pow: Sized {
    fn pow(self, exponent: Self) -> Self;
}

/// What every element of a tensor offers: copy, sum, product and quotient.
pub trait Element:
    Copy + core::ops::Add<Output = Self> + core::ops::Mul<Output = Self> + core::ops::Div<Output = Self> {

}

/// An element that behaves like a real number: it also has `exp`, `ln`, `pow`, and the
/// constants one and minus one.
pub trait RealElement: Element + Exp + Ln + Pow + From<i8> {

}

/// Every operation that the element type offers accepts every argument.
pub open spec fn ops_total<T: RealElement>() -> bool {
    &&& forall|a: T, b: T| #[trigger] call_requires(T::add, (a, b))
    &&& forall|a: T, b: T| #[trigger] call_requires(T::mul, (a, b))
    &&& forall|a: T, b: T| #[trigger] call_requires(T::div, (a, b))
    &&& forall|k: i8| #[trigger] call_requires(T::from, (k,))
}

impl Element for usize {}
impl Element for u32 {}
impl Element for u16 {}
impl Element for i32 {}

} // verus!
