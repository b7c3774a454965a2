use vstd::prelude::*;

verus! {

/// The numeric capability a scalar type must provide so that the operators
/// can be computed over it: ring operations, division, square root and the
/// two trigonometric functions the cotangent weights need.
///
/// Every executable operation is paired with an uninterpreted specification
/// twin; the contract of each operation says only that it returns the value
/// of its twin, i.e. that the operation is a deterministic function of its
/// arguments. Nothing else is assumed of the arithmetic: in particular no
/// algebraic law (associativity, inverses) is claimed, since the intended
/// implementations are machine floats, whose rounding obeys none.
///
/// Implementations live outside the verified crate (a wrapper around `f64`,
/// say); what is proved here therefore pins every computed entry down to an
/// exact expression over these twins, and holds for any implementation whose
/// operations are deterministic.
pub trait Scalar: Sized + Copy {
    /// Specification twin of [`Scalar::zero`].
    spec fn zero_s() -> Self;

    /// Specification twin of [`Scalar::one`].
    spec fn one_s() -> Self;

    /// Specification twin of [`Scalar::two`].
    spec fn two_s() -> Self;

    /// Specification twin of [`Scalar::three`].
    spec fn three_s() -> Self;

    /// Specification twin of [`Scalar::add`].
    spec fn add_s(self, other: Self) -> Self;

    /// Specification twin of [`Scalar::sub`].
    spec fn sub_s(self, other: Self) -> Self;

    /// Specification twin of [`Scalar::mul`].
    spec fn mul_s(self, other: Self) -> Self;

    /// Specification twin of [`Scalar::div`].
    spec fn div_s(self, other: Self) -> Self;

    /// Specification twin of [`Scalar::neg`].
    spec fn neg_s(self) -> Self;

    /// Specification twin of [`Scalar::sqrt`].
    spec fn sqrt_s(self) -> Self;

    /// Specification twin of [`Scalar::acos`].
    spec fn acos_s(self) -> Self;

    /// Specification twin of [`Scalar::tan`].
    spec fn tan_s(self) -> Self;

    /// The additive identity of the scalar type.
    fn zero() -> (r: Self)
        ensures
            r == Self::zero_s(),
    ;

    /// The multiplicative identity of the scalar type.
    fn one() -> (r: Self)
        ensures
            r == Self::one_s(),
    ;

    /// The scalar representing 2.
    fn two() -> (r: Self)
        ensures
            r == Self::two_s(),
    ;

    /// The scalar representing 3.
    fn three() -> (r: Self)
        ensures
            r == Self::three_s(),
    ;

    /// Addition.
    fn add(self, other: Self) -> (r: Self)
        ensures
            r == self.add_s(other),
    ;

    /// Subtraction.
    fn sub(self, other: Self) -> (r: Self)
        ensures
            r == self.sub_s(other),
    ;

    /// Multiplication.
    fn mul(self, other: Self) -> (r: Self)
        ensures
            r == self.mul_s(other),
    ;

    /// Division.
    fn div(self, other: Self) -> (r: Self)
        ensures
            r == self.div_s(other),
    ;

    /// Negation.
    fn neg(self) -> (r: Self)
        ensures
            r == self.neg_s(),
    ;

    /// Square root.
    fn sqrt(self) -> (r: Self)
        ensures
            r == self.sqrt_s(),
    ;

    /// Arc cosine.
    fn acos(self) -> (r: Self)
        ensures
            r == self.acos_s(),
    ;

    /// Tangent.
    fn tan(self) -> (r: Self)
        ensures
            r == self.tan_s(),
    ;
}

} // verus!
