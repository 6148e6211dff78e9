//! Complex numbers and Jones matrices, as plain containers.

use vstd::prelude::*;

verus! {

/// A complex number: two components of one representation.
#[derive(Clone, Copy, Debug, PartialEq, Eq)]
pub struct Complex<T> {
    pub re: T,
    pub im: T,
}

/// A 2x2 complex matrix, one entry per polarisation product, in the order
/// XX, XY, YX, YY.
#[derive(Clone, Copy, Debug, PartialEq, Eq)]
pub struct Jones<T> {
    pub elems: [Complex<T>; 4],
}

impl<T: Copy> Complex<T> {
    /// Both components set to `value`.
    pub fn splat(value: T) -> (r: Self)
        ensures
            r.re == value,
            r.im == value,
    {
        Complex { re: value, im: value }
    }
}

impl<T: Copy> Jones<T> {
    /// The matrix with every component of every entry set to `value`.
    pub fn splat(value: T) -> (r: Self)
        ensures
            forall|p: int| 0 <= p < 4 ==> (#[trigger] r.elems[p]).re == value && r.elems[p].im == value,
    {
        let c = Complex::splat(value);
        Jones { elems: [c, c, c, c] }
    }
}

} // verus!
