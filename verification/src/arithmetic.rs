//! The arithmetic that the averaging is carried out in.
//!
//! The library never adds or divides two numbers itself. It is handed the six
//! operations it needs, and says of its results what they are in any model
//! that those operations compute.

use vstd::prelude::*;

verus! {

/// The bit pattern of a single-precision value.
pub type Single = u32;

/// The bit pattern of a double-precision value.
pub type Double = u64;

/// The bit pattern of single-precision positive infinity: the largest pattern
/// that is not negative and is a number.
pub const POSITIVE_INFINITY: Single = 0x7f80_0000;

/// The bit pattern of single-precision negative zero.
pub const NEGATIVE_ZERO: Single = 0x8000_0000;

/// The bit pattern of double-precision zero, from which every sum starts.
pub const ZERO: Double = 0;

/// Whether the value with this bit pattern compares greater than or equal to
/// zero: a positive number, positive infinity, or a zero of either sign. No
/// NaN does.
pub open spec fn is_nonnegative(bits: Single) -> bool {
    bits <= POSITIVE_INFINITY || bits == NEGATIVE_ZERO
}

/// Whether the value with this bit pattern compares greater than zero: as
/// `is_nonnegative`, with both zeros left out.
pub open spec fn is_positive(bits: Single) -> bool {
    0 < bits <= POSITIVE_INFINITY
}

/// Decides `is_nonnegative`.
pub fn nonnegative(bits: Single) -> (r: bool)
    ensures
        r == is_nonnegative(bits),
{
    bits <= POSITIVE_INFINITY || bits == NEGATIVE_ZERO
}

/// Decides `is_positive`.
pub fn positive(bits: Single) -> (r: bool)
    ensures
        r == is_positive(bits),
{
    0 < bits && bits <= POSITIVE_INFINITY
}

/// The six operations, as the caller supplies them.
pub struct Arithmetic<W, A, M, Q, N, C> {
    /// Single to double precision.
    pub widen: W,
    /// Sum of two doubles.
    pub add: A,
    /// Product of two doubles.
    pub mul: M,
    /// Quotient of two doubles, dividend first.
    pub div: Q,
    /// Double to single precision.
    pub narrow: N,
    /// A sample count as a double.
    pub count: C,
}

/// What the six operations compute, as mathematical functions on bit
/// patterns.
pub struct Model {
    pub widen: spec_fn(Single) -> Double,
    pub add: spec_fn(Double, Double) -> Double,
    pub mul: spec_fn(Double, Double) -> Double,
    pub div: spec_fn(Double, Double) -> Double,
    pub narrow: spec_fn(Double) -> Single,
    pub count: spec_fn(usize) -> Double,
}

impl<W, A, M, Q, N, C> Arithmetic<W, A, M, Q, N, C> where
    W: Fn(Single) -> Double,
    A: Fn(Double, Double) -> Double,
    M: Fn(Double, Double) -> Double,
    Q: Fn(Double, Double) -> Double,
    N: Fn(Double) -> Single,
    C: Fn(usize) -> Double,
 {
    /// Every operation may be called on every argument.
    pub open spec fn total(&self) -> bool {
        &&& forall|x: Single| call_requires(self.widen, (x,))
        &&& forall|x: Double, y: Double| call_requires(self.add, (x, y))
        &&& forall|x: Double, y: Double| call_requires(self.mul, (x, y))
        &&& forall|x: Double, y: Double| call_requires(self.div, (x, y))
        &&& forall|x: Double| call_requires(self.narrow, (x,))
        &&& forall|n: usize| call_requires(self.count, (n,))
    }

    /// Whatever an operation returns is what `m` says it is.
    pub open spec fn computes(&self, m: Model) -> bool {
        &&& forall|x: Single, r: Double| call_ensures(self.widen, (x,), r) ==> r == (m.widen)(x)
        &&& forall|x: Double, y: Double, r: Double|
            call_ensures(self.add, (x, y), r) ==> r == (m.add)(x, y)
        &&& forall|x: Double, y: Double, r: Double|
            call_ensures(self.mul, (x, y), r) ==> r == (m.mul)(x, y)
        &&& forall|x: Double, y: Double, r: Double|
            call_ensures(self.div, (x, y), r) ==> r == (m.div)(x, y)
        &&& forall|x: Double, r: Single| call_ensures(self.narrow, (x,), r) ==> r == (m.narrow)(x)
        &&& forall|n: usize, r: Double| call_ensures(self.count, (n,), r) ==> r == (m.count)(n)
    }
}

/// The sum of the chosen terms, taken from zero in the order of the sequence.
/// A term that is not chosen is passed over: nothing is added in its place.
pub open spec fn sum_of(m: Model, terms: Seq<Double>, chosen: Seq<bool>) -> Double
    recommends
        terms.len() == chosen.len(),
    decreases terms.len(),
{
    if terms.len() == 0 {
        ZERO
    } else {
        let before = sum_of(m, terms.drop_last(), chosen.drop_last());
        if chosen.last() {
            (m.add)(before, terms.last())
        } else {
            before
        }
    }
}

/// One more term either adds to the sum or leaves it as it was.
pub proof fn lemma_sum_of_step(m: Model, terms: Seq<Double>, chosen: Seq<bool>, k: int)
    requires
        0 <= k < terms.len(),
        terms.len() == chosen.len(),
    ensures
        sum_of(m, terms.take(k + 1), chosen.take(k + 1)) == if chosen[k] {
            (m.add)(sum_of(m, terms.take(k), chosen.take(k)), terms[k])
        } else {
            sum_of(m, terms.take(k), chosen.take(k))
        },
{
    assert(terms.take(k + 1).drop_last() == terms.take(k));
    assert(chosen.take(k + 1).drop_last() == chosen.take(k));
}

/// Where nothing is chosen, the sum is zero.
pub proof fn lemma_sum_of_none(m: Model, terms: Seq<Double>, chosen: Seq<bool>)
    requires
        terms.len() == chosen.len(),
        forall|k: int| 0 <= k < chosen.len() ==> !chosen[k],
    ensures
        sum_of(m, terms, chosen) == ZERO,
    decreases terms.len(),
{
    if terms.len() > 0 {
        lemma_sum_of_none(m, terms.drop_last(), chosen.drop_last());
    }
}

/// The sum of one term is that term added to zero, or zero where the term is
/// not chosen.
pub proof fn lemma_sum_of_one(m: Model, term: Double, chosen: bool)
    ensures
        sum_of(m, seq![term], seq![chosen]) == if chosen {
            (m.add)(ZERO, term)
        } else {
            ZERO
        },
{
    assert(seq![term].drop_last() =~= Seq::<Double>::empty());
    assert(seq![chosen].drop_last() =~= Seq::<bool>::empty());
    reveal_with_fuel(sum_of, 2);
}

/// The sum of two chosen terms is the second added to the first added to
/// zero.
pub proof fn lemma_sum_of_two(m: Model, first: Double, second: Double)
    ensures
        sum_of(m, seq![first, second], seq![true, true]) == (m.add)((m.add)(ZERO, first), second),
{
    assert(seq![first, second].drop_last() =~= seq![first]);
    assert(seq![true, true].drop_last() =~= seq![true]);
    lemma_sum_of_one(m, first, true);
}

} // verus!
