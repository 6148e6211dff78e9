//! The three cubes that hold visibility data: Jones matrices by time, channel
//! and baseline; weights and flags by time, channel, baseline and
//! polarisation.
//!
//! Each is an `ndarray` array that the library creates, reads and writes cell
//! by cell. What an array holds is known to the proofs only through the
//! contracts of the few calls made on it.

use crate::arithmetic::Single;
use crate::jones::Jones;
use vstd::prelude::*;

verus! {

/// An axis length, with the empty axis counted as one.
pub open spec fn nonzero(d: nat) -> nat {
    if d == 0 {
        1
    } else {
        d
    }
}

/// Whether an array of this shape, with cells of `cell_bytes` bytes, can be
/// made: the product of its non-zero axis lengths, and the bytes its cells
/// take, each fit in `isize`.
pub open spec fn shape_fits(t: nat, f: nat, b: nat, p: nat, cell_bytes: nat) -> bool {
    &&& nonzero(t) * nonzero(f) * nonzero(b) * nonzero(p) <= isize::MAX
    &&& t * f * b * p * cell_bytes <= isize::MAX
}

/// Bytes in a cell of a Jones cube: eight single-precision numbers.
pub const JONES_BYTES: usize = 32;

/// Bytes in a cell of a weight cube.
pub const WEIGHT_BYTES: usize = 4;

/// Bytes in a cell of a flag cube.
pub const FLAG_BYTES: usize = 1;

proof fn lemma_product_bounds(t: nat, f: nat, b: nat, p: nat)
    ensures
        t * f * b * p <= nonzero(t) * nonzero(f) * nonzero(b) * nonzero(p),
        nonzero(t) * nonzero(f) <= nonzero(t) * nonzero(f) * nonzero(b),
        nonzero(t) * nonzero(f) * nonzero(b) <= nonzero(t) * nonzero(f) * nonzero(b) * nonzero(p),
        nonzero(t) <= nonzero(t) * nonzero(f),
{
    assert(t * f * b * p <= nonzero(t) * nonzero(f) * nonzero(b) * nonzero(p)) by (nonlinear_arith)
        requires
            t <= nonzero(t),
            f <= nonzero(f),
            b <= nonzero(b),
            p <= nonzero(p),
    ;
    assert(nonzero(t) * nonzero(f) <= nonzero(t) * nonzero(f) * nonzero(b)) by (nonlinear_arith)
        requires
            nonzero(b) >= 1,
    ;
    assert(nonzero(t) * nonzero(f) * nonzero(b) <= nonzero(t) * nonzero(f) * nonzero(b) * nonzero(
        p,
    )) by (nonlinear_arith)
        requires
            nonzero(p) >= 1,
    ;
    assert(nonzero(t) <= nonzero(t) * nonzero(f)) by (nonlinear_arith)
        requires
            nonzero(f) >= 1,
    ;
}

fn at_least_one(d: usize) -> (r: usize)
    ensures
        r == nonzero(d as nat),
{
    if d == 0 {
        1
    } else {
        d
    }
}

/// Decides `shape_fits` without overflowing.
fn fits(t: usize, f: usize, b: usize, p: usize, cell_bytes: usize) -> (r: bool)
    ensures
        r == shape_fits(t as nat, f as nat, b as nat, p as nat, cell_bytes as nat),
{
    let limit: usize = isize::MAX as usize;
    proof {
        lemma_product_bounds(t as nat, f as nat, b as nat, p as nat);
    }
    let tf = match at_least_one(t).checked_mul(at_least_one(f)) {
        Some(v) => v,
        None => { return false; },
    };
    let tfb = match tf.checked_mul(at_least_one(b)) {
        Some(v) => v,
        None => { return false; },
    };
    let tfbp = match tfb.checked_mul(at_least_one(p)) {
        Some(v) => v,
        None => { return false; },
    };
    if tfbp > limit {
        return false;
    }
    let cells: usize = if t == 0 || f == 0 || b == 0 || p == 0 {
        proof {
            assert(t * f * b * p == 0) by (nonlinear_arith)
                requires
                    t == 0 || f == 0 || b == 0 || p == 0,
            ;
        }
        0
    } else {
        tfbp
    };
    match cells.checked_mul(cell_bytes) {
        Some(bytes) => bytes <= limit,
        None => false,
    }
}

/// The array behind a [`JonesCube`]: an `ndarray::Array3`, of which the proofs
/// see nothing but what the six items below say.
#[verifier::external_body]
pub struct JonesStore {
    cells: ndarray::Array3<Jones<Single>>,
}

/// The axis lengths of the array: times, channels, baselines.
pub uninterp spec fn jones_store_shape(s: JonesStore) -> (nat, nat, nat);

/// The cell at each index of the array.
pub uninterp spec fn jones_store_cells(s: JonesStore) -> Map<(int, int, int), Jones<Single>>;

/// `Array3::from_elem`: an array of the shape asked for, with `elem` in every
/// cell. The call panics on a shape that does not fit, which the
/// precondition leaves out.
#[verifier::external_body]
fn jones_store_from_elem(t: usize, f: usize, b: usize, elem: Jones<Single>) -> (r: JonesStore)
    requires
        shape_fits(t as nat, f as nat, b as nat, 1, JONES_BYTES as nat),
    ensures
        jones_store_shape(r) == (t as nat, f as nat, b as nat),
        forall|i: int, j: int, k: int|
            0 <= i < t && 0 <= j < f && 0 <= k < b ==> #[trigger] jones_store_cells(r)[(i, j, k)]
                == elem,
{
    JonesStore { cells: ndarray::Array3::from_elem((t, f, b), elem) }
}

/// `ArrayBase::dim`: the three axis lengths.
#[verifier::external_body]
fn jones_store_dim(s: &JonesStore) -> (r: (usize, usize, usize))
    ensures
        jones_store_shape(*s) == (r.0 as nat, r.1 as nat, r.2 as nat),
{
    s.cells.dim()
}

/// `ArrayBase`'s `Index` by a triple: the cell at that index. The call panics
/// on an index outside the array, which the precondition leaves out.
#[verifier::external_body]
fn jones_store_get(s: &JonesStore, t: usize, f: usize, b: usize) -> (r: Jones<Single>)
    requires
        t < jones_store_shape(*s).0,
        f < jones_store_shape(*s).1,
        b < jones_store_shape(*s).2,
    ensures
        r == jones_store_cells(*s)[(t as int, f as int, b as int)],
{
    s.cells[(t, f, b)]
}

/// Assignment through `ArrayBase`'s `IndexMut` by a triple: that cell takes
/// the value, the shape and every other cell stay. The call panics on an
/// index outside the array, which the precondition leaves out, and on no
/// other.
#[verifier::external_body]
fn jones_store_set(s: &mut JonesStore, t: usize, f: usize, b: usize, value: Jones<Single>)
    requires
        t < jones_store_shape(*old(s)).0,
        f < jones_store_shape(*old(s)).1,
        b < jones_store_shape(*old(s)).2,
    ensures
        jones_store_shape(*final(s)) == jones_store_shape(*old(s)),
        jones_store_cells(*final(s)) == jones_store_cells(*old(s)).insert(
            (t as int, f as int, b as int),
            value,
        ),
    no_unwind
{
    s.cells[(t, f, b)] = value;
}

/// A cube of Jones matrices, indexed by time, channel and baseline.
pub struct JonesCube {
    store: JonesStore,
}

impl JonesCube {
    #[verifier::type_invariant]
    spec fn admissible(self) -> bool {
        shape_fits(self.shape().0, self.shape().1, self.shape().2, 1, JONES_BYTES as nat)
    }

    /// The axis lengths: times, channels, baselines.
    pub closed spec fn shape(&self) -> (nat, nat, nat) {
        jones_store_shape(self.store)
    }

    /// The matrix at time `t`, channel `f` and baseline `b`.
    pub closed spec fn at(&self, t: int, f: int, b: int) -> Jones<Single> {
        jones_store_cells(self.store)[(t, f, b)]
    }

    /// A cube of the given shape with `elem` in every cell, or `None` where
    /// no array of that shape can be made.
    pub fn from_elem(shape: (usize, usize, usize), elem: Jones<Single>) -> (r: Option<Self>)
        ensures
            r is Some <==> shape_fits(
                shape.0 as nat,
                shape.1 as nat,
                shape.2 as nat,
                1,
                JONES_BYTES as nat,
            ),
            r matches Some(cube) ==> {
                &&& cube.shape() == (shape.0 as nat, shape.1 as nat, shape.2 as nat)
                &&& forall|t: int, f: int, b: int|
                    0 <= t < shape.0 && 0 <= f < shape.1 && 0 <= b < shape.2 ==> #[trigger] cube.at(
                        t,
                        f,
                        b,
                    ) == elem
            },
    {
        if fits(shape.0, shape.1, shape.2, 1, JONES_BYTES) {
            Some(JonesCube { store: jones_store_from_elem(shape.0, shape.1, shape.2, elem) })
        } else {
            None
        }
    }

    /// The axis lengths.
    pub fn dim(&self) -> (r: (usize, usize, usize))
        ensures
            self.shape() == (r.0 as nat, r.1 as nat, r.2 as nat),
            shape_fits(r.0 as nat, r.1 as nat, r.2 as nat, 1, JONES_BYTES as nat),
    {
        proof {
            use_type_invariant(self);
        }
        jones_store_dim(&self.store)
    }

    /// What the cube holds on baseline `b`, by time and channel.
    pub open spec fn baseline(&self, b: int) -> spec_fn(int, int) -> Jones<Single> {
        |t: int, f: int| self.at(t, f, b)
    }

    /// The matrix at an index inside the cube.
    pub fn get(&self, t: usize, f: usize, b: usize) -> (r: Jones<Single>)
        requires
            t < self.shape().0,
            f < self.shape().1,
            b < self.shape().2,
        ensures
            r == self.at(t as int, f as int, b as int),
    {
        jones_store_get(&self.store, t, f, b)
    }

    /// Writes one cell of the cube.
    pub fn set(&mut self, t: usize, f: usize, b: usize, value: Jones<Single>)
        requires
            t < old(self).shape().0,
            f < old(self).shape().1,
            b < old(self).shape().2,
        ensures
            final(self).shape() == old(self).shape(),
            final(self).at(t as int, f as int, b as int) == value,
            forall|i: int, j: int, k: int|
                (i, j, k) != (t as int, f as int, b as int) ==> #[trigger] final(self).at(i, j, k)
                    == old(self).at(i, j, k),
    {
        proof {
            use_type_invariant(&*self);
        }
        jones_store_set(&mut self.store, t, f, b, value);
    }
}

/// The array behind a [`WeightCube`]: an `ndarray::Array4`, of which the
/// proofs see nothing but what the six items below say.
#[verifier::external_body]
pub struct WeightStore {
    cells: ndarray::Array4<Single>,
}

/// The axis lengths of the array: times, channels, baselines, polarisations.
pub uninterp spec fn weight_store_shape(s: WeightStore) -> (nat, nat, nat, nat);

/// The cell at each index of the array.
pub uninterp spec fn weight_store_cells(s: WeightStore) -> Map<(int, int, int, int), Single>;

/// `Array4::from_elem`: an array of the shape asked for, with `elem` in every
/// cell. The call panics on a shape that does not fit, which the
/// precondition leaves out.
#[verifier::external_body]
fn weight_store_from_elem(t: usize, f: usize, b: usize, p: usize, elem: Single) -> (r: WeightStore)
    requires
        shape_fits(t as nat, f as nat, b as nat, p as nat, WEIGHT_BYTES as nat),
    ensures
        weight_store_shape(r) == (t as nat, f as nat, b as nat, p as nat),
        forall|i: int, j: int, k: int, l: int|
            0 <= i < t && 0 <= j < f && 0 <= k < b && 0 <= l < p ==> #[trigger] weight_store_cells(
                r,
            )[(i, j, k, l)] == elem,
{
    WeightStore { cells: ndarray::Array4::from_elem((t, f, b, p), elem) }
}

/// `ArrayBase::dim`: the four axis lengths.
#[verifier::external_body]
fn weight_store_dim(s: &WeightStore) -> (r: (usize, usize, usize, usize))
    ensures
        weight_store_shape(*s) == (r.0 as nat, r.1 as nat, r.2 as nat, r.3 as nat),
{
    s.cells.dim()
}

/// `ArrayBase`'s `Index` by a quadruple: the cell at that index. The call
/// panics on an index outside the array, which the precondition leaves out.
#[verifier::external_body]
fn weight_store_get(s: &WeightStore, t: usize, f: usize, b: usize, p: usize) -> (r: Single)
    requires
        t < weight_store_shape(*s).0,
        f < weight_store_shape(*s).1,
        b < weight_store_shape(*s).2,
        p < weight_store_shape(*s).3,
    ensures
        r == weight_store_cells(*s)[(t as int, f as int, b as int, p as int)],
{
    s.cells[(t, f, b, p)]
}

/// Assignment through `ArrayBase`'s `IndexMut` by a quadruple: that cell
/// takes the value, the shape and every other cell stay. The call panics on
/// an index outside the array, which the precondition leaves out, and on no
/// other.
#[verifier::external_body]
fn weight_store_set(s: &mut WeightStore, t: usize, f: usize, b: usize, p: usize, value: Single)
    requires
        t < weight_store_shape(*old(s)).0,
        f < weight_store_shape(*old(s)).1,
        b < weight_store_shape(*old(s)).2,
        p < weight_store_shape(*old(s)).3,
    ensures
        weight_store_shape(*final(s)) == weight_store_shape(*old(s)),
        weight_store_cells(*final(s)) == weight_store_cells(*old(s)).insert(
            (t as int, f as int, b as int, p as int),
            value,
        ),
    no_unwind
{
    s.cells[(t, f, b, p)] = value;
}

/// A cube of weights, indexed by time, channel, baseline and polarisation.
pub struct WeightCube {
    store: WeightStore,
}

impl WeightCube {
    #[verifier::type_invariant]
    spec fn admissible(self) -> bool {
        shape_fits(
            self.shape().0,
            self.shape().1,
            self.shape().2,
            self.shape().3,
            WEIGHT_BYTES as nat,
        )
    }

    /// The axis lengths: times, channels, baselines, polarisations.
    pub closed spec fn shape(&self) -> (nat, nat, nat, nat) {
        weight_store_shape(self.store)
    }

    /// The weight at time `t`, channel `f`, baseline `b` and polarisation `p`.
    pub closed spec fn at(&self, t: int, f: int, b: int, p: int) -> Single {
        weight_store_cells(self.store)[(t, f, b, p)]
    }

    /// A cube of the given shape with `elem` in every cell, or `None` where
    /// no array of that shape can be made.
    pub fn from_elem(shape: (usize, usize, usize, usize), elem: Single) -> (r: Option<Self>)
        ensures
            r is Some <==> shape_fits(
                shape.0 as nat,
                shape.1 as nat,
                shape.2 as nat,
                shape.3 as nat,
                WEIGHT_BYTES as nat,
            ),
            r matches Some(cube) ==> {
                &&& cube.shape() == (shape.0 as nat, shape.1 as nat, shape.2 as nat, shape.3 as nat)
                &&& forall|t: int, f: int, b: int, p: int|
                    0 <= t < shape.0 && 0 <= f < shape.1 && 0 <= b < shape.2 && 0 <= p < shape.3
                        ==> #[trigger] cube.at(t, f, b, p) == elem
            },
    {
        if fits(shape.0, shape.1, shape.2, shape.3, WEIGHT_BYTES) {
            Some(
                WeightCube {
                    store: weight_store_from_elem(shape.0, shape.1, shape.2, shape.3, elem),
                },
            )
        } else {
            None
        }
    }

    /// The axis lengths.
    pub fn dim(&self) -> (r: (usize, usize, usize, usize))
        ensures
            self.shape() == (r.0 as nat, r.1 as nat, r.2 as nat, r.3 as nat),
            shape_fits(r.0 as nat, r.1 as nat, r.2 as nat, r.3 as nat, WEIGHT_BYTES as nat),
    {
        proof {
            use_type_invariant(self);
        }
        weight_store_dim(&self.store)
    }

    /// The weight at an index inside the cube.
    pub fn get(&self, t: usize, f: usize, b: usize, p: usize) -> (r: Single)
        requires
            t < self.shape().0,
            f < self.shape().1,
            b < self.shape().2,
            p < self.shape().3,
        ensures
            r == self.at(t as int, f as int, b as int, p as int),
    {
        weight_store_get(&self.store, t, f, b, p)
    }

    /// Writes one cell of the cube.
    pub fn set(&mut self, t: usize, f: usize, b: usize, p: usize, value: Single)
        requires
            t < old(self).shape().0,
            f < old(self).shape().1,
            b < old(self).shape().2,
            p < old(self).shape().3,
        ensures
            final(self).shape() == old(self).shape(),
            final(self).at(t as int, f as int, b as int, p as int) == value,
            forall|i: int, j: int, k: int, l: int|
                (i, j, k, l) != (t as int, f as int, b as int, p as int)
                    ==> #[trigger] final(self).at(i, j, k, l) == old(self).at(i, j, k, l),
    {
        proof {
            use_type_invariant(&*self);
        }
        weight_store_set(&mut self.store, t, f, b, p, value);
    }

    /// The four weights at time `t`, channel `f` and baseline `b`, one for each
    /// polarisation.
    pub open spec fn sample(&self, t: int, f: int, b: int) -> [Single; 4] {
        [self.at(t, f, b, 0), self.at(t, f, b, 1), self.at(t, f, b, 2), self.at(t, f, b, 3)]
    }

    /// What the cube holds on baseline `b`, by time and channel.
    pub open spec fn baseline(&self, b: int) -> spec_fn(int, int) -> [Single; 4] {
        |t: int, f: int| self.sample(t, f, b)
    }

    /// Reads the four weights of one sample.
    pub fn get_sample(&self, t: usize, f: usize, b: usize) -> (r: [Single; 4])
        requires
            t < self.shape().0,
            f < self.shape().1,
            b < self.shape().2,
            self.shape().3 == 4,
        ensures
            r == self.sample(t as int, f as int, b as int),
    {
        [self.get(t, f, b, 0), self.get(t, f, b, 1), self.get(t, f, b, 2), self.get(t, f, b, 3)]
    }

    /// Writes the four weights of one sample.
    pub fn set_sample(&mut self, t: usize, f: usize, b: usize, value: [Single; 4])
        requires
            t < old(self).shape().0,
            f < old(self).shape().1,
            b < old(self).shape().2,
            old(self).shape().3 == 4,
        ensures
            final(self).shape() == old(self).shape(),
            final(self).sample(t as int, f as int, b as int) == value,
            forall|i: int, j: int, k: int|
                (i, j, k) != (t as int, f as int, b as int) ==> #[trigger] final(self).sample(i, j, k)
                    == old(self).sample(i, j, k),
    {
        self.set(t, f, b, 0, value[0]);
        self.set(t, f, b, 1, value[1]);
        self.set(t, f, b, 2, value[2]);
        self.set(t, f, b, 3, value[3]);
        proof {
            assert(self.sample(t as int, f as int, b as int) =~= value);
        }
    }
}

/// The array behind a [`FlagCube`]: an `ndarray::Array4`, of which the proofs
/// see nothing but what the six items below say.
#[verifier::external_body]
pub struct FlagStore {
    cells: ndarray::Array4<bool>,
}

/// The axis lengths of the array: times, channels, baselines, polarisations.
pub uninterp spec fn flag_store_shape(s: FlagStore) -> (nat, nat, nat, nat);

/// The cell at each index of the array.
pub uninterp spec fn flag_store_cells(s: FlagStore) -> Map<(int, int, int, int), bool>;

/// `Array4::from_elem`: an array of the shape asked for, with `elem` in every
/// cell. The call panics on a shape that does not fit, which the
/// precondition leaves out.
#[verifier::external_body]
fn flag_store_from_elem(t: usize, f: usize, b: usize, p: usize, elem: bool) -> (r: FlagStore)
    requires
        shape_fits(t as nat, f as nat, b as nat, p as nat, FLAG_BYTES as nat),
    ensures
        flag_store_shape(r) == (t as nat, f as nat, b as nat, p as nat),
        forall|i: int, j: int, k: int, l: int|
            0 <= i < t && 0 <= j < f && 0 <= k < b && 0 <= l < p ==> #[trigger] flag_store_cells(
                r,
            )[(i, j, k, l)] == elem,
{
    FlagStore { cells: ndarray::Array4::from_elem((t, f, b, p), elem) }
}

/// `ArrayBase::dim`: the four axis lengths.
#[verifier::external_body]
fn flag_store_dim(s: &FlagStore) -> (r: (usize, usize, usize, usize))
    ensures
        flag_store_shape(*s) == (r.0 as nat, r.1 as nat, r.2 as nat, r.3 as nat),
{
    s.cells.dim()
}

/// `ArrayBase`'s `Index` by a quadruple: the cell at that index. The call
/// panics on an index outside the array, which the precondition leaves out.
#[verifier::external_body]
fn flag_store_get(s: &FlagStore, t: usize, f: usize, b: usize, p: usize) -> (r: bool)
    requires
        t < flag_store_shape(*s).0,
        f < flag_store_shape(*s).1,
        b < flag_store_shape(*s).2,
        p < flag_store_shape(*s).3,
    ensures
        r == flag_store_cells(*s)[(t as int, f as int, b as int, p as int)],
{
    s.cells[(t, f, b, p)]
}

/// Assignment through `ArrayBase`'s `IndexMut` by a quadruple: that cell
/// takes the value, the shape and every other cell stay. The call panics on
/// an index outside the array, which the precondition leaves out, and on no
/// other.
#[verifier::external_body]
fn flag_store_set(s: &mut FlagStore, t: usize, f: usize, b: usize, p: usize, value: bool)
    requires
        t < flag_store_shape(*old(s)).0,
        f < flag_store_shape(*old(s)).1,
        b < flag_store_shape(*old(s)).2,
        p < flag_store_shape(*old(s)).3,
    ensures
        flag_store_shape(*final(s)) == flag_store_shape(*old(s)),
        flag_store_cells(*final(s)) == flag_store_cells(*old(s)).insert(
            (t as int, f as int, b as int, p as int),
            value,
        ),
    no_unwind
{
    s.cells[(t, f, b, p)] = value;
}

/// A cube of flags, indexed by time, channel, baseline and polarisation.
pub struct FlagCube {
    store: FlagStore,
}

impl FlagCube {
    #[verifier::type_invariant]
    spec fn admissible(self) -> bool {
        shape_fits(
            self.shape().0,
            self.shape().1,
            self.shape().2,
            self.shape().3,
            FLAG_BYTES as nat,
        )
    }

    /// The axis lengths: times, channels, baselines, polarisations.
    pub closed spec fn shape(&self) -> (nat, nat, nat, nat) {
        flag_store_shape(self.store)
    }

    /// The flag at time `t`, channel `f`, baseline `b` and polarisation `p`.
    pub closed spec fn at(&self, t: int, f: int, b: int, p: int) -> bool {
        flag_store_cells(self.store)[(t, f, b, p)]
    }

    /// A cube of the given shape with `elem` in every cell, or `None` where
    /// no array of that shape can be made.
    pub fn from_elem(shape: (usize, usize, usize, usize), elem: bool) -> (r: Option<Self>)
        ensures
            r is Some <==> shape_fits(
                shape.0 as nat,
                shape.1 as nat,
                shape.2 as nat,
                shape.3 as nat,
                FLAG_BYTES as nat,
            ),
            r matches Some(cube) ==> {
                &&& cube.shape() == (shape.0 as nat, shape.1 as nat, shape.2 as nat, shape.3 as nat)
                &&& forall|t: int, f: int, b: int, p: int|
                    0 <= t < shape.0 && 0 <= f < shape.1 && 0 <= b < shape.2 && 0 <= p < shape.3
                        ==> #[trigger] cube.at(t, f, b, p) == elem
            },
    {
        if fits(shape.0, shape.1, shape.2, shape.3, FLAG_BYTES) {
            Some(
                FlagCube {
                    store: flag_store_from_elem(shape.0, shape.1, shape.2, shape.3, elem),
                },
            )
        } else {
            None
        }
    }

    /// The axis lengths.
    pub fn dim(&self) -> (r: (usize, usize, usize, usize))
        ensures
            self.shape() == (r.0 as nat, r.1 as nat, r.2 as nat, r.3 as nat),
            shape_fits(r.0 as nat, r.1 as nat, r.2 as nat, r.3 as nat, FLAG_BYTES as nat),
    {
        proof {
            use_type_invariant(self);
        }
        flag_store_dim(&self.store)
    }

    /// The flag at an index inside the cube.
    pub fn get(&self, t: usize, f: usize, b: usize, p: usize) -> (r: bool)
        requires
            t < self.shape().0,
            f < self.shape().1,
            b < self.shape().2,
            p < self.shape().3,
        ensures
            r == self.at(t as int, f as int, b as int, p as int),
    {
        flag_store_get(&self.store, t, f, b, p)
    }

    /// Writes one cell of the cube.
    pub fn set(&mut self, t: usize, f: usize, b: usize, p: usize, value: bool)
        requires
            t < old(self).shape().0,
            f < old(self).shape().1,
            b < old(self).shape().2,
            p < old(self).shape().3,
        ensures
            final(self).shape() == old(self).shape(),
            final(self).at(t as int, f as int, b as int, p as int) == value,
            forall|i: int, j: int, k: int, l: int|
                (i, j, k, l) != (t as int, f as int, b as int, p as int)
                    ==> #[trigger] final(self).at(i, j, k, l) == old(self).at(i, j, k, l),
    {
        proof {
            use_type_invariant(&*self);
        }
        flag_store_set(&mut self.store, t, f, b, p, value);
    }

    /// The four flags at time `t`, channel `f` and baseline `b`, one for each
    /// polarisation.
    pub open spec fn sample(&self, t: int, f: int, b: int) -> [bool; 4] {
        [self.at(t, f, b, 0), self.at(t, f, b, 1), self.at(t, f, b, 2), self.at(t, f, b, 3)]
    }

    /// What the cube holds on baseline `b`, by time and channel.
    pub open spec fn baseline(&self, b: int) -> spec_fn(int, int) -> [bool; 4] {
        |t: int, f: int| self.sample(t, f, b)
    }

    /// Reads the four flags of one sample.
    pub fn get_sample(&self, t: usize, f: usize, b: usize) -> (r: [bool; 4])
        requires
            t < self.shape().0,
            f < self.shape().1,
            b < self.shape().2,
            self.shape().3 == 4,
        ensures
            r == self.sample(t as int, f as int, b as int),
    {
        [self.get(t, f, b, 0), self.get(t, f, b, 1), self.get(t, f, b, 2), self.get(t, f, b, 3)]
    }

    /// Writes the four flags of one sample.
    pub fn set_sample(&mut self, t: usize, f: usize, b: usize, value: [bool; 4])
        requires
            t < old(self).shape().0,
            f < old(self).shape().1,
            b < old(self).shape().2,
            old(self).shape().3 == 4,
        ensures
            final(self).shape() == old(self).shape(),
            final(self).sample(t as int, f as int, b as int) == value,
            forall|i: int, j: int, k: int|
                (i, j, k) != (t as int, f as int, b as int) ==> #[trigger] final(self).sample(i, j, k)
                    == old(self).sample(i, j, k),
    {
        self.set(t, f, b, 0, value[0]);
        self.set(t, f, b, 1, value[1]);
        self.set(t, f, b, 2, value[2]);
        self.set(t, f, b, 3, value[3]);
        proof {
            assert(self.sample(t as int, f as int, b as int) =~= value);
        }
    }
}

} // verus!
