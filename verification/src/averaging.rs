//! Averaging of a whole visibility cube in time and frequency.
//!
//! The time axis is cut into consecutive chunks of `avg_time` samples and the
//! channel axis into consecutive chunks of `avg_freq` samples; the last chunk
//! of an axis is shorter where the factor does not divide the axis length.
//! Each block of one time chunk and one channel chunk, on one baseline, is
//! reduced to one averaged sample.

use crate::arithmetic::{is_nonnegative, Arithmetic, Double, Model, Single, ZERO};
use crate::chunk::{
    average_chunk_for_pols_f64,
    chunk_average,
    chunk_flags,
    lemma_one_sample,
    ChunkAverage,
};
use crate::cube::{
    nonzero,
    shape_fits,
    FlagCube,
    JonesCube,
    WeightCube,
    FLAG_BYTES,
    JONES_BYTES,
    WEIGHT_BYTES,
};
use crate::jones::Jones;
use crate::text::{shape_text, shape_to_string};
use vstd::prelude::*;

verus! {

/// Why a cube was not averaged.
#[derive(Debug)]
pub enum AveragingError {
    /// A cube does not have the shape that the Jones cube calls for.
    BadArrayShape {
        /// The parameter that holds the cube.
        argument: String,
        /// The function that was handed it.
        function: String,
        /// The shape called for.
        expected: String,
        /// The shape of the cube that came.
        received: String,
    },
}

impl AveragingError {
    /// Whether this is the error for the cube in parameter `argument` of
    /// `average_visibilities`, of shape `received` where `expected` was
    /// called for.
    pub open spec fn is_bad_shape(
        self,
        argument: Seq<char>,
        expected: (nat, nat, nat, nat),
        received: (nat, nat, nat, nat),
    ) -> bool {
        match self {
            AveragingError::BadArrayShape { argument: a, function: f, expected: e, received: r } => {
                &&& a@ == argument
                &&& f@ == "average_visibilities"@
                &&& e@ == shape_text(expected.0, expected.1, expected.2, expected.3)
                &&& r@ == shape_text(received.0, received.1, received.2, received.3)
            },
        }
    }

    /// The text of the error, as a reader is shown it.
    pub open spec fn message_text(self) -> Seq<char> {
        match self {
            AveragingError::BadArrayShape { argument, function, expected, received } => {
                "bad array shape supplied to argument "@ + argument@ + " of function "@ + function@
                    + ". expected "@ + expected@ + ", received "@ + received@
            },
        }
    }

    /// Writes the error out as text.
    pub fn message(&self) -> (r: String)
        ensures
            r@ == self.message_text(),
    {
        match self {
            AveragingError::BadArrayShape { argument, function, expected, received } => {
                let mut out = String::from_str("bad array shape supplied to argument ");
                out.append(argument.as_str());
                out.append(" of function ");
                out.append(function.as_str());
                out.append(". expected ");
                out.append(expected.as_str());
                out.append(", received ");
                out.append(received.as_str());
                out
            },
        }
    }
}

/// The error for a cube of the wrong shape.
fn bad_shape(
    argument: &'static str,
    expected: (usize, usize, usize, usize),
    received: (usize, usize, usize, usize),
) -> (e: AveragingError)
    ensures
        e.is_bad_shape(
            argument@,
            (expected.0 as nat, expected.1 as nat, expected.2 as nat, expected.3 as nat),
            (received.0 as nat, received.1 as nat, received.2 as nat, received.3 as nat),
        ),
{
    AveragingError::BadArrayShape {
        argument: String::from_str(argument),
        function: String::from_str("average_visibilities"),
        expected: shape_to_string(expected.0, expected.1, expected.2, expected.3),
        received: shape_to_string(received.0, received.1, received.2, received.3),
    }
}

/// The number of chunks of `factor` samples that cover an axis of `len`
/// samples: `len / factor`, rounded up.
pub open spec fn chunk_count(len: nat, factor: nat) -> nat
    recommends
        factor > 0,
{
    ((len + factor - 1) / (factor as int)) as nat
}

/// The first sample of chunk `i`.
pub open spec fn chunk_start(i: int, factor: nat) -> int {
    i * factor
}

/// One past the last sample of chunk `i`: a whole chunk further on, or the end
/// of the axis where that comes first.
pub open spec fn chunk_end(i: int, factor: nat, len: nat) -> int {
    if (i + 1) * factor < len {
        (i + 1) * factor
    } else {
        len as int
    }
}

/// The chunk count is the least number of chunks that reaches the end of the
/// axis.
pub proof fn lemma_chunk_count_is_ceiling(len: nat, factor: nat)
    requires
        factor > 0,
    ensures
        chunk_count(len, factor) * factor >= len,
        len > 0 ==> (chunk_count(len, factor) - 1) * factor < len,
        len == 0 <==> chunk_count(len, factor) == 0,
        chunk_count(len, factor) <= len,
{
    let n = (len + factor - 1) / (factor as int);
    let r = (len + factor - 1) % (factor as int);
    assert(len + factor - 1 == n * factor + r && 0 <= r < factor && n >= 0) by (nonlinear_arith)
        requires
            factor > 0,
            n == (len + factor - 1) / (factor as int),
            r == (len + factor - 1) % (factor as int),
    ;
    assert(n * factor - factor == (n - 1) * factor) by (nonlinear_arith);
    if len > 0 {
        assert(n >= 1) by (nonlinear_arith)
            requires
                n * factor + r == len + factor - 1,
                r < factor,
                len > 0,
                factor > 0,
        ;
        assert(n <= len) by (nonlinear_arith)
            requires
                n * factor + r == len + factor - 1,
                0 <= r,
                len > 0,
                factor >= 1,
                n >= 1,
        ;
    } else {
        assert(n == 0) by (nonlinear_arith)
            requires
                n * factor + r == factor - 1,
                0 <= r,
                n >= 0,
                factor > 0,
        ;
    }
}

/// Every chunk is non-empty, lies inside the axis, and starts where the one
/// before it ends; the first starts at the first sample and the last ends at
/// the end of the axis.
pub proof fn lemma_chunks_tile(len: nat, factor: nat, i: int)
    requires
        factor > 0,
        0 <= i < chunk_count(len, factor),
    ensures
        0 <= chunk_start(i, factor) < chunk_end(i, factor, len) <= len,
        chunk_end(i, factor, len) - chunk_start(i, factor) <= factor,
        chunk_end(i, factor, len) - chunk_start(i, factor) < factor ==> i == chunk_count(len, factor) - 1,
        i + 1 < chunk_count(len, factor) ==> chunk_end(i, factor, len) == chunk_start(i + 1, factor),
        i + 1 == chunk_count(len, factor) ==> chunk_end(i, factor, len) == len,
        chunk_start(0, factor) == 0,
{
    lemma_chunk_count_is_ceiling(len, factor);
    let n = chunk_count(len, factor) as int;
    assert(i * factor <= (n - 1) * factor) by (nonlinear_arith)
        requires
            i <= n - 1,
            factor > 0,
    ;
    assert((i + 1) * factor == i * factor + factor) by (nonlinear_arith);
    assert(i * factor >= 0) by (nonlinear_arith)
        requires
            i >= 0,
            factor > 0,
    ;
    if i + 1 < n {
        assert((i + 1) * factor <= (n - 1) * factor) by (nonlinear_arith)
            requires
                i + 1 <= n - 1,
                factor > 0,
        ;
    } else {
        assert((i + 1) * factor == n * factor);
    }
}

/// Every sample of the axis lies in exactly one chunk: the one numbered by
/// the sample's index divided by the factor.
pub proof fn lemma_sample_in_one_chunk(len: nat, factor: nat, t: int, i: int)
    requires
        factor > 0,
        0 <= t < len,
        0 <= i < chunk_count(len, factor),
    ensures
        0 <= t / (factor as int) < chunk_count(len, factor),
        chunk_start(i, factor) <= t < chunk_end(i, factor, len) <==> i == t / (factor as int),
{
    lemma_chunk_count_is_ceiling(len, factor);
    lemma_chunks_tile(len, factor, i);
    let n = chunk_count(len, factor) as int;
    let q = t / (factor as int);
    let r = t % (factor as int);
    assert(t == q * factor + r && 0 <= r < factor && q >= 0) by (nonlinear_arith)
        requires
            factor > 0,
            t >= 0,
            q == t / (factor as int),
            r == t % (factor as int),
    ;
    if q >= n {
        assert(q * factor >= n * factor) by (nonlinear_arith)
            requires
                q >= n,
                factor > 0,
        ;
    }
    assert((i + 1) * factor == i * factor + factor) by (nonlinear_arith);
    if i == q {
    } else if i < q {
        assert((i + 1) * factor <= q * factor) by (nonlinear_arith)
            requires
                i + 1 <= q,
                factor > 0,
        ;
    } else {
        assert(i * factor >= (q + 1) * factor) by (nonlinear_arith)
            requires
                i >= q + 1,
                factor > 0,
        ;
        assert((q + 1) * factor == q * factor + factor) by (nonlinear_arith);
    }
}

/// Counts the chunks of an axis.
pub fn count_chunks(len: usize, factor: usize) -> (n: usize)
    requires
        factor > 0,
    ensures
        n == chunk_count(len as nat, factor as nat),
{
    let whole = len / factor;
    let rest = len % factor;
    proof {
        let l = len as int;
        let f = factor as int;
        assert(l == whole * f + rest) by (nonlinear_arith)
            requires
                f > 0,
                l >= 0,
                whole == l / f,
                rest == l % f,
        ;
        if rest == 0 {
            assert((whole * f + f - 1) / f == whole) by (nonlinear_arith)
                requires
                    f > 0,
            ;
        } else {
            assert((whole * f + rest + f - 1) / f == whole + 1) by (nonlinear_arith)
                requires
                    f > 0,
                    0 < rest < f,
            ;
            lemma_chunk_count_is_ceiling(len as nat, factor as nat);
        }
    }
    if rest == 0 {
        whole
    } else {
        whole + 1
    }
}

/// The bounds of chunk `i` of an axis.
pub fn chunk_bounds(i: usize, factor: usize, len: usize) -> (r: (usize, usize))
    requires
        factor > 0,
        i < chunk_count(len as nat, factor as nat),
    ensures
        r.0 == chunk_start(i as int, factor as nat),
        r.1 == chunk_end(i as int, factor as nat, len as nat),
{
    proof {
        lemma_chunks_tile(len as nat, factor as nat, i as int);
        assert((i + 1) * factor == i * factor + factor) by (nonlinear_arith);
    }
    let start = i * factor;
    let end = if len - start > factor {
        start + factor
    } else {
        len
    };
    (start, end)
}

/// The samples of one time between two channels, in channel order.
pub open spec fn row<T>(cell: spec_fn(int, int) -> T, t: int, f0: int, f1: int) -> Seq<T> {
    Seq::new((f1 - f0) as nat, |i: int| cell(t, f0 + i))
}

/// The samples of a block of times and channels: time by time, and within a
/// time in channel order.
pub open spec fn block<T>(cell: spec_fn(int, int) -> T, t0: int, t1: int, f0: int, f1: int) -> Seq<T>
    decreases t1 - t0,
{
    if t1 <= t0 {
        Seq::empty()
    } else {
        block(cell, t0, t1 - 1, f0, f1) + row(cell, t1 - 1, f0, f1)
    }
}

/// A block holds one sample for each of its times and channels.
pub proof fn lemma_block_len<T>(cell: spec_fn(int, int) -> T, t0: int, t1: int, f0: int, f1: int)
    requires
        t0 <= t1,
        f0 <= f1,
    ensures
        block(cell, t0, t1, f0, f1).len() == (t1 - t0) * (f1 - f0),
    decreases t1 - t0,
{
    if t1 > t0 {
        lemma_block_len(cell, t0, t1 - 1, f0, f1);
        assert((t1 - 1 - t0) * (f1 - f0) + (f1 - f0) == (t1 - t0) * (f1 - f0)) by (nonlinear_arith);
    } else {
        assert((t1 - t0) * (f1 - f0) == 0) by (nonlinear_arith)
            requires
                t1 - t0 == 0,
        ;
    }
}

/// Reads one block of the three cubes on one baseline.
fn gather_block(
    jones: &JonesCube,
    weights: &WeightCube,
    flags: &FlagCube,
    t0: usize,
    t1: usize,
    f0: usize,
    f1: usize,
    b: usize,
) -> (r: (Vec<Jones<Single>>, Vec<[Single; 4]>, Vec<[bool; 4]>))
    requires
        weights.shape() == (jones.shape().0, jones.shape().1, jones.shape().2, 4nat),
        flags.shape() == weights.shape(),
        t0 <= t1 <= jones.shape().0,
        f0 <= f1 <= jones.shape().1,
        b < jones.shape().2,
    ensures
        r.0@ == block(jones.baseline(b as int), t0 as int, t1 as int, f0 as int, f1 as int),
        r.1@ == block(weights.baseline(b as int), t0 as int, t1 as int, f0 as int, f1 as int),
        r.2@ == block(flags.baseline(b as int), t0 as int, t1 as int, f0 as int, f1 as int),
        r.1@.len() == r.0@.len(),
        r.2@.len() == r.0@.len(),
{
    let ghost jc = jones.baseline(b as int);
    let ghost wc = weights.baseline(b as int);
    let ghost fc = flags.baseline(b as int);
    let mut js: Vec<Jones<Single>> = Vec::new();
    let mut ws: Vec<[Single; 4]> = Vec::new();
    let mut fs: Vec<[bool; 4]> = Vec::new();
    let mut t = t0;
    while t < t1
        invariant
            weights.shape() == (jones.shape().0, jones.shape().1, jones.shape().2, 4nat),
            flags.shape() == weights.shape(),
            t0 <= t <= t1 <= jones.shape().0,
            f0 <= f1 <= jones.shape().1,
            b < jones.shape().2,
            jc == jones.baseline(b as int),
            wc == weights.baseline(b as int),
            fc == flags.baseline(b as int),
            js@ == block(jc, t0 as int, t as int, f0 as int, f1 as int),
            ws@ == block(wc, t0 as int, t as int, f0 as int, f1 as int),
            fs@ == block(fc, t0 as int, t as int, f0 as int, f1 as int),
        decreases t1 - t,
    {
        let ghost js_before = js@;
        let ghost ws_before = ws@;
        let ghost fs_before = fs@;
        let mut f = f0;
        proof {
            assert(js@ =~= js_before + row(jc, t as int, f0 as int, f0 as int));
            assert(ws@ =~= ws_before + row(wc, t as int, f0 as int, f0 as int));
            assert(fs@ =~= fs_before + row(fc, t as int, f0 as int, f0 as int));
        }
        while f < f1
            invariant
                weights.shape() == (jones.shape().0, jones.shape().1, jones.shape().2, 4nat),
                flags.shape() == weights.shape(),
                t < t1 <= jones.shape().0,
                f0 <= f <= f1 <= jones.shape().1,
                b < jones.shape().2,
                jc == jones.baseline(b as int),
                wc == weights.baseline(b as int),
                fc == flags.baseline(b as int),
                js@ == js_before + row(jc, t as int, f0 as int, f as int),
                ws@ == ws_before + row(wc, t as int, f0 as int, f as int),
                fs@ == fs_before + row(fc, t as int, f0 as int, f as int),
            decreases f1 - f,
        {
            js.push(jones.get(t, f, b));
            ws.push(weights.get_sample(t, f, b));
            fs.push(flags.get_sample(t, f, b));
            proof {
                assert(js@ =~= js_before + row(jc, t as int, f0 as int, f + 1));
                assert(ws@ =~= ws_before + row(wc, t as int, f0 as int, f + 1));
                assert(fs@ =~= fs_before + row(fc, t as int, f0 as int, f + 1));
            }
            f += 1;
        }
        t += 1;
    }
    proof {
        lemma_block_len(jc, t0 as int, t1 as int, f0 as int, f1 as int);
        lemma_block_len(wc, t0 as int, t1 as int, f0 as int, f1 as int);
        lemma_block_len(fc, t0 as int, t1 as int, f0 as int, f1 as int);
    }
    (js, ws, fs)
}

/// An averaged Jones cube with its weight cube and its flag cube.
pub type VisData344 = (JonesCube, WeightCube, FlagCube);

/// What is averaged: the three cubes and the two factors.
pub struct Input {
    pub jones: JonesCube,
    pub weights: WeightCube,
    pub flags: FlagCube,
    pub avg_time: nat,
    pub avg_freq: nat,
}

impl Input {
    /// The shape that the weight cube and the flag cube must have: the three
    /// axes of the Jones cube, and a fourth of length four.
    pub open spec fn expected_shape(self) -> (nat, nat, nat, nat) {
        (self.jones.shape().0, self.jones.shape().1, self.jones.shape().2, 4nat)
    }

    /// The shape of the averaged Jones cube: both averaged axes divided by
    /// their factor and rounded up, the baseline axis as it was.
    pub open spec fn averaged_shape(self) -> (nat, nat, nat) {
        (
            chunk_count(self.jones.shape().0, self.avg_time),
            chunk_count(self.jones.shape().1, self.avg_freq),
            self.jones.shape().2,
        )
    }

    /// The samples of block `(i, j)` on the baseline that `cell` reads.
    pub open spec fn block_of<T>(self, cell: spec_fn(int, int) -> T, i: int, j: int) -> Seq<T> {
        block(
            cell,
            chunk_start(i, self.avg_time),
            chunk_end(i, self.avg_time, self.jones.shape().0),
            chunk_start(j, self.avg_freq),
            chunk_end(j, self.avg_freq, self.jones.shape().1),
        )
    }

    /// What block `(i, j)` on baseline `b` averages to in the arithmetic `m`.
    pub open spec fn block_average(self, m: Model, i: int, j: int, b: int) -> ChunkAverage {
        chunk_average(
            m,
            self.block_of(self.jones.baseline(b), i, j),
            self.block_of(self.weights.baseline(b), i, j),
            self.block_of(self.flags.baseline(b), i, j),
        )
    }

    /// The flags of the average of block `(i, j)` on baseline `b`, which no
    /// arithmetic enters into.
    pub open spec fn block_flags(self, i: int, j: int, b: int) -> [bool; 4] {
        chunk_flags(
            self.block_of(self.weights.baseline(b), i, j),
            self.block_of(self.flags.baseline(b), i, j),
        )
    }
}

/// Whether the three cubes have the shapes of an average whose Jones cube has
/// the shape `shape`.
pub open spec fn has_shape(out: VisData344, shape: (nat, nat, nat)) -> bool {
    &&& out.0.shape() == shape
    &&& out.1.shape() == (shape.0, shape.1, shape.2, 4nat)
    &&& out.2.shape() == (shape.0, shape.1, shape.2, 4nat)
}

/// Whether `(i, j, b)` is a cell of the cubes.
pub open spec fn is_cell(out: VisData344, i: int, j: int, b: int) -> bool {
    0 <= i < out.0.shape().0 && 0 <= j < out.0.shape().1 && 0 <= b < out.0.shape().2
}

/// Whether cell `(i, j, b)` of the three cubes holds `average`.
pub open spec fn holds(out: VisData344, i: int, j: int, b: int, average: ChunkAverage) -> bool {
    &&& out.0.at(i, j, b) == average.jones
    &&& out.1.sample(i, j, b) == average.weights
    &&& out.2.sample(i, j, b) == average.flags
}

/// Whether cell `(i, j, b)` comes before cell `(i1, j1, b1)` in the order in
/// which the cells are written: time chunk by time chunk, within that channel
/// chunk by channel chunk, within that baseline by baseline.
pub open spec fn before(i: int, j: int, b: int, i1: int, j1: int, b1: int) -> bool {
    i < i1 || (i == i1 && (j < j1 || (j == j1 && b < b1)))
}

/// Whether every cell before `(i1, j1, b1)` holds the average of its block in
/// the arithmetic `m`.
pub open spec fn averaged_before(
    m: Model,
    out: VisData344,
    input: Input,
    i1: int,
    j1: int,
    b1: int,
) -> bool {
    forall|i: int, j: int, b: int|
        is_cell(out, i, j, b) && before(i, j, b, i1, j1, b1) ==> #[trigger] holds(
            out,
            i,
            j,
            b,
            input.block_average(m, i, j, b),
        )
}

/// Whether every cell before `(i1, j1, b1)` holds the flags of its block.
pub open spec fn flagged_before(out: VisData344, input: Input, i1: int, j1: int, b1: int) -> bool {
    forall|i: int, j: int, b: int|
        is_cell(out, i, j, b) && before(i, j, b, i1, j1, b1) ==> #[trigger] out.2.sample(i, j, b)
            == input.block_flags(i, j, b)
}

/// Whether the three cubes are the average of the input in the arithmetic
/// `m`: every cell holds the average of its block.
pub open spec fn is_average(m: Model, out: VisData344, input: Input) -> bool {
    averaged_before(m, out, input, out.0.shape().0 as int, 0, 0)
}

/// Whether every cell of the flag cube holds the flags of its block.
pub open spec fn is_flagged(out: VisData344, input: Input) -> bool {
    flagged_before(out, input, out.0.shape().0 as int, 0, 0)
}

/// Whether two sets of cubes differ in cell `(i, j, b)` at most.
pub open spec fn same_elsewhere(out: VisData344, old_out: VisData344, i: int, j: int, b: int) -> bool {
    forall|i2: int, j2: int, b2: int|
        (i2, j2, b2) != (i, j, b) ==> {
            &&& #[trigger] out.0.at(i2, j2, b2) == old_out.0.at(i2, j2, b2)
            &&& out.1.sample(i2, j2, b2) == old_out.1.sample(i2, j2, b2)
            &&& out.2.sample(i2, j2, b2) == old_out.2.sample(i2, j2, b2)
        }
}

/// An averaged shape fits wherever the shape it was averaged from does.
proof fn lemma_averaged_shape_fits(
    t: nat,
    f: nat,
    b: nat,
    p: nat,
    cell_bytes: nat,
    avg_time: nat,
    avg_freq: nat,
)
    requires
        avg_time > 0,
        avg_freq > 0,
        shape_fits(t, f, b, p, cell_bytes),
    ensures
        shape_fits(chunk_count(t, avg_time), chunk_count(f, avg_freq), b, p, cell_bytes),
{
    lemma_chunk_count_is_ceiling(t, avg_time);
    lemma_chunk_count_is_ceiling(f, avg_freq);
    let nt = chunk_count(t, avg_time);
    let nf = chunk_count(f, avg_freq);
    assert(nonzero(nt) * nonzero(nf) * nonzero(b) * nonzero(p) <= nonzero(t) * nonzero(f)
        * nonzero(b) * nonzero(p)) by (nonlinear_arith)
        requires
            1 <= nonzero(nt) <= nonzero(t),
            1 <= nonzero(nf) <= nonzero(f),
            1 <= nonzero(b),
            1 <= nonzero(p),
    ;
    assert(nt * nf * b * p * cell_bytes <= t * f * b * p * cell_bytes) by (nonlinear_arith)
        requires
            nt <= t,
            nf <= f,
    ;
}

/// Once cell `(i, j, b)` is written, every cell before the next one holds its
/// average.
proof fn lemma_cell_written(
    m: Model,
    out: VisData344,
    old_out: VisData344,
    input: Input,
    i: int,
    j: int,
    b: int,
)
    requires
        has_shape(old_out, out.0.shape()),
        averaged_before(m, old_out, input, i, j, b),
        same_elsewhere(out, old_out, i, j, b),
        holds(out, i, j, b, input.block_average(m, i, j, b)),
    ensures
        averaged_before(m, out, input, i, j, b + 1),
{
    assert forall|i2: int, j2: int, b2: int|
        is_cell(out, i2, j2, b2) && before(i2, j2, b2, i, j, b + 1) implies #[trigger] holds(
        out,
        i2,
        j2,
        b2,
        input.block_average(m, i2, j2, b2),
    ) by {
        if (i2, j2, b2) != (i, j, b) {
            assert(holds(old_out, i2, j2, b2, input.block_average(m, i2, j2, b2)));
            assert(out.0.at(i2, j2, b2) == old_out.0.at(i2, j2, b2));
        }
    }
}

/// Once cell `(i, j, b)` is written, every cell before the next one holds its
/// flags.
proof fn lemma_flags_written(out: VisData344, old_out: VisData344, input: Input, i: int, j: int, b: int)
    requires
        has_shape(old_out, out.0.shape()),
        flagged_before(old_out, input, i, j, b),
        same_elsewhere(out, old_out, i, j, b),
        out.2.sample(i, j, b) == input.block_flags(i, j, b),
    ensures
        flagged_before(out, input, i, j, b + 1),
{
    assert forall|i2: int, j2: int, b2: int|
        is_cell(out, i2, j2, b2) && before(i2, j2, b2, i, j, b + 1) implies #[trigger] out.2.sample(
        i2,
        j2,
        b2,
    ) == input.block_flags(i2, j2, b2) by {
        if (i2, j2, b2) != (i, j, b) {
            assert(old_out.2.sample(i2, j2, b2) == input.block_flags(i2, j2, b2));
            assert(out.0.at(i2, j2, b2) == old_out.0.at(i2, j2, b2));
        }
    }
}

/// Writes one averaged sample into its cell of the three cubes.
fn write_cell(
    out_jones: &mut JonesCube,
    out_weights: &mut WeightCube,
    out_flags: &mut FlagCube,
    i: usize,
    j: usize,
    b: usize,
    average: ChunkAverage,
)
    requires
        has_shape((*old(out_jones), *old(out_weights), *old(out_flags)), old(out_jones).shape()),
        is_cell((*old(out_jones), *old(out_weights), *old(out_flags)), i as int, j as int, b as int),
    ensures
        has_shape((*final(out_jones), *final(out_weights), *final(out_flags)), old(out_jones).shape()),
        holds(
            (*final(out_jones), *final(out_weights), *final(out_flags)),
            i as int,
            j as int,
            b as int,
            average,
        ),
        same_elsewhere(
            (*final(out_jones), *final(out_weights), *final(out_flags)),
            (*old(out_jones), *old(out_weights), *old(out_flags)),
            i as int,
            j as int,
            b as int,
        ),
{
    out_jones.set(i, j, b, average.jones);
    out_weights.set_sample(i, j, b, average.weights);
    out_flags.set_sample(i, j, b, average.flags);
}

/// Averages a visibility cube, with its weights and flags, in time and in
/// frequency.
///
/// `jones_array` is indexed by time, channel and baseline; `weight_array` and
/// `flag_array` by time, channel, baseline and polarisation, and must have
/// the three axes of `jones_array` and a fourth of length four. `avg_time` and
/// `avg_freq` are the numbers of times and of channels that go into one
/// averaged sample.
///
/// The weight cube is looked at first, then the flag cube; the first with
/// another shape is reported, and nothing is averaged. Else each block is
/// averaged as `average_chunk_for_pols_f64` says, and the three cubes of the
/// averages are returned.
pub fn average_visibilities<W, A, M, Q, N, C>(
    jones_array: &JonesCube,
    weight_array: &WeightCube,
    flag_array: &FlagCube,
    avg_time: usize,
    avg_freq: usize,
    ops: &Arithmetic<W, A, M, Q, N, C>,
) -> (r: Result<VisData344, AveragingError>) where
    W: Fn(Single) -> Double,
    A: Fn(Double, Double) -> Double,
    M: Fn(Double, Double) -> Double,
    Q: Fn(Double, Double) -> Double,
    N: Fn(Double) -> Single,
    C: Fn(usize) -> Double,

    requires
        ops.total(),
        avg_time > 0,
        avg_freq > 0,
    ensures
        ({
            let input = Input {
                jones: *jones_array,
                weights: *weight_array,
                flags: *flag_array,
                avg_time: avg_time as nat,
                avg_freq: avg_freq as nat,
            };
            match r {
                Ok(averaged) => {
                    &&& weight_array.shape() == input.expected_shape()
                    &&& flag_array.shape() == input.expected_shape()
                    &&& has_shape(averaged, input.averaged_shape())
                    &&& is_flagged(averaged, input)
                    &&& forall|m: Model| #[trigger] ops.computes(m) ==> is_average(m, averaged, input)
                },
                Err(e) => {
                    if weight_array.shape() != input.expected_shape() {
                        e.is_bad_shape("weight_array"@, input.expected_shape(), weight_array.shape())
                    } else {
                        &&& flag_array.shape() != input.expected_shape()
                        &&& e.is_bad_shape("flag_array"@, input.expected_shape(), flag_array.shape())
                    }
                },
            }
        }),
{
    let jones_dims = jones_array.dim();
    let expected = (jones_dims.0, jones_dims.1, jones_dims.2, 4usize);
    let weight_dims = weight_array.dim();
    if weight_dims.0 != expected.0 || weight_dims.1 != expected.1 || weight_dims.2 != expected.2
        || weight_dims.3 != expected.3 {
        return Err(bad_shape("weight_array", expected, weight_dims));
    }
    let flag_dims = flag_array.dim();
    if flag_dims.0 != expected.0 || flag_dims.1 != expected.1 || flag_dims.2 != expected.2
        || flag_dims.3 != expected.3 {
        return Err(bad_shape("flag_array", expected, flag_dims));
    }
    let (times, channels, baselines) = jones_dims;
    let ghost input = Input {
        jones: *jones_array,
        weights: *weight_array,
        flags: *flag_array,
        avg_time: avg_time as nat,
        avg_freq: avg_freq as nat,
    };
    let nt = count_chunks(times, avg_time);
    let nf = count_chunks(channels, avg_freq);
    proof {
        let (t, f, b) = (times as nat, channels as nat, baselines as nat);
        lemma_averaged_shape_fits(t, f, b, 1, JONES_BYTES as nat, input.avg_time, input.avg_freq);
        lemma_averaged_shape_fits(t, f, b, 4, WEIGHT_BYTES as nat, input.avg_time, input.avg_freq);
        lemma_averaged_shape_fits(t, f, b, 4, FLAG_BYTES as nat, input.avg_time, input.avg_freq);
    }
    let mut out_jones = JonesCube::from_elem((nt, nf, baselines), Jones::splat(0)).unwrap();
    let mut out_weights = WeightCube::from_elem((nt, nf, baselines, 4), 0).unwrap();
    let mut out_flags = FlagCube::from_elem((nt, nf, baselines, 4), false).unwrap();
    let mut i: usize = 0;
    while i < nt
        invariant
            ops.total(),
            avg_time > 0,
            avg_freq > 0,
            input.jones == *jones_array,
            input.weights == *weight_array,
            input.flags == *flag_array,
            input.avg_time == avg_time,
            input.avg_freq == avg_freq,
            jones_array.shape() == (times as nat, channels as nat, baselines as nat),
            weight_array.shape() == input.expected_shape(),
            flag_array.shape() == input.expected_shape(),
            input.averaged_shape() == (nt as nat, nf as nat, baselines as nat),
            has_shape((out_jones, out_weights, out_flags), input.averaged_shape()),
            i <= nt,
            flagged_before((out_jones, out_weights, out_flags), input, i as int, 0, 0),
            forall|m: Model| #[trigger]
                ops.computes(m) ==> averaged_before(
                    m,
                    (out_jones, out_weights, out_flags),
                    input,
                    i as int,
                    0,
                    0,
                ),
        decreases nt - i,
    {
        let (t0, t1) = chunk_bounds(i, avg_time, times);
        proof {
            lemma_chunks_tile(times as nat, input.avg_time, i as int);
        }
        let mut j: usize = 0;
        while j < nf
            invariant
                ops.total(),
                avg_time > 0,
                avg_freq > 0,
                input.jones == *jones_array,
                input.weights == *weight_array,
                input.flags == *flag_array,
                input.avg_time == avg_time,
                input.avg_freq == avg_freq,
                jones_array.shape() == (times as nat, channels as nat, baselines as nat),
                weight_array.shape() == input.expected_shape(),
                flag_array.shape() == input.expected_shape(),
                input.averaged_shape() == (nt as nat, nf as nat, baselines as nat),
                has_shape((out_jones, out_weights, out_flags), input.averaged_shape()),
                i < nt,
                j <= nf,
                t0 == chunk_start(i as int, input.avg_time),
                t1 == chunk_end(i as int, input.avg_time, times as nat),
                t0 <= t1 <= times,
                flagged_before((out_jones, out_weights, out_flags), input, i as int, j as int, 0),
                forall|m: Model| #[trigger]
                    ops.computes(m) ==> averaged_before(
                        m,
                        (out_jones, out_weights, out_flags),
                        input,
                        i as int,
                        j as int,
                        0,
                    ),
            decreases nf - j,
        {
            let (f0, f1) = chunk_bounds(j, avg_freq, channels);
            proof {
                lemma_chunks_tile(channels as nat, input.avg_freq, j as int);
            }
            let mut b: usize = 0;
            while b < baselines
                invariant
                    ops.total(),
                    input.jones == *jones_array,
                    input.weights == *weight_array,
                    input.flags == *flag_array,
                    input.avg_time == avg_time,
                    input.avg_freq == avg_freq,
                    jones_array.shape() == (times as nat, channels as nat, baselines as nat),
                    weight_array.shape() == input.expected_shape(),
                    flag_array.shape() == input.expected_shape(),
                    input.averaged_shape() == (nt as nat, nf as nat, baselines as nat),
                    has_shape((out_jones, out_weights, out_flags), input.averaged_shape()),
                    i < nt,
                    j < nf,
                    b <= baselines,
                    t0 == chunk_start(i as int, input.avg_time),
                    t1 == chunk_end(i as int, input.avg_time, times as nat),
                    t0 <= t1 <= times,
                    f0 == chunk_start(j as int, input.avg_freq),
                    f1 == chunk_end(j as int, input.avg_freq, channels as nat),
                    f0 <= f1 <= channels,
                    flagged_before(
                        (out_jones, out_weights, out_flags),
                        input,
                        i as int,
                        j as int,
                        b as int,
                    ),
                    forall|m: Model| #[trigger]
                        ops.computes(m) ==> averaged_before(
                            m,
                            (out_jones, out_weights, out_flags),
                            input,
                            i as int,
                            j as int,
                            b as int,
                        ),
                decreases baselines - b,
            {
                let (js, ws, fs) = gather_block(jones_array, weight_array, flag_array, t0, t1, f0, f1, b);
                let average = average_chunk_for_pols_f64(
                    js.as_slice(),
                    ws.as_slice(),
                    fs.as_slice(),
                    ops,
                );
                let ghost old_out = (out_jones, out_weights, out_flags);
                write_cell(&mut out_jones, &mut out_weights, &mut out_flags, i, j, b, average);
                proof {
                    let out = (out_jones, out_weights, out_flags);
                    lemma_flags_written(out, old_out, input, i as int, j as int, b as int);
                    assert forall|m: Model| #[trigger] ops.computes(m) implies averaged_before(
                        m,
                        out,
                        input,
                        i as int,
                        j as int,
                        b + 1,
                    ) by {
                        lemma_cell_written(m, out, old_out, input, i as int, j as int, b as int);
                    }
                }
                b += 1;
            }
            proof {
                let out = (out_jones, out_weights, out_flags);
                assert forall|m: Model| #[trigger] ops.computes(m) implies averaged_before(
                    m,
                    out,
                    input,
                    i as int,
                    j + 1,
                    0,
                ) by {
                    assert(averaged_before(m, out, input, i as int, j as int, b as int));
                }
            }
            j += 1;
        }
        proof {
            let out = (out_jones, out_weights, out_flags);
            assert forall|m: Model| #[trigger] ops.computes(m) implies averaged_before(
                m,
                out,
                input,
                i + 1,
                0,
                0,
            ) by {
                assert(averaged_before(m, out, input, i as int, j as int, 0));
            }
        }
        i += 1;
    }
    Ok((out_jones, out_weights, out_flags))
}

/// Sample `k` of a block is the sample at time `t0 + k / n` and channel
/// `f0 + k % n`, where `n` is the number of channels of the block: a block
/// holds the samples between its bounds and no others.
pub proof fn lemma_block_index<T>(
    cell: spec_fn(int, int) -> T,
    t0: int,
    t1: int,
    f0: int,
    f1: int,
    k: int,
)
    requires
        t0 <= t1,
        f0 < f1,
        0 <= k < (t1 - t0) * (f1 - f0),
    ensures
        block(cell, t0, t1, f0, f1).len() == (t1 - t0) * (f1 - f0),
        t0 <= t0 + k / (f1 - f0) < t1,
        f0 <= f0 + k % (f1 - f0) < f1,
        block(cell, t0, t1, f0, f1)[k] == cell(t0 + k / (f1 - f0), f0 + k % (f1 - f0)),
    decreases t1 - t0,
{
    let n = f1 - f0;
    lemma_block_len(cell, t0, t1, f0, f1);
    lemma_block_len(cell, t0, t1 - 1, f0, f1);
    let q = k / n;
    let r = k % n;
    assert(k == q * n + r && 0 <= r < n) by (nonlinear_arith)
        requires
            n > 0,
            q == k / n,
            r == k % n,
    ;
    assert(0 <= q < t1 - t0) by (nonlinear_arith)
        requires
            k == q * n + r,
            0 <= r < n,
            0 <= k < (t1 - t0) * n,
            n > 0,
    ;
    if k < (t1 - 1 - t0) * n {
        lemma_block_index(cell, t0, t1 - 1, f0, f1, k);
    } else {
        assert((t1 - 1 - t0) * n + n == (t1 - t0) * n) by (nonlinear_arith);
        assert(q == t1 - 1 - t0) by (nonlinear_arith)
            requires
                k == q * n + r,
                0 <= r < n,
                (t1 - 1 - t0) * n <= k < (t1 - 1 - t0) * n + n,
                n > 0,
        ;
        assert(r == k - (t1 - 1 - t0) * n);
    }
}

/// With a factor of one, an axis has as many chunks as samples, and chunk `i`
/// is sample `i`.
pub proof fn lemma_unit_chunks(len: nat, i: int)
    requires
        0 <= i < len,
    ensures
        chunk_count(len, 1) == len,
        chunk_start(i, 1) == i,
        chunk_end(i, 1, len) == i + 1,
{
}

/// With both factors one, the averaged cubes have the shape of the cubes
/// averaged, and each cell is the average of the one sample at its own place.
pub proof fn lemma_unit_factors(m: Model, input: Input, i: int, j: int, b: int)
    requires
        input.avg_time == 1,
        input.avg_freq == 1,
        0 <= i < input.jones.shape().0,
        0 <= j < input.jones.shape().1,
    ensures
        input.averaged_shape() == input.jones.shape(),
        input.block_average(m, i, j, b) == chunk_average(
            m,
            seq![input.jones.at(i, j, b)],
            seq![input.weights.sample(i, j, b)],
            seq![input.flags.sample(i, j, b)],
        ),
{
    let times = input.jones.shape().0;
    let channels = input.jones.shape().1;
    lemma_unit_chunks(times, i);
    lemma_unit_chunks(channels, j);
    reveal_with_fuel(block, 2);
    assert(input.block_of(input.jones.baseline(b), i, j) =~= seq![input.jones.at(i, j, b)]);
    assert(input.block_of(input.weights.baseline(b), i, j) =~= seq![input.weights.sample(i, j, b)]);
    assert(input.block_of(input.flags.baseline(b), i, j) =~= seq![input.flags.sample(i, j, b)]);
}

/// Averaging with both factors one changes nothing where the arithmetic is
/// exact: a cell whose flag is not set and whose weight is not below zero
/// keeps its value and its weight, and stays unflagged, provided that, for
/// the numbers of that cell, adding to zero changes nothing, narrowing undoes
/// widening, and dividing by the weight undoes multiplying by it.
pub proof fn lemma_unit_factors_are_identity(
    m: Model,
    out: VisData344,
    input: Input,
    i: int,
    j: int,
    b: int,
    p: int,
)
    requires
        input.avg_time == 1,
        input.avg_freq == 1,
        has_shape(out, input.averaged_shape()),
        is_average(m, out, input),
        0 <= i < input.jones.shape().0,
        0 <= j < input.jones.shape().1,
        0 <= b < input.jones.shape().2,
        0 <= p < 4,
        !input.flags.at(i, j, b, p),
        is_nonnegative(input.weights.at(i, j, b, p)),
        ({
            let w = (m.widen)(input.weights.at(i, j, b, p));
            let re = (m.widen)(input.jones.at(i, j, b).elems[p].re);
            let im = (m.widen)(input.jones.at(i, j, b).elems[p].im);
            &&& (m.add)(ZERO, w) == w
            &&& (m.narrow)(w) == input.weights.at(i, j, b, p)
            &&& (m.add)(ZERO, (m.mul)(re, w)) == (m.mul)(re, w)
            &&& (m.add)(ZERO, (m.mul)(im, w)) == (m.mul)(im, w)
            &&& (m.narrow)((m.div)((m.mul)(re, w), w)) == input.jones.at(i, j, b).elems[p].re
            &&& (m.narrow)((m.div)((m.mul)(im, w), w)) == input.jones.at(i, j, b).elems[p].im
        }),
    ensures
        out.0.shape() == input.jones.shape(),
        out.0.at(i, j, b).elems[p] == input.jones.at(i, j, b).elems[p],
        out.1.at(i, j, b, p) == input.weights.at(i, j, b, p),
        !out.2.at(i, j, b, p),
{
    lemma_unit_factors(m, input, i, j, b);
    lemma_one_sample(
        m,
        input.jones.at(i, j, b),
        input.weights.sample(i, j, b),
        input.flags.sample(i, j, b),
        p,
    );
    assert(before(i, j, b, out.0.shape().0 as int, 0, 0));
    assert(holds(out, i, j, b, input.block_average(m, i, j, b)));
    assert(out.1.sample(i, j, b)[p] == out.1.at(i, j, b, p));
    assert(out.2.sample(i, j, b)[p] == out.2.at(i, j, b, p));
}

} // verus!
