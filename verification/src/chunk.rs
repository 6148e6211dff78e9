//! Reduction of one chunk of samples to one averaged sample.
//!
//! A chunk holds the samples of one block of times and channels on one
//! baseline, in time order and, within a time, in channel order. Two
//! reductions are offered. One has a weight and a flag for each polarisation
//! of each sample, the other a single weight for each sample.

use crate::arithmetic::{
    is_nonnegative,
    is_positive,
    lemma_sum_of_none,
    lemma_sum_of_one,
    lemma_sum_of_step,
    lemma_sum_of_two,
    nonnegative,
    positive,
    sum_of,
    Arithmetic,
    Double,
    Model,
    Single,
    ZERO,
};
use crate::jones::{Complex, Jones};
use vstd::prelude::*;

verus! {

/// The sums kept for one matrix entry over a run of samples.
pub struct Sums {
    /// Sum of every value, chosen or not.
    pub plain: Complex<Double>,
    /// Sum of value times weight over the chosen samples.
    pub weighted: Complex<Double>,
    /// Sum of the weights of the chosen samples.
    pub weight: Double,
}

/// One component of each value, widened.
pub open spec fn wide(m: Model, values: Seq<Complex<Single>>, imaginary: bool) -> Seq<Double> {
    Seq::new(
        values.len(),
        |k: int|
            (m.widen)(
                if imaginary {
                    values[k].im
                } else {
                    values[k].re
                },
            ),
    )
}

/// Each weight, widened.
pub open spec fn wide_weights(m: Model, weights: Seq<Single>) -> Seq<Double> {
    Seq::new(weights.len(), |k: int| (m.widen)(weights[k]))
}

/// Each value times the weight beside it.
pub open spec fn products(m: Model, values: Seq<Double>, weights: Seq<Double>) -> Seq<Double> {
    Seq::new(values.len(), |k: int| (m.mul)(values[k], weights[k]))
}

/// Every sample chosen.
pub open spec fn everything(n: nat) -> Seq<bool> {
    Seq::new(n, |k: int| true)
}

/// The sums of one matrix entry over a whole run: `values` holds the entry of
/// each sample, `weights` the weight that goes with it, and `chosen` says
/// which samples join the weighted sums.
pub open spec fn sums(
    m: Model,
    values: Seq<Complex<Single>>,
    weights: Seq<Single>,
    chosen: Seq<bool>,
) -> Sums {
    let ws = wide_weights(m, weights);
    Sums {
        plain: Complex {
            re: sum_of(m, wide(m, values, false), everything(values.len())),
            im: sum_of(m, wide(m, values, true), everything(values.len())),
        },
        weighted: Complex {
            re: sum_of(m, products(m, wide(m, values, false), ws), chosen),
            im: sum_of(m, products(m, wide(m, values, true), ws), chosen),
        },
        weight: sum_of(m, ws, chosen),
    }
}

/// The sums after one more sample.
pub open spec fn step(m: Model, s: Sums, value: Complex<Single>, weight: Single, chosen: bool) -> Sums {
    let re = (m.widen)(value.re);
    let im = (m.widen)(value.im);
    let w = (m.widen)(weight);
    Sums {
        plain: Complex { re: (m.add)(s.plain.re, re), im: (m.add)(s.plain.im, im) },
        weighted: if chosen {
            Complex {
                re: (m.add)(s.weighted.re, (m.mul)(re, w)),
                im: (m.add)(s.weighted.im, (m.mul)(im, w)),
            }
        } else {
            s.weighted
        },
        weight: if chosen {
            (m.add)(s.weight, w)
        } else {
            s.weight
        },
    }
}

/// The averaged entry: the weighted mean where some sample of the chunk was
/// chosen, and else the plain mean of all `n` values.
pub open spec fn mean(m: Model, s: Sums, any_chosen: bool, n: usize) -> Complex<Single> {
    if any_chosen {
        Complex {
            re: (m.narrow)((m.div)(s.weighted.re, s.weight)),
            im: (m.narrow)((m.div)(s.weighted.im, s.weight)),
        }
    } else {
        Complex {
            re: (m.narrow)((m.div)(s.plain.re, (m.count)(n))),
            im: (m.narrow)((m.div)(s.plain.im, (m.count)(n))),
        }
    }
}

/// The sums over no samples are all zero.
pub proof fn lemma_sums_empty(m: Model)
    ensures
        sums(m, Seq::empty(), Seq::empty(), Seq::empty()) == (Sums {
            plain: Complex { re: ZERO, im: ZERO },
            weighted: Complex { re: ZERO, im: ZERO },
            weight: ZERO,
        }),
{
}

/// The sums over the first `k + 1` samples are one step on from those over
/// the first `k`.
pub proof fn lemma_sums_step(
    m: Model,
    values: Seq<Complex<Single>>,
    weights: Seq<Single>,
    chosen: Seq<bool>,
    k: int,
)
    requires
        0 <= k < values.len(),
        weights.len() == values.len(),
        chosen.len() == values.len(),
    ensures
        sums(m, values.take(k + 1), weights.take(k + 1), chosen.take(k + 1)) == step(
            m,
            sums(m, values.take(k), weights.take(k), chosen.take(k)),
            values[k],
            weights[k],
            chosen[k],
        ),
{
    let v1 = values.take(k + 1);
    let w1 = weights.take(k + 1);
    let c1 = chosen.take(k + 1);
    let v0 = values.take(k);
    let w0 = weights.take(k);
    let c0 = chosen.take(k);
    let ws1 = wide_weights(m, w1);
    let ws0 = wide_weights(m, w0);
    assert(ws1.take(k) =~= ws0);
    assert(c1.take(k) =~= c0);
    assert(ws1.take(k + 1) =~= ws1);
    assert(c1.take(k + 1) =~= c1);
    assert(everything(v1.len()).take(k) =~= everything(v0.len()));
    assert(everything(v1.len()).take(k + 1) =~= everything(v1.len()));
    lemma_sum_of_step(m, ws1, c1, k);
    assert forall|imaginary: bool|
        sum_of(m, wide(m, v1, imaginary), everything(v1.len())) == (m.add)(
            sum_of(m, wide(m, v0, imaginary), everything(v0.len())),
            (m.widen)(
                if imaginary {
                    values[k].im
                } else {
                    values[k].re
                },
            ),
        ) && sum_of(m, products(m, wide(m, v1, imaginary), ws1), c1) == if chosen[k] {
            (m.add)(
                sum_of(m, products(m, wide(m, v0, imaginary), ws0), c0),
                (m.mul)(
                    (m.widen)(
                        if imaginary {
                            values[k].im
                        } else {
                            values[k].re
                        },
                    ),
                    (m.widen)(weights[k]),
                ),
            )
        } else {
            sum_of(m, products(m, wide(m, v0, imaginary), ws0), c0)
        } by {
        let x1 = wide(m, v1, imaginary);
        let x0 = wide(m, v0, imaginary);
        assert(x1.take(k) =~= x0);
        assert(x1.take(k + 1) =~= x1);
        lemma_sum_of_step(m, x1, everything(v1.len()), k);
        let after = products(m, x1, ws1);
        let so_far = products(m, x0, ws0);
        assert(after.take(k) =~= so_far);
        assert(after.take(k + 1) =~= after);
        lemma_sum_of_step(m, after, c1, k);
    }
    assert(sum_of(m, wide(m, v1, false), everything(v1.len())) == (m.add)(
        sum_of(m, wide(m, v0, false), everything(v0.len())),
        (m.widen)(values[k].re),
    ));
    assert(sum_of(m, wide(m, v1, true), everything(v1.len())) == (m.add)(
        sum_of(m, wide(m, v0, true), everything(v0.len())),
        (m.widen)(values[k].im),
    ));
}

/// Takes one more sample into the sums.
fn accumulate<W, A, M, Q, N, C>(
    s: Sums,
    value: Complex<Single>,
    weight: Single,
    chosen: bool,
    ops: &Arithmetic<W, A, M, Q, N, C>,
) -> (r: Sums) where
    W: Fn(Single) -> Double,
    A: Fn(Double, Double) -> Double,
    M: Fn(Double, Double) -> Double,
    Q: Fn(Double, Double) -> Double,
    N: Fn(Double) -> Single,
    C: Fn(usize) -> Double,

    requires
        ops.total(),
    ensures
        forall|m: Model| #[trigger] ops.computes(m) ==> r == step(m, s, value, weight, chosen),
{
    let re = (ops.widen)(value.re);
    let im = (ops.widen)(value.im);
    let plain = Complex { re: (ops.add)(s.plain.re, re), im: (ops.add)(s.plain.im, im) };
    if chosen {
        let w = (ops.widen)(weight);
        let weighted = Complex {
            re: (ops.add)(s.weighted.re, (ops.mul)(re, w)),
            im: (ops.add)(s.weighted.im, (ops.mul)(im, w)),
        };
        Sums { plain, weighted, weight: (ops.add)(s.weight, w) }
    } else {
        Sums { plain, weighted: s.weighted, weight: s.weight }
    }
}

/// Turns the sums of one entry into its average.
fn finish<W, A, M, Q, N, C>(
    s: &Sums,
    any_chosen: bool,
    n: usize,
    ops: &Arithmetic<W, A, M, Q, N, C>,
) -> (r: Complex<Single>) where
    W: Fn(Single) -> Double,
    A: Fn(Double, Double) -> Double,
    M: Fn(Double, Double) -> Double,
    Q: Fn(Double, Double) -> Double,
    N: Fn(Double) -> Single,
    C: Fn(usize) -> Double,

    requires
        ops.total(),
    ensures
        forall|m: Model| #[trigger] ops.computes(m) ==> r == mean(m, *s, any_chosen, n),
{
    if any_chosen {
        Complex {
            re: (ops.narrow)((ops.div)(s.weighted.re, s.weight)),
            im: (ops.narrow)((ops.div)(s.weighted.im, s.weight)),
        }
    } else {
        Complex {
            re: (ops.narrow)((ops.div)(s.plain.re, (ops.count)(n))),
            im: (ops.narrow)((ops.div)(s.plain.im, (ops.count)(n))),
        }
    }
}

/// What a chunk averages to: a matrix, and a weight and a flag for each of
/// its four entries.
#[derive(Clone, Copy, Debug, PartialEq, Eq)]
pub struct ChunkAverage {
    pub jones: Jones<Single>,
    pub weights: [Single; 4],
    pub flags: [bool; 4],
}

/// Entry `p` of each matrix of the chunk.
pub open spec fn entries(jones: Seq<Jones<Single>>, p: int) -> Seq<Complex<Single>> {
    Seq::new(jones.len(), |k: int| jones[k].elems[p])
}

/// The weight of entry `p` of each sample.
pub open spec fn entry_weights(weights: Seq<[Single; 4]>, p: int) -> Seq<Single> {
    Seq::new(weights.len(), |k: int| weights[k][p])
}

/// Which samples join the weighted sums of entry `p`: those whose flag for
/// that entry is not set and whose weight for it is not below zero. A weight
/// of zero is taken.
pub open spec fn admitted(weights: Seq<[Single; 4]>, flags: Seq<[bool; 4]>, p: int) -> Seq<bool> {
    Seq::new(weights.len(), |k: int| !flags[k][p] && is_nonnegative(weights[k][p]))
}

/// Whether any entry of any sample of the chunk is admitted.
pub open spec fn any_admitted(weights: Seq<[Single; 4]>, flags: Seq<[bool; 4]>) -> bool {
    exists|k: int, p: int|
        0 <= k < weights.len() && 0 <= p < 4 && #[trigger] admitted(weights, flags, p)[k]
}

/// The sums of entry `p` over the chunk.
pub open spec fn entry_sums(
    m: Model,
    jones: Seq<Jones<Single>>,
    weights: Seq<[Single; 4]>,
    flags: Seq<[bool; 4]>,
    p: int,
) -> Sums {
    sums(m, entries(jones, p), entry_weights(weights, p), admitted(weights, flags, p))
}

/// The average of entry `p` over the chunk. Whether the weighted or the plain
/// mean is taken goes by the whole chunk: one admitted entry of one sample
/// makes every entry a weighted mean.
pub open spec fn averaged_entry(
    m: Model,
    jones: Seq<Jones<Single>>,
    weights: Seq<[Single; 4]>,
    flags: Seq<[bool; 4]>,
    p: int,
) -> Complex<Single> {
    mean(
        m,
        entry_sums(m, jones, weights, flags, p),
        any_admitted(weights, flags),
        jones.len() as usize,
    )
}

/// The weight of entry `p` of the average: the sum of the admitted weights.
pub open spec fn averaged_weight(
    m: Model,
    jones: Seq<Jones<Single>>,
    weights: Seq<[Single; 4]>,
    flags: Seq<[bool; 4]>,
    p: int,
) -> Single {
    (m.narrow)(entry_sums(m, jones, weights, flags, p).weight)
}

/// The four flags of the average: alike, and set where nothing in the chunk
/// is admitted.
pub open spec fn chunk_flags(weights: Seq<[Single; 4]>, flags: Seq<[bool; 4]>) -> [bool; 4] {
    let flagged = !any_admitted(weights, flags);
    [flagged, flagged, flagged, flagged]
}

/// What the chunk averages to in the arithmetic `m`.
pub open spec fn chunk_average(
    m: Model,
    jones: Seq<Jones<Single>>,
    weights: Seq<[Single; 4]>,
    flags: Seq<[bool; 4]>,
) -> ChunkAverage {
    ChunkAverage {
        jones: Jones {
            elems: [
                averaged_entry(m, jones, weights, flags, 0),
                averaged_entry(m, jones, weights, flags, 1),
                averaged_entry(m, jones, weights, flags, 2),
                averaged_entry(m, jones, weights, flags, 3),
            ],
        },
        weights: [
            averaged_weight(m, jones, weights, flags, 0),
            averaged_weight(m, jones, weights, flags, 1),
            averaged_weight(m, jones, weights, flags, 2),
            averaged_weight(m, jones, weights, flags, 3),
        ],
        flags: chunk_flags(weights, flags),
    }
}

/// The sums of entry `p` over the chunk, and whether any sample was admitted
/// to them.
fn sum_entry<W, A, M, Q, N, C>(
    jones_chunk: &[Jones<Single>],
    weights_chunk: &[[Single; 4]],
    flags_chunk: &[[bool; 4]],
    p: usize,
    ops: &Arithmetic<W, A, M, Q, N, C>,
) -> (r: (Sums, bool)) where
    W: Fn(Single) -> Double,
    A: Fn(Double, Double) -> Double,
    M: Fn(Double, Double) -> Double,
    Q: Fn(Double, Double) -> Double,
    N: Fn(Double) -> Single,
    C: Fn(usize) -> Double,

    requires
        ops.total(),
        p < 4,
        weights_chunk@.len() == jones_chunk@.len(),
        flags_chunk@.len() == jones_chunk@.len(),
    ensures
        r.1 == exists|k: int|
            0 <= k < jones_chunk@.len() && #[trigger] admitted(
                weights_chunk@,
                flags_chunk@,
                p as int,
            )[k],
        forall|m: Model| #[trigger]
            ops.computes(m) ==> r.0 == entry_sums(
                m,
                jones_chunk@,
                weights_chunk@,
                flags_chunk@,
                p as int,
            ),
{
    let n = jones_chunk.len();
    let ghost values = entries(jones_chunk@, p as int);
    let ghost weights = entry_weights(weights_chunk@, p as int);
    let ghost chosen = admitted(weights_chunk@, flags_chunk@, p as int);
    let mut acc = Sums {
        plain: Complex { re: ZERO, im: ZERO },
        weighted: Complex { re: ZERO, im: ZERO },
        weight: ZERO,
    };
    let mut any = false;
    let mut k: usize = 0;
    proof {
        assert(values.take(0) =~= Seq::empty());
        assert(weights.take(0) =~= Seq::empty());
        assert(chosen.take(0) =~= Seq::empty());
        assert forall|m: Model| #[trigger] ops.computes(m) implies acc == sums(
            m,
            values.take(0),
            weights.take(0),
            chosen.take(0),
        ) by {
            lemma_sums_empty(m);
        }
    }
    while k < n
        invariant
            ops.total(),
            p < 4,
            n == jones_chunk@.len(),
            weights_chunk@.len() == n,
            flags_chunk@.len() == n,
            k <= n,
            values == entries(jones_chunk@, p as int),
            weights == entry_weights(weights_chunk@, p as int),
            chosen == admitted(weights_chunk@, flags_chunk@, p as int),
            any == exists|i: int| 0 <= i < k && #[trigger] chosen[i],
            forall|m: Model| #[trigger]
                ops.computes(m) ==> acc == sums(
                    m,
                    values.take(k as int),
                    weights.take(k as int),
                    chosen.take(k as int),
                ),
        decreases n - k,
    {
        let value = jones_chunk[k].elems[p];
        let weight = weights_chunk[k][p];
        let take = !flags_chunk[k][p] && nonnegative(weight);
        let next = accumulate(acc, value, weight, take, ops);
        proof {
            assert(take == chosen[k as int]);
            assert forall|m: Model| #[trigger] ops.computes(m) implies next == sums(
                m,
                values.take(k + 1),
                weights.take(k + 1),
                chosen.take(k + 1),
            ) by {
                lemma_sums_step(m, values, weights, chosen, k as int);
            }
        }
        acc = next;
        if take {
            any = true;
        }
        k += 1;
    }
    proof {
        assert(values.take(n as int) =~= values);
        assert(weights.take(n as int) =~= weights);
        assert(chosen.take(n as int) =~= chosen);
    }
    (acc, any)
}

/// Averages a chunk whose samples have a weight and a flag for each entry of
/// the matrix.
///
/// Each entry is averaged by itself. Its weighted sums take the samples whose
/// flag for it is not set and whose weight for it is not below zero. Where the
/// chunk has such a sample for any entry, each entry is its weighted sum over
/// its sum of weights; where it has none, each entry is the sum of all its
/// values over their number. The weight of an entry is its sum of weights. The
/// four flags are alike: set where no entry of any sample was taken.
pub fn average_chunk_for_pols_f64<W, A, M, Q, N, C>(
    jones_chunk: &[Jones<Single>],
    weights_chunk: &[[Single; 4]],
    flags_chunk: &[[bool; 4]],
    ops: &Arithmetic<W, A, M, Q, N, C>,
) -> (r: ChunkAverage) where
    W: Fn(Single) -> Double,
    A: Fn(Double, Double) -> Double,
    M: Fn(Double, Double) -> Double,
    Q: Fn(Double, Double) -> Double,
    N: Fn(Double) -> Single,
    C: Fn(usize) -> Double,

    requires
        ops.total(),
        weights_chunk@.len() == jones_chunk@.len(),
        flags_chunk@.len() == jones_chunk@.len(),
    ensures
        r.flags == chunk_flags(weights_chunk@, flags_chunk@),
        forall|m: Model| #[trigger]
            ops.computes(m) ==> r == chunk_average(m, jones_chunk@, weights_chunk@, flags_chunk@),
{
    let n = jones_chunk.len();
    let (s0, any0) = sum_entry(jones_chunk, weights_chunk, flags_chunk, 0, ops);
    let (s1, any1) = sum_entry(jones_chunk, weights_chunk, flags_chunk, 1, ops);
    let (s2, any2) = sum_entry(jones_chunk, weights_chunk, flags_chunk, 2, ops);
    let (s3, any3) = sum_entry(jones_chunk, weights_chunk, flags_chunk, 3, ops);
    let any = any0 || any1 || any2 || any3;
    let jones = Jones {
        elems: [
            finish(&s0, any, n, ops),
            finish(&s1, any, n, ops),
            finish(&s2, any, n, ops),
            finish(&s3, any, n, ops),
        ],
    };
    let weights = [
        (ops.narrow)(s0.weight),
        (ops.narrow)(s1.weight),
        (ops.narrow)(s2.weight),
        (ops.narrow)(s3.weight),
    ];
    let all_flagged = !any;
    ChunkAverage { jones, weights, flags: [all_flagged, all_flagged, all_flagged, all_flagged] }
}

/// What a chunk with one weight for each sample averages to.
#[derive(Clone, Copy, Debug, PartialEq, Eq)]
pub struct CellAverage {
    pub jones: Jones<Single>,
    pub weight: Single,
    pub flag: bool,
}

/// Which samples join the weighted sums where each sample has one weight:
/// those whose weight is above zero. A weight of zero is not taken.
pub open spec fn admitted_whole(weights: Seq<Single>) -> Seq<bool> {
    Seq::new(weights.len(), |k: int| is_positive(weights[k]))
}

/// Whether any sample of the chunk is admitted.
pub open spec fn any_admitted_whole(weights: Seq<Single>) -> bool {
    exists|k: int| 0 <= k < weights.len() && #[trigger] admitted_whole(weights)[k]
}

/// The sums of entry `p` over a chunk with one weight for each sample.
pub open spec fn cell_sums(m: Model, jones: Seq<Jones<Single>>, weights: Seq<Single>, p: int) -> Sums {
    sums(m, entries(jones, p), weights, admitted_whole(weights))
}

/// What a chunk with one weight for each sample averages to in the arithmetic
/// `m`.
pub open spec fn cell_average(m: Model, jones: Seq<Jones<Single>>, weights: Seq<Single>) -> CellAverage {
    let any = any_admitted_whole(weights);
    let n = jones.len() as usize;
    CellAverage {
        jones: Jones {
            elems: [
                mean(m, cell_sums(m, jones, weights, 0), any, n),
                mean(m, cell_sums(m, jones, weights, 1), any, n),
                mean(m, cell_sums(m, jones, weights, 2), any, n),
                mean(m, cell_sums(m, jones, weights, 3), any, n),
            ],
        },
        weight: (m.narrow)(sum_of(m, wide_weights(m, weights), admitted_whole(weights))),
        flag: !any,
    }
}

/// The sums of entry `p` over a chunk with one weight for each sample, and
/// whether any sample was admitted to them.
fn sum_cell_entry<W, A, M, Q, N, C>(
    jones_chunk: &[Jones<Single>],
    weights_chunk: &[Single],
    p: usize,
    ops: &Arithmetic<W, A, M, Q, N, C>,
) -> (r: (Sums, bool)) where
    W: Fn(Single) -> Double,
    A: Fn(Double, Double) -> Double,
    M: Fn(Double, Double) -> Double,
    Q: Fn(Double, Double) -> Double,
    N: Fn(Double) -> Single,
    C: Fn(usize) -> Double,

    requires
        ops.total(),
        p < 4,
        weights_chunk@.len() == jones_chunk@.len(),
    ensures
        r.1 == any_admitted_whole(weights_chunk@),
        forall|m: Model| #[trigger]
            ops.computes(m) ==> r.0 == cell_sums(m, jones_chunk@, weights_chunk@, p as int),
{
    let n = jones_chunk.len();
    let ghost values = entries(jones_chunk@, p as int);
    let ghost chosen = admitted_whole(weights_chunk@);
    let mut acc = Sums {
        plain: Complex { re: ZERO, im: ZERO },
        weighted: Complex { re: ZERO, im: ZERO },
        weight: ZERO,
    };
    let mut any = false;
    let mut k: usize = 0;
    proof {
        assert(values.take(0) =~= Seq::empty());
        assert(weights_chunk@.take(0) =~= Seq::empty());
        assert(chosen.take(0) =~= Seq::empty());
        assert forall|m: Model| #[trigger] ops.computes(m) implies acc == sums(
            m,
            values.take(0),
            weights_chunk@.take(0),
            chosen.take(0),
        ) by {
            lemma_sums_empty(m);
        }
    }
    while k < n
        invariant
            ops.total(),
            p < 4,
            n == jones_chunk@.len(),
            weights_chunk@.len() == n,
            k <= n,
            values == entries(jones_chunk@, p as int),
            chosen == admitted_whole(weights_chunk@),
            any == exists|i: int| 0 <= i < k && #[trigger] chosen[i],
            forall|m: Model| #[trigger]
                ops.computes(m) ==> acc == sums(
                    m,
                    values.take(k as int),
                    weights_chunk@.take(k as int),
                    chosen.take(k as int),
                ),
        decreases n - k,
    {
        let value = jones_chunk[k].elems[p];
        let weight = weights_chunk[k];
        let take = positive(weight);
        let next = accumulate(acc, value, weight, take, ops);
        proof {
            assert(take == chosen[k as int]);
            assert forall|m: Model| #[trigger] ops.computes(m) implies next == sums(
                m,
                values.take(k + 1),
                weights_chunk@.take(k + 1),
                chosen.take(k + 1),
            ) by {
                lemma_sums_step(m, values, weights_chunk@, chosen, k as int);
            }
        }
        acc = next;
        if take {
            any = true;
        }
        k += 1;
    }
    proof {
        assert(values.take(n as int) =~= values);
        assert(weights_chunk@.take(n as int) =~= weights_chunk@);
        assert(chosen.take(n as int) =~= chosen);
    }
    (acc, any)
}

/// Averages a chunk whose samples have one weight each and no flags.
///
/// The weighted sums take the samples whose weight is above zero: here a
/// weight of zero leaves a sample out, where `average_chunk_for_pols_f64`
/// takes it. The weight that is summed is the magnitude of the sample's
/// weight, which for a weight above zero is the weight itself. Where a sample
/// was taken, each entry is its weighted sum over the sum of weights; where
/// none was, each entry is the sum of all its values over their number, and
/// the flag is set.
pub fn average_chunk_f64<W, A, M, Q, N, C>(
    jones_chunk: &[Jones<Single>],
    weights_chunk: &[Single],
    ops: &Arithmetic<W, A, M, Q, N, C>,
) -> (r: CellAverage) where
    W: Fn(Single) -> Double,
    A: Fn(Double, Double) -> Double,
    M: Fn(Double, Double) -> Double,
    Q: Fn(Double, Double) -> Double,
    N: Fn(Double) -> Single,
    C: Fn(usize) -> Double,

    requires
        ops.total(),
        weights_chunk@.len() == jones_chunk@.len(),
    ensures
        r.flag == !any_admitted_whole(weights_chunk@),
        forall|m: Model| #[trigger] ops.computes(m) ==> r == cell_average(m, jones_chunk@, weights_chunk@),
{
    let n = jones_chunk.len();
    let (s0, any) = sum_cell_entry(jones_chunk, weights_chunk, 0, ops);
    let (s1, _) = sum_cell_entry(jones_chunk, weights_chunk, 1, ops);
    let (s2, _) = sum_cell_entry(jones_chunk, weights_chunk, 2, ops);
    let (s3, _) = sum_cell_entry(jones_chunk, weights_chunk, 3, ops);
    let jones = Jones {
        elems: [
            finish(&s0, any, n, ops),
            finish(&s1, any, n, ops),
            finish(&s2, any, n, ops),
            finish(&s3, any, n, ops),
        ],
    };
    CellAverage { jones, weight: (ops.narrow)(s0.weight), flag: !any }
}

/// A chunk in which nothing is admitted falls back on the plain mean: every
/// flag of its average is set, every weight is the narrowed zero, and every
/// entry is the sum of all its values over their number.
pub proof fn lemma_nothing_admitted(
    m: Model,
    jones: Seq<Jones<Single>>,
    weights: Seq<[Single; 4]>,
    flags: Seq<[bool; 4]>,
    p: int,
)
    requires
        weights.len() == jones.len(),
        flags.len() == jones.len(),
        0 <= p < 4,
        !any_admitted(weights, flags),
    ensures
        chunk_average(m, jones, weights, flags).flags == [true, true, true, true],
        chunk_average(m, jones, weights, flags).weights[p] == (m.narrow)(ZERO),
        chunk_average(m, jones, weights, flags).jones.elems[p] == (Complex {
            re: (m.narrow)(
                (m.div)(
                    sum_of(m, wide(m, entries(jones, p), false), everything(jones.len())),
                    (m.count)(jones.len() as usize),
                ),
            ),
            im: (m.narrow)(
                (m.div)(
                    sum_of(m, wide(m, entries(jones, p), true), everything(jones.len())),
                    (m.count)(jones.len() as usize),
                ),
            ),
        }),
{
    let chosen = admitted(weights, flags, p);
    assert forall|k: int| 0 <= k < chosen.len() implies !chosen[k] by {
        if chosen[k] {
            assert(admitted(weights, flags, p)[k]);
        }
    }
    lemma_sum_of_none(m, wide_weights(m, entry_weights(weights, p)), chosen);
}

/// A chunk in which something is admitted has no flag set in its average, and
/// every entry is its weighted sum over its sum of weights.
pub proof fn lemma_something_admitted(
    m: Model,
    jones: Seq<Jones<Single>>,
    weights: Seq<[Single; 4]>,
    flags: Seq<[bool; 4]>,
    p: int,
)
    requires
        weights.len() == jones.len(),
        flags.len() == jones.len(),
        0 <= p < 4,
        any_admitted(weights, flags),
    ensures
        chunk_average(m, jones, weights, flags).flags == [false, false, false, false],
        chunk_average(m, jones, weights, flags).weights[p] == (m.narrow)(
            sum_of(
                m,
                wide_weights(m, entry_weights(weights, p)),
                admitted(weights, flags, p),
            ),
        ),
        chunk_average(m, jones, weights, flags).jones.elems[p] == (Complex {
            re: (m.narrow)(
                (m.div)(
                    sum_of(
                        m,
                        products(
                            m,
                            wide(m, entries(jones, p), false),
                            wide_weights(m, entry_weights(weights, p)),
                        ),
                        admitted(weights, flags, p),
                    ),
                    sum_of(
                        m,
                        wide_weights(m, entry_weights(weights, p)),
                        admitted(weights, flags, p),
                    ),
                ),
            ),
            im: (m.narrow)(
                (m.div)(
                    sum_of(
                        m,
                        products(
                            m,
                            wide(m, entries(jones, p), true),
                            wide_weights(m, entry_weights(weights, p)),
                        ),
                        admitted(weights, flags, p),
                    ),
                    sum_of(
                        m,
                        wide_weights(m, entry_weights(weights, p)),
                        admitted(weights, flags, p),
                    ),
                ),
            ),
        }),
{
}

/// The average of a chunk of one sample whose entry `p` is admitted: the
/// entry's weight is the weight added to zero, and its value is the value
/// times the weight, added to zero, over that.
pub proof fn lemma_one_sample(
    m: Model,
    value: Jones<Single>,
    weights: [Single; 4],
    flags: [bool; 4],
    p: int,
)
    requires
        0 <= p < 4,
        !flags[p],
        is_nonnegative(weights[p]),
    ensures
        chunk_average(m, seq![value], seq![weights], seq![flags]).flags == [
            false,
            false,
            false,
            false,
        ],
        chunk_average(m, seq![value], seq![weights], seq![flags]).weights[p] == (m.narrow)(
            (m.add)(ZERO, (m.widen)(weights[p])),
        ),
        chunk_average(m, seq![value], seq![weights], seq![flags]).jones.elems[p] == (Complex {
            re: (m.narrow)(
                (m.div)(
                    (m.add)(ZERO, (m.mul)((m.widen)(value.elems[p].re), (m.widen)(weights[p]))),
                    (m.add)(ZERO, (m.widen)(weights[p])),
                ),
            ),
            im: (m.narrow)(
                (m.div)(
                    (m.add)(ZERO, (m.mul)((m.widen)(value.elems[p].im), (m.widen)(weights[p]))),
                    (m.add)(ZERO, (m.widen)(weights[p])),
                ),
            ),
        }),
{
    let js = seq![value];
    let ws = seq![weights];
    let fs = seq![flags];
    let chosen = admitted(ws, fs, p);
    assert(chosen[0]);
    assert(any_admitted(ws, fs));
    assert(chosen =~= seq![true]);
    let w = (m.widen)(weights[p]);
    let wide_w = wide_weights(m, entry_weights(ws, p));
    assert(wide_w =~= seq![w]);
    lemma_sum_of_one(m, w, true);
    assert forall|imaginary: bool|
        sum_of(m, products(m, wide(m, entries(js, p), imaginary), wide_w), chosen) == (m.add)(
            ZERO,
            (m.mul)(
                (m.widen)(
                    if imaginary {
                        value.elems[p].im
                    } else {
                        value.elems[p].re
                    },
                ),
                w,
            ),
        ) by {
        let x = (m.widen)(
            if imaginary {
                value.elems[p].im
            } else {
                value.elems[p].re
            },
        );
        assert(wide(m, entries(js, p), imaginary) =~= seq![x]);
        assert(products(m, seq![x], seq![w]) =~= seq![(m.mul)(x, w)]);
        lemma_sum_of_one(m, (m.mul)(x, w), true);
    }
    assert(sum_of(m, products(m, wide(m, entries(js, p), false), wide_w), chosen) == (m.add)(
        ZERO,
        (m.mul)((m.widen)(value.elems[p].re), w),
    ));
    assert(sum_of(m, products(m, wide(m, entries(js, p), true), wide_w), chosen) == (m.add)(
        ZERO,
        (m.mul)((m.widen)(value.elems[p].im), w),
    ));
}

/// The average of a chunk of two samples with no flag set and no weight below
/// zero: each entry is the sum of its two values, each times its weight, over
/// the sum of the two weights.
pub proof fn lemma_two_samples(
    m: Model,
    first: Jones<Single>,
    second: Jones<Single>,
    first_weights: [Single; 4],
    second_weights: [Single; 4],
    p: int,
)
    requires
        0 <= p < 4,
        is_nonnegative(first_weights[p]),
        is_nonnegative(second_weights[p]),
    ensures
        ({
            let none = [false, false, false, false];
            let average = chunk_average(
                m,
                seq![first, second],
                seq![first_weights, second_weights],
                seq![none, none],
            );
            let w1 = (m.widen)(first_weights[p]);
            let w2 = (m.widen)(second_weights[p]);
            let total = (m.add)((m.add)(ZERO, w1), w2);
            &&& average.flags == none
            &&& average.weights[p] == (m.narrow)(total)
            &&& average.jones.elems[p].re == (m.narrow)(
                (m.div)(
                    (m.add)(
                        (m.add)(ZERO, (m.mul)((m.widen)(first.elems[p].re), w1)),
                        (m.mul)((m.widen)(second.elems[p].re), w2),
                    ),
                    total,
                ),
            )
            &&& average.jones.elems[p].im == (m.narrow)(
                (m.div)(
                    (m.add)(
                        (m.add)(ZERO, (m.mul)((m.widen)(first.elems[p].im), w1)),
                        (m.mul)((m.widen)(second.elems[p].im), w2),
                    ),
                    total,
                ),
            )
        }),
{
    let none = [false, false, false, false];
    let js = seq![first, second];
    let ws = seq![first_weights, second_weights];
    let fs = seq![none, none];
    let chosen = admitted(ws, fs, p);
    assert(chosen[0]);
    assert(any_admitted(ws, fs));
    assert(chosen =~= seq![true, true]);
    let w1 = (m.widen)(first_weights[p]);
    let w2 = (m.widen)(second_weights[p]);
    let wide_w = wide_weights(m, entry_weights(ws, p));
    assert(wide_w =~= seq![w1, w2]);
    lemma_sum_of_two(m, w1, w2);
    assert forall|imaginary: bool|
        sum_of(m, products(m, wide(m, entries(js, p), imaginary), wide_w), chosen) == (m.add)(
            (m.add)(
                ZERO,
                (m.mul)(
                    (m.widen)(
                        if imaginary {
                            first.elems[p].im
                        } else {
                            first.elems[p].re
                        },
                    ),
                    w1,
                ),
            ),
            (m.mul)(
                (m.widen)(
                    if imaginary {
                        second.elems[p].im
                    } else {
                        second.elems[p].re
                    },
                ),
                w2,
            ),
        ) by {
        let x1 = (m.widen)(
            if imaginary {
                first.elems[p].im
            } else {
                first.elems[p].re
            },
        );
        let x2 = (m.widen)(
            if imaginary {
                second.elems[p].im
            } else {
                second.elems[p].re
            },
        );
        assert(wide(m, entries(js, p), imaginary) =~= seq![x1, x2]);
        assert(products(m, seq![x1, x2], seq![w1, w2]) =~= seq![(m.mul)(x1, w1), (m.mul)(x2, w2)]);
        lemma_sum_of_two(m, (m.mul)(x1, w1), (m.mul)(x2, w2));
    }
    assert(sum_of(m, products(m, wide(m, entries(js, p), false), wide_w), chosen) == (m.add)(
        (m.add)(ZERO, (m.mul)((m.widen)(first.elems[p].re), w1)),
        (m.mul)((m.widen)(second.elems[p].re), w2),
    ));
    assert(sum_of(m, products(m, wide(m, entries(js, p), true), wide_w), chosen) == (m.add)(
        (m.add)(ZERO, (m.mul)((m.widen)(first.elems[p].im), w1)),
        (m.mul)((m.widen)(second.elems[p].im), w2),
    ));
}

} // verus!
