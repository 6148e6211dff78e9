use approx::AbsDiffEq;
use ndarray::{Array3, Array4};
use vis_averaging::averaging::{average_visibilities, AveragingError, VisData344};
use vis_averaging::cube::{FlagCube, JonesCube, WeightCube};
use vis_averaging::{Arithmetic, Complex, Jones};

type Ops = Arithmetic<
    fn(u32) -> u64,
    fn(u64, u64) -> u64,
    fn(u64, u64) -> u64,
    fn(u64, u64) -> u64,
    fn(u64) -> u32,
    fn(usize) -> u64,
>;

fn widen(x: u32) -> u64 {
    (f32::from_bits(x) as f64).to_bits()
}

fn add(a: u64, b: u64) -> u64 {
    (f64::from_bits(a) + f64::from_bits(b)).to_bits()
}

fn mul(a: u64, b: u64) -> u64 {
    (f64::from_bits(a) * f64::from_bits(b)).to_bits()
}

fn div(a: u64, b: u64) -> u64 {
    (f64::from_bits(a) / f64::from_bits(b)).to_bits()
}

fn narrow(x: u64) -> u32 {
    (f64::from_bits(x) as f32).to_bits()
}

fn count(n: usize) -> u64 {
    (n as f64).to_bits()
}

fn ieee() -> Ops {
    Arithmetic { widen, add, mul, div, narrow, count }
}

fn complex(re: f32, im: f32) -> Complex<f32> {
    Complex { re, im }
}

fn identity() -> Jones<f32> {
    Jones { elems: [complex(1., 0.), complex(0., 0.), complex(0., 0.), complex(1., 0.)] }
}

fn scaled(j: Jones<f32>, s: f32) -> Jones<f32> {
    let mut elems = j.elems;
    for e in elems.iter_mut() {
        *e = complex(e.re * s, e.im * s);
    }
    Jones { elems }
}

fn to_bits(j: &Jones<f32>) -> Jones<u32> {
    let mut elems = [Complex { re: 0u32, im: 0u32 }; 4];
    for (out, e) in elems.iter_mut().zip(j.elems.iter()) {
        *out = Complex { re: e.re.to_bits(), im: e.im.to_bits() };
    }
    Jones { elems }
}

fn from_bits(j: &Jones<u32>) -> Jones<f32> {
    let mut elems = [complex(0., 0.); 4];
    for (out, e) in elems.iter_mut().zip(j.elems.iter()) {
        *out = complex(f32::from_bits(e.re), f32::from_bits(e.im));
    }
    Jones { elems }
}

fn jones_close(a: &Jones<f32>, b: &Jones<f32>) -> bool {
    a.elems.iter().zip(b.elems.iter()).all(|(x, y)| {
        x.re.abs_diff_eq(&y.re, f32::EPSILON) && x.im.abs_diff_eq(&y.im, f32::EPSILON)
    })
}

fn jones_cube(a: &Array3<Jones<f32>>) -> JonesCube {
    let mut cube = JonesCube::from_elem(a.dim(), to_bits(&identity())).unwrap();
    for ((t, f, b), v) in a.indexed_iter() {
        cube.set(t, f, b, to_bits(v));
    }
    cube
}

fn weight_cube(a: &Array4<f32>) -> WeightCube {
    let mut cube = WeightCube::from_elem(a.dim(), 0).unwrap();
    for ((t, f, b, p), v) in a.indexed_iter() {
        cube.set(t, f, b, p, v.to_bits());
    }
    cube
}

fn flag_cube(a: &Array4<bool>) -> FlagCube {
    let mut cube = FlagCube::from_elem(a.dim(), false).unwrap();
    for ((t, f, b, p), v) in a.indexed_iter() {
        cube.set(t, f, b, p, *v);
    }
    cube
}

fn arrays(averaged: &VisData344) -> (Array3<Jones<f32>>, Array4<f32>, Array4<bool>) {
    let (jones, weights, flags) = averaged;
    (
        Array3::from_shape_fn(jones.dim(), |(t, f, b)| from_bits(&jones.get(t, f, b))),
        Array4::from_shape_fn(weights.dim(), |(t, f, b, p)| f32::from_bits(weights.get(t, f, b, p))),
        Array4::from_shape_fn(flags.dim(), |(t, f, b, p)| flags.get(t, f, b, p)),
    )
}

fn average(
    vis: &Array3<Jones<f32>>,
    weights: &Array4<f32>,
    flags: &Array4<bool>,
    avg_time: usize,
    avg_freq: usize,
) -> Result<(Array3<Jones<f32>>, Array4<f32>, Array4<bool>), AveragingError> {
    let averaged = average_visibilities(
        &jones_cube(vis),
        &weight_cube(weights),
        &flag_cube(flags),
        avg_time,
        avg_freq,
        &ieee(),
    )?;
    Ok(arrays(&averaged))
}

fn synthesize_test_data(
    shape: (usize, usize, usize, usize),
) -> (Array3<Jones<f32>>, Array4<f32>, Array4<bool>) {
    let vis_array = Array3::from_shape_fn(
        (shape.0, shape.1, shape.2),
        |(timestep_idx, chan_idx, baseline_idx)| Jones {
            elems: [
                complex(0., timestep_idx as _),
                complex(0., chan_idx as _),
                complex(0., baseline_idx as _),
                complex(0., 1.),
            ],
        },
    );
    let weight_array =
        Array4::from_shape_fn(shape, |(timestep_idx, chan_idx, baseline_idx, pol_idx)| {
            (timestep_idx * shape.0 * shape.1 * shape.2
                + chan_idx * shape.0 * shape.1
                + baseline_idx * shape.0
                + pol_idx
                + 1) as f32
        });
    let flag_array =
        Array4::from_shape_fn(shape, |(timestep_idx, chan_idx, baseline_idx, pol_idx)| {
            timestep_idx * shape.0 * shape.1 * shape.2
                + chan_idx * shape.0 * shape.1
                + baseline_idx * shape.0
                + pol_idx % 2
                == 0
        });
    (vis_array, weight_array, flag_array)
}

#[test]
fn test_averaging_trivial() {
    let n_ants = 3;
    let n_timesteps = 5;
    let n_channels = 7;
    let n_pols = 4;
    let n_baselines = n_ants * (n_ants - 1) / 2;
    let shape = (n_timesteps, n_channels, n_baselines, n_pols);
    let (vis_array, weight_array, flag_array) = synthesize_test_data(shape);
    let no_flags = Array4::from_elem(flag_array.dim(), false);

    let (averaged_vis_array, averaged_weight_array, averaged_flag_array) =
        average(&vis_array, &weight_array, &no_flags, 1, 1).unwrap();

    assert_eq!(averaged_vis_array.dim(), (5, 7, 3));
    assert_eq!(averaged_weight_array.dim(), (5, 7, 3, 4));
    assert_eq!(averaged_flag_array.dim(), (5, 7, 3, 4));

    for (idx, v) in averaged_vis_array.indexed_iter() {
        assert!(jones_close(v, &vis_array[idx]), "visibility at {:?}", idx);
    }
    for (idx, w) in averaged_weight_array.indexed_iter() {
        assert!(w.abs_diff_eq(&weight_array[idx], f32::EPSILON), "weight at {:?}", idx);
    }
}

#[test]
fn test_averaging_non_divisors() {
    let n_ants = 3;
    let n_timesteps = 5;
    let n_channels = 7;
    let n_pols = 4;
    let n_baselines = n_ants * (n_ants - 1) / 2;
    let shape = (n_timesteps, n_channels, n_baselines, n_pols);
    let (time_factor, frequency_factor) = (2, 2);
    let (vis_array, weight_array, flag_array) = synthesize_test_data(shape);

    let (averaged_vis_array, averaged_weight_array, averaged_flag_array) =
        average(&vis_array, &weight_array, &flag_array, time_factor, frequency_factor).unwrap();

    assert_eq!(averaged_vis_array.dim(), (3, 4, 3));
    assert_eq!(averaged_weight_array.dim(), (3, 4, 3, 4));
    assert_eq!(averaged_flag_array.dim(), (3, 4, 3, 4));

    let expected_weight_0_0_0_0 = (if flag_array[(0, 0, 0, 0)] { 0. } else { weight_array[(0, 0, 0, 0)] })
        + (if flag_array[(1, 0, 0, 0)] { 0. } else { weight_array[(1, 0, 0, 0)] })
        + (if flag_array[(0, 1, 0, 0)] { 0. } else { weight_array[(0, 1, 0, 0)] })
        + (if flag_array[(1, 1, 0, 0)] { 0. } else { weight_array[(1, 1, 0, 0)] });
    assert!(averaged_weight_array[(0, 0, 0, 0)].abs_diff_eq(&expected_weight_0_0_0_0, f32::EPSILON));

    let expected_weight_2_3_2_3 =
        if flag_array[(4, 6, 2, 3)] { 0. } else { weight_array[(4, 6, 2, 3)] };
    assert!(averaged_weight_array[(2, 3, 2, 3)].abs_diff_eq(&expected_weight_2_3_2_3, f32::EPSILON));
}

#[test]
fn test_averaging_birli_162() {
    let n_timesteps = 4;
    let n_channels = 64;
    let n_pols = 4;
    let n_baselines = 1;
    let shape = (n_timesteps, n_channels, n_baselines, n_pols);
    let time_factor = 2;
    let frequency_factor = 1;

    let jones_id = identity();
    let mut vis_array = Array3::from_elem((n_timesteps, n_channels, n_baselines), jones_id);
    let mut weight_array = Array4::from_elem(shape, 1_f32);
    let mut flag_array = Array4::from_elem(shape, false);

    // timestep 3 is missing in the second half of the channels
    let half_chan = n_channels / 2;
    for chan in half_chan..n_channels {
        vis_array[(3, chan, 0)] = scaled(jones_id, -99999.0);
        for pol in 0..n_pols {
            weight_array[(3, chan, 0, pol)] = -99999.0;
            flag_array[(3, chan, 0, pol)] = true;
        }
    }

    let (averaged_vis_array, averaged_weight_array, averaged_flag_array) =
        average(&vis_array, &weight_array, &flag_array, time_factor, frequency_factor).unwrap();

    // despite the missing value, it should still average to identity.
    averaged_vis_array.for_each(|v| assert!(jones_close(v, &jones_id)));
    for ((t, chan, _, _), v) in averaged_weight_array.indexed_iter() {
        let expected = if t == 1 && chan >= half_chan { 1.0 } else { 2.0 };
        assert!(v.abs_diff_eq(&expected, f32::EPSILON), "weight at {:?}", (t, chan));
    }
    averaged_flag_array.for_each(|&v| assert!(!v));
}

#[test]
fn shapes_are_rounded_up_for_every_factor() {
    let (vis, weights, flags) = synthesize_test_data((5, 7, 2, 4));
    for avg_time in 1..=7usize {
        for avg_freq in 1..=9usize {
            let (v, w, f) = average(&vis, &weights, &flags, avg_time, avg_freq).unwrap();
            let nt = (5 + avg_time - 1) / avg_time;
            let nf = (7 + avg_freq - 1) / avg_freq;
            assert_eq!(v.dim(), (nt, nf, 2));
            assert_eq!(w.dim(), (nt, nf, 2, 4));
            assert_eq!(f.dim(), (nt, nf, 2, 4));
        }
    }
}

#[test]
fn ragged_blocks_take_only_the_samples_present() {
    let (vis, weights, flags) = synthesize_test_data((5, 7, 3, 4));
    let (_, averaged_weights, averaged_flags) = average(&vis, &weights, &flags, 2, 3).unwrap();
    assert_eq!(averaged_weights.dim(), (3, 3, 3, 4));
    for ((i, j, b, p), w) in averaged_weights.indexed_iter() {
        let mut expected = 0_f64;
        let mut any = false;
        for t in (i * 2)..(i * 2 + 2).min(5) {
            for c in (j * 3)..(j * 3 + 3).min(7) {
                for q in 0..4 {
                    any |= !flags[(t, c, b, q)];
                }
                if !flags[(t, c, b, p)] {
                    expected += weights[(t, c, b, p)] as f64;
                }
            }
        }
        assert_eq!(*w, expected as f32, "weight at {:?}", (i, j, b, p));
        assert_eq!(averaged_flags[(i, j, b, p)], !any);
    }
    // the last block of both axes holds the single sample (4, 6)
    assert_eq!(averaged_weights[(2, 2, 1, 2)], weights[(4, 6, 1, 2)]);
}

#[test]
fn a_fully_flagged_block_falls_back_on_the_plain_mean() {
    let jones_id = identity();
    let vis = Array3::from_elem((4, 2, 1), jones_id);
    let mut weights = Array4::from_elem((4, 2, 1, 4), 1_f32);
    let mut flags = Array4::from_elem((4, 2, 1, 4), false);
    for t in 2..4 {
        for p in 0..4 {
            weights[(t, 1, 0, p)] = -99999.0;
            flags[(t, 1, 0, p)] = true;
        }
    }
    let (v, w, f) = average(&vis, &weights, &flags, 2, 1).unwrap();
    assert_eq!(v.dim(), (2, 2, 1));
    v.for_each(|j| assert_eq!(*j, jones_id));
    for p in 0..4 {
        assert_eq!(w[(1, 1, 0, p)], 0.0);
        assert!(f[(1, 1, 0, p)]);
        assert_eq!(w[(1, 0, 0, p)], 2.0);
        assert!(!f[(1, 0, 0, p)]);
        assert_eq!(w[(0, 1, 0, p)], 2.0);
        assert!(!f[(0, 1, 0, p)]);
    }
}

#[test]
fn negative_weights_without_flags_are_left_out_too() {
    let vis = Array3::from_elem((2, 1, 1), identity());
    let weights = Array4::from_elem((2, 1, 1, 4), -1_f32);
    let flags = Array4::from_elem((2, 1, 1, 4), false);
    let (v, w, f) = average(&vis, &weights, &flags, 2, 1).unwrap();
    assert_eq!(v[(0, 0, 0)], identity());
    for p in 0..4 {
        assert_eq!(w[(0, 0, 0, p)], 0.0);
        assert!(f[(0, 0, 0, p)]);
    }
}

#[test]
fn two_samples_average_to_their_weighted_mean() {
    let first = Jones {
        elems: [complex(1., 2.), complex(-3., 4.), complex(0.5, -0.25), complex(10., 20.)],
    };
    let second = Jones {
        elems: [complex(5., -6.), complex(7., 8.), complex(-1.5, 2.75), complex(-30., 40.)],
    };
    let mut vis = Array3::from_elem((2, 1, 1), first);
    vis[(1, 0, 0)] = second;
    let mut weights = Array4::from_elem((2, 1, 1, 4), 1_f32);
    for p in 0..4 {
        weights[(0, 0, 0, p)] = 2.0 + p as f32;
        weights[(1, 0, 0, p)] = 0.5 * (p + 1) as f32;
    }
    let flags = Array4::from_elem((2, 1, 1, 4), false);
    let (v, w, f) = average(&vis, &weights, &flags, 2, 1).unwrap();
    assert_eq!(v.dim(), (1, 1, 1));
    for p in 0..4 {
        let w1 = weights[(0, 0, 0, p)] as f64;
        let w2 = weights[(1, 0, 0, p)] as f64;
        let re = (first.elems[p].re as f64 * w1 + second.elems[p].re as f64 * w2) / (w1 + w2);
        let im = (first.elems[p].im as f64 * w1 + second.elems[p].im as f64 * w2) / (w1 + w2);
        let got = v[(0, 0, 0)].elems[p];
        assert!((got.re as f64 - re).abs() <= 1e-6 * re.abs(), "re of entry {}", p);
        assert!((got.im as f64 - im).abs() <= 1e-6 * im.abs(), "im of entry {}", p);
        assert_eq!(w[(0, 0, 0, p)], (w1 + w2) as f32);
        assert!(!f[(0, 0, 0, p)]);
    }
    // entry 0: (1 * 2 + 5 * 0.5) / 2.5 and (2 * 2 - 6 * 0.5) / 2.5
    assert_eq!(v[(0, 0, 0)].elems[0], complex(1.8, 0.4));
    assert_eq!(w[(0, 0, 0, 0)], 2.5);
}

#[test]
fn a_weight_cube_of_the_wrong_shape_is_refused() {
    let (vis, _, flags) = synthesize_test_data((5, 7, 3, 4));
    let weights = Array4::from_elem((5, 7, 3, 3), 1_f32);
    let err = average(&vis, &weights, &flags, 2, 2).unwrap_err();
    let AveragingError::BadArrayShape { argument, function, expected, received } = &err;
    assert_eq!(argument, "weight_array");
    assert_eq!(function, "average_visibilities");
    assert_eq!(expected, "(5, 7, 3, 4)");
    assert_eq!(received, "(5, 7, 3, 3)");
    assert_eq!(expected, &format!("{:?}", (5usize, 7usize, 3usize, 4usize)));
    assert_eq!(
        err.message(),
        "bad array shape supplied to argument weight_array of function average_visibilities. \
         expected (5, 7, 3, 4), received (5, 7, 3, 3)"
    );
}

#[test]
fn a_flag_cube_of_the_wrong_shape_is_refused() {
    let (vis, weights, _) = synthesize_test_data((5, 7, 3, 4));
    let flags = Array4::from_elem((5, 6, 3, 4), false);
    let err = average(&vis, &weights, &flags, 1, 1).unwrap_err();
    let AveragingError::BadArrayShape { argument, function, expected, received } = &err;
    assert_eq!(argument, "flag_array");
    assert_eq!(function, "average_visibilities");
    assert_eq!(expected, "(5, 7, 3, 4)");
    assert_eq!(received, "(5, 6, 3, 4)");
}

#[test]
fn the_weight_cube_is_looked_at_before_the_flag_cube() {
    let (vis, _, _) = synthesize_test_data((2, 2, 1, 4));
    let weights = Array4::from_elem((2, 2, 2, 4), 1_f32);
    let flags = Array4::from_elem((1, 2, 1, 4), false);
    let err = average(&vis, &weights, &flags, 1, 1).unwrap_err();
    let AveragingError::BadArrayShape { argument, received, .. } = &err;
    assert_eq!(argument, "weight_array");
    assert_eq!(received, "(2, 2, 2, 4)");
}

#[test]
fn an_empty_cube_averages_to_an_empty_cube() {
    let vis = Array3::from_elem((0, 7, 3), identity());
    let weights = Array4::from_elem((0, 7, 3, 4), 1_f32);
    let flags = Array4::from_elem((0, 7, 3, 4), false);
    let (v, w, f) = average(&vis, &weights, &flags, 2, 2).unwrap();
    assert_eq!(v.dim(), (0, 4, 3));
    assert_eq!(w.dim(), (0, 4, 3, 4));
    assert_eq!(f.dim(), (0, 4, 3, 4));
}

#[test]
fn a_factor_longer_than_the_axis_gives_one_block() {
    let (vis, weights, _) = synthesize_test_data((3, 2, 1, 4));
    let flags = Array4::from_elem((3, 2, 1, 4), false);
    let (v, w, _) = average(&vis, &weights, &flags, 10, 10).unwrap();
    assert_eq!(v.dim(), (1, 1, 1));
    let mut total = 0_f64;
    for t in 0..3 {
        for c in 0..2 {
            total += weights[(t, c, 0, 1)] as f64;
        }
    }
    assert_eq!(w[(0, 0, 0, 1)], total as f32);
}

#[test]
fn one_admitted_entry_makes_every_entry_a_weighted_mean() {
    let vis = Array3::from_elem((1, 1, 1), identity());
    let mut weights = Array4::from_elem((1, 1, 1, 4), 1_f32);
    let mut flags = Array4::from_elem((1, 1, 1, 4), true);
    flags[(0, 0, 0, 2)] = false;
    weights[(0, 0, 0, 2)] = 3.0;
    let (v, w, f) = average(&vis, &weights, &flags, 1, 1).unwrap();
    for p in 0..4 {
        assert!(!f[(0, 0, 0, p)]);
    }
    assert_eq!(w[(0, 0, 0, 2)], 3.0);
    assert_eq!(v[(0, 0, 0)].elems[2], complex(0., 0.));
    for p in [0usize, 1, 3] {
        assert_eq!(w[(0, 0, 0, p)], 0.0);
        assert!(v[(0, 0, 0)].elems[p].re.is_nan());
        assert!(v[(0, 0, 0)].elems[p].im.is_nan());
    }
}

#[test]
fn an_unflagged_weight_of_zero_is_admitted() {
    let vis = Array3::from_elem((2, 1, 1), identity());
    let weights = Array4::from_elem((2, 1, 1, 4), 0_f32);
    let flags = Array4::from_elem((2, 1, 1, 4), false);
    let (v, w, f) = average(&vis, &weights, &flags, 2, 1).unwrap();
    for p in 0..4 {
        assert!(!f[(0, 0, 0, p)]);
        assert_eq!(w[(0, 0, 0, p)], 0.0);
        assert!(v[(0, 0, 0)].elems[p].re.is_nan());
    }
}
