use vis_averaging::averaging::{chunk_bounds, count_chunks};
use vis_averaging::cube::{FlagCube, JonesCube, WeightCube, FLAG_BYTES, JONES_BYTES, WEIGHT_BYTES};
use vis_averaging::text::shape_to_string;
use vis_averaging::{Complex, Jones};

#[test]
fn a_jones_cube_holds_what_was_written() {
    let mut cube = JonesCube::from_elem((2, 3, 1), Jones::splat(0)).unwrap();
    assert_eq!(cube.dim(), (2, 3, 1));
    let value = Jones { elems: [Complex { re: 1, im: 2 }; 4] };
    cube.set(1, 2, 0, value);
    assert_eq!(cube.get(1, 2, 0), value);
    assert_eq!(cube.get(0, 2, 0), Jones::splat(0));
    assert_eq!(cube.get(1, 1, 0), Jones::splat(0));
    assert_eq!(cube.dim(), (2, 3, 1));
}

#[test]
fn a_weight_cube_holds_what_was_written() {
    let mut cube = WeightCube::from_elem((2, 3, 2, 4), 9).unwrap();
    assert_eq!(cube.dim(), (2, 3, 2, 4));
    cube.set(1, 2, 1, 3, 7);
    assert_eq!(cube.get(1, 2, 1, 3), 7);
    assert_eq!(cube.get(1, 2, 1, 2), 9);
    cube.set_sample(0, 1, 1, [1, 2, 3, 4]);
    assert_eq!(cube.get_sample(0, 1, 1), [1, 2, 3, 4]);
    assert_eq!(cube.get(0, 1, 1, 2), 3);
    assert_eq!(cube.get_sample(1, 2, 1), [9, 9, 9, 7]);
    assert_eq!(cube.get_sample(0, 1, 0), [9, 9, 9, 9]);
}

#[test]
fn a_flag_cube_holds_what_was_written() {
    let mut cube = FlagCube::from_elem((1, 2, 3, 4), false).unwrap();
    assert_eq!(cube.dim(), (1, 2, 3, 4));
    cube.set(0, 1, 2, 0, true);
    assert!(cube.get(0, 1, 2, 0));
    assert!(!cube.get(0, 1, 2, 1));
    cube.set_sample(0, 0, 1, [true, false, true, false]);
    assert_eq!(cube.get_sample(0, 0, 1), [true, false, true, false]);
    assert_eq!(cube.get_sample(0, 1, 2), [true, false, false, false]);
}

#[test]
fn a_cube_too_large_to_make_is_none() {
    assert!(JonesCube::from_elem((usize::MAX, 2, 1), Jones::splat(0)).is_none());
    assert!(JonesCube::from_elem((usize::MAX / 2, 1, 1), Jones::splat(0)).is_none());
    assert!(WeightCube::from_elem((usize::MAX / 2, 2, 1, 4), 0).is_none());
    assert!(FlagCube::from_elem((usize::MAX / 2, 0, 3, 4), false).is_none());
    assert!(FlagCube::from_elem((usize::MAX / 2 + 1, 0, 1, 1), false).is_none());
}

#[test]
fn a_cube_with_an_empty_axis_can_be_made() {
    // the lengths that are not zero multiply to just under the limit
    let cube = FlagCube::from_elem((usize::MAX / 16, 0, 2, 4), false).unwrap();
    assert_eq!(cube.dim(), (usize::MAX / 16, 0, 2, 4));
    assert!(FlagCube::from_elem((usize::MAX / 8, 0, 2, 4), false).is_none());
    let cube = JonesCube::from_elem((0, 0, 0), Jones::splat(0)).unwrap();
    assert_eq!(cube.dim(), (0, 0, 0));
}

#[test]
fn chunks_are_counted_by_rounding_up() {
    assert_eq!(count_chunks(0, 1), 0);
    assert_eq!(count_chunks(0, 5), 0);
    assert_eq!(count_chunks(1, 5), 1);
    assert_eq!(count_chunks(5, 5), 1);
    assert_eq!(count_chunks(6, 5), 2);
    assert_eq!(count_chunks(7, 2), 4);
    assert_eq!(count_chunks(5, 2), 3);
    assert_eq!(count_chunks(64, 1), 64);
    assert_eq!(count_chunks(usize::MAX, 1), usize::MAX);
    assert_eq!(count_chunks(usize::MAX, 2), usize::MAX / 2 + 1);
    assert_eq!(count_chunks(usize::MAX, usize::MAX), 1);
    assert_eq!(count_chunks(usize::MAX - 1, usize::MAX), 1);
}

#[test]
fn the_last_chunk_ends_with_the_axis() {
    assert_eq!(chunk_bounds(0, 2, 7), (0, 2));
    assert_eq!(chunk_bounds(1, 2, 7), (2, 4));
    assert_eq!(chunk_bounds(2, 2, 7), (4, 6));
    assert_eq!(chunk_bounds(3, 2, 7), (6, 7));
    assert_eq!(chunk_bounds(0, 10, 7), (0, 7));
    assert_eq!(chunk_bounds(0, 7, 7), (0, 7));
    assert_eq!(chunk_bounds(1, usize::MAX - 1, usize::MAX), (usize::MAX - 1, usize::MAX));
}

#[test]
fn a_shape_is_written_as_a_tuple_is() {
    assert_eq!(shape_to_string(5, 7, 3, 4), "(5, 7, 3, 4)");
    assert_eq!(shape_to_string(0, 10, 109, 1000), "(0, 10, 109, 1000)");
    let shapes = [(0, 0, 0, 0), (9, 10, 11, 99), (100, 101, 999, 1000), (usize::MAX, 1, 2, 3)];
    for s in shapes {
        assert_eq!(shape_to_string(s.0, s.1, s.2, s.3), format!("{:?}", s));
        assert_eq!(
            shape_to_string(s.0, s.1, s.2, s.3),
            format!("({}, {}, {}, {})", s.0, s.1, s.2, s.3)
        );
    }
}

#[test]
fn cells_take_the_bytes_that_the_limits_count() {
    assert_eq!(std::mem::size_of::<Jones<u32>>(), JONES_BYTES);
    assert_eq!(std::mem::size_of::<u32>(), WEIGHT_BYTES);
    assert_eq!(std::mem::size_of::<bool>(), FLAG_BYTES);
}
