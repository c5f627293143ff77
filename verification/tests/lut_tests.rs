use palettify::{LUT, LUT_SIZE};

fn coordinate_lut() -> LUT<u8> {
    LUT::from_interpolation(|r: usize, g: usize, b: usize| [r as u8, g as u8, b as u8])
}

#[test]
fn lut_size_is_64() {
    assert_eq!(LUT_SIZE, 64);
    assert_eq!(LUT::<u8>::SIZE, 64);
}

#[test]
fn index_is_three_times_the_flat_cell_number() {
    assert_eq!(LUT::<u8>::index(0, 0, 0), 0);
    assert_eq!(LUT::<u8>::index(0, 0, 1), 3);
    assert_eq!(LUT::<u8>::index(1, 2, 3), (4096 + 128 + 3) * 3);
    assert_eq!(LUT::<u8>::index(63, 63, 63), 786429);
}

#[test]
fn from_interpolation_fills_every_cell() {
    let lut = coordinate_lut();
    for r in 0..64 {
        for g in (0..64).step_by(7) {
            for b in (0..64).step_by(5) {
                assert_eq!(lut.lookup_cell_unchecked(r, g, b), [r as u8, g as u8, b as u8]);
            }
        }
    }
    assert_eq!(lut.lookup_cell_unchecked(63, 63, 63), [63, 63, 63]);
}

#[test]
fn set_cell_then_lookup_reads_written_values() {
    let mut lut = coordinate_lut();
    lut.set_cell_unchecked(10, 20, 30, 200, 201, 202);
    assert_eq!(lut.lookup_cell_unchecked(10, 20, 30), [200, 201, 202]);
    assert_eq!(lut.lookup_cell_unchecked(10, 20, 31), [10, 20, 31]);
    assert_eq!(lut.lookup_cell_unchecked(10, 20, 29), [10, 20, 29]);
    assert_eq!(lut.lookup_cell_unchecked(11, 20, 30), [11, 20, 30]);
}

#[test]
fn lookup_picks_the_nearest_grid_cell_as_float_rounding_does() {
    let lut = coordinate_lut();
    let scale = (LUT_SIZE - 1) as f32 / 255.0;
    for v in 0..=255u8 {
        let expected = (v as f32 * scale).round() as usize as u8;
        let other = 255 - v;
        let expected_other = (other as f32 * scale).round() as usize as u8;
        assert_eq!(lut.lookup(v, other, v), [expected, expected_other, expected]);
    }
}

#[test]
fn lookup_endpoints() {
    let lut = coordinate_lut();
    assert_eq!(lut.lookup(0, 0, 0), [0, 0, 0]);
    assert_eq!(lut.lookup(255, 255, 255), [63, 63, 63]);
    assert_eq!(lut.lookup(128, 2, 3), [32, 0, 1]);
}

#[test]
fn cloned_lut_keeps_cells() {
    let lut = coordinate_lut();
    let copy = lut.clone();
    assert_eq!(copy.lookup_cell_unchecked(5, 6, 7), [5, 6, 7]);
}

#[test]
fn coordinates_past_the_grid_address_the_next_flat_cell() {
    let mut lut = coordinate_lut();
    assert_eq!(lut.lookup_cell_unchecked(0, 0, 64), [0, 1, 0]);
    assert_eq!(lut.lookup_cell_unchecked(0, 64, 0), [1, 0, 0]);
    lut.set_cell_unchecked(2, 3, 64, 9, 8, 7);
    assert_eq!(lut.lookup_cell_unchecked(2, 4, 0), [9, 8, 7]);
}
