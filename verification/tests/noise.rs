use procedural_generation::cellular::{isqrt, Cellular};
use procedural_generation::fixed::{fade, UNIT};
use procedural_generation::gradient::grad3_dot;
use procedural_generation::functions::{change_range, ChangeRange};
use procedural_generation::layers::NoiseError;
use procedural_generation::mapped::Mapped;
use procedural_generation::mapper::Mapper;
use procedural_generation::noise::{Noise, Transform};
use procedural_generation::perlin::Perlin;
use procedural_generation::perlin_2d::Perlin2D;
use procedural_generation::perlin_3d::Perlin3D;
use procedural_generation::scalar_field::{ScalarField3D, COMPRESSION};

fn octave_layers() -> Vec<(i64, i64)> {
    // Weights 0.5, 0.25, 0.125, 0.075 and frequencies 1, 2, 4, 8 in
    // fixed point.
    vec![
        (32768, 65536),
        (16384, 131072),
        (8192, 262144),
        (4915, 524288),
    ]
}

#[test]
fn fade_endpoints_and_midpoint() {
    assert_eq!(fade(0), 0);
    assert_eq!(fade(UNIT), UNIT);
    assert_eq!(fade(UNIT / 2), UNIT / 2);
    for t in [1, 100, 9999, 20000, 40000, 65535] {
        let f = fade(t);
        assert!(0 <= f && f <= UNIT);
    }
}

#[test]
fn fade_is_monotone_on_samples() {
    let mut prev = fade(0);
    for k in 1..=64 {
        let next = fade(k * 1024);
        assert!(prev <= next);
        prev = next;
    }
}

#[test]
fn isqrt_exact_values() {
    assert_eq!(isqrt(0), 0);
    assert_eq!(isqrt(1), 1);
    assert_eq!(isqrt(15), 3);
    assert_eq!(isqrt(16), 4);
    assert_eq!(isqrt(4294967296), 65536);
    assert_eq!(isqrt(u64::MAX), 4294967295);
}

#[test]
fn change_range_exact_values() {
    assert_eq!(change_range(32768, 0, 200), 100);
    assert_eq!(change_range(65536, -100, 100), 100);
    assert_eq!(change_range(0, -5, 5), -5);
    assert_eq!(change_range(16384, 0, 65536), 16384);
}

#[test]
fn gradient2_output_in_unit_range() {
    let noise = Perlin2D::new(&octave_layers(), 256, Some(0)).unwrap();
    for &(x, y) in [
        (0i64, 0i64),
        (65536, 65536),
        (123456, -987654),
        (-400000000, 12345678),
        (i64::MAX / 2, i64::MIN / 2),
        (7, -7),
    ]
    .iter()
    {
        let v = noise.get((x, y));
        assert!(0 <= v && v <= UNIT, "value {} out of range", v);
    }
}

#[test]
fn gradient3_output_in_unit_range() {
    let noise = Perlin3D::new(&octave_layers(), 256, Some(0)).unwrap();
    for &(x, y, z) in [
        (0i64, 0i64, 0i64),
        (65536, -65536, 32768),
        (-100000000, 5, 99999999),
        (i64::MAX / 3, i64::MIN / 3, 424242),
    ]
    .iter()
    {
        let v = noise.get((x, y, z));
        assert!(0 <= v && v <= UNIT, "value {} out of range", v);
    }
}

#[test]
fn gradient3_table_keeps_reference_duplicates() {
    // The classic sixteen-branch 3D gradient table repeats two
    // directions: hashes 13 and 15 fall back to the same vectors as 9
    // and 11 instead of following the symmetric pattern. The table is
    // kept exactly as the reference behaviour has it.
    for &(x, y, z) in [(123i64, -456i64, 789i64), (UNIT, UNIT / 2, -UNIT)].iter() {
        assert_eq!(grad3_dot(13, x, y, z), grad3_dot(9, x, y, z));
        assert_eq!(grad3_dot(15, x, y, z), grad3_dot(11, x, y, z));
        assert_eq!(grad3_dot(12, x, y, z), grad3_dot(0, x, y, z));
        assert_eq!(grad3_dot(14, x, y, z), -grad3_dot(2, x, y, z));
    }
}

#[test]
fn negative_frequency_mirrors_the_coordinates() {
    let forward = Perlin2D::new(&vec![(1, 65536)], 64, Some(4)).unwrap();
    let backward = Perlin2D::new(&vec![(1, -65536)], 64, Some(4)).unwrap();
    for &(x, y) in [(0i64, 0i64), (90000, -120000), (-31415, 27182)].iter() {
        let v = backward.get((x, y));
        assert_eq!(v, forward.get((-x, -y)));
        assert!(0 <= v && v <= UNIT);
    }
}

#[test]
fn gradient_scenario_repeatable_and_interior() {
    let noise2 = Perlin2D::new(&octave_layers(), 256, Some(0)).unwrap();
    let a = noise2.get((0, 0));
    let b = noise2.get((0, 0));
    assert_eq!(a, b);
    assert!(0 < a && a < UNIT);

    let noise3 = Perlin3D::new(&octave_layers(), 256, Some(0)).unwrap();
    let c = noise3.get((0, 0, 0));
    let d = noise3.get((0, 0, 0));
    assert_eq!(c, d);
    assert!(0 < c && c < UNIT);
}

#[test]
fn same_seed_gives_identical_tables_and_samples() {
    let a = Perlin2D::new(&octave_layers(), 256, Some(42)).unwrap();
    let b = Perlin2D::new(&octave_layers(), 256, Some(42)).unwrap();
    assert_eq!(a.permutation, b.permutation);
    for &(x, y) in [(0i64, 0i64), (100000, -100000), (424242, 171717)].iter() {
        assert_eq!(a.get((x, y)), b.get((x, y)));
    }
}

#[test]
fn different_seeds_give_different_tables_and_samples() {
    let a = Perlin2D::new(&octave_layers(), 256, Some(1)).unwrap();
    let b = Perlin2D::new(&octave_layers(), 256, Some(2)).unwrap();
    assert_ne!(a.permutation, b.permutation);
    let mut differs = false;
    for k in 0..32i64 {
        let p = (k * 29137 + 11, k * 51241 - 7);
        if a.get(p) != b.get(p) {
            differs = true;
        }
    }
    assert!(differs);
}

#[test]
fn default_seed_is_zero() {
    let a = Perlin2D::new(&octave_layers(), 256, None).unwrap();
    let b = Perlin2D::new(&octave_layers(), 256, Some(0)).unwrap();
    assert_eq!(a.permutation, b.permutation);
    assert_eq!(a.get((31337, -31337)), b.get((31337, -31337)));
}

#[test]
fn normalized_weights_sum_close_to_one_unit() {
    // Deliberately unnormalized weights of very different magnitude.
    let layers = vec![(1, 65536), (2, 131072), (3, 262144), (4000000, 524288)];
    let noise = Perlin2D::new(&layers, 128, Some(7)).unwrap();
    let total: i64 = noise.layers.iter().map(|l| l.0).sum();
    let n = noise.layers.len() as i64;
    assert!(total <= UNIT);
    assert!(total > UNIT - n);
}

#[test]
fn construction_errors_are_reported() {
    let layers = octave_layers();
    match Perlin2D::new(&layers, 100, Some(0)) {
        Err(NoiseError::WrapNotPowerOfTwo) => {}
        _ => panic!("expected a wrap error"),
    }
    match Perlin2D::new(&Vec::new(), 256, Some(0)) {
        Err(NoiseError::NoLayers) => {}
        _ => panic!("expected an empty-layer error"),
    }
    match Perlin2D::new(&vec![(0, 65536), (0, 131072)], 256, Some(0)) {
        Err(NoiseError::ZeroWeightSum) => {}
        _ => panic!("expected a zero-weight error"),
    }
    assert!(Perlin3D::new(&layers, 100, Some(0)).is_err());
    assert!(Perlin::new(&layers, 100, Some(0)).is_err());
}

#[test]
fn reconfigurable_source_replaces_layers_and_wrap() {
    let mut noise = Perlin::new(&octave_layers(), 256, Some(0)).unwrap();
    let before = noise.get((777777, -777777));
    assert!(0 <= before && before <= UNIT);

    assert!(noise.set_layers(&vec![(3, 65536), (1, 524288)]).is_ok());
    let total: i64 = noise.layers.iter().map(|l| l.0).sum();
    assert!(total <= UNIT && total > UNIT - 2);
    let after_layers = noise.get((777777, -777777));
    assert!(0 <= after_layers && after_layers <= UNIT);

    assert_eq!(noise.set_wrap(100), Err(NoiseError::WrapNotPowerOfTwo));
    assert!(noise.set_wrap(128).is_ok());
    let after_wrap = noise.get((777777, -777777));
    assert!(0 <= after_wrap && after_wrap <= UNIT);

    assert_eq!(noise.set_layers(&Vec::new()), Err(NoiseError::NoLayers));
}

#[test]
fn cellular_scenario_in_range() {
    let noise = Cellular::new(30, 20, Some(0));
    let v = noise.get((0, 0));
    assert!(0 <= v && v < UNIT);
    for &(x, y) in [
        (5i64 * UNIT, 7i64 * UNIT),
        (29 * UNIT + 123, 19 * UNIT + 456),
        (-3 * UNIT - 1, -2 * UNIT - 1),
    ]
    .iter()
    {
        let v = noise.get((x, y));
        assert!(0 <= v && v < UNIT);
    }
}

#[test]
fn cellular_on_feature_point_returns_zero() {
    let noise = Cellular::new(30, 20, Some(0));
    // The feature point of the cell that input (0, 0) falls in sits at
    // border-grid index (0 + 1) * (30 + 2) + (0 + 1).
    let (ox, oy) = noise.points[33];
    assert_eq!(noise.get((ox, oy)), 0);
}

#[test]
fn cellular_same_seed_gives_identical_grids() {
    let a = Cellular::new(14, 11, Some(9));
    let b = Cellular::new(14, 11, Some(9));
    assert_eq!(a.points, b.points);
    for &(x, y) in [(0i64, 0i64), (123456, -654321), (9 * UNIT, 5 * UNIT + 17)].iter() {
        assert_eq!(a.get((x, y)), b.get((x, y)));
    }
    let c = Cellular::new(14, 11, Some(10));
    assert_ne!(a.points, c.points);
}

#[test]
fn cellular_is_repeatable() {
    let noise = Cellular::new(12, 9, Some(5));
    let a = noise.get((123456, 654321));
    let b = noise.get((123456, 654321));
    assert_eq!(a, b);
}

#[test]
fn map_applies_transform_to_source_output() {
    let source = Cellular::new(10, 10, Some(3));
    let raw = source.get((70000, 80000));
    let mapped = Mapped::new(source, ChangeRange { min: 0, max: 130 });
    assert_eq!(mapped.get((70000, 80000)), change_range(raw, 0, 130));

    let chained = Cellular::new(10, 10, Some(3)).map(ChangeRange { min: 0, max: 130 });
    assert_eq!(chained.get((70000, 80000)), change_range(raw, 0, 130));
}

#[test]
fn mapper_chains_transforms_in_registration_order() {
    let f1 = ChangeRange { min: 100, max: 300 };
    let f2 = ChangeRange { min: -50, max: 50 };
    let source = || Cellular::new(8, 8, Some(11));

    let mut mapper = Mapper::new(source());
    mapper.add_custom(f1);
    mapper.add_custom(f2);

    let nested = Mapped::new(Mapped::new(source(), f1), f2);
    for &(x, y) in [(0i64, 0i64), (90000, 12345), (-70000, 250000)].iter() {
        assert_eq!(mapper.get((x, y)), nested.get((x, y)));
        assert_eq!(
            mapper.get((x, y)),
            f2.apply(f1.apply(source().get((x, y))))
        );
    }
}

#[test]
fn scalar_field_fill_matches_direct_sampling() {
    let dims = (4u32, 3u32, 2u32);
    let field = ScalarField3D::fill(
        dims,
        UNIT,
        UNIT / 2,
        Perlin3D::new(&octave_layers(), 256, Some(0)).unwrap(),
    );
    assert_eq!(field.values.len(), 4 * 3 * 2);
    assert_eq!(field.dimensions, dims);
    let reference = Perlin3D::new(&octave_layers(), 256, Some(0)).unwrap();
    for z in 0..2i64 {
        for y in 0..3i64 {
            for x in 0..4i64 {
                let idx = (z * 3 + y) * 4 + x;
                let direct =
                    reference.get((x * COMPRESSION, y * COMPRESSION, z * COMPRESSION));
                assert_eq!(field.values[idx as usize], direct);
            }
        }
    }
}

#[test]
fn scalar_field_new_keeps_fields() {
    let field = ScalarField3D::new(vec![1i64, 2, 3], (3, 1, 1), 7, 9);
    assert_eq!(field.values, vec![1, 2, 3]);
    assert_eq!(field.dimensions, (3, 1, 1));
    assert_eq!(field.unit_size, 7);
    assert_eq!(field.surface, 9);
}
