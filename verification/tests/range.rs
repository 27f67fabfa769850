use utm_calc::{integer_sqrt, utm_range, UtmCoordinate};

#[test]
fn simple_range() {
    let a = UtmCoordinate { easting: 3 * 1000, northing: 0 };
    let b = UtmCoordinate { easting: 6 * 1000, northing: 4 * 1000 };
    assert!((5.0 - utm_range(a, b) as f64 / 1000.0).abs() < 0.001);
    assert!((5.0 - utm_range(b, a) as f64 / 1000.0).abs() < 0.001);
}

#[test]
fn zero_range() {
    let a = UtmCoordinate { easting: 3 * 1000, northing: 4 * 1000 };
    let b = UtmCoordinate { easting: 3 * 1000, northing: 4 * 1000 };
    assert!((0.0 - utm_range(a, b) as f64 / 1000.0).abs() < 0.001);
    assert!((0.0 - utm_range(b, a) as f64 / 1000.0).abs() < 0.001);
}

#[test]
fn approx_range_01() {
    let a = UtmCoordinate { easting: 3 * 1000, northing: 4 * 1000 + 1 };
    let b = UtmCoordinate { easting: 3 * 1000, northing: 4 * 1000 };
    assert!((0.001 - utm_range(a, b) as f64 / 1000.0).abs() < 0.001);
    assert!((0.001 - utm_range(b, a) as f64 / 1000.0).abs() < 0.001);
}

#[test]
fn approx_range_02() {
    let a = UtmCoordinate { easting: 15 * 1000, northing: 4 * 1000 };
    let b = UtmCoordinate { easting: 15 * 1000 + 500, northing: 4 * 1000 + 25 };
    assert!((0.500 - utm_range(a, b) as f64 / 1000.0).abs() < 0.001);
    assert!((0.500 - utm_range(b, a) as f64 / 1000.0).abs() < 0.001);
}

#[test]
fn it_works() {
}

#[test]
fn range_of_a_right_triangle_is_exact() {
    let a = UtmCoordinate { easting: 3_000, northing: 0 };
    let b = UtmCoordinate { easting: 6_000, northing: 4_000 };
    assert_eq!(utm_range(a, b), 5_000);
    assert_eq!(utm_range(b, a), 5_000);
}

#[test]
fn range_is_rounded_down_to_whole_metres() {
    let a = UtmCoordinate { easting: 15_000, northing: 4_000 };
    let b = UtmCoordinate { easting: 15_500, northing: 4_025 };
    // 500^2 + 25^2 = 250_625, between 500^2 and 501^2
    assert_eq!(utm_range(a, b), 500);
    let c = UtmCoordinate { easting: 0, northing: 0 };
    let d = UtmCoordinate { easting: 1, northing: 1 };
    assert_eq!(utm_range(c, d), 1);
    let e = UtmCoordinate { easting: 2, northing: 2 };
    assert_eq!(utm_range(c, e), 2);
}

#[test]
fn range_along_one_axis() {
    let a = UtmCoordinate { easting: 3_000, northing: 4_001 };
    let b = UtmCoordinate { easting: 3_000, northing: 4_000 };
    assert_eq!(utm_range(a, b), 1);
    let c = UtmCoordinate { easting: -7, northing: 12 };
    let d = UtmCoordinate { easting: 93, northing: 12 };
    assert_eq!(utm_range(c, d), 100);
}

#[test]
fn range_is_symmetric() {
    let points = [
        UtmCoordinate { easting: 0, northing: 0 },
        UtmCoordinate { easting: 55_340, northing: 18_400 },
        UtmCoordinate { easting: -12, northing: 99_999 },
        UtmCoordinate { easting: i32::MAX, northing: i32::MIN },
        UtmCoordinate { easting: i32::MIN, northing: i32::MAX },
    ];
    for a in points.iter() {
        for b in points.iter() {
            assert_eq!(utm_range(*a, *b), utm_range(*b, *a));
        }
    }
}

#[test]
fn range_to_self_is_zero() {
    let points = [
        UtmCoordinate { easting: 0, northing: 0 },
        UtmCoordinate { easting: 3_000, northing: 4_000 },
        UtmCoordinate { easting: i32::MIN, northing: i32::MAX },
    ];
    for a in points.iter() {
        assert_eq!(utm_range(*a, *a), 0);
    }
}

#[test]
fn range_between_opposite_corners() {
    let a = UtmCoordinate { easting: i32::MIN, northing: i32::MIN };
    let b = UtmCoordinate { easting: i32::MAX, northing: i32::MAX };
    // the side is 2^32 - 1; the diagonal is that times the square root of two
    assert_eq!(utm_range(a, b), 6_074_000_998);
    let c = UtmCoordinate { easting: i32::MIN, northing: 0 };
    let d = UtmCoordinate { easting: i32::MAX, northing: 0 };
    assert_eq!(utm_range(c, d), 4_294_967_295);
}

#[test]
fn integer_sqrt_of_small_numbers() {
    let expected: [u64; 17] = [0, 1, 1, 1, 2, 2, 2, 2, 2, 3, 3, 3, 3, 3, 3, 3, 4];
    for n in 0..17usize {
        assert_eq!(integer_sqrt(n as u128), expected[n]);
    }
}

#[test]
fn integer_sqrt_around_squares() {
    assert_eq!(integer_sqrt(24_999_999), 4_999);
    assert_eq!(integer_sqrt(25_000_000), 5_000);
    assert_eq!(integer_sqrt(25_010_000), 5_000);
    assert_eq!(integer_sqrt(25_010_001), 5_001);
}

#[test]
fn integer_sqrt_of_the_largest_numbers() {
    assert_eq!(integer_sqrt(u128::MAX), u64::MAX);
    let top = u64::MAX as u128;
    assert_eq!(integer_sqrt(top * top), u64::MAX);
    assert_eq!(integer_sqrt(top * top - 1), u64::MAX - 1);
    assert_eq!(integer_sqrt(1u128 << 64), 1u64 << 32);
}
