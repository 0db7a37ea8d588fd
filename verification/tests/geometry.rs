use kmeans::types::DataPoint;

#[test]
fn dist_sq_exact_u8() {
    assert_eq!((1u8, 2u8).dist_sq(&(4, 6)), 25);
    assert_eq!((4u8, 6u8).dist_sq(&(1, 2)), 25);
    assert_eq!((0u8, 0u8).dist_sq(&(255, 255)), 2 * 255 * 255);
}

#[test]
fn dist_sq_exact_i16() {
    assert_eq!((-3i16, 4i16).dist_sq(&(3, -4)), 100);
    assert_eq!((i16::MIN, 0i16).dist_sq(&(i16::MAX, 0)), 65535u64 * 65535u64);
}

#[test]
fn dist_sq_exact_u16_3d() {
    assert_eq!((1u16, 2u16, 3u16).dist_sq(&(2, 4, 6)), 14);
}

#[test]
fn dist_sq_exact_i8_4d() {
    assert_eq!((1i8, -1i8, 2i8, -2i8).dist_sq(&(-1, 1, -2, 2)), 40);
}

#[test]
fn dist_sq_exact_i16_3d() {
    assert_eq!((-1i16, 0i16, 1i16).dist_sq(&(1, -2, 3)), 12);
}

#[test]
fn dist_sq_exact_u16_4d() {
    assert_eq!((1u16, 2u16, 3u16, 4u16).dist_sq(&(4, 3, 2, 1)), 20);
}

#[test]
fn dist_sq_symmetric_and_zero_iff_equal() {
    let pairs_u8: Vec<((u8, u8), (u8, u8))> =
        vec![((0, 0), (0, 0)), ((1, 2), (2, 1)), ((200, 3), (3, 200))];
    for (a, b) in pairs_u8 {
        assert_eq!(a.dist_sq(&b), b.dist_sq(&a));
        assert_eq!(a.dist_sq(&b) == 0, a == b);
    }
    let pairs_i16: Vec<((i16, i16), (i16, i16))> =
        vec![((-7, 7), (-7, 7)), ((-7, 7), (7, -7)), ((100, -100), (-100, 100))];
    for (a, b) in pairs_i16 {
        assert_eq!(a.dist_sq(&b), b.dist_sq(&a));
        assert_eq!(a.dist_sq(&b) == 0, a == b);
    }
}

#[test]
fn mean_truncates_unsigned() {
    let v: Vec<(u8, u8)> = vec![(1, 2), (2, 3), (2, 4)];
    // sums (5, 9) over 3 points: (1, 3)
    assert_eq!(<(u8, u8) as DataPoint>::mean(&v), (1, 3));
}

#[test]
fn mean_truncates_toward_zero_signed() {
    let v: Vec<(i16, i16)> = vec![(-3, 4), (0, 1), (2, 2)];
    // sums (-1, 7) over 3 points: truncation toward zero gives (0, 2)
    assert_eq!(<(i16, i16) as DataPoint>::mean(&v), (0, 2));
    let w: Vec<(i16, i16)> = vec![(-5, -5), (-4, -4)];
    // sums (-9, -9) over 2 points: truncation toward zero gives (-4, -4)
    assert_eq!(<(i16, i16) as DataPoint>::mean(&w), (-4, -4));
}

#[test]
fn mean_of_singleton_is_the_point() {
    let v: Vec<(u16, u16, u16)> = vec![(9, 8, 7)];
    assert_eq!(<(u16, u16, u16) as DataPoint>::mean(&v), (9, 8, 7));
    let w: Vec<(i8, i8, i8, i8)> = vec![(-9, 8, -7, 6)];
    assert_eq!(<(i8, i8, i8, i8) as DataPoint>::mean(&w), (-9, 8, -7, 6));
}

#[test]
fn mean_truncates_3d_and_4d() {
    let v: Vec<(i16, i16, i16)> = vec![(-3, 1, 7), (-4, 2, 8)];
    // sums (-7, 3, 15) over 2 points: (-3, 1, 7)
    assert_eq!(<(i16, i16, i16) as DataPoint>::mean(&v), (-3, 1, 7));
    let w: Vec<(u16, u16, u16, u16)> = vec![(1, 2, 3, 4), (2, 3, 4, 5), (4, 5, 6, 7)];
    // sums (7, 10, 13, 16) over 3 points: (2, 3, 4, 5)
    assert_eq!(<(u16, u16, u16, u16) as DataPoint>::mean(&w), (2, 3, 4, 5));
}

#[test]
fn select_index_picks_first_exceeding() {
    let weights: Vec<u64> = vec![2, 3, 5];
    assert_eq!(kmeans::select_index(&weights, 0), 0);
    assert_eq!(kmeans::select_index(&weights, 1), 0);
    assert_eq!(kmeans::select_index(&weights, 2), 1);
    assert_eq!(kmeans::select_index(&weights, 4), 1);
    assert_eq!(kmeans::select_index(&weights, 5), 2);
    assert_eq!(kmeans::select_index(&weights, 9), 2);
}

#[test]
fn select_index_skips_weightless_candidates() {
    let weights: Vec<u64> = vec![0, 4, 0, 1];
    assert_eq!(kmeans::select_index(&weights, 0), 1);
    assert_eq!(kmeans::select_index(&weights, 3), 1);
    assert_eq!(kmeans::select_index(&weights, 4), 3);
}
