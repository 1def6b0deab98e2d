use tileworld::geom::{isqrt, normalize, Vec2, DIR_ONE};

#[test]
fn isqrt_exact_and_between_squares() {
    assert_eq!(isqrt(0), 0);
    assert_eq!(isqrt(1), 1);
    assert_eq!(isqrt(15), 3);
    assert_eq!(isqrt(16), 4);
    assert_eq!(isqrt(17), 4);
    assert_eq!(isqrt(8589934592), 92681);
    assert_eq!(isqrt(u128::MAX), 18446744073709551615);
}

#[test]
fn normalize_scales_to_length() {
    assert_eq!(normalize(Vec2 { x: 3000, y: -4000 }, 5), Vec2 { x: 3, y: -4 });
    assert_eq!(normalize(Vec2 { x: 3000, y: 4000 }, DIR_ONE), Vec2 { x: 39321, y: 52428 });
    assert_eq!(normalize(Vec2 { x: -7, y: 0 }, 100), Vec2 { x: -100, y: 0 });
}

#[test]
fn normalize_keeps_zero() {
    assert_eq!(normalize(Vec2 { x: 0, y: 0 }, DIR_ONE), Vec2 { x: 0, y: 0 });
}
