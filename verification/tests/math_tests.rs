use particles::geom::Vector2D;
use particles::math::{div_trunc, isqrt64};
use particles::SCALE;

#[test]
fn isqrt_small_values() {
    assert_eq!(isqrt64(0), 0);
    assert_eq!(isqrt64(1), 1);
    assert_eq!(isqrt64(2), 1);
    assert_eq!(isqrt64(3), 1);
    assert_eq!(isqrt64(4), 2);
    assert_eq!(isqrt64(1023), 31);
    assert_eq!(isqrt64(1024), 32);
    assert_eq!(isqrt64(26214400), 5120);
}

#[test]
fn division_rounds_toward_zero() {
    assert_eq!(div_trunc(7, 2), 3);
    assert_eq!(div_trunc(-7, 2), -3);
    assert_eq!(div_trunc(6, 3), 2);
    assert_eq!(div_trunc(-6, 3), -2);
    assert_eq!(div_trunc(0, 5), 0);
}

#[test]
fn dot_product_is_rescaled() {
    let a = Vector2D { x: SCALE, y: 0 };
    let b = Vector2D { x: -SCALE, y: 0 };
    assert_eq!(a.dot(&b), -SCALE);
    let c = Vector2D { x: 2 * SCALE, y: 0 };
    let d = Vector2D { x: 3 * SCALE, y: 0 };
    assert_eq!(c.dot(&d), 6 * SCALE);
}

// Normalization of a 3-4-5 vector: the squared length of the result is
// within rounding of one squared unit, as the normalization law states.
#[test]
fn normalize_three_four_five() {
    let v = Vector2D { x: 3 * SCALE, y: 4 * SCALE };
    let n = v.normalize();
    assert_eq!(n, Vector2D { x: 614, y: 819 });
    let len2 = n.x * n.x + n.y * n.y;
    assert!(SCALE * SCALE - 4 * SCALE <= len2);
    assert!(len2 <= (SCALE + 1) * (SCALE + 1));
}

// A very short non-zero vector still normalizes to near-unit length: the
// square root is taken at sub-fixed-point granularity, so (1, 1) — about a
// thousandth of a unit per axis — comes out at magnitude one, not sqrt(2).
#[test]
fn normalize_short_vector_is_near_unit() {
    let v = Vector2D { x: 1, y: 1 };
    let n = v.normalize();
    assert_eq!(n, Vector2D { x: 724, y: 724 });
    let len2 = n.x * n.x + n.y * n.y;
    assert!(SCALE * SCALE - 4 * SCALE <= len2);
    assert!(len2 <= (SCALE + 1) * (SCALE + 1));
}

#[test]
fn normalize_zero_vector_is_unchanged() {
    let v = Vector2D { x: 0, y: 0 };
    assert_eq!(v.normalize(), Vector2D { x: 0, y: 0 });
}

#[test]
fn componentwise_division_rounds_toward_zero() {
    let v = Vector2D { x: 7, y: -7 };
    assert_eq!(v.divide(2), Vector2D { x: 3, y: -3 });
    assert_eq!(v.divide(-2), Vector2D { x: -3, y: 3 });
    assert_eq!(v.divide(-1), Vector2D { x: -7, y: 7 });
}

#[test]
fn vector_sums_and_differences() {
    let a = Vector2D { x: 3, y: -4 };
    let b = Vector2D { x: 10, y: 2 };
    assert_eq!(a.add(&b), Vector2D { x: 13, y: -2 });
    assert_eq!(a.subtract(&b), Vector2D { x: -7, y: -6 });
    assert_eq!(a.length_sq(), 25);
}
