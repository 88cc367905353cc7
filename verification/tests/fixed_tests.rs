use voxelray::fixed::{fx_div, fx_floor, fx_mul, isqrt};
use voxelray::vec3::{v3_add, v3_cross, v3_norm, v3_scale, v3_sub, Vec3Fx};

const ONE: i64 = 65536;

#[test]
fn fixed_multiplication_exact_values() {
    assert_eq!(fx_mul(3 * ONE, 2 * ONE), 6 * ONE);
    assert_eq!(fx_mul(-3 * ONE, 2 * ONE), -6 * ONE);
    assert_eq!(fx_mul(ONE / 2, ONE / 2), ONE / 4);
    // Magnitudes round toward zero.
    assert_eq!(fx_mul(-98304, 32768), -49152);
    assert_eq!(fx_mul(1, 1), 0);
}

#[test]
fn fixed_division_exact_values() {
    assert_eq!(fx_div(6 * ONE, 2 * ONE), 3 * ONE);
    assert_eq!(fx_div(-6 * ONE, 2 * ONE), -3 * ONE);
    assert_eq!(fx_div(ONE, 3), 1431655765);
    assert_eq!(fx_div(ONE, -ONE), -ONE);
}

#[test]
fn fixed_floor_rounds_toward_negative_infinity() {
    assert_eq!(fx_floor(0), 0);
    assert_eq!(fx_floor(ONE - 1), 0);
    assert_eq!(fx_floor(ONE), 1);
    assert_eq!(fx_floor(-1), -1);
    assert_eq!(fx_floor(-ONE), -1);
    assert_eq!(fx_floor(-ONE - 1), -2);
    assert_eq!(fx_floor(10 * ONE + 12345), 10);
}

#[test]
fn integer_square_root_brackets_its_input() {
    assert_eq!(isqrt(0), 0);
    assert_eq!(isqrt(1), 1);
    assert_eq!(isqrt(10), 3);
    assert_eq!(isqrt(16), 4);
    assert_eq!(isqrt(u64::MAX as u128), u32::MAX as u64);
    for n in [2u128, 99, 100, 101, 65536, 1 << 80] {
        let r = isqrt(n) as u128;
        assert!(r * r <= n && n < (r + 1) * (r + 1));
    }
}

#[test]
fn vector_operations_exact_values() {
    let x = Vec3Fx { x: ONE, y: 0, z: 0 };
    let y = Vec3Fx { x: 0, y: ONE, z: 0 };
    let z = Vec3Fx { x: 0, y: 0, z: ONE };
    assert_eq!(v3_cross(x, y), z);
    assert_eq!(v3_cross(y, x), Vec3Fx { x: 0, y: 0, z: -ONE });
    assert_eq!(
        v3_add(x, v3_scale(2 * ONE, y)),
        Vec3Fx { x: ONE, y: 2 * ONE, z: 0 }
    );
    assert_eq!(v3_sub(x, x), Vec3Fx { x: 0, y: 0, z: 0 });
    // Normalizing an axis-aligned vector gives the exact unit vector.
    assert_eq!(v3_norm(v3_scale(7 * ONE, z)), z);
    // The zero vector normalizes to itself.
    assert_eq!(v3_norm(Vec3Fx { x: 0, y: 0, z: 0 }), Vec3Fx { x: 0, y: 0, z: 0 });
}
