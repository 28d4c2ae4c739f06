use fluidsim::kernels::{poly6_kernel, spiky_kernel_gradient};
use fluidsim::fixed::{isqrt_i64, clamp_i64, div_floor_i64};

#[test]
fn poly6_zero_on_and_beyond_support() {
    assert_eq!(poly6_kernel(64, 64), 0);
    assert_eq!(poly6_kernel(65, 64), 0);
    assert_eq!(poly6_kernel(1024, 64), 0);
    assert_eq!(poly6_kernel(320, 320), 0);
    assert_eq!(poly6_kernel(1000, 320), 0);
}

#[test]
fn poly6_positive_inside_support() {
    assert!(poly6_kernel(0, 64) > 0);
    assert!(poly6_kernel(63, 64) > 0);
    assert!(poly6_kernel(0, 1024) > 0);
    assert!(poly6_kernel(1023, 1024) > 0);
    assert!(poly6_kernel(319, 320) > 0);
}

#[test]
fn poly6_exact_values() {
    assert_eq!(poly6_kernel(0, 64), 5599040752519);
    assert_eq!(poly6_kernel(32, 64), 2362095317469);
    assert_eq!(poly6_kernel(63, 64), 166895623);
    assert_eq!(poly6_kernel(0, 320), 223961630100);
    assert_eq!(poly6_kernel(160, 320), 94483812698);
}

#[test]
fn poly6_decays_toward_support_edge() {
    assert!(poly6_kernel(0, 64) > poly6_kernel(32, 64));
    assert!(poly6_kernel(32, 64) > poly6_kernel(63, 64));
    assert!(poly6_kernel(63, 64) > poly6_kernel(64, 64));
}

#[test]
fn spiky_gradient_zero_outside_and_degenerate() {
    assert_eq!(spiky_kernel_gradient(10, 10, 64, 64), (0, 0));
    assert_eq!(spiky_kernel_gradient(10, 10, 100, 64), (0, 0));
    assert_eq!(spiky_kernel_gradient(0, 0, 0, 64), (0, 0));
}

#[test]
fn spiky_gradient_exact_values() {
    assert_eq!(spiky_kernel_gradient(30, 40, 50, 64), (-107793, -143724));
    assert_eq!(spiky_kernel_gradient(10, 0, 10, 320), (-28187, 0));
}

#[test]
fn spiky_gradient_antisymmetric() {
    let cases = [
        (30i64, 40i64, 50i64, 64i64),
        (10, 0, 10, 320),
        (-7, 3, 9, 128),
        (1, -1, 2, 1024),
    ];
    for &(dx, dy, d, h) in cases.iter() {
        let g = spiky_kernel_gradient(dx, dy, d, h);
        let gn = spiky_kernel_gradient(-dx, -dy, d, h);
        assert_eq!(gn.0, -g.0);
        assert_eq!(gn.1, -g.1);
    }
}

#[test]
fn spiky_gradient_points_toward_particle_i() {
    // The gradient scale is negative: a neighbor in +x direction
    // contributes a -x gradient component.
    let (gx, gy) = spiky_kernel_gradient(10, 0, 10, 320);
    assert!(gx < 0);
    assert_eq!(gy, 0);
}

#[test]
fn isqrt_exact() {
    assert_eq!(isqrt_i64(0), 0);
    assert_eq!(isqrt_i64(1), 1);
    assert_eq!(isqrt_i64(3), 1);
    assert_eq!(isqrt_i64(4), 2);
    assert_eq!(isqrt_i64(99), 9);
    assert_eq!(isqrt_i64(100), 10);
    assert_eq!(isqrt_i64(10000), 100);
    assert_eq!(isqrt_i64(72057594037927936), 268435456);
}

#[test]
fn helpers_floor_and_clamp() {
    assert_eq!(div_floor_i64(7, 2), 3);
    assert_eq!(div_floor_i64(-7, 2), -4);
    assert_eq!(div_floor_i64(-64, 64), -1);
    assert_eq!(div_floor_i64(-65, 64), -2);
    assert_eq!(clamp_i64(5, -3, 3), 3);
    assert_eq!(clamp_i64(-5, -3, 3), -3);
    assert_eq!(clamp_i64(2, -3, 3), 2);
}
