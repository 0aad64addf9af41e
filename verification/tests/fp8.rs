use bw_engine::fp8::{isqrt, Fp8, XY};

#[test]
fn test_from_to_pixels() {
    assert_eq!(Fp8::from_pixels(100).to_pixels(), 100);
    assert_eq!(Fp8::from_pixels(-50).to_pixels(), -50);
    assert_eq!(Fp8::from_pixels(0).to_pixels(), 0);
}

#[test]
fn test_from_raw() {
    let fp = Fp8::from_raw(256);
    assert_eq!(fp.to_pixels(), 1);
    let fp = Fp8::from_raw(128);
    assert_eq!(fp.to_pixels(), 0);
}

#[test]
fn test_arithmetic() {
    let a = Fp8::from_pixels(10);
    let b = Fp8::from_pixels(3);
    assert_eq!((a + b).to_pixels(), 13);
    assert_eq!((a - b).to_pixels(), 7);
    assert_eq!((-a).to_pixels(), -10);
}

#[test]
fn test_mul_div() {
    let a = Fp8::from_pixels(10);
    assert_eq!((a * 3).to_pixels(), 30);
    assert_eq!((a / 2).to_pixels(), 5);
}

#[test]
fn test_abs() {
    assert_eq!(Fp8::from_pixels(-5).abs(), Fp8::from_pixels(5));
    assert_eq!(Fp8::from_pixels(5).abs(), Fp8::from_pixels(5));
}

#[test]
fn test_xy_from_to_pixels() {
    let pos = XY::from_pixels(100, 200);
    assert_eq!(pos.to_pixels(), (100, 200));
}

#[test]
fn test_xy_add_sub() {
    let a = XY::from_pixels(10, 20);
    let b = XY::from_pixels(3, 7);
    assert_eq!((a + b).to_pixels(), (13, 27));
    assert_eq!((a - b).to_pixels(), (7, 13));
}

#[test]
fn test_xy_length_squared() {
    let v = XY::from_pixels(3, 4);
    assert_eq!(v.length_squared(), 1_638_400);
}

#[test]
fn test_isqrt() {
    assert_eq!(isqrt(0), 0);
    assert_eq!(isqrt(1), 1);
    assert_eq!(isqrt(4), 2);
    assert_eq!(isqrt(9), 3);
    assert_eq!(isqrt(10), 3);
    assert_eq!(isqrt(100), 10);
}

#[test]
fn test_default() {
    assert_eq!(Fp8::default(), Fp8::zero());
    assert_eq!(XY::default(), XY::zero());
}

#[test]
fn fp8_negative_pixels_round_down_and_division_truncates() {
    // to_pixels is an arithmetic shift: -0.5 px reads as -1.
    assert_eq!(Fp8::from_raw(-128).to_pixels(), -1);
    // Division rounds toward zero.
    assert_eq!((Fp8::from_raw(-7) / 2).raw(), -3);
    assert_eq!((Fp8::from_raw(7) / -2).raw(), -3);
    // isqrt is the floor square root.
    assert_eq!(isqrt(99), 9);
    assert_eq!(isqrt(u64::MAX), 4294967295);
}

#[test]
fn fp8_add_assign_and_sub_assign() {
    let mut a = Fp8::from_pixels(4);
    a += Fp8::from_pixels(6);
    assert_eq!(a.to_pixels(), 10);
    a -= Fp8::from_pixels(11);
    assert_eq!(a.to_pixels(), -1);
    let mut p = XY::from_pixels(1, 2);
    p += XY::from_pixels(3, 4);
    assert_eq!(p.to_pixels(), (4, 6));
}
