use bw_engine::direction::Direction;
use bw_engine::fp8::Fp8;

#[test]
fn test_cardinal_directions() {
    let north = Direction::from_delta(Fp8::from_pixels(0), Fp8::from_pixels(-10));
    assert_eq!(north.0, 0);
    let east = Direction::from_delta(Fp8::from_pixels(10), Fp8::from_pixels(0));
    assert_eq!(east.0, 64);
    let south = Direction::from_delta(Fp8::from_pixels(0), Fp8::from_pixels(10));
    assert_eq!(south.0, 128);
    let west = Direction::from_delta(Fp8::from_pixels(-10), Fp8::from_pixels(0));
    assert_eq!(west.0, 192);
}

#[test]
fn test_diagonal_directions() {
    let ne = Direction::from_delta(Fp8::from_pixels(10), Fp8::from_pixels(-10));
    assert_eq!(ne.0, 32);
    let se = Direction::from_delta(Fp8::from_pixels(10), Fp8::from_pixels(10));
    assert_eq!(se.0, 96);
}

#[test]
fn test_zero_delta() {
    assert_eq!(Direction::from_delta(Fp8::zero(), Fp8::zero()).0, 0);
}

#[test]
fn test_turn_toward_short_arc() {
    let a = Direction(10);
    let b = Direction(20);
    assert_eq!(a.turn_toward(b, 5).0, 15);
}

#[test]
fn test_turn_toward_arrives() {
    let a = Direction(10);
    let b = Direction(13);
    assert_eq!(a.turn_toward(b, 5).0, 13);
}

#[test]
fn test_turn_toward_negative() {
    let a = Direction(20);
    let b = Direction(10);
    assert_eq!(a.turn_toward(b, 5).0, 15);
}

#[test]
fn test_turn_toward_wrapping() {
    let a = Direction(250);
    let b = Direction(5);
    assert_eq!(a.turn_toward(b, 5).0, 255);
}

#[test]
fn test_turn_toward_same() {
    let a = Direction(42);
    assert_eq!(a.turn_toward(a, 10).0, 42);
}

#[test]
fn test_diff() {
    assert_eq!(Direction(10).diff(Direction(20)), 10);
    assert_eq!(Direction(20).diff(Direction(10)), -10);
    assert_eq!(Direction(250).diff(Direction(5)), 11);
}

#[test]
fn test_unit_vector_north() {
    let (dx, dy) = Direction::north().unit_vector();
    assert_eq!(dx.raw(), 0);
    assert_eq!(dy.raw(), -256);
}

#[test]
fn test_unit_vector_east() {
    let (dx, dy) = Direction::east().unit_vector();
    assert_eq!(dx.raw(), 256);
    assert_eq!(dy.raw(), 0);
}

#[test]
fn test_unit_vector_south() {
    let (dx, dy) = Direction::south().unit_vector();
    assert_eq!(dx.raw(), 0);
    assert_eq!(dy.raw(), 256);
}

#[test]
fn test_unit_vector_west() {
    let (dx, dy) = Direction::west().unit_vector();
    assert_eq!(dx.raw(), -256);
    assert_eq!(dy.raw(), 0);
}

#[test]
fn direction_diff_half_turn_and_turn_law() {
    // Half a turn away reads as -128.
    assert_eq!(Direction(0).diff(Direction(128)), -128);
    // A turn never overshoots and lands on the target once close enough.
    let mut d = Direction(0);
    for _ in 0..20 {
        d = d.turn_toward(Direction(100), 7);
    }
    assert_eq!(d.0, 100);
    // The diff after one turn shrinks by exactly the rate.
    let start = Direction(200);
    let target = Direction(30);
    let before = start.diff(target) as i32;
    let after = start.turn_toward(target, 9).diff(target) as i32;
    assert_eq!(before - after, 9);
}

#[test]
fn direction_from_delta_shallow_angle() {
    // Mostly east, slightly north: a heading just below 64.
    let d = Direction::from_delta(Fp8::from_pixels(100), Fp8::from_pixels(-10));
    assert!(d.0 < 64 && d.0 > 56);
    let (ux, uy) = d.unit_vector();
    assert!(ux.raw() > 0 && uy.raw() < 0);
}

#[test]
fn direction_large_rate_is_an_unsigned_limit() {
    assert_eq!(Direction(0).turn_toward(Direction(10), 200).0, 10);
    assert_eq!(Direction(0).turn_toward(Direction(128), 200).0, 128);
    assert_eq!(Direction(0).turn_toward(Direction(200), 128).0, 200);
    assert_eq!(Direction(0).turn_toward(Direction(120), 255).0, 120);
}
