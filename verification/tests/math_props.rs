use invaders_core::math::{euclid_mod, isqrt};
use invaders_core::trig::{sin_mrad, cos_mrad};
use invaders_core::geom::{collide, Vec2};

#[test]
fn euclid_mod_matches_mathematical_remainder() {
    assert_eq!(euclid_mod(7, 3), 1);
    assert_eq!(euclid_mod(-5, 3), 1);
    assert_eq!(euclid_mod(-6, 3), 0);
    assert_eq!(euclid_mod(0, 6284), 0);
    assert_eq!(euclid_mod(-1, 6284), 6283);
}

#[test]
fn isqrt_exact_values() {
    assert_eq!(isqrt(0), 0);
    assert_eq!(isqrt(1), 1);
    assert_eq!(isqrt(15), 3);
    assert_eq!(isqrt(16), 4);
    assert_eq!(isqrt(10_181_912_500), 100_905);
    assert_eq!(isqrt(u64::MAX), 4_294_967_295);
}

#[test]
fn sine_exact_at_quarter_points() {
    assert_eq!(sin_mrad(0), 0);
    assert_eq!(sin_mrad(1571), 1000);
    assert_eq!(sin_mrad(3142), 0);
    assert_eq!(sin_mrad(4713), -1000);
    assert_eq!(cos_mrad(0), 1000);
    assert_eq!(cos_mrad(3142), -1000);
}

#[test]
fn sine_stays_in_fixed_point_unit_range() {
    let mut a: i64 = -20_000;
    while a <= 20_000 {
        let s = sin_mrad(a);
        let c = cos_mrad(a);
        assert!(-1000 <= s && s <= 1000);
        assert!(-1000 <= c && c <= 1000);
        a += 37;
    }
}

#[test]
fn sine_is_periodic_in_full_turns() {
    for a in [-6284, 17, 300, 1571, 9999] {
        assert_eq!(sin_mrad(a), sin_mrad(a + 6284));
    }
}

#[test]
fn overlap_requires_positive_area_on_both_axes() {
    let sa = Vec2 { x: 10_000, y: 10_000 };
    let sb = Vec2 { x: 10_000, y: 10_000 };
    let origin = Vec2 { x: 0, y: 0 };
    // boxes that merely touch on an edge do not overlap
    assert!(!collide(origin, sa, Vec2 { x: 10_000, y: 0 }, sb));
    // one milli-unit of intersection counts
    assert!(collide(origin, sa, Vec2 { x: 9_999, y: 0 }, sb));
    // separation on one axis alone prevents the overlap
    assert!(!collide(origin, sa, Vec2 { x: 0, y: 20_000 }, sb));
    assert!(collide(origin, sa, origin, sb));
}
