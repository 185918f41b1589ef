use heartbeat::animation::HeartAnimation;
use heartbeat::particle::Particle;
use heartbeat::shape::{is_apart, is_clear, shrink, SPACING, TIP_SPACING};

fn at(target_x: i32, target_y: i32) -> Particle {
    Particle {
        x: 0,
        y: 0,
        target_x,
        target_y,
        vx: 0,
        vy: 0,
        is_outline: false,
        size: 4_000,
        alpha: 255,
        reform_speed: 50_000,
        initial_speed: 20_000,
    }
}

#[test]
fn curve_at_the_cleft() {
    assert_eq!(HeartAnimation::get_heart_x(0), 0);
    assert_eq!(HeartAnimation::get_heart_y(0), 5_000);
}

#[test]
fn curve_at_the_sides() {
    assert_eq!(HeartAnimation::get_heart_x(15_750), 16_000);
    assert_eq!(HeartAnimation::get_heart_y(15_750), 4_000);
    assert_eq!(HeartAnimation::get_heart_x(47_250), -16_000);
    assert_eq!(HeartAnimation::get_heart_y(47_250), 4_000);
}

#[test]
fn curve_at_the_tip() {
    assert_eq!(HeartAnimation::get_heart_x(31_500), 0);
    assert_eq!(HeartAnimation::get_heart_y(31_500), -17_000);
}

#[test]
fn curve_between_the_quarters() {
    assert_eq!(HeartAnimation::get_heart_x(1_000), 16);
    assert_eq!(HeartAnimation::get_heart_y(1_000), 5_204);
    assert_eq!(HeartAnimation::get_heart_x(5_250), 2_000);
    assert_eq!(HeartAnimation::get_heart_y(5_250), 9_243);
    assert_eq!(HeartAnimation::get_heart_x(62_000), -16);
    assert_eq!(HeartAnimation::get_heart_y(62_000), 5_204);
}

#[test]
fn curve_wraps_around_the_turn() {
    assert_eq!(HeartAnimation::get_heart_x(63_000 + 5_250), 2_000);
    assert_eq!(HeartAnimation::get_heart_y(63_000 + 5_250), 9_243);
    assert_eq!(
        HeartAnimation::get_heart_y(u32::MAX),
        HeartAnimation::get_heart_y(u32::MAX % 63_000)
    );
}

#[test]
fn centre_is_inside() {
    assert!(HeartAnimation::is_inside_heart(0, 0));
}

#[test]
fn inside_ends_at_two_eighths_up_and_down() {
    assert!(HeartAnimation::is_inside_heart(0, 15_999));
    assert!(!HeartAnimation::is_inside_heart(0, 16_000));
    assert!(HeartAnimation::is_inside_heart(0, -15_999));
    assert!(!HeartAnimation::is_inside_heart(0, -16_000));
}

#[test]
fn inside_has_a_gap_between_one_and_two() {
    assert!(HeartAnimation::is_inside_heart(7_999, 0));
    assert!(!HeartAnimation::is_inside_heart(8_000, 0));
    assert!(!HeartAnimation::is_inside_heart(12_000, 0));
    assert!(!HeartAnimation::is_inside_heart(16_000, 0));
    assert!(HeartAnimation::is_inside_heart(16_001, 0));
    assert!(HeartAnimation::is_inside_heart(24_000, 0));
    assert!(HeartAnimation::is_inside_heart(-24_000, 0));
}

#[test]
fn cleft_of_the_outline_is_not_inside() {
    assert!(!HeartAnimation::is_inside_heart(0, -40_000));
}

#[test]
fn inside_takes_the_corners_of_the_world() {
    assert!(HeartAnimation::is_inside_heart(i32::MAX, i32::MAX));
    assert!(HeartAnimation::is_inside_heart(i32::MIN, i32::MIN));
    assert!(!HeartAnimation::is_inside_heart(0, i32::MIN));
}

#[test]
fn band_near_the_tip_is_never_inside() {
    let mut x: i32 = -10_000;
    while x < 10_000 {
        let mut y: i32 = 80_000;
        while y < 100_000 {
            assert!(!HeartAnimation::is_inside_heart(x, y));
            y += 997;
        }
        x += 499;
    }
}

#[test]
fn apart_at_exactly_the_spacing() {
    assert!(is_apart(0, 0, 12_000, 0, SPACING));
    assert!(!is_apart(0, 0, 11_999, 0, SPACING));
    assert!(is_apart(0, 0, 7_200, 9_600, SPACING));
    assert!(!is_apart(0, 0, 7_200, 9_599, SPACING));
    assert!(is_apart(-5, 3, -5, 9_603, TIP_SPACING));
    assert!(!is_apart(-5, 3, -5, 9_602, TIP_SPACING));
}

#[test]
fn apart_across_the_world() {
    assert!(is_apart(i32::MIN, i32::MIN, i32::MAX, i32::MAX, i32::MAX));
    assert!(!is_apart(i32::MAX, 0, i32::MAX, 0, i32::MIN));
    assert!(is_apart(3, 4, 3, 4, 0));
}

#[test]
fn clear_of_no_particles() {
    let none: Vec<Particle> = Vec::new();
    assert!(is_clear(&none, 0, 0, SPACING));
}

#[test]
fn clear_looks_at_every_particle() {
    let placed = vec![at(0, 0), at(50_000, 0), at(0, 50_000)];
    assert!(is_clear(&placed, 25_000, 25_000, SPACING));
    assert!(!is_clear(&placed, 1_000, 1_000, SPACING));
    assert!(!is_clear(&placed, 50_000, 11_999, SPACING));
    assert!(is_clear(&placed, 50_000, 12_000, SPACING));
    assert!(!is_clear(&placed, 11_999, 50_000, SPACING));
    assert!(is_clear(&placed, 50_000, 11_999, TIP_SPACING));
}

#[test]
fn clear_goes_by_targets_not_places() {
    let mut p = at(100_000, 100_000);
    p.x = 0;
    p.y = 0;
    assert!(is_clear(&vec![p], 0, 0, SPACING));
    assert!(!is_clear(&vec![p], 100_000, 100_000, SPACING));
}

#[test]
fn shrink_drops_the_fraction() {
    assert_eq!(shrink(128_000, 500_000), 64_000);
    assert_eq!(shrink(-128_000, 100_000), -12_800);
    assert_eq!(shrink(7, 500_000), 3);
    assert_eq!(shrink(-7, 500_000), -3);
    assert_eq!(shrink(123, 0), 0);
    assert_eq!(shrink(i32::MIN, 1_000_000), i32::MIN);
    assert_eq!(shrink(i32::MAX, 899_999), 1_932_733_134);
}

#[test]
fn shrunk_point_scales_the_outline() {
    assert_eq!(HeartAnimation::shrunk_point(15_750, 500_000), (64_000, -16_000));
    assert_eq!(HeartAnimation::shrunk_point(0, 100_000), (0, -4_000));
    assert_eq!(HeartAnimation::shrunk_point(31_500, 899_999), (0, 122_399));
    assert_eq!(HeartAnimation::shrunk_point(1_000, 500_000), (64, -20_816));
    assert_eq!(HeartAnimation::shrunk_point(62_000, 333_333), (-42, -13_877));
    assert_eq!(HeartAnimation::shrunk_point(5_250, 1_000_000), (16_000, -73_944));
    assert_eq!(HeartAnimation::shrunk_point(5_250, 0), (0, 0));
}
