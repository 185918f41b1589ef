use heartbeat::animation::{HeartAnimation, Vertex};
use heartbeat::particle::Particle;
use heartbeat::phase::Phase;
use heartbeat::shape::is_apart;
use rand::rngs::SmallRng;
use rand::SeedableRng;

fn resting(x: i32, y: i32, target_x: i32, target_y: i32, is_outline: bool) -> Particle {
    Particle {
        x,
        y,
        target_x,
        target_y,
        vx: 0,
        vy: 0,
        is_outline,
        size: 4_000,
        alpha: 255,
        reform_speed: 50_000,
        initial_speed: 30_000,
    }
}

fn heart_of(particles: Vec<Particle>, phase: Phase, heart_rate: u32, last_beat: u64) -> HeartAnimation {
    HeartAnimation { particles, phase, heart_rate, last_beat, rng: SmallRng::seed_from_u64(5) }
}

fn places(anim: &HeartAnimation) -> Vec<(i32, i32)> {
    anim.particles.iter().map(|p| (p.x, p.y)).collect()
}

#[test]
fn starts_out_forming() {
    let anim = HeartAnimation::new(42, 60);
    assert_eq!(anim.phase, Phase::Initializing);
    assert_eq!(anim.last_beat, 0);
    assert_eq!(anim.heart_rate, 60);
    assert!(anim.particles.len() >= 63);
    assert!(anim.particles.len() <= 63 + 1000 + 5);
    assert!(anim.is_well_formed());
}

#[test]
fn outline_comes_first_and_follows_the_curve() {
    let anim = HeartAnimation::new(42, 60);
    for i in 0..63usize {
        let p = anim.particles[i];
        let t = 1000 * i as u32;
        assert!(p.is_outline);
        assert_eq!(p.target_x, HeartAnimation::get_heart_x(t) * 8);
        assert_eq!(p.target_y, -HeartAnimation::get_heart_y(t) * 8);
    }
    assert_eq!((anim.particles[0].target_x, anim.particles[0].target_y), (0, -40_000));
    assert_eq!((anim.particles[1].target_x, anim.particles[1].target_y), (128, -41_632));
    assert_eq!((anim.particles[62].target_x, anim.particles[62].target_y), (-128, -41_632));
    for p in &anim.particles[63..] {
        assert!(!p.is_outline);
    }
}

#[test]
fn fill_lies_inside_the_heart() {
    for seed in [0u64, 1, 42, 1234] {
        let anim = HeartAnimation::new(seed, 60);
        assert!(anim.particles.len() > 63, "seed {seed} placed no interior particle");
        for p in &anim.particles[63..] {
            assert!(HeartAnimation::is_inside_heart(p.target_x, p.target_y));
        }
    }
}

#[test]
fn fill_keeps_its_spacing() {
    for seed in [0u64, 1, 42, 1234] {
        let anim = HeartAnimation::new(seed, 60);
        for j in 63..anim.particles.len() {
            for i in 0..j {
                let (a, b) = (anim.particles[j], anim.particles[i]);
                assert!(
                    is_apart(a.target_x, a.target_y, b.target_x, b.target_y, 9_600),
                    "seed {seed}: particles {i} and {j} are too close"
                );
            }
        }
    }
}

#[test]
fn fill_on_the_shrunk_curve_keeps_twelve_units() {
    let anim = HeartAnimation::new(42, 60);
    for j in 63..anim.particles.len() {
        let a = anim.particles[j];
        if a.target_y >= 80_000 && a.target_x.abs() <= 10_000 {
            continue;
        }
        for i in 0..j {
            let b = anim.particles[i];
            assert!(is_apart(a.target_x, a.target_y, b.target_x, b.target_y, 12_000));
        }
    }
}

#[test]
fn particles_start_at_rest_on_the_ring() {
    let anim = HeartAnimation::new(42, 60);
    for p in &anim.particles {
        assert_eq!((p.vx, p.vy), (0, 0));
        assert_eq!(p.alpha, 255);
        assert_eq!(p.size, 4_000);
        assert!((50_000..80_000).contains(&p.reform_speed));
        assert!((20_000..40_000).contains(&p.initial_speed));
        let r2 = i64::from(p.x) * i64::from(p.x) + i64::from(p.y) * i64::from(p.y);
        assert!(r2 >= 398_000 * 398_000);
        assert!(r2 < 601_000 * 601_000);
    }
    let first = anim.particles[0];
    assert!(anim.particles.iter().any(|p| p.initial_speed != first.initial_speed));
    assert!(anim.particles.iter().any(|p| p.reform_speed != first.reform_speed));
    assert!(anim.particles.iter().any(|p| (p.x, p.y) != (first.x, first.y)));
}

#[test]
fn initialize_appends_to_what_is_there() {
    let seedling = resting(1, 2, 3, 4, false);
    let mut anim = heart_of(vec![seedling], Phase::Reforming, 72, 900);
    anim.initialize_particles();
    assert_eq!(anim.particles[0], seedling);
    assert!(anim.particles.len() >= 64);
    assert_eq!((anim.particles[1].target_x, anim.particles[1].target_y), (0, -40_000));
    assert!(anim.particles[63].is_outline);
    assert_eq!(anim.phase, Phase::Reforming);
    assert_eq!(anim.heart_rate, 72);
    assert_eq!(anim.last_beat, 900);
    for j in 64..anim.particles.len() {
        let a = anim.particles[j];
        assert!(!a.is_outline);
        assert!(is_apart(a.target_x, a.target_y, 3, 4, 9_600));
    }
}

#[test]
fn try_place_takes_a_point_inside_and_clear() {
    let mut anim = heart_of(vec![resting(0, 0, 0, 0, true)], Phase::Formed, 60, 0);
    assert!(anim.try_place(0, 12_000, 12_000));
    assert_eq!(anim.particles.len(), 2);
    let p = anim.particles[1];
    assert_eq!((p.target_x, p.target_y), (0, 12_000));
    assert!(!p.is_outline);
    assert_eq!(p.size, 4_000);
    assert_eq!(p.alpha, 255);
    assert!(p.is_well_formed());
    assert_eq!(anim.particles[0], resting(0, 0, 0, 0, true));
    assert_eq!(anim.phase, Phase::Formed);
}

#[test]
fn try_place_refuses_a_point_too_close() {
    let mut anim = heart_of(vec![resting(0, 0, 0, 0, true)], Phase::Formed, 60, 0);
    assert!(!anim.try_place(0, 11_999, 12_000));
    assert_eq!(anim.particles, vec![resting(0, 0, 0, 0, true)]);
    assert!(anim.try_place(0, 11_999, 9_600));
    assert!(!anim.try_place(0, 2_400, 9_600));
    assert_eq!(anim.particles.len(), 2);
}

#[test]
fn try_place_refuses_a_point_outside() {
    let mut anim = heart_of(Vec::new(), Phase::Formed, 60, 0);
    assert!(!anim.try_place(0, 16_000, 12_000));
    assert!(!anim.try_place(12_000, 0, 12_000));
    assert!(!anim.try_place(0, 90_000, 9_600));
    assert!(anim.particles.is_empty());
    assert!(anim.try_place(0, 15_999, 12_000));
    assert_eq!(anim.particles.len(), 1);
}

#[test]
fn count_in_position_counts_the_near() {
    let anim = heart_of(
        vec![
            resting(0, 0, 0, 0, true),
            resting(1_999, 0, 0, 0, false),
            resting(2_000, 0, 0, 0, false),
            resting(500_000, 0, 0, 0, true),
        ],
        Phase::Initializing,
        60,
        0,
    );
    assert_eq!(anim.count_in_position(), 2);
    assert_eq!(heart_of(Vec::new(), Phase::Formed, 60, 0).count_in_position(), 0);
}

#[test]
fn forming_waits_for_the_quorum() {
    let mut particles: Vec<Particle> = (0..19).map(|_| resting(0, 0, 0, 0, false)).collect();
    particles.push(resting(100_000, 0, 0, 0, false));
    particles.push(resting(0, 100_000, 0, 0, false));
    let mut anim = heart_of(particles, Phase::Initializing, 60, 0);
    anim.update(10);
    assert_eq!(anim.phase, Phase::Initializing);
    assert_eq!((anim.particles[19].x, anim.particles[19].y), (97_000, 0));
    assert_eq!((anim.particles[20].x, anim.particles[20].y), (0, 97_000));
    assert_eq!(anim.last_beat, 0);
    anim.particles.pop();
    anim.update(20);
    assert_eq!(anim.phase, Phase::Formed);
    assert_eq!((anim.particles[19].x, anim.particles[19].y), (97_000, 0));
}

#[test]
fn reforming_waits_for_the_quorum() {
    let mut particles: Vec<Particle> = (0..94).map(|_| resting(0, 0, 0, 0, false)).collect();
    for _ in 0..6 {
        let mut p = resting(100_000, 0, 0, 0, false);
        p.alpha = 100;
        particles.push(p);
    }
    let mut anim = heart_of(particles, Phase::Reforming, 60, 0);
    anim.update(1_000_000);
    assert_eq!(anim.phase, Phase::Reforming);
    assert_eq!(anim.particles[99].x, 95_000);
    assert_eq!(anim.particles[99].alpha, 105);
    anim.particles[94].x = 1_999;
    anim.update(1_000_001);
    assert_eq!(anim.phase, Phase::Formed);
    assert_eq!(anim.particles[99].x, 95_000);
    assert_eq!(anim.particles[99].alpha, 105);
    assert_eq!(anim.last_beat, 0);
}

#[test]
fn empty_heart_is_formed_at_once() {
    let mut anim = heart_of(Vec::new(), Phase::Initializing, 60, 0);
    anim.update(0);
    assert_eq!(anim.phase, Phase::Formed);
}

#[test]
fn formed_rests_until_the_beat() {
    let mut anim = heart_of(vec![resting(3_000, 4_000, 3_000, 4_000, true)], Phase::Formed, 60, 500);
    anim.update(60_500);
    assert_eq!(anim.phase, Phase::Formed);
    assert_eq!(anim.last_beat, 500);
    assert_eq!(anim.particles[0], resting(3_000, 4_000, 3_000, 4_000, true));
}

#[test]
fn beat_throws_and_moves_in_the_same_step() {
    let mut anim = heart_of(
        vec![resting(3_000, 4_000, 3_000, 4_000, true), resting(0, -5_000, 0, -5_000, false)],
        Phase::Formed,
        60,
        500,
    );
    anim.update(60_501);
    assert_eq!(anim.phase, Phase::Exploding);
    assert_eq!(anim.last_beat, 60_501);
    let p = anim.particles[0];
    let moved = (p.x - 3_000, p.y - 4_000);
    assert!(moved.0 > 0 && moved.1 > 0);
    let force2 = i64::from(moved.0) * i64::from(moved.0) + i64::from(moved.1) * i64::from(moved.1);
    assert!(force2 >= 1_998 * 1_998 && force2 < 4_000 * 4_000, "threw by {moved:?}");
    assert_eq!(p.vx, moved.0 * 95 / 100);
    assert_eq!(p.vy, (moved.1 + 50) * 95 / 100);
    assert_eq!(p.alpha, 254);
    let q = anim.particles[1];
    assert_eq!(q.x, 0);
    let force = -5_000 - q.y;
    assert!((1_000..3_000).contains(&force), "threw by {force}");
    assert_eq!(q.vx, 0);
    assert_eq!(q.vy, (50 - force) * 95 / 100);
    assert_eq!((q.target_x, q.target_y), (0, -5_000));
}

#[test]
fn burst_ends_after_its_time() {
    let mut p = resting(10_000, 0, 0, 0, false);
    p.vx = 1_000;
    p.alpha = 240;
    let mut anim = heart_of(vec![p], Phase::Exploding, 60, 1_000);
    anim.update(334_400);
    assert_eq!(anim.phase, Phase::Exploding);
    assert_eq!(anim.particles[0].x, 11_000);
    assert_eq!(anim.particles[0].vx, 950);
    assert_eq!(anim.particles[0].alpha, 239);
    anim.update(334_401);
    assert_eq!(anim.phase, Phase::Reforming);
    assert_eq!(anim.particles[0].x, 10_450);
    assert_eq!(anim.particles[0].vx, 950);
    assert_eq!(anim.particles[0].alpha, 244);
    assert_eq!(anim.last_beat, 1_000);
}

#[test]
fn clock_running_back_changes_no_phase() {
    let mut anim = heart_of(vec![resting(0, 0, 0, 0, false)], Phase::Formed, 60, 1_000_000);
    anim.update(0);
    assert_eq!(anim.phase, Phase::Formed);
    anim.phase = Phase::Exploding;
    anim.update(999_999);
    assert_eq!(anim.phase, Phase::Exploding);
    assert_eq!(anim.last_beat, 1_000_000);
}

#[test]
fn render_gives_one_vertex_for_each_particle() {
    let mut p = resting(1, -2, 30, 40, true);
    p.alpha = 180;
    let mut q = resting(-7, 8, 0, 0, false);
    q.size = 2_500;
    let anim = heart_of(vec![p, q], Phase::Formed, 60, 0);
    assert_eq!(
        anim.render(),
        vec![
            Vertex { x: 1, y: -2, red: 1000, green: 0, blue: 390, alpha: 180, size: 4_000 },
            Vertex { x: -7, y: 8, red: 1000, green: 0, blue: 390, alpha: 255, size: 2_500 },
        ]
    );
    assert!(heart_of(Vec::new(), Phase::Formed, 60, 0).render().is_empty());
    assert_eq!(anim.particles, vec![p, q]);
}

#[test]
fn well_formed_looks_at_every_particle() {
    let mut anim = heart_of(
        vec![resting(0, 0, 0, 0, false), resting(0, 0, 0, 0, false)],
        Phase::Formed,
        60,
        0,
    );
    assert!(anim.is_well_formed());
    anim.particles[1].alpha = 50;
    assert!(!anim.is_well_formed());
    anim.particles[1].alpha = 100;
    anim.particles[0].vx = 9_000;
    assert!(!anim.is_well_formed());
}

#[test]
fn heart_beats_through_its_phases() {
    let mut anim = HeartAnimation::new(42, 60);
    let total = anim.particles.len();
    let mut seen: Vec<Phase> = vec![anim.phase];
    let mut frame: u64 = 0;
    while seen.len() < 9 && frame < 20_000 {
        frame += 1;
        let near_before = anim.count_in_position();
        let phase_before = anim.phase;
        anim.update(frame * 16_670);
        if anim.phase != phase_before {
            if seen.len() == 1 {
                assert!(near_before * 100 >= total * 95);
            }
            seen.push(anim.phase);
        } else if phase_before == Phase::Initializing || phase_before == Phase::Reforming {
            assert!(near_before * 100 < total * 95);
        }
    }
    assert_eq!(
        seen,
        vec![
            Phase::Initializing,
            Phase::Formed,
            Phase::Exploding,
            Phase::Reforming,
            Phase::Formed,
            Phase::Exploding,
            Phase::Reforming,
            Phase::Formed,
            Phase::Exploding,
        ]
    );
}

#[test]
fn heart_bursts_only_when_its_time_has_come() {
    let mut anim = HeartAnimation::new(42, 60);
    let mut formed_since: u64 = 0;
    let mut bursts = 0;
    for frame in 1..3_000u64 {
        let now = frame * 16_670;
        let before = anim.phase;
        let last_beat = anim.last_beat;
        anim.update(now);
        match (before, anim.phase) {
            (Phase::Formed, Phase::Exploding) => {
                assert!((now - last_beat) * 60 > 3_600_000);
                assert_eq!(anim.last_beat, now);
                assert!(now >= formed_since);
                bursts += 1;
            }
            (Phase::Exploding, Phase::Reforming) => {
                assert!(now - last_beat > 333_400);
                assert_eq!(anim.last_beat, last_beat);
            }
            (Phase::Exploding, Phase::Exploding) => {
                assert!(now - last_beat <= 333_400);
            }
            (_, Phase::Formed) => {
                if before != Phase::Formed {
                    formed_since = now;
                }
                assert_eq!(anim.last_beat, last_beat);
            }
            (a, b) => assert_eq!(a, b),
        }
    }
    assert!(bursts >= 2);
}

#[test]
fn alpha_stays_within_its_bounds() {
    let mut anim = HeartAnimation::new(7, 90);
    let mut lowest: u8 = 255;
    for frame in 1..3_000u64 {
        anim.update(frame * 16_670);
        for p in &anim.particles {
            assert!(p.alpha >= 100);
            lowest = lowest.min(p.alpha);
        }
        assert!(anim.is_well_formed());
    }
    assert!(lowest < 255);
}

#[test]
fn slow_clock_keeps_the_burst_going_down_to_the_floor() {
    let mut anim = HeartAnimation::new(3, 60);
    anim.phase = Phase::Formed;
    anim.update(1_000_000);
    assert_eq!(anim.phase, Phase::Exploding);
    for tick in 1..=400u64 {
        anim.update(1_000_000 + tick);
        assert_eq!(anim.phase, Phase::Exploding);
    }
    for p in &anim.particles {
        assert_eq!(p.alpha, 100);
        assert!((931..=950).contains(&p.vy), "falls at {}", p.vy);
        assert!(p.is_well_formed());
    }
}

#[test]
fn same_seed_gives_the_same_heart() {
    let mut one = HeartAnimation::new(42, 60);
    let mut two = HeartAnimation::new(42, 60);
    assert_eq!(one.particles, two.particles);
    for frame in 1..1_500u64 {
        let now = frame * 16_670;
        one.update(now);
        two.update(now);
        assert_eq!(one.phase, two.phase);
        assert_eq!(one.last_beat, two.last_beat);
        assert_eq!(places(&one), places(&two));
    }
    assert_eq!(one.particles, two.particles);
    assert_eq!(one.render(), two.render());
}

#[test]
fn other_seed_gives_another_heart() {
    let one = HeartAnimation::new(42, 60);
    let two = HeartAnimation::new(43, 60);
    assert_ne!(places(&one), places(&two));
}

#[test]
fn targets_never_move() {
    let mut anim = HeartAnimation::new(11, 60);
    let targets: Vec<(i32, i32, bool)> =
        anim.particles.iter().map(|p| (p.target_x, p.target_y, p.is_outline)).collect();
    for frame in 1..2_000u64 {
        anim.update(frame * 16_670);
    }
    let after: Vec<(i32, i32, bool)> =
        anim.particles.iter().map(|p| (p.target_x, p.target_y, p.is_outline)).collect();
    assert_eq!(targets, after);
}
