//! One particle of the cloud and the rules by which it moves.

use crate::phase::Phase;
use crate::random::draw;
use crate::trig::{cosine, sine, TURN};
use crate::units::{
    clamp, div_toward_zero, floor_sqrt, is_floor_sqrt, isqrt, lemma_floor_sqrt_exists,
    lemma_square_order, MILLION,
};
use rand::rngs::SmallRng;
use vstd::prelude::*;

verus! {

/// The least distance from the centre at which a particle is scattered.
pub const RING_INNER: i32 = 400_000;

/// The distance from the centre that no scattered particle reaches.
pub const RING_OUTER: i32 = 600_000;

/// The least fraction of the way home that a particle covers in one step
/// while the heart reforms, in parts per million.
pub const REFORM_SPEED_MIN: i32 = 50_000;

/// The fraction that no reforming speed reaches.
pub const REFORM_SPEED_MAX: i32 = 80_000;

/// The least fraction of the way home that a particle covers in one step
/// while the heart first forms, in parts per million.
pub const INITIAL_SPEED_MIN: i32 = 20_000;

/// The fraction that no initial speed reaches.
pub const INITIAL_SPEED_MAX: i32 = 40_000;

/// The least force with which an outline particle is thrown out.
pub const OUTLINE_FORCE_MIN: i32 = 2_000;

/// The force that no outline particle reaches.
pub const OUTLINE_FORCE_MAX: i32 = 4_000;

/// The least force with which an interior particle is thrown out.
pub const FILL_FORCE_MIN: i32 = 1_000;

/// The force that no interior particle reaches.
pub const FILL_FORCE_MAX: i32 = 3_000;

/// No particle moves faster than this along either axis.
pub const MAX_SPEED: i32 = 4_000;

/// The downward pull added to the vertical speed in every step of a
/// burst.
pub const GRAVITY: i32 = 50;

/// What is left of a speed after one step of a burst, in hundredths.
pub const DAMPING: i32 = 95;

/// The opacity that a particle never falls below.
pub const ALPHA_FLOOR: u8 = 100;

/// The opacity of a particle at rest.
pub const ALPHA_FULL: u8 = 255;

/// The opacity lost in one step of a burst.
pub const FADE: u8 = 1;

/// The opacity regained in one step of reforming.
pub const GLOW: u8 = 5;

/// A particle counts as home when it is closer than this to its target.
pub const NEAR: i32 = 2_000;

/// A simulated point. Lengths are in thousandths of a unit, speeds in
/// thousandths of a unit per step.
#[derive(Clone, Copy, Debug, PartialEq, Eq)]
pub struct Particle {
    /// Where the particle is, sideways from the centre of the shape.
    pub x: i32,
    /// Where the particle is, downward from the centre of the shape.
    pub y: i32,
    /// Where the particle belongs, sideways.
    pub target_x: i32,
    /// Where the particle belongs, downward.
    pub target_y: i32,
    /// The sideways speed.
    pub vx: i32,
    /// The downward speed.
    pub vy: i32,
    /// Whether the particle belongs to the outline rather than the
    /// interior.
    pub is_outline: bool,
    /// The radius at which the particle is drawn.
    pub size: i32,
    /// The opacity, from `ALPHA_FLOOR` to `ALPHA_FULL`.
    pub alpha: u8,
    /// The fraction of the way home covered per step of reforming.
    pub reform_speed: i32,
    /// The fraction of the way home covered per step of first forming.
    pub initial_speed: i32,
}

/// One coordinate moved toward `target` by `speed` parts per million of
/// what separates them.
pub open spec fn approach(at: int, target: int, speed: int) -> int {
    at + div_toward_zero((target - at) * speed, MILLION as int)
}

/// A speed after damping.
pub open spec fn damped(v: int) -> int {
    div_toward_zero(v * DAMPING, 100)
}

/// A coordinate moved by `v`, stopping at the edge of the world.
pub open spec fn advanced(at: int, v: int) -> int {
    clamp(at + v, i32::MIN as int, i32::MAX as int)
}

/// An opacity after one step of fading.
pub open spec fn faded(alpha: int) -> int {
    if alpha - FADE < ALPHA_FLOOR {
        ALPHA_FLOOR as int
    } else {
        alpha - FADE
    }
}

/// An opacity after one step of recovering.
pub open spec fn brightened(alpha: int) -> int {
    if alpha + GLOW > ALPHA_FULL {
        ALPHA_FULL as int
    } else {
        alpha + GLOW
    }
}

/// The share `part * force / whole` of a force that falls on one axis.
pub open spec fn share(part: int, force: int, whole: int) -> int {
    div_toward_zero(part * force, whole)
}

impl Particle {
    /// What holds of every particle at all times: the opacity is within
    /// its bounds, neither speed exceeds `MAX_SPEED`, and the two easing
    /// rates lie in the ranges from which they are drawn.
    pub open spec fn wf(self) -> bool {
        &&& ALPHA_FLOOR <= self.alpha <= ALPHA_FULL
        &&& -MAX_SPEED <= self.vx <= MAX_SPEED
        &&& -MAX_SPEED <= self.vy <= MAX_SPEED
        &&& REFORM_SPEED_MIN <= self.reform_speed < REFORM_SPEED_MAX
        &&& INITIAL_SPEED_MIN <= self.initial_speed < INITIAL_SPEED_MAX
    }

    /// The particle made for a target from the four numbers that scatter
    /// it: at rest, fully opaque, `distance` from the centre in the
    /// direction `angle`.
    pub open spec fn scattered(
        target_x: i32,
        target_y: i32,
        is_outline: bool,
        size: i32,
        angle: int,
        distance: int,
        reform_speed: i32,
        initial_speed: i32,
    ) -> Particle {
        Particle {
            x: div_toward_zero(cosine(angle) * distance, MILLION as int) as i32,
            y: div_toward_zero(sine(angle) * distance, MILLION as int) as i32,
            target_x,
            target_y,
            vx: 0,
            vy: 0,
            is_outline,
            size,
            alpha: ALPHA_FULL,
            reform_speed,
            initial_speed,
        }
    }

    /// Whether the particle is one that `new` can make for this target:
    /// scattered by some angle of the turn, some distance on the ring and
    /// some easing rates of their ranges.
    pub open spec fn fresh(
        self,
        target_x: i32,
        target_y: i32,
        is_outline: bool,
        size: i32,
    ) -> bool {
        exists|angle: int, distance: int|
            {
                &&& 0 <= angle < TURN
                &&& RING_INNER <= distance < RING_OUTER
                &&& REFORM_SPEED_MIN <= self.reform_speed < REFORM_SPEED_MAX
                &&& INITIAL_SPEED_MIN <= self.initial_speed < INITIAL_SPEED_MAX
                &&& self == #[trigger] Particle::scattered(
                    target_x,
                    target_y,
                    is_outline,
                    size,
                    angle,
                    distance,
                    self.reform_speed,
                    self.initial_speed,
                )
            }
    }

    /// The particle after easing toward its target at `speed` parts per
    /// million.
    pub open spec fn eased(self, speed: int) -> Particle {
        Particle {
            x: approach(self.x as int, self.target_x as int, speed) as i32,
            y: approach(self.y as int, self.target_y as int, speed) as i32,
            ..self
        }
    }

    /// The particle after one step of a burst: moved by its speed, pulled
    /// down, damped and faded.
    pub open spec fn drifted(self) -> Particle {
        Particle {
            x: advanced(self.x as int, self.vx as int) as i32,
            y: advanced(self.y as int, self.vy as int) as i32,
            vx: damped(self.vx as int) as i32,
            vy: damped(self.vy + GRAVITY) as i32,
            alpha: faded(self.alpha as int) as u8,
            ..self
        }
    }

    /// The particle after one step of reforming: eased home and
    /// brightened.
    pub open spec fn regathered(self) -> Particle {
        Particle { alpha: brightened(self.alpha as int) as u8, ..self.eased(self.reform_speed as int) }
    }

    /// The particle after one step under `phase`.
    pub open spec fn stepped(self, phase: Phase) -> Particle {
        match phase {
            Phase::Initializing => self.eased(self.initial_speed as int),
            Phase::Formed => self,
            Phase::Exploding => self.drifted(),
            Phase::Reforming => self.regathered(),
        }
    }

    /// The distance of the particle from the centre of the shape, rounded
    /// down.
    pub open spec fn radius(self) -> int {
        floor_sqrt(self.x * self.x + self.y * self.y)
    }

    /// The particle thrown outward with `force`: its speed points from
    /// the centre of the shape to where it is now. At the centre itself
    /// it is thrown sideways.
    pub open spec fn launched(self, force: int) -> Particle {
        let r = self.radius();
        if r == 0 {
            Particle { vx: force as i32, vy: 0, ..self }
        } else {
            Particle {
                vx: share(self.x as int, force, r) as i32,
                vy: share(self.y as int, force, r) as i32,
                ..self
            }
        }
    }

    /// Whether the particle is closer than `NEAR` to its target.
    pub open spec fn near_target(self) -> bool {
        (self.x - self.target_x) * (self.x - self.target_x) + (self.y - self.target_y) * (self.y
            - self.target_y) < NEAR * NEAR
    }
}

/// Easing a coordinate at a rate of at most the whole way never passes
/// the target and never moves away from it.
pub proof fn lemma_approach_between(at: int, target: int, speed: int)
    requires
        0 <= speed <= MILLION,
    ensures
        at <= target ==> at <= approach(at, target, speed) <= target,
        at >= target ==> target <= approach(at, target, speed) <= at,
{
    let d = target - at;
    let m: int = MILLION as int;
    if d >= 0 {
        assert(0 <= d * speed <= d * m) by (nonlinear_arith)
            requires
                0 <= d,
                0 <= speed <= m,
        ;
        assert(0 <= (d * speed) / m <= d) by (nonlinear_arith)
            requires
                0 <= d * speed <= d * m,
                m > 0,
        ;
    } else {
        let e = -d;
        assert(-(d * speed) == e * speed) by (nonlinear_arith)
            requires
                e == -d,
        ;
        assert(0 <= e * speed <= e * m) by (nonlinear_arith)
            requires
                0 <= e,
                0 <= speed <= m,
        ;
        assert(0 <= (e * speed) / m <= e) by (nonlinear_arith)
            requires
                0 <= e * speed <= e * m,
                m > 0,
        ;
        assert(d * speed <= 0);
        if d * speed == 0 {
            assert(e * speed == 0);
        }
    }
}

/// The size of a number without its sign.
pub open spec fn magnitude(v: int) -> int {
    if v < 0 {
        -v
    } else {
        v
    }
}

/// How far the particle is from its target, along the two axes together.
pub open spec fn offset(p: Particle) -> int {
    magnitude(p.x - p.target_x) + magnitude(p.y - p.target_y)
}

/// A coordinate that eases at a rate of at least `INITIAL_SPEED_MIN`
/// never falls back, and while it is further than 1415 thousandths from
/// its target it gains at least 28 of them in a step.
pub proof fn lemma_approach_gains(at: int, target: int, speed: int)
    requires
        INITIAL_SPEED_MIN <= speed <= MILLION,
    ensures
        magnitude(approach(at, target, speed) - target) <= magnitude(at - target),
        magnitude(at - target) >= 1415 ==> magnitude(approach(at, target, speed) - target)
            <= magnitude(at - target) - 28,
{
    lemma_approach_between(at, target, speed);
    let d = target - at;
    let m: int = MILLION as int;
    if d >= 1415 {
        assert(d * speed >= 28_300_000) by (nonlinear_arith)
            requires
                d >= 1415,
                speed >= 20_000,
        ;
        assert((d * speed) / m >= 28);
    } else if d <= -1415 {
        let e = -d;
        assert(-(d * speed) == e * speed) by (nonlinear_arith)
            requires
                e == -d,
        ;
        assert(e * speed >= 28_300_000) by (nonlinear_arith)
            requires
                e >= 1415,
                speed >= 20_000,
        ;
        assert((e * speed) / m >= 28);
    }
}

/// Two coordinates that are both within 1414 thousandths of their
/// targets make a particle near; a particle that is not near has one
/// coordinate at least 1415 thousandths off.
pub proof fn lemma_far_on_one_axis(dx: int, dy: int)
    requires
        dx * dx + dy * dy >= NEAR * NEAR,
    ensures
        magnitude(dx) >= 1415 || magnitude(dy) >= 1415,
{
    if magnitude(dx) <= 1414 && magnitude(dy) <= 1414 {
        lemma_square_order(magnitude(dx), 1414);
        lemma_square_order(magnitude(dy), 1414);
        assert(magnitude(dx) * magnitude(dx) == dx * dx) by (nonlinear_arith)
            requires
                magnitude(dx) == dx || magnitude(dx) == -dx,
        ;
        assert(magnitude(dy) * magnitude(dy) == dy * dy) by (nonlinear_arith)
            requires
                magnitude(dy) == dy || magnitude(dy) == -dy,
        ;
        assert(1414int * 1414int == 1_999_396);
        assert(NEAR * NEAR == 4_000_000);
    }
}

/// A step of easing, while the heart first forms or reforms, brings a
/// particle home: one that is near its target stays near, and one that is
/// not comes at least 28 thousandths closer.
pub proof fn lemma_easing_gains(p: Particle, phase: Phase)
    requires
        p.wf(),
        phase == Phase::Initializing || phase == Phase::Reforming,
    ensures
        p.near_target() ==> p.stepped(phase).near_target(),
        !p.near_target() ==> offset(p.stepped(phase)) <= offset(p) - 28,
        offset(p.stepped(phase)) <= offset(p),
{
    let speed: int = if phase == Phase::Initializing {
        p.initial_speed as int
    } else {
        p.reform_speed as int
    };
    let q = p.stepped(phase);
    lemma_approach_between(p.x as int, p.target_x as int, speed);
    lemma_approach_between(p.y as int, p.target_y as int, speed);
    lemma_approach_gains(p.x as int, p.target_x as int, speed);
    lemma_approach_gains(p.y as int, p.target_y as int, speed);
    assert(q.x == approach(p.x as int, p.target_x as int, speed));
    assert(q.y == approach(p.y as int, p.target_y as int, speed));
    assert(q.target_x == p.target_x && q.target_y == p.target_y);
    let dx = p.x - p.target_x;
    let dy = p.y - p.target_y;
    let ex = q.x - q.target_x;
    let ey = q.y - q.target_y;
    lemma_square_order(magnitude(ex), magnitude(dx));
    lemma_square_order(magnitude(ey), magnitude(dy));
    assert(magnitude(dx) * magnitude(dx) == dx * dx) by (nonlinear_arith)
        requires
            magnitude(dx) == dx || magnitude(dx) == -dx,
    ;
    assert(magnitude(dy) * magnitude(dy) == dy * dy) by (nonlinear_arith)
        requires
            magnitude(dy) == dy || magnitude(dy) == -dy,
    ;
    assert(magnitude(ex) * magnitude(ex) == ex * ex) by (nonlinear_arith)
        requires
            magnitude(ex) == ex || magnitude(ex) == -ex,
    ;
    assert(magnitude(ey) * magnitude(ey) == ey * ey) by (nonlinear_arith)
        requires
            magnitude(ey) == ey || magnitude(ey) == -ey,
    ;
    if !p.near_target() {
        lemma_far_on_one_axis(dx, dy);
    }
}

/// The share of a force that falls on one axis is no larger than the
/// force, when the part is no longer than the whole.
pub proof fn lemma_share_bounded(part: int, force: int, whole: int)
    requires
        whole > 0,
        -whole <= part <= whole,
        0 <= force,
    ensures
        -force <= share(part, force, whole) <= force,
{
    if part >= 0 {
        assert(0 <= part * force <= whole * force) by (nonlinear_arith)
            requires
                0 <= part <= whole,
                0 <= force,
        ;
        assert(0 <= (part * force) / whole <= force) by (nonlinear_arith)
            requires
                0 <= part * force <= whole * force,
                whole > 0,
        ;
    } else {
        let e = -part;
        assert(-(part * force) == e * force) by (nonlinear_arith)
            requires
                e == -part,
        ;
        assert(0 <= e * force <= whole * force) by (nonlinear_arith)
            requires
                0 <= e <= whole,
                0 <= force,
        ;
        assert(0 <= (e * force) / whole <= force) by (nonlinear_arith)
            requires
                0 <= e * force <= whole * force,
                whole > 0,
        ;
        assert(part * force <= 0);
        if part * force == 0 {
            assert(e * force == 0);
        }
    }
}

/// Neither coordinate of a point is longer than its distance from the
/// centre, even when that distance is rounded down.
pub proof fn lemma_radius_covers(x: int, y: int, r: int)
    requires
        is_floor_sqrt(r, x * x + y * y),
    ensures
        -r <= x <= r,
        -r <= y <= r,
{
    assert(y * y >= 0) by (nonlinear_arith);
    assert(x * x >= 0) by (nonlinear_arith);
    if x > r {
        lemma_square_order(r + 1, x);
    }
    if -x > r {
        lemma_square_order(r + 1, -x);
        assert((-x) * (-x) == x * x) by (nonlinear_arith);
    }
    if y > r {
        lemma_square_order(r + 1, y);
    }
    if -y > r {
        lemma_square_order(r + 1, -y);
        assert((-y) * (-y) == y * y) by (nonlinear_arith);
    }
}

/// A step under any phase keeps a particle well formed: in particular
/// its opacity stays between `ALPHA_FLOOR` and `ALPHA_FULL`.
pub proof fn lemma_step_keeps_wf(p: Particle, phase: Phase)
    requires
        p.wf(),
    ensures
        p.stepped(phase).wf(),
        ALPHA_FLOOR <= p.stepped(phase).alpha <= ALPHA_FULL,
        p.stepped(phase).target_x == p.target_x,
        p.stepped(phase).target_y == p.target_y,
        p.stepped(phase).is_outline == p.is_outline,
{
}

/// Throwing a particle with a force of at most `MAX_SPEED` keeps it well
/// formed.
pub proof fn lemma_launch_keeps_wf(p: Particle, force: int)
    requires
        p.wf(),
        0 <= force <= MAX_SPEED,
    ensures
        p.launched(force).wf(),
{
    let n = p.x * p.x + p.y * p.y;
    assert(p.x * p.x >= 0) by (nonlinear_arith);
    assert(p.y * p.y >= 0) by (nonlinear_arith);
    lemma_floor_sqrt_exists(n);
    let r = p.radius();
    if r != 0 {
        lemma_radius_covers(p.x as int, p.y as int, r);
        lemma_share_bounded(p.x as int, force, r);
        lemma_share_bounded(p.y as int, force, r);
    }
}

impl Particle {
    /// Tests whether the particle is well formed.
    pub fn is_well_formed(&self) -> (ok: bool)
        ensures
            ok == self.wf(),
    {
        ALPHA_FLOOR <= self.alpha && -MAX_SPEED <= self.vx && self.vx <= MAX_SPEED && -MAX_SPEED
            <= self.vy && self.vy <= MAX_SPEED && REFORM_SPEED_MIN <= self.reform_speed
            && self.reform_speed < REFORM_SPEED_MAX && INITIAL_SPEED_MIN <= self.initial_speed
            && self.initial_speed < INITIAL_SPEED_MAX
    }

    /// Makes the particle for a target from the four numbers that scatter
    /// it.
    pub fn place(
        target_x: i32,
        target_y: i32,
        is_outline: bool,
        size: i32,
        angle: u32,
        distance: i32,
        reform_speed: i32,
        initial_speed: i32,
    ) -> (p: Particle)
        requires
            0 <= distance,
        ensures
            p == Particle::scattered(
                target_x,
                target_y,
                is_outline,
                size,
                angle as int,
                distance as int,
                reform_speed,
                initial_speed,
            ),
            -distance <= p.x <= distance,
            -distance <= p.y <= distance,
    {
        let c: i64 = crate::trig::cos(angle) as i64;
        let s: i64 = crate::trig::sin(angle) as i64;
        let d: i64 = distance as i64;
        proof {
            lemma_share_bounded(c as int, d as int, MILLION as int);
            lemma_share_bounded(s as int, d as int, MILLION as int);
            assert(-1_000_000 * 0x8000_0000 <= c * d <= 1_000_000 * 0x8000_0000) by (nonlinear_arith)
                requires
                    -1_000_000 <= c <= 1_000_000,
                    0 <= d <= 0x8000_0000,
            ;
            assert(-1_000_000 * 0x8000_0000 <= s * d <= 1_000_000 * 0x8000_0000) by (nonlinear_arith)
                requires
                    -1_000_000 <= s <= 1_000_000,
                    0 <= d <= 0x8000_0000,
            ;
        }
        let x: i64 = (c * d) / MILLION;
        let y: i64 = (s * d) / MILLION;
        Particle {
            x: x as i32,
            y: y as i32,
            target_x,
            target_y,
            vx: 0,
            vy: 0,
            is_outline,
            size,
            alpha: ALPHA_FULL,
            reform_speed,
            initial_speed,
        }
    }

    /// Makes the particle for a target and scatters it at random: the
    /// angle is drawn first, then the distance, the reforming speed and
    /// the initial speed.
    pub fn new(target_x: i32, target_y: i32, is_outline: bool, size: i32, rng: &mut SmallRng) -> (p:
        Particle)
        ensures
            p.fresh(target_x, target_y, is_outline, size),
            p.wf(),
            p.target_x == target_x,
            p.target_y == target_y,
            p.is_outline == is_outline,
            p.size == size,
            p.alpha == ALPHA_FULL,
            p.vx == 0,
            p.vy == 0,
            -RING_OUTER < p.x < RING_OUTER,
            -RING_OUTER < p.y < RING_OUTER,
    {
        let angle: i32 = draw(rng, 0, TURN as i32);
        let distance: i32 = draw(rng, RING_INNER, RING_OUTER);
        let reform_speed: i32 = draw(rng, REFORM_SPEED_MIN, REFORM_SPEED_MAX);
        let initial_speed: i32 = draw(rng, INITIAL_SPEED_MIN, INITIAL_SPEED_MAX);
        let p = Particle::place(
            target_x,
            target_y,
            is_outline,
            size,
            angle as u32,
            distance,
            reform_speed,
            initial_speed,
        );
        assert(p == Particle::scattered(
            target_x,
            target_y,
            is_outline,
            size,
            angle as int,
            distance as int,
            p.reform_speed,
            p.initial_speed,
        ));
        p
    }

    /// Throws the particle outward with `force`, away from the centre of
    /// the shape.
    pub fn launch(&mut self, force: i32)
        requires
            0 <= force <= MAX_SPEED,
        ensures
            *final(self) == old(self).launched(force as int),
            old(self).wf() ==> final(self).wf(),
    {
        let x: i64 = self.x as i64;
        let y: i64 = self.y as i64;
        assert(0 <= x * x <= 0x4000_0000_0000_0000) by (nonlinear_arith)
            requires
                -0x8000_0000 <= x <= 0x8000_0000,
        ;
        assert(0 <= y * y <= 0x4000_0000_0000_0000) by (nonlinear_arith)
            requires
                -0x8000_0000 <= y <= 0x8000_0000,
        ;
        let n: u64 = (x * x) as u64 + (y * y) as u64;
        let r: u64 = isqrt(n);
        proof {
            if old(self).wf() {
                lemma_launch_keeps_wf(*old(self), force as int);
            }
        }
        if r == 0 {
            self.vx = force;
            self.vy = 0;
        } else {
            let f: i64 = force as i64;
            let whole: i64 = r as i64;
            proof {
                lemma_radius_covers(x as int, y as int, r as int);
                lemma_share_bounded(x as int, f as int, whole as int);
                lemma_share_bounded(y as int, f as int, whole as int);
                assert(-0x8000_0000 * 4_000 <= x * f <= 0x8000_0000 * 4_000) by (nonlinear_arith)
                    requires
                        -0x8000_0000 <= x <= 0x8000_0000,
                        0 <= f <= 4_000,
                ;
                assert(-0x8000_0000 * 4_000 <= y * f <= 0x8000_0000 * 4_000) by (nonlinear_arith)
                    requires
                        -0x8000_0000 <= y <= 0x8000_0000,
                        0 <= f <= 4_000,
                ;
            }
            let vx: i64 = (x * f) / whole;
            let vy: i64 = (y * f) / whole;
            self.vx = vx as i32;
            self.vy = vy as i32;
        }
    }

    /// Whether `force` is one that a burst may give this particle:
    /// outline particles are thrown harder than those of the interior.
    pub open spec fn force_fits(self, force: int) -> bool {
        if self.is_outline {
            OUTLINE_FORCE_MIN <= force < OUTLINE_FORCE_MAX
        } else {
            FILL_FORCE_MIN <= force < FILL_FORCE_MAX
        }
    }

    /// Whether `after` is this particle thrown outward with some force of
    /// the range of its kind.
    pub open spec fn thrown(self, after: Particle) -> bool {
        exists|force: int| self.force_fits(force) && after == #[trigger] self.launched(force)
    }

    /// Throws the particle outward with a force drawn at random from the
    /// range of its kind.
    pub fn explode(&mut self, rng: &mut SmallRng)
        ensures
            old(self).thrown(*final(self)),
            old(self).wf() ==> final(self).wf(),
    {
        let force: i32 = if self.is_outline {
            draw(rng, OUTLINE_FORCE_MIN, OUTLINE_FORCE_MAX)
        } else {
            draw(rng, FILL_FORCE_MIN, FILL_FORCE_MAX)
        };
        self.launch(force);
        assert(old(self).force_fits(force as int));
    }

    /// Moves the particle by one step under `phase`.
    pub fn update(&mut self, phase: Phase)
        requires
            old(self).wf(),
        ensures
            *final(self) == old(self).stepped(phase),
            final(self).wf(),
    {
        match phase {
            Phase::Initializing => {
                self.x = ease(self.x, self.target_x, self.initial_speed);
                self.y = ease(self.y, self.target_y, self.initial_speed);
            },
            Phase::Exploding => {
                self.x = advance(self.x, self.vx);
                self.y = advance(self.y, self.vy);
                let vy: i32 = self.vy + GRAVITY;
                self.vx = (self.vx * DAMPING) / 100;
                self.vy = (vy * DAMPING) / 100;
                self.alpha = if self.alpha - FADE < ALPHA_FLOOR {
                    ALPHA_FLOOR
                } else {
                    self.alpha - FADE
                };
            },
            Phase::Reforming => {
                self.x = ease(self.x, self.target_x, self.reform_speed);
                self.y = ease(self.y, self.target_y, self.reform_speed);
                self.alpha = if self.alpha > ALPHA_FULL - GLOW {
                    ALPHA_FULL
                } else {
                    self.alpha + GLOW
                };
            },
            Phase::Formed => {},
        }
    }

    /// Tests whether the particle is closer than `NEAR` to its target.
    /// The answer depends on nothing but the particle's place and target.
    pub fn is_near_target(&self) -> (near: bool)
        ensures
            near == self.near_target(),
    {
        let dx: i128 = self.x as i128 - self.target_x as i128;
        let dy: i128 = self.y as i128 - self.target_y as i128;
        assert(0 <= dx * dx <= 0x1_0000_0000_0000_0000) by (nonlinear_arith)
            requires
                -0x1_0000_0000 <= dx <= 0x1_0000_0000,
        ;
        assert(0 <= dy * dy <= 0x1_0000_0000_0000_0000) by (nonlinear_arith)
            requires
                -0x1_0000_0000 <= dy <= 0x1_0000_0000,
        ;
        let near: i128 = NEAR as i128;
        dx * dx + dy * dy < near * near
    }
}

/// Moves one coordinate toward `target` by `speed` parts per million of
/// what separates them.
fn ease(at: i32, target: i32, speed: i32) -> (moved: i32)
    requires
        0 <= speed <= MILLION,
    ensures
        moved == approach(at as int, target as int, speed as int),
{
    let d: i64 = target as i64 - at as i64;
    let sp: i64 = speed as i64;
    proof {
        lemma_approach_between(at as int, target as int, speed as int);
        assert(-0x1_0000_0000 * 1_000_000 <= d * sp <= 0x1_0000_0000 * 1_000_000)
            by (nonlinear_arith)
            requires
                -0x1_0000_0000 <= d <= 0x1_0000_0000,
                0 <= sp <= 1_000_000,
        ;
    }
    let step: i64 = (d * sp) / MILLION;
    (at as i64 + step) as i32
}

/// Moves one coordinate by `v`, stopping at the edge of the world.
fn advance(at: i32, v: i32) -> (moved: i32)
    ensures
        moved == advanced(at as int, v as int),
{
    let sum: i64 = at as i64 + v as i64;
    if sum < i32::MIN as i64 {
        i32::MIN
    } else if sum > i32::MAX as i64 {
        i32::MAX
    } else {
        sum as i32
    }
}

} // verus!
