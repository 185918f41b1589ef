//! The field of particles: the outline sampled from the heart's curve and
//! the interior filled at random under a spacing rule.

use crate::animation::{all_wf, HeartAnimation};
use crate::particle::Particle;
use crate::random::draw;
use crate::shape::{
    clear_of, heart_x, heart_y, inside_heart, is_clear, lemma_heart_x_range, lemma_heart_y_range,
    lemma_multiple_agrees, outline_x, outline_y, shrunk, OUTLINE_COUNT, OUTLINE_STEP, SHAPE_SCALE,
    SPACING, TIP_SPACING,
};
use crate::trig::TURN;
use crate::units::MILLION;
use vstd::prelude::*;

verus! {

/// The radius at which every particle is drawn: four units.
pub const PARTICLE_SIZE: i32 = 4_000;

/// How many interior points are tried.
pub const FILL_ATTEMPTS: u32 = 1000;

/// How many points are tried near the lower tip.
pub const TIP_ATTEMPTS: u32 = 5;

/// The least fraction to which the curve is shrunk for an interior point,
/// in parts per million.
pub const SCALE_MIN: i32 = 100_000;

/// The fraction that no shrinking reaches.
pub const SCALE_MAX: i32 = 900_000;

/// The left edge of the band near the lower tip.
pub const TIP_LEFT: i32 = -10_000;

/// The right edge of the band, which no point reaches.
pub const TIP_RIGHT: i32 = 10_000;

/// The upper edge of the band.
pub const TIP_TOP: i32 = 80_000;

/// The lower edge of the band, which no point reaches.
pub const TIP_BOTTOM: i32 = 100_000;

/// Whether `ps[j]` is the outline's sample number `j - base`, freshly
/// scattered, for each of the samples.
pub open spec fn outline_at(ps: Seq<Particle>, base: int) -> bool {
    forall|j: int|
        base <= j < base + OUTLINE_COUNT ==> (#[trigger] ps[j]).fresh(
            outline_x((j - base) * OUTLINE_STEP) as i32,
            outline_y((j - base) * OUTLINE_STEP) as i32,
            true,
            PARTICLE_SIZE,
        )
}

/// Whether the point is the curve's point at some angle, shrunk toward
/// the centre by some fraction of the range for interior points.
pub open spec fn on_shrunk_curve(x: int, y: int) -> bool {
    exists|t: int, scale: int|
        0 <= t < TURN && SCALE_MIN <= scale < SCALE_MAX && x == #[trigger] shrunk(
            outline_x(t),
            scale,
        ) && y == #[trigger] shrunk(outline_y(t), scale)
}

/// Whether the point lies in the band near the lower tip.
pub open spec fn in_tip_band(x: int, y: int) -> bool {
    TIP_LEFT <= x < TIP_RIGHT && TIP_TOP <= y < TIP_BOTTOM
}

/// Whether `p` is an interior particle as the generator makes them after
/// `earlier`: freshly scattered, with its target in the heart and at
/// least `spacing` from the target of every particle placed before it.
pub open spec fn filled(earlier: Seq<Particle>, p: Particle, spacing: int) -> bool {
    &&& !p.is_outline
    &&& inside_heart(p.target_x as int, p.target_y as int)
    &&& clear_of(earlier, p.target_x as int, p.target_y as int, spacing)
    &&& p.fresh(p.target_x, p.target_y, false, PARTICLE_SIZE)
}

/// Whether each of `ps[from..to]` is an interior particle placed with
/// `spacing` after all before it, on a shrunk copy of the curve or, if
/// `at_tip`, in the band near the lower tip.
pub open spec fn fill_range(ps: Seq<Particle>, from: int, to: int, spacing: int, at_tip: bool) -> bool {
    forall|j: int|
        from <= j < to ==> {
            &&& filled(ps.take(j), #[trigger] ps[j], spacing)
            &&& if at_tip {
                in_tip_band(ps[j].target_x as int, ps[j].target_y as int)
            } else {
                on_shrunk_curve(ps[j].target_x as int, ps[j].target_y as int)
            }
        }
}

/// Whether `after` is what the generator may add to `before`: the
/// outline's samples, then up to `FILL_ATTEMPTS` interior particles on
/// shrunk copies of the curve, kept `SPACING` apart, and from `tip` on up
/// to `TIP_ATTEMPTS` particles in the band near the lower tip, kept
/// `TIP_SPACING` apart.
pub open spec fn generated(before: Seq<Particle>, after: Seq<Particle>, tip: int) -> bool {
    let base = before.len() as int;
    &&& base + OUTLINE_COUNT <= tip <= after.len()
    &&& tip <= base + OUTLINE_COUNT + FILL_ATTEMPTS
    &&& after.len() <= tip + TIP_ATTEMPTS
    &&& after.take(base) == before
    &&& outline_at(after, base)
    &&& fill_range(after, base + OUTLINE_COUNT, tip, SPACING as int, false)
    &&& fill_range(after, tip, after.len() as int, TIP_SPACING as int, true)
}

/// What has been generated stays generated when one more particle is
/// appended: the facts about a particle speak only of those before it.
pub proof fn lemma_push_keeps(ps: Seq<Particle>, p: Particle, base: int)
    requires
        0 <= base,
    ensures
        all_wf(ps) && p.wf() ==> all_wf(ps.push(p)),
        base + OUTLINE_COUNT <= ps.len() && outline_at(ps, base) ==> outline_at(ps.push(p), base),
        forall|from: int, to: int, spacing: int, at_tip: bool|
            0 <= from && to <= ps.len() && #[trigger] fill_range(ps, from, to, spacing, at_tip)
                ==> fill_range(ps.push(p), from, to, spacing, at_tip),
        forall|k: int| 0 <= k <= ps.len() ==> #[trigger] ps.push(p).take(k) == ps.take(k),
{
    let qs = ps.push(p);
    assert forall|k: int| 0 <= k <= ps.len() implies #[trigger] qs.take(k) == ps.take(k) by {
        assert(qs.take(k) =~= ps.take(k));
    }
    if all_wf(ps) && p.wf() {
        assert forall|i: int| 0 <= i < qs.len() implies (#[trigger] qs[i]).wf() by {
            if i < ps.len() {
                assert(qs[i] == ps[i]);
            }
        }
    }
    if base + OUTLINE_COUNT <= ps.len() && outline_at(ps, base) {
        assert forall|j: int| base <= j < base + OUTLINE_COUNT implies (#[trigger] qs[j]).fresh(
            outline_x((j - base) * OUTLINE_STEP) as i32,
            outline_y((j - base) * OUTLINE_STEP) as i32,
            true,
            PARTICLE_SIZE,
        ) by {
            assert(qs[j] == ps[j]);
        }
    }
    assert forall|from: int, to: int, spacing: int, at_tip: bool|
        0 <= from && to <= ps.len() && #[trigger] fill_range(
            ps,
            from,
            to,
            spacing,
            at_tip,
        ) implies fill_range(qs, from, to, spacing, at_tip) by {
        assert forall|j: int| from <= j < to implies {
            &&& filled(qs.take(j), #[trigger] qs[j], spacing)
            &&& if at_tip {
                in_tip_band(qs[j].target_x as int, qs[j].target_y as int)
            } else {
                on_shrunk_curve(qs[j].target_x as int, qs[j].target_y as int)
            }
        } by {
            assert(qs[j] == ps[j]);
            assert(qs.take(j) == ps.take(j));
        }
    }
}

impl HeartAnimation {
    /// The curve's horizontal coordinate `16 sin^3 t` at angle `t`, in
    /// thousandths.
    pub fn get_heart_x(t: u32) -> (x: i32)
        ensures
            x == heart_x(t as int),
            -16_000 <= x <= 16_000,
    {
        proof {
            lemma_heart_x_range(t as int);
        }
        let s: i128 = crate::trig::sin(t) as i128;
        assert(0 <= s * s <= 1_000_000_000_000) by (nonlinear_arith)
            requires
                -1_000_000 <= s <= 1_000_000,
        ;
        let s2: i128 = s * s;
        assert(-1_000_000_000_000_000_000 <= s2 * s <= 1_000_000_000_000_000_000)
            by (nonlinear_arith)
            requires
                -1_000_000 <= s <= 1_000_000,
                0 <= s2 <= 1_000_000_000_000,
        ;
        let s3: i128 = s2 * s;
        let x: i128 = (16 * s3) / 1_000_000_000_000_000;
        x as i32
    }

    /// The curve's vertical coordinate
    /// `13 cos t - 5 cos 2t - 2 cos 3t - cos 4t` at angle `t`, in
    /// thousandths.
    pub fn get_heart_y(t: u32) -> (y: i32)
        ensures
            y == heart_y(t as int),
            -21_000 <= y <= 21_000,
    {
        let r: u32 = t % TURN;
        proof {
            lemma_heart_y_range(t as int);
            lemma_multiple_agrees(1, t as int);
            lemma_multiple_agrees(2, t as int);
            lemma_multiple_agrees(3, t as int);
            lemma_multiple_agrees(4, t as int);
        }
        let c1: i64 = crate::trig::cos(r) as i64;
        let c2: i64 = crate::trig::cos(2 * r) as i64;
        let c3: i64 = crate::trig::cos(3 * r) as i64;
        let c4: i64 = crate::trig::cos(4 * r) as i64;
        let sum: i64 = 13 * c1 - 5 * c2 - 2 * c3 - c4;
        (sum / 1000) as i32
    }

    /// Tests whether a point lies in the region that takes interior
    /// points.
    pub fn is_inside_heart(x: i32, y: i32) -> (inside: bool)
        ensures
            inside == inside_heart(x as int, y as int),
    {
        let x: i128 = x as i128;
        let y: i128 = y as i128;
        assert(0 <= x * x <= 0x4000_0000_0000_0000) by (nonlinear_arith)
            requires
                -0x8000_0000 <= x <= 0x8000_0000,
        ;
        assert(0 <= y * y <= 0x4000_0000_0000_0000) by (nonlinear_arith)
            requires
                -0x8000_0000 <= y <= 0x8000_0000,
        ;
        let x2: i128 = x * x;
        let y2: i128 = y * y;
        let a: i128 = 256_000_000 - x2;
        let b: i128 = 64_000_000 - x2;
        assert(-0x1000_0000_0000_0000_0000_0000_0000_0000 <= a * b
            <= 0x1000_0000_0000_0000_0000_0000_0000_0000) by (nonlinear_arith)
            requires
                -0x4000_0000_0000_0000 <= a <= 0x4000_0000_0000_0000,
                -0x4000_0000_0000_0000 <= b <= 0x4000_0000_0000_0000,
        ;
        64_000_000 * y2 < a * b
    }

    /// The point of the curve at angle `t`, shrunk toward the centre to
    /// `scale` parts per million: where an interior particle is tried.
    pub fn shrunk_point(t: u32, scale: i32) -> (point: (i32, i32))
        requires
            0 <= scale <= MILLION,
        ensures
            point.0 == shrunk(outline_x(t as int), scale as int),
            point.1 == shrunk(outline_y(t as int), scale as int),
    {
        let x: i32 = crate::shape::shrink(Self::get_heart_x(t) * SHAPE_SCALE, scale);
        let y: i32 = crate::shape::shrink(-Self::get_heart_y(t) * SHAPE_SCALE, scale);
        (x, y)
    }

    /// Places a new interior particle with its target at the point, if
    /// the point lies in the heart and keeps `spacing` from the target of
    /// every particle placed so far; otherwise changes nothing. Says
    /// whether it did.
    pub fn try_place(&mut self, x: i32, y: i32, spacing: i32) -> (placed: bool)
        ensures
            placed == (inside_heart(x as int, y as int) && clear_of(
                old(self)@.particles,
                x as int,
                y as int,
                spacing as int,
            )),
            !placed ==> final(self)@ == old(self)@,
            placed ==> {
                &&& final(self)@.particles.len() == old(self)@.particles.len() + 1
                &&& final(self)@.particles.drop_last() == old(self)@.particles
                &&& final(self)@.particles.last().target_x == x
                &&& final(self)@.particles.last().target_y == y
                &&& filled(old(self)@.particles, final(self)@.particles.last(), spacing as int)
                &&& final(self)@.particles.last().wf()
                &&& final(self)@.phase == old(self)@.phase
                &&& final(self)@.heart_rate == old(self)@.heart_rate
                &&& final(self)@.last_beat == old(self)@.last_beat
            },
    {
        if Self::is_inside_heart(x, y) && is_clear(&self.particles, x, y, spacing) {
            let p = Particle::new(x, y, false, PARTICLE_SIZE, &mut self.rng);
            self.particles.push(p);
            assert(self.particles@.drop_last() == old(self)@.particles);
            true
        } else {
            false
        }
    }

    /// Builds the shape: appends the outline's samples, then tries
    /// `FILL_ATTEMPTS` interior points on shrunk copies of the curve and
    /// `TIP_ATTEMPTS` points near the lower tip, placing each that lies
    /// in the heart and keeps its spacing. How many are placed depends on
    /// the random source.
    pub fn initialize_particles(&mut self)
        ensures
            exists|tip: int| generated(old(self)@.particles, final(self)@.particles, tip),
            old(self).wf() ==> final(self).wf(),
            final(self)@.phase == old(self)@.phase,
            final(self)@.heart_rate == old(self)@.heart_rate,
            final(self)@.last_beat == old(self)@.last_beat,
    {
        let ghost before = self@.particles;
        let ghost base = before.len() as int;
        let mut i: u32 = 0;
        while i < OUTLINE_COUNT
            invariant
                i <= OUTLINE_COUNT,
                base == before.len(),
                self@.particles.len() == base + i,
                self@.particles.take(base) == before,
                all_wf(before) ==> all_wf(self@.particles),
                forall|j: int|
                    base <= j < base + i ==> (#[trigger] self@.particles[j]).fresh(
                        outline_x((j - base) * OUTLINE_STEP) as i32,
                        outline_y((j - base) * OUTLINE_STEP) as i32,
                        true,
                        PARTICLE_SIZE,
                    ),
                self@.phase == old(self)@.phase,
                self@.heart_rate == old(self)@.heart_rate,
                self@.last_beat == old(self)@.last_beat,
            decreases OUTLINE_COUNT - i,
        {
            let t: u32 = i * OUTLINE_STEP;
            let x: i32 = Self::get_heart_x(t) * SHAPE_SCALE;
            let y: i32 = -Self::get_heart_y(t) * SHAPE_SCALE;
            let p = Particle::new(x, y, true, PARTICLE_SIZE, &mut self.rng);
            let ghost prev = self@.particles;
            self.particles.push(p);
            proof {
                lemma_push_keeps(prev, p, base);
                assert(self@.particles == prev.push(p));
                assert forall|j: int| base <= j < base + i + 1 implies (
                #[trigger] self@.particles[j]).fresh(
                    outline_x((j - base) * OUTLINE_STEP) as i32,
                    outline_y((j - base) * OUTLINE_STEP) as i32,
                    true,
                    PARTICLE_SIZE,
                ) by {
                    if j < base + i {
                        assert(self@.particles[j] == prev[j]);
                    }
                }
            }
            i += 1;
        }
        let ghost first = base + OUTLINE_COUNT;
        assert(outline_at(self@.particles, base));
        let mut attempts: u32 = 0;
        while attempts < FILL_ATTEMPTS
            invariant
                attempts <= FILL_ATTEMPTS,
                base == before.len(),
                first == base + OUTLINE_COUNT,
                first <= self@.particles.len() <= first + attempts,
                self@.particles.take(base) == before,
                all_wf(before) ==> all_wf(self@.particles),
                outline_at(self@.particles, base),
                fill_range(self@.particles, first, self@.particles.len() as int, SPACING as int, false),
                self@.phase == old(self)@.phase,
                self@.heart_rate == old(self)@.heart_rate,
                self@.last_beat == old(self)@.last_beat,
            decreases FILL_ATTEMPTS - attempts,
        {
            let t: i32 = draw(&mut self.rng, 0, TURN as i32);
            let scale: i32 = draw(&mut self.rng, SCALE_MIN, SCALE_MAX);
            let (x, y) = Self::shrunk_point(t as u32, scale);
            let ghost prev = self@.particles;
            let placed = self.try_place(x, y, SPACING);
            proof {
                if placed {
                    let p = self@.particles.last();
                    assert(self@.particles == prev.push(p));
                    lemma_push_keeps(prev, p, base);
                    assert(self@.particles.take(prev.len() as int) == prev);
                    assert(shrunk(outline_x(t as int), scale as int) == x);
                    assert(shrunk(outline_y(t as int), scale as int) == y);
                    assert(on_shrunk_curve(x as int, y as int));
                    assert(self@.particles.take(base) == prev.take(base));
                }
            }
            attempts += 1;
        }
        let ghost tip = self@.particles.len() as int;
        let mut tries: u32 = 0;
        while tries < TIP_ATTEMPTS
            invariant
                tries <= TIP_ATTEMPTS,
                base == before.len(),
                first == base + OUTLINE_COUNT,
                first <= tip <= first + FILL_ATTEMPTS,
                tip <= self@.particles.len() <= tip + tries,
                self@.particles.take(base) == before,
                all_wf(before) ==> all_wf(self@.particles),
                outline_at(self@.particles, base),
                fill_range(self@.particles, first, tip, SPACING as int, false),
                fill_range(self@.particles, tip, self@.particles.len() as int, TIP_SPACING as int, true),
                self@.phase == old(self)@.phase,
                self@.heart_rate == old(self)@.heart_rate,
                self@.last_beat == old(self)@.last_beat,
            decreases TIP_ATTEMPTS - tries,
        {
            let x: i32 = draw(&mut self.rng, TIP_LEFT, TIP_RIGHT);
            let y: i32 = draw(&mut self.rng, TIP_TOP, TIP_BOTTOM);
            let ghost prev = self@.particles;
            let placed = self.try_place(x, y, TIP_SPACING);
            proof {
                if placed {
                    let p = self@.particles.last();
                    assert(self@.particles == prev.push(p));
                    lemma_push_keeps(prev, p, base);
                    assert(self@.particles.take(prev.len() as int) == prev);
                    assert(self@.particles.take(base) == prev.take(base));
                }
            }
            tries += 1;
        }
        assert(generated(before, self@.particles, tip));
    }
}

} // verus!
