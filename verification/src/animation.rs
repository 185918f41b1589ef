//! The animation: the cloud of particles, the phase they are in, and the
//! step that advances both by one timestamp.

use crate::field::generated;
use crate::particle::Particle;
use crate::phase::{beat_due, burst_over, has_quorum, is_beat_due, is_burst_over, quorum, successor, Phase};
use crate::random::seeded;
use rand::rngs::SmallRng;
use vstd::prelude::*;

verus! {

/// The red part of the accent colour, in thousandths.
pub const ACCENT_RED: i32 = 1000;

/// The green part of the accent colour, in thousandths.
pub const ACCENT_GREEN: i32 = 0;

/// The blue part of the accent colour, in thousandths.
pub const ACCENT_BLUE: i32 = 390;

/// What the renderer draws for one particle.
#[derive(Clone, Copy, Debug, PartialEq, Eq)]
pub struct Vertex {
    /// The place, sideways, in thousandths of a unit.
    pub x: i32,
    /// The place, downward, in thousandths of a unit.
    pub y: i32,
    /// The red part of the colour, in thousandths.
    pub red: i32,
    /// The green part of the colour, in thousandths.
    pub green: i32,
    /// The blue part of the colour, in thousandths.
    pub blue: i32,
    /// The opacity, in 255ths.
    pub alpha: u8,
    /// The radius of the point, in thousandths of a unit.
    pub size: i32,
}

/// What the renderer draws for `p`: its place, the accent colour at the
/// particle's opacity, and its size.
pub open spec fn vertex_of(p: Particle) -> Vertex {
    Vertex {
        x: p.x,
        y: p.y,
        red: ACCENT_RED,
        green: ACCENT_GREEN,
        blue: ACCENT_BLUE,
        alpha: p.alpha,
        size: p.size,
    }
}

/// The animation as a mathematical value: everything but the random
/// source.
pub struct AnimationState {
    /// The particles, outline first.
    pub particles: Seq<Particle>,
    /// The phase that holds.
    pub phase: Phase,
    /// The heart rate, in beats per minute.
    pub heart_rate: u32,
    /// The timestamp of the last burst.
    pub last_beat: u64,
}

/// The particle heart.
pub struct HeartAnimation {
    /// The particles, outline first. Their number never changes after
    /// the animation is made.
    pub particles: Vec<Particle>,
    /// The phase that holds.
    pub phase: Phase,
    /// The heart rate, in beats per minute.
    pub heart_rate: u32,
    /// The timestamp of the last burst.
    pub last_beat: u64,
    /// The random source, drawn from when the particles are scattered
    /// and at every burst.
    pub rng: SmallRng,
}

impl View for HeartAnimation {
    type V = AnimationState;

    open spec fn view(&self) -> AnimationState {
        AnimationState {
            particles: self.particles@,
            phase: self.phase,
            heart_rate: self.heart_rate,
            last_beat: self.last_beat,
        }
    }
}

/// Whether every particle of `ps` is well formed.
pub open spec fn all_wf(ps: Seq<Particle>) -> bool {
    forall|i: int| 0 <= i < ps.len() ==> (#[trigger] ps[i]).wf()
}

/// How many particles of `ps` are near their targets.
pub open spec fn count_near(ps: Seq<Particle>) -> nat
    decreases ps.len(),
{
    if ps.len() == 0 {
        0
    } else {
        count_near(ps.drop_last()) + if ps.last().near_target() {
            1nat
        } else {
            0nat
        }
    }
}

/// Whether enough particles of `ps` are near their targets for the heart
/// to count as formed.
pub open spec fn settled(ps: Seq<Particle>) -> bool {
    quorum(count_near(ps) as int, ps.len() as int)
}

/// Whether `forces` holds, for each particle of `ps`, a force of the
/// range of its kind.
pub open spec fn forces_fit(ps: Seq<Particle>, forces: Seq<int>) -> bool {
    &&& forces.len() == ps.len()
    &&& forall|i: int| 0 <= i < ps.len() ==> (#[trigger] ps[i]).force_fits(forces[i])
}

/// What the renderer draws for the particles of `ps`, one vertex each
/// and in their order.
pub open spec fn rendered(ps: Seq<Particle>) -> Seq<Vertex> {
    Seq::new(ps.len(), |i: int| vertex_of(ps[i]))
}

/// The least force of the range of each particle's kind: forces that
/// fit, whatever the particles.
pub open spec fn least_forces(ps: Seq<Particle>) -> Seq<int> {
    Seq::new(
        ps.len(),
        |i: int|
            if ps[i].is_outline {
                crate::particle::OUTLINE_FORCE_MIN as int
            } else {
                crate::particle::FILL_FORCE_MIN as int
            },
    )
}

impl AnimationState {
    /// Whether every particle is well formed.
    pub open spec fn wf(self) -> bool {
        all_wf(self.particles)
    }

    /// The phase that holds after a step at `now`.
    pub open spec fn next_phase(self, now: u64) -> Phase {
        successor(
            self.phase,
            settled(self.particles),
            beat_due(self.heart_rate as int, self.last_beat as int, now as int),
            burst_over(self.last_beat as int, now as int),
        )
    }

    /// Whether the step at `now` is a beat: the heart is formed and has
    /// rested for longer than the beat interval.
    pub open spec fn beats(self, now: u64) -> bool {
        self.phase == Phase::Formed && beat_due(
            self.heart_rate as int,
            self.last_beat as int,
            now as int,
        )
    }

    /// The state after a step at `now`. At most one transition is made,
    /// and every particle then moves once by the rule of the phase that
    /// holds after it. If the step is a beat, each particle is first
    /// thrown outward with its force of `forces`, and the beat is timed at
    /// `now`; otherwise `forces` plays no part.
    pub open spec fn after_tick(self, now: u64, forces: Seq<int>) -> AnimationState {
        let phase = self.next_phase(now);
        let beat = self.beats(now);
        AnimationState {
            particles: Seq::new(
                self.particles.len(),
                |i: int|
                    if beat {
                        self.particles[i].launched(forces[i]).stepped(phase)
                    } else {
                        self.particles[i].stepped(phase)
                    },
            ),
            phase,
            heart_rate: self.heart_rate,
            last_beat: if beat {
                now
            } else {
                self.last_beat
            },
        }
    }
}

impl HeartAnimation {
    /// Whether every particle is well formed.
    pub open spec fn wf(&self) -> bool {
        self@.wf()
    }

    /// Makes the animation: seeds the random source, builds the shape
    /// and scatters the particles on the ring. The heart starts out
    /// forming, with no beat yet.
    pub fn new(seed: u64, heart_rate: u32) -> (anim: HeartAnimation)
        ensures
            anim@.phase == Phase::Initializing,
            anim@.heart_rate == heart_rate,
            anim@.last_beat == 0,
            exists|tip: int| generated(Seq::empty(), anim@.particles, tip),
            anim.wf(),
    {
        let mut heart = HeartAnimation {
            particles: Vec::new(),
            phase: Phase::Initializing,
            heart_rate,
            last_beat: 0,
            rng: seeded(seed),
        };
        heart.initialize_particles();
        heart
    }

    /// Tests whether every particle is well formed.
    pub fn is_well_formed(&self) -> (ok: bool)
        ensures
            ok == self.wf(),
    {
        let mut i: usize = 0;
        while i < self.particles.len()
            invariant
                i <= self.particles.len(),
                all_wf(self@.particles.take(i as int)),
            decreases self.particles.len() - i,
        {
            if !self.particles[i].is_well_formed() {
                return false;
            }
            i += 1;
            assert forall|k: int| 0 <= k < i implies (#[trigger] self@.particles.take(
                i as int,
            )[k]).wf() by {
                if k < i - 1 {
                    assert(self@.particles.take(i as int)[k] == self@.particles.take(i - 1)[k]);
                }
            }
        }
        assert(self@.particles.take(i as int) == self@.particles);
        true
    }

    /// Counts the particles that are near their targets.
    pub fn count_in_position(&self) -> (near: usize)
        ensures
            near == count_near(self@.particles),
            near <= self@.particles.len(),
    {
        let mut near: usize = 0;
        let mut i: usize = 0;
        while i < self.particles.len()
            invariant
                i <= self.particles.len(),
                near <= i,
                near == count_near(self@.particles.take(i as int)),
            decreases self.particles.len() - i,
        {
            assert(self@.particles.take(i + 1).drop_last() == self@.particles.take(i as int));
            if self.particles[i].is_near_target() {
                near += 1;
            }
            i += 1;
        }
        assert(self@.particles.take(i as int) == self@.particles);
        near
    }

    /// Advances the animation to `timestamp`: makes at most one
    /// transition, and then moves every particle once by the rule of the
    /// phase that holds after it. On a beat every particle is first
    /// thrown outward with a force drawn at random from the range of its
    /// kind, and the beat is timed at `timestamp`.
    pub fn update(&mut self, timestamp: u64)
        requires
            old(self).wf(),
        ensures
            final(self).wf(),
            exists|forces: Seq<int>|
                forces_fit(old(self)@.particles, forces) && final(self)@ == old(self)@.after_tick(
                    timestamp,
                    forces,
                ),
            !old(self)@.beats(timestamp) ==> final(self)@ == old(self)@.after_tick(
                timestamp,
                Seq::empty(),
            ),
    {
        let ghost start = self@;
        let settled: bool = match self.phase {
            Phase::Initializing | Phase::Reforming => {
                let near: usize = self.count_in_position();
                has_quorum(near, self.particles.len())
            },
            _ => false,
        };
        let due: bool = is_beat_due(self.heart_rate, self.last_beat, timestamp);
        let over: bool = is_burst_over(self.last_beat, timestamp);
        let beat: bool = match self.phase {
            Phase::Formed => due,
            _ => false,
        };
        let next: Phase = self.phase.next(settled, due, over);
        assert(next == start.next_phase(timestamp));
        assert(beat == start.beats(timestamp));
        self.phase = next;
        let ghost mut forces: Seq<int> = least_forces(start.particles);
        if beat {
            proof {
                forces = Seq::empty();
            }
            let mut i: usize = 0;
            while i < self.particles.len()
                invariant
                    i <= self.particles.len(),
                    self@.particles.len() == start.particles.len(),
                    all_wf(self@.particles),
                    all_wf(start.particles),
                    forces.len() == i,
                    forall|j: int|
                        0 <= j < i ==> (#[trigger] start.particles[j]).force_fits(forces[j])
                            && self@.particles[j] == start.particles[j].launched(forces[j]),
                    forall|j: int|
                        i <= j < self@.particles.len() ==> #[trigger] self@.particles[j]
                            == start.particles[j],
                    self.phase == next,
                    self.heart_rate == start.heart_rate,
                    self.last_beat == start.last_beat,
                decreases self.particles.len() - i,
            {
                let mut p: Particle = self.particles[i];
                p.explode(&mut self.rng);
                self.particles[i] = p;
                proof {
                    let before = start.particles[i as int];
                    let force = choose|force: int|
                        before.force_fits(force) && p == #[trigger] before.launched(force);
                    forces = forces.push(force);
                }
                i += 1;
            }
            self.last_beat = timestamp;
        }
        let ghost thrown = self@.particles;
        let mut i: usize = 0;
        while i < self.particles.len()
            invariant
                i <= self.particles.len(),
                self@.particles.len() == thrown.len(),
                all_wf(self@.particles),
                all_wf(thrown),
                forall|j: int|
                    0 <= j < i ==> #[trigger] self@.particles[j] == thrown[j].stepped(next),
                forall|j: int|
                    i <= j < self@.particles.len() ==> #[trigger] self@.particles[j] == thrown[j],
                self.phase == next,
                self.heart_rate == start.heart_rate,
                self.last_beat == (if beat {
                    timestamp
                } else {
                    start.last_beat
                }),
            decreases self.particles.len() - i,
        {
            let mut p: Particle = self.particles[i];
            p.update(next);
            self.particles[i] = p;
            i += 1;
        }
        proof {
            assert(forces_fit(start.particles, forces));
            assert(self@.particles =~= start.after_tick(timestamp, forces).particles);
            assert(self@ == start.after_tick(timestamp, forces));
            if !beat {
                assert(self@.particles =~= start.after_tick(timestamp, Seq::empty()).particles);
            }
        }
    }

    /// What the renderer draws: one vertex for each particle, in their
    /// order, made anew at every call.
    pub fn render(&self) -> (vertices: Vec<Vertex>)
        ensures
            vertices@ == rendered(self@.particles),
    {
        let mut vertices: Vec<Vertex> = Vec::with_capacity(self.particles.len());
        let mut i: usize = 0;
        while i < self.particles.len()
            invariant
                i <= self.particles.len(),
                vertices@ == rendered(self@.particles.take(i as int)),
            decreases self.particles.len() - i,
        {
            let p: Particle = self.particles[i];
            vertices.push(
                Vertex {
                    x: p.x,
                    y: p.y,
                    red: ACCENT_RED,
                    green: ACCENT_GREEN,
                    blue: ACCENT_BLUE,
                    alpha: p.alpha,
                    size: p.size,
                },
            );
            i += 1;
            assert(vertices@ =~= rendered(self@.particles.take(i as int)));
        }
        assert(self@.particles.take(i as int) == self@.particles);
        vertices
    }
}

} // verus!
