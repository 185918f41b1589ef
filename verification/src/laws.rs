//! What holds of the generator and of the animation as a whole.

use crate::animation::{count_near, forces_fit, settled, AnimationState};
use crate::field::{generated, in_tip_band};
use crate::particle::{
    lemma_easing_gains, lemma_launch_keeps_wf, lemma_step_keeps_wf, offset, Particle, ALPHA_FLOOR,
    ALPHA_FULL,
};
use crate::phase::{Phase, BEAT_SPAN, BURST_TIME};
use crate::shape::{apart, inside_heart, outline_x, outline_y, OUTLINE_COUNT, SPACING, TIP_SPACING};
use crate::trig::lemma_sine_at_quarters;
use vstd::prelude::*;

verus! {

/// Every interior particle that the generator places has its target in
/// the heart.
pub proof fn lemma_fill_lies_inside(before: Seq<Particle>, after: Seq<Particle>, tip: int, j: int)
    requires
        generated(before, after, tip),
        before.len() + OUTLINE_COUNT <= j < after.len(),
    ensures
        !after[j].is_outline,
        inside_heart(after[j].target_x as int, after[j].target_y as int),
{
}

/// Every interior particle that the generator places keeps its distance
/// from every particle placed before it, outline or interior: `SPACING`
/// if it was placed on a shrunk copy of the curve, `TIP_SPACING` if it was
/// placed near the lower tip.
pub proof fn lemma_fill_keeps_spacing(
    before: Seq<Particle>,
    after: Seq<Particle>,
    tip: int,
    i: int,
    j: int,
)
    requires
        generated(before, after, tip),
        0 <= i < j < after.len(),
        before.len() + OUTLINE_COUNT <= j,
    ensures
        apart(
            after[j].target_x as int,
            after[j].target_y as int,
            after[i].target_x as int,
            after[i].target_y as int,
            if j < tip {
                SPACING as int
            } else {
                TIP_SPACING as int
            },
        ),
{
    assert(after.take(j)[i] == after[i]);
}

/// The region that takes interior points does not hold the whole
/// outline: the sample at the cleft, where the curve begins, lies
/// outside it.
pub proof fn lemma_cleft_lies_outside()
    ensures
        outline_x(0) == 0,
        outline_y(0) == -40_000,
        !inside_heart(outline_x(0), outline_y(0)),
{
    lemma_sine_at_quarters();
    assert(crate::trig::sine(0) * crate::trig::sine(0) * crate::trig::sine(0) == 0);
    assert(crate::shape::heart_x(0) == 0);
    assert(crate::shape::heart_y(0) == 5_000);
    assert(40_000int * 40_000int == 1_600_000_000);
}

/// No point of the band near the lower tip lies in the region that takes
/// interior points: the band lies ten units and more below it.
pub proof fn lemma_tip_band_lies_outside(x: int, y: int)
    requires
        in_tip_band(x, y),
    ensures
        !inside_heart(x, y),
{
    let u = x * x;
    assert(0 <= u <= 100_000_000) by (nonlinear_arith)
        requires
            u == x * x,
            -10_000 <= x <= 10_000,
    ;
    assert(y * y >= 6_400_000_000) by (nonlinear_arith)
        requires
            y >= 80_000,
    ;
    assert((256_000_000 - u) * (64_000_000 - u) <= 16_384_000_000_000_000) by (nonlinear_arith)
        requires
            0 <= u <= 100_000_000,
    ;
}

/// The points tried near the lower tip therefore add nothing: every
/// interior particle that the generator places lies on a shrunk copy of
/// the curve and keeps the full `SPACING`.
pub proof fn lemma_tip_adds_nothing(before: Seq<Particle>, after: Seq<Particle>, tip: int)
    requires
        generated(before, after, tip),
    ensures
        tip == after.len(),
{
    if tip < after.len() {
        let p = after[tip];
        lemma_tip_band_lies_outside(p.target_x as int, p.target_y as int);
    }
}

/// A step changes the phase only along the four arrows of the table, and
/// each timed arrow only when its time has come: the heart bursts only
/// after resting for longer than the beat interval, and gathers again
/// only after the burst has lasted longer than `BURST_TIME`.
pub proof fn lemma_transition_guard(s: AnimationState, now: u64, forces: Seq<int>)
    ensures
        ({
            let t = s.after_tick(now, forces);
            &&& s.phase == Phase::Formed && t.phase != Phase::Formed ==> t.phase == Phase::Exploding
                && (now - s.last_beat) * s.heart_rate > BEAT_SPAN && t.last_beat == now
            &&& s.phase == Phase::Exploding && t.phase != Phase::Exploding ==> t.phase
                == Phase::Reforming && now - s.last_beat > BURST_TIME
            &&& s.phase == Phase::Initializing && t.phase != Phase::Initializing ==> t.phase
                == Phase::Formed && settled(s.particles)
            &&& s.phase == Phase::Reforming && t.phase != Phase::Reforming ==> t.phase
                == Phase::Formed && settled(s.particles)
            &&& t.phase != Phase::Exploding || s.phase != Phase::Formed ==> t.last_beat
                == s.last_beat
        }),
{
}

/// A step keeps every particle well formed, whatever the timestamp: in
/// particular every opacity stays between `ALPHA_FLOOR` and
/// `ALPHA_FULL`. It changes neither the number of the particles nor
/// their targets nor their kinds.
pub proof fn lemma_tick_keeps_wf(s: AnimationState, now: u64, forces: Seq<int>)
    requires
        s.wf(),
        forces_fit(s.particles, forces),
    ensures
        s.after_tick(now, forces).wf(),
        s.after_tick(now, forces).particles.len() == s.particles.len(),
        s.after_tick(now, forces).heart_rate == s.heart_rate,
        forall|i: int|
            0 <= i < s.particles.len() ==> {
                let p = #[trigger] s.after_tick(now, forces).particles[i];
                &&& ALPHA_FLOOR <= p.alpha <= ALPHA_FULL
                &&& p.target_x == s.particles[i].target_x
                &&& p.target_y == s.particles[i].target_y
                &&& p.is_outline == s.particles[i].is_outline
            },
{
    let t = s.after_tick(now, forces);
    let phase = s.next_phase(now);
    assert forall|i: int| 0 <= i < s.particles.len() implies {
        let p = #[trigger] t.particles[i];
        &&& p.wf()
        &&& p.target_x == s.particles[i].target_x
        &&& p.target_y == s.particles[i].target_y
        &&& p.is_outline == s.particles[i].is_outline
    } by {
        let p = s.particles[i];
        assert(p.wf());
        if s.beats(now) {
            assert(p.force_fits(forces[i]));
            lemma_launch_keeps_wf(p, forces[i]);
            lemma_step_keeps_wf(p.launched(forces[i]), phase);
        } else {
            lemma_step_keeps_wf(p, phase);
        }
    }
}

/// The state after the first `n` of the steps at `times`, where the
/// step numbered `i` draws the forces `forces[i]` if it is a beat.
pub open spec fn state_at(s: AnimationState, times: Seq<u64>, forces: Seq<Seq<int>>, n: nat)
    -> AnimationState
    decreases n,
{
    if n == 0 {
        s
    } else {
        state_at(s, times, forces, (n - 1) as nat).after_tick(times[n - 1], forces[n - 1])
    }
}

/// Whether the clock advances: no timestamp lies before the last beat,
/// and each is later than the one before it.
pub open spec fn clock_advances(last_beat: u64, times: Seq<u64>) -> bool {
    &&& forall|i: int| 0 <= i < times.len() ==> last_beat <= #[trigger] times[i]
    &&& forall|i: int, j: int| 0 <= i < j < times.len() ==> #[trigger] times[i] < #[trigger] times[j]
}

/// Whether the forces drawn at each step fit the particles of that
/// step, as the forces that `update` draws do.
pub open spec fn forces_fit_along(s: AnimationState, times: Seq<u64>, forces: Seq<Seq<int>>) -> bool {
    &&& forces.len() == times.len()
    &&& forall|i: nat|
        i < times.len() ==> forces_fit(
            (#[trigger] state_at(s, times, forces, i)).particles,
            forces[i as int],
        )
}

/// Whether one of the states up to the one after `limit` steps is in
/// `phase`.
pub open spec fn reaches(
    s: AnimationState,
    times: Seq<u64>,
    forces: Seq<Seq<int>>,
    phase: Phase,
    limit: nat,
) -> bool {
    exists|n: nat| n <= limit && (#[trigger] state_at(s, times, forces, n)).phase == phase
}

/// The steps of easing after which every particle is near its target,
/// wherever in the world it began.
pub open spec fn easing_steps() -> nat {
    306_783_379
}

/// The steps after which a burst is over, when the clock advances.
pub open spec fn burst_steps() -> nat {
    333_402
}

/// Steps enough to see the heart formed, from any state.
pub open spec fn enough_steps() -> nat {
    burst_steps() + easing_steps() + 1
}

/// Steps keep the state well formed.
pub proof fn lemma_run_keeps_wf(s: AnimationState, times: Seq<u64>, forces: Seq<Seq<int>>, n: nat)
    requires
        s.wf(),
        forces_fit_along(s, times, forces),
        n <= times.len(),
    ensures
        state_at(s, times, forces, n).wf(),
        state_at(s, times, forces, n).particles.len() == s.particles.len(),
    decreases n,
{
    if n > 0 {
        let m = (n - 1) as nat;
        lemma_run_keeps_wf(s, times, forces, m);
        lemma_tick_keeps_wf(state_at(s, times, forces, m), times[n - 1], forces[n - 1]);
    }
}

/// When every particle is near its target, the quorum is met.
pub proof fn lemma_all_near_is_settled(ps: Seq<Particle>)
    requires
        forall|i: int| 0 <= i < ps.len() ==> (#[trigger] ps[i]).near_target(),
    ensures
        count_near(ps) == ps.len(),
        settled(ps),
    decreases ps.len(),
{
    if ps.len() > 0 {
        let front = ps.drop_last();
        assert forall|i: int| 0 <= i < front.len() implies (#[trigger] front[i]).near_target() by {
            assert(front[i] == ps[i]);
        }
        lemma_all_near_is_settled(front);
    }
}

/// While the heart first forms or reforms, either it is formed within
/// `k` more steps, or after them every particle is near its target or
/// has come `28 k` thousandths closer than the width of the world.
pub proof fn lemma_easing_run(
    s: AnimationState,
    times: Seq<u64>,
    forces: Seq<Seq<int>>,
    from: nat,
    k: nat,
)
    requires
        s.wf(),
        forces_fit_along(s, times, forces),
        from + k <= times.len(),
        state_at(s, times, forces, from).phase == Phase::Initializing || state_at(
            s,
            times,
            forces,
            from,
        ).phase == Phase::Reforming,
    ensures
        reaches(s, times, forces, Phase::Formed, from + k) || {
            let t = state_at(s, times, forces, from + k);
            &&& t.phase == state_at(s, times, forces, from).phase
            &&& forall|i: int|
                0 <= i < t.particles.len() ==> (#[trigger] t.particles[i]).near_target() || offset(
                    t.particles[i],
                ) <= 0x2_0000_0000 - 28 * k
        },
    decreases k,
{
    if k == 0 {
        let t = state_at(s, times, forces, from);
        assert forall|i: int| 0 <= i < t.particles.len() implies (
        #[trigger] t.particles[i]).near_target() || offset(t.particles[i]) <= 0x2_0000_0000 by {
        }
    } else {
        let j = (k - 1) as nat;
        lemma_easing_run(s, times, forces, from, j);
        if reaches(s, times, forces, Phase::Formed, from + j) {
            let n = choose|n: nat|
                n <= from + j && (#[trigger] state_at(s, times, forces, n)).phase == Phase::Formed;
            assert(n <= from + k);
        } else {
            let t = state_at(s, times, forces, from + j);
            let u = state_at(s, times, forces, from + k);
            assert(u == t.after_tick(times[from + k - 1], forces[from + k - 1]));
            lemma_run_keeps_wf(s, times, forces, from + j);
            if u.phase == Phase::Formed {
                assert(reaches(s, times, forces, Phase::Formed, from + k));
            } else {
                assert(u.phase == t.phase);
                assert forall|i: int| 0 <= i < u.particles.len() implies (
                #[trigger] u.particles[i]).near_target() || offset(u.particles[i]) <= 0x2_0000_0000
                    - 28 * k by {
                    let p = t.particles[i];
                    assert(p.wf());
                    assert(u.particles[i] == p.stepped(u.phase));
                    lemma_easing_gains(p, u.phase);
                }
            }
        }
    }
}

/// While the heart first forms or reforms, it is formed within
/// `easing_steps() + 1` more steps.
pub proof fn lemma_easing_ends(s: AnimationState, times: Seq<u64>, forces: Seq<Seq<int>>, from: nat)
    requires
        s.wf(),
        forces_fit_along(s, times, forces),
        from + easing_steps() + 1 <= times.len(),
        state_at(s, times, forces, from).phase == Phase::Initializing || state_at(
            s,
            times,
            forces,
            from,
        ).phase == Phase::Reforming,
    ensures
        reaches(s, times, forces, Phase::Formed, from + easing_steps() + 1),
{
    let k = easing_steps();
    lemma_easing_run(s, times, forces, from, k);
    if reaches(s, times, forces, Phase::Formed, from + k) {
        let n = choose|n: nat|
            n <= from + k && (#[trigger] state_at(s, times, forces, n)).phase == Phase::Formed;
        assert(n <= from + k + 1);
    } else {
        let t = state_at(s, times, forces, from + k);
        let u = state_at(s, times, forces, from + k + 1);
        assert(u == t.after_tick(times[from + k as int], forces[from + k as int]));
        assert forall|i: int| 0 <= i < t.particles.len() implies (
        #[trigger] t.particles[i]).near_target() by {
            assert(offset(t.particles[i]) >= 0);
            assert(0x2_0000_0000 - 28 * k < 0);
        }
        lemma_all_near_is_settled(t.particles);
        assert(u.phase == Phase::Formed);
    }
}

/// During a burst, either the heart begins to reform within `k` steps,
/// or after them the burst is still on and timed as before.
pub proof fn lemma_burst_run(s: AnimationState, times: Seq<u64>, forces: Seq<Seq<int>>, k: nat)
    requires
        s.phase == Phase::Exploding,
        k <= times.len(),
    ensures
        reaches(s, times, forces, Phase::Reforming, k) || {
            let t = state_at(s, times, forces, k);
            t.phase == Phase::Exploding && t.last_beat == s.last_beat
        },
    decreases k,
{
    if k > 0 {
        let j = (k - 1) as nat;
        lemma_burst_run(s, times, forces, j);
        if reaches(s, times, forces, Phase::Reforming, j) {
            let n = choose|n: nat|
                n <= j && (#[trigger] state_at(s, times, forces, n)).phase == Phase::Reforming;
            assert(n <= k);
        } else {
            let t = state_at(s, times, forces, j);
            let u = state_at(s, times, forces, k);
            assert(u == t.after_tick(times[k - 1], forces[k - 1]));
            if u.phase == Phase::Reforming {
                assert(reaches(s, times, forces, Phase::Reforming, k));
            }
        }
    }
}

/// A clock that advances has advanced by at least `i` at its `i`-th
/// timestamp.
pub proof fn lemma_clock_runs(last_beat: u64, times: Seq<u64>, i: nat)
    requires
        clock_advances(last_beat, times),
        i < times.len(),
    ensures
        times[i as int] >= last_beat + i,
    decreases i,
{
    if i > 0 {
        lemma_clock_runs(last_beat, times, (i - 1) as nat);
        assert(times[i - 1] < times[i as int]);
    }
}

/// From any state the heart is formed after enough steps of a clock that
/// advances: at once if it is formed already, after the easing if it
/// is forming or reforming, and after the burst and the easing that
/// follows if it has burst.
pub proof fn lemma_reaches_formed(s: AnimationState, times: Seq<u64>, forces: Seq<Seq<int>>)
    requires
        s.wf(),
        clock_advances(s.last_beat, times),
        forces_fit_along(s, times, forces),
        times.len() >= enough_steps(),
    ensures
        reaches(s, times, forces, Phase::Formed, enough_steps()),
{
    match s.phase {
        Phase::Formed => {
            assert(state_at(s, times, forces, 0).phase == Phase::Formed);
        },
        Phase::Initializing | Phase::Reforming => {
            assert(state_at(s, times, forces, 0) == s);
            lemma_easing_ends(s, times, forces, 0);
            let n = choose|n: nat|
                n <= easing_steps() + 1 && (#[trigger] state_at(s, times, forces, n)).phase
                    == Phase::Formed;
            assert(n <= enough_steps());
        },
        Phase::Exploding => {
            let k: nat = (burst_steps() - 1) as nat;
            lemma_burst_run(s, times, forces, k);
            if !reaches(s, times, forces, Phase::Reforming, k) {
                let t = state_at(s, times, forces, k);
                let u = state_at(s, times, forces, burst_steps());
                assert(u == t.after_tick(times[k as int], forces[k as int]));
                lemma_clock_runs(s.last_beat, times, k);
                assert(u.phase == Phase::Reforming);
            }
            let from = choose|n: nat|
                n <= burst_steps() && (#[trigger] state_at(s, times, forces, n)).phase
                    == Phase::Reforming;
            lemma_easing_ends(s, times, forces, from);
            let n = choose|n: nat|
                n <= from + easing_steps() + 1 && (#[trigger] state_at(s, times, forces, n)).phase
                    == Phase::Formed;
            assert(n <= enough_steps());
        },
    }
}

/// Whether two runs draw the same forces at every beat among their first
/// `n` steps.
pub open spec fn same_forces_at_beats(
    s: AnimationState,
    times: Seq<u64>,
    first: Seq<Seq<int>>,
    second: Seq<Seq<int>>,
    n: nat,
) -> bool {
    forall|i: nat|
        i < n && (#[trigger] state_at(s, times, first, i)).beats(times[i as int]) ==> first[i as int]
            == second[i as int]
}

/// Nothing about a step is left to chance but the forces drawn at a
/// beat: two runs from the same state, stepped at the same timestamps,
/// go through the same states if they draw the same forces at their
/// beats.
pub proof fn lemma_runs_agree(
    s: AnimationState,
    times: Seq<u64>,
    first: Seq<Seq<int>>,
    second: Seq<Seq<int>>,
    n: nat,
)
    requires
        n <= times.len(),
        same_forces_at_beats(s, times, first, second, n),
    ensures
        state_at(s, times, first, n) == state_at(s, times, second, n),
    decreases n,
{
    if n > 0 {
        let m = (n - 1) as nat;
        lemma_runs_agree(s, times, first, second, m);
        let t = state_at(s, times, first, m);
        let a = t.after_tick(times[n - 1], first[n - 1]);
        let b = t.after_tick(times[n - 1], second[n - 1]);
        assert(a.particles =~= b.particles);
    }
}

} // verus!
