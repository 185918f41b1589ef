//! The four phases of the animation and the table that moves between
//! them.

use vstd::prelude::*;

verus! {

/// What the whole cloud is doing. Exactly one phase holds at any time,
/// and every particle moves by its rule.
#[derive(Clone, Copy, Debug, PartialEq, Eq, Structural)]
pub enum Phase {
    /// The particles drift in from the ring on which they were scattered.
    Initializing,
    /// The heart is at rest.
    Formed,
    /// The heart has burst and the particles fly apart.
    Exploding,
    /// The particles return to their targets.
    Reforming,
}

/// How long a burst lasts: twenty frames of 16.67 time units, in
/// thousandths.
pub const BURST_TIME: u64 = 333_400;

/// The rest before a beat, multiplied by the heart rate: 3600 time units,
/// in thousandths.
pub const BEAT_SPAN: u64 = 3_600_000;

/// Whether `near` out of `total` particles are enough for the heart to
/// count as formed: at least ninety-five in a hundred.
pub open spec fn quorum(near: int, total: int) -> bool {
    near * 100 >= total * 95
}

/// Whether the rest since `last_beat` has outlasted the beat interval
/// `3600 / heart_rate`. The division is multiplied out, so a heart rate of
/// zero never beats.
pub open spec fn beat_due(heart_rate: int, last_beat: int, now: int) -> bool {
    (now - last_beat) * heart_rate > BEAT_SPAN
}

/// Whether the burst that began at `last_beat` has run its time.
pub open spec fn burst_over(last_beat: int, now: int) -> bool {
    now - last_beat > BURST_TIME
}

/// The transition table: the phase that follows `phase` when `settled`
/// says whether the quorum is near its targets, `due` whether a beat is
/// due and `over` whether the burst has run its time.
pub open spec fn successor(phase: Phase, settled: bool, due: bool, over: bool) -> Phase {
    match phase {
        Phase::Initializing => if settled {
            Phase::Formed
        } else {
            Phase::Initializing
        },
        Phase::Formed => if due {
            Phase::Exploding
        } else {
            Phase::Formed
        },
        Phase::Exploding => if over {
            Phase::Reforming
        } else {
            Phase::Exploding
        },
        Phase::Reforming => if settled {
            Phase::Formed
        } else {
            Phase::Reforming
        },
    }
}

/// Tests whether `near` out of `total` particles make the quorum.
pub fn has_quorum(near: usize, total: usize) -> (enough: bool)
    ensures
        enough == quorum(near as int, total as int),
{
    let n: u128 = near as u128;
    let t: u128 = total as u128;
    n * 100 >= t * 95
}

/// Tests whether a beat is due at `now`.
pub fn is_beat_due(heart_rate: u32, last_beat: u64, now: u64) -> (due: bool)
    ensures
        due == beat_due(heart_rate as int, last_beat as int, now as int),
{
    if now <= last_beat {
        assert((now - last_beat) * heart_rate <= 0) by (nonlinear_arith)
            requires
                now - last_beat <= 0,
                heart_rate >= 0,
        ;
        false
    } else {
        let elapsed: u128 = (now - last_beat) as u128;
        let rate: u128 = heart_rate as u128;
        assert(elapsed * rate <= 0x1_0000_0000_0000_0000 * 0x1_0000_0000) by (nonlinear_arith)
            requires
                0 <= elapsed <= 0x1_0000_0000_0000_0000,
                0 <= rate <= 0x1_0000_0000,
        ;
        elapsed * rate > 3_600_000
    }
}

/// Tests whether the burst that began at `last_beat` is over at `now`.
pub fn is_burst_over(last_beat: u64, now: u64) -> (over: bool)
    ensures
        over == burst_over(last_beat as int, now as int),
{
    now > last_beat && now - last_beat > BURST_TIME
}

impl Phase {
    /// One row of the transition table.
    pub fn next(self, settled: bool, due: bool, over: bool) -> (after: Phase)
        ensures
            after == successor(self, settled, due, over),
    {
        match self {
            Phase::Initializing => if settled {
                Phase::Formed
            } else {
                Phase::Initializing
            },
            Phase::Formed => if due {
                Phase::Exploding
            } else {
                Phase::Formed
            },
            Phase::Exploding => if over {
                Phase::Reforming
            } else {
                Phase::Exploding
            },
            Phase::Reforming => if settled {
                Phase::Formed
            } else {
                Phase::Reforming
            },
        }
    }
}

} // verus!
