//! The heart: its outline curve, the region that takes interior points,
//! and the spacing rule between points.

use crate::particle::Particle;
use crate::trig::{cosine, lemma_sine_range, sine, TURN};
use crate::units::{div_toward_zero, MILLION};
use vstd::prelude::*;

verus! {

/// The outline has this many samples, evenly spread over one turn.
pub const OUTLINE_COUNT: u32 = 63;

/// The angle between two neighbouring samples of the outline.
pub const OUTLINE_STEP: u32 = 1000;

/// The curve is drawn at this many times its natural size.
pub const SHAPE_SCALE: i32 = 8;

/// The least distance between an interior point and every point placed
/// before it: twelve units.
pub const SPACING: i32 = 12_000;

/// The least distance for the points added near the lower tip: eight
/// tenths of `SPACING`.
pub const TIP_SPACING: i32 = 9_600;

/// The horizontal coordinate `16 sin^3 t` of the curve at its natural
/// size, in thousandths.
pub open spec fn heart_x(t: int) -> int {
    let s = sine(t);
    div_toward_zero(16 * (s * s * s), 1_000_000_000_000_000)
}

/// The vertical coordinate `13 cos t - 5 cos 2t - 2 cos 3t - cos 4t` of
/// the curve at its natural size, in thousandths, counted upward.
pub open spec fn heart_y(t: int) -> int {
    div_toward_zero(
        13 * cosine(t) - 5 * cosine(2 * t) - 2 * cosine(3 * t) - cosine(4 * t),
        1000,
    )
}

/// The horizontal place of the outline's sample at angle `t`.
pub open spec fn outline_x(t: int) -> int {
    heart_x(t) * SHAPE_SCALE
}

/// The vertical place of the outline's sample at angle `t`, counted
/// downward as on a canvas.
pub open spec fn outline_y(t: int) -> int {
    -heart_y(t) * SHAPE_SCALE
}

/// A length shrunk to `scale` parts per million of itself.
pub open spec fn shrunk(length: int, scale: int) -> int {
    div_toward_zero(length * scale, MILLION as int)
}

/// Whether the point lies in the region that takes interior points:
/// `(y/8)^2 < (4 - (x/8)^2) (1 - (x/8)^2)`, cleared of its fractions.
pub open spec fn inside_heart(x: int, y: int) -> bool {
    64_000_000 * (y * y) < (256_000_000 - x * x) * (64_000_000 - x * x)
}

/// Whether two points lie at least `spacing` apart.
pub open spec fn apart(ax: int, ay: int, bx: int, by: int, spacing: int) -> bool {
    (ax - bx) * (ax - bx) + (ay - by) * (ay - by) >= spacing * spacing
}

/// Whether the point lies at least `spacing` from the target of every
/// particle of `ps`.
pub open spec fn clear_of(ps: Seq<Particle>, x: int, y: int, spacing: int) -> bool {
    forall|i: int|
        0 <= i < ps.len() ==> apart(
            x,
            y,
            (#[trigger] ps[i]).target_x as int,
            ps[i].target_y as int,
            spacing,
        )
}

/// The curve at its natural size stays within sixteen units sideways.
pub proof fn lemma_heart_x_range(t: int)
    ensures
        -16_000 <= heart_x(t) <= 16_000,
{
    lemma_sine_range(t);
    let s = sine(t);
    let m: int = MILLION as int;
    assert(-(m * m * m) <= s * s * s <= m * m * m) by (nonlinear_arith)
        requires
            -m <= s <= m,
            m >= 0,
    ;
    assert(m * m * m == 1_000_000_000_000_000_000) by (nonlinear_arith)
        requires
            m == 1_000_000,
    ;
}

/// The sine and the cosine of an angle depend only on where in the turn
/// it falls.
pub proof fn lemma_turns_agree(a: int, b: int)
    requires
        a % (TURN as int) == b % (TURN as int),
    ensures
        sine(a) == sine(b),
        cosine(a) == cosine(b),
{
    vstd::arithmetic::div_mod::lemma_add_mod_noop(a, 15_750, TURN as int);
    vstd::arithmetic::div_mod::lemma_add_mod_noop(b, 15_750, TURN as int);
}

/// A multiple of an angle falls where the same multiple of its place in
/// the turn falls.
pub proof fn lemma_multiple_agrees(k: int, t: int)
    ensures
        cosine(k * (t % (TURN as int))) == cosine(k * t),
{
    vstd::arithmetic::div_mod::lemma_mul_mod_noop_right(k, t, TURN as int);
    lemma_turns_agree(k * (t % (TURN as int)), k * t);
}

/// The curve at its natural size stays within twenty-one units up and
/// down.
pub proof fn lemma_heart_y_range(t: int)
    ensures
        -21_000 <= heart_y(t) <= 21_000,
{
    lemma_sine_range(t + 15_750);
    lemma_sine_range(2 * t + 15_750);
    lemma_sine_range(3 * t + 15_750);
    lemma_sine_range(4 * t + 15_750);
}

/// Shrinks a length to `scale` parts per million of itself.
pub fn shrink(length: i32, scale: i32) -> (short: i32)
    requires
        0 <= scale <= MILLION,
    ensures
        short == shrunk(length as int, scale as int),
{
    let l: i64 = length as i64;
    let sc: i64 = scale as i64;
    proof {
        crate::particle::lemma_approach_between(0, length as int, scale as int);
        assert(-0x8000_0000 * 1_000_000 <= l * sc <= 0x8000_0000 * 1_000_000) by (nonlinear_arith)
            requires
                -0x8000_0000 <= l <= 0x8000_0000,
                0 <= sc <= 1_000_000,
        ;
    }
    ((l * sc) / MILLION) as i32
}

/// Tests whether two points lie at least `spacing` apart.
pub fn is_apart(ax: i32, ay: i32, bx: i32, by: i32, spacing: i32) -> (far: bool)
    ensures
        far == apart(ax as int, ay as int, bx as int, by as int, spacing as int),
{
    let dx: i128 = ax as i128 - bx as i128;
    let dy: i128 = ay as i128 - by as i128;
    let sp: i128 = spacing as i128;
    assert(0 <= dx * dx <= 0x1_0000_0000_0000_0000) by (nonlinear_arith)
        requires
            -0x1_0000_0000 <= dx <= 0x1_0000_0000,
    ;
    assert(0 <= dy * dy <= 0x1_0000_0000_0000_0000) by (nonlinear_arith)
        requires
            -0x1_0000_0000 <= dy <= 0x1_0000_0000,
    ;
    assert(0 <= sp * sp <= 0x1_0000_0000_0000_0000) by (nonlinear_arith)
        requires
            -0x1_0000_0000 <= sp <= 0x1_0000_0000,
    ;
    dx * dx + dy * dy >= sp * sp
}

/// Tests whether a point keeps `spacing` from the target of every
/// particle placed so far.
pub fn is_clear(ps: &Vec<Particle>, x: i32, y: i32, spacing: i32) -> (clear: bool)
    ensures
        clear == clear_of(ps@, x as int, y as int, spacing as int),
{
    let mut i: usize = 0;
    while i < ps.len()
        invariant
            i <= ps.len(),
            clear_of(ps@.take(i as int), x as int, y as int, spacing as int),
        decreases ps.len() - i,
    {
        if !is_apart(x, y, ps[i].target_x, ps[i].target_y, spacing) {
            return false;
        }
        i += 1;
        assert forall|k: int| 0 <= k < ps@.take(i as int).len() implies apart(
            x as int,
            y as int,
            (#[trigger] ps@.take(i as int)[k]).target_x as int,
            ps@.take(i as int)[k].target_y as int,
            spacing as int,
        ) by {
            if k < i - 1 {
                assert(ps@.take(i as int)[k] == ps@.take(i - 1)[k]);
            }
        }
    }
    assert(ps@.take(i as int) == ps@);
    true
}

} // verus!
