//! A particle heart: a cloud of points that gathers into a heart shape,
//! rests, bursts on every beat and gathers again.
//!
//! All quantities are integers. Lengths are counted in thousandths of a
//! shape unit, time in thousandths of a time unit, and fractions in parts
//! per million, so every rule of the animation is exact arithmetic whose
//! outcome is stated in the contracts and proved. Quotients drop their
//! fractional part, and the world ends where a coordinate no longer fits
//! in 32 bits: a particle that flies that far stops at the edge.
//!
//! The modules, leaves first: `units` and `trig` hold the arithmetic,
//! `random` the random source, `phase` the transition table, `particle`
//! the rules of one particle, `shape` the heart's curve and region,
//! `field` the generator that builds the shape, `animation` the step
//! that advances the whole, and `laws` what holds of all of it.

pub mod units;
pub mod random;
pub mod trig;
pub mod phase;
pub mod particle;
pub mod shape;
pub mod field;
pub mod animation;
pub mod laws;
