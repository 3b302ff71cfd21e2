//! Turns flattened vector paths into a looped, interleaved X/Y sample stream
//! for driving an XY display from a two-channel audio signal.
//!
//! All geometry is fixed point: one canonical unit of distance is [`UNIT`]
//! ticks, and the canonical display range is [`CANONICAL_SPAN`] ticks wide.

use vstd::prelude::*;

pub mod arith;
pub mod geom;
pub mod sampler;
pub mod normalize;
pub mod stream;
pub mod path;
pub mod waypoints;
pub mod synth;

verus! {

/// Ticks per canonical unit of distance.
pub const UNIT: i64 = 1048576;

/// Width of the canonical display range (two units, from -1 to 1).
pub const CANONICAL_SPAN: i64 = 2097152;

/// Largest magnitude that a coordinate may take, in ticks.
pub const COORD_LIMIT: i64 = 1099511627776;

/// Fixed-point one for progress and easing values.
pub const EASE_ONE: u64 = 1073741824;

/// Microseconds per second: dwell and transit times are given in microseconds.
pub const MICROS_PER_SECOND: u64 = 1000000;

/// Why a synthesis run failed.
#[derive(Clone, Copy, Debug, PartialEq, Eq, Structural)]
pub enum SynthError {
    /// A degenerate view box, or a parameter or coordinate out of range.
    ConfigurationError,
    /// A curved or otherwise non-line event reached the waypoint accumulator.
    UnsupportedGeometryError,
    /// There were no points at all.
    EmptyGeometryError,
    /// All points coincide, so no scale can be derived.
    DegenerateGeometryError,
}

/// Timing parameters of a synthesis run.
#[derive(Clone, Copy, Debug, PartialEq, Eq, Structural)]
pub struct SynthConfig {
    /// Samples per second.
    pub sample_rate: u32,
    /// Microseconds spent per canonical unit of length when drawing a stroke.
    pub dwell_us: u32,
    /// Microseconds spent per canonical unit of length when jumping between subpaths.
    pub transit_us: u32,
    /// Order of the easing curve used for jumps.
    pub easing_order: u32,
    /// How many times the drawing is repeated in the sample stream.
    pub loops: u32,
}

impl SynthConfig {
    /// The standard settings: 44.1 kHz, 0.01 s per unit
    /// when drawing, 0.0005 s per unit when jumping, easing order 10, ten loops.
    pub fn standard() -> (r: SynthConfig)
        ensures
            r.sample_rate == 44100,
            r.dwell_us == 10000,
            r.transit_us == 500,
            r.easing_order == 10,
            r.loops == 10,
    {
        SynthConfig { sample_rate: 44100, dwell_us: 10000, transit_us: 500, easing_order: 10, loops: 10 }
    }
}

} // verus!
