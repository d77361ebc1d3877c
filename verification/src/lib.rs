//! Bookkeeping for a Buddhabrot renderer: the pixel grid and its saturating
//! counters, the rules that decide when an orbit has escaped and which
//! colour channel a visited point feeds, and the order in which the seed
//! grid is scanned.
//!
//! The numeric work in the complex plane is done by the caller. Every
//! number that crosses into this crate is an integer: a grid coordinate, a
//! counter, or the bit pattern of an IEEE 754 double.

pub mod accumulate;
pub mod bounds;
pub mod classify;
pub mod double;
pub mod histogram;
pub mod orbit;
pub mod raster;
pub mod scan;
pub mod snapshot;
