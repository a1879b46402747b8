//! Satellite visibility prediction over scaled-integer arithmetic.
//!
//! The crate converts calendar timestamps to a J2000 day count, builds the
//! inertial-to-rotating-frame rotation, converts between geodetic and
//! rectangular coordinates, models the sun's direction, tests for eclipse,
//! and classifies instants of a propagated orbit as visible or not for a
//! fixed ground observer. Every real-valued quantity is carried as an
//! integer times a power-of-ten scale, so that each function has an exact
//! verified contract.
pub mod eclipse;
pub mod fixed;
pub mod geodetic;
pub mod rotation;
pub mod search;
pub mod sun;
pub mod time;
pub mod topo;
pub mod trig;
pub mod vec3;
pub mod visibility;
pub mod zhu;
