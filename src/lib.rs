//! Sunset-anchored prayer-time schedules.
//!
//! The library turns a location's civil time zone, a reading of a clock and the
//! sunset instant of each calendar day into an ordered list of calendar events.
//! Sunset and time-zone lookups over coordinates are left to the caller.

pub mod mincha_minder;
pub mod web;
