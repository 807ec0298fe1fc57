//! A heuristic optimizer that assigns students to timetabled course sections
//! (morning, afternoon, or full-day) under per-section capacity limits,
//! trying to satisfy each student's ranked preferences.
//!
//! The search repeatedly randomizes the assignment order within priority
//! tiers, greedily fills sections, scores the result, and keeps the best
//! schedule seen.  A parallel variant runs several independent attempts and
//! keeps the global best.
//!
//! All satisfaction costs are measured in half-point units: a half-point is
//! one unpreferred morning or afternoon slot, and an unpreferred full-day
//! enrollment costs two half-points (one full point).

pub mod model;
pub mod scheduler;
pub mod shuffle;
pub mod parallel;
pub mod laws;
