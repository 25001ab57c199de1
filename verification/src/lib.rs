//! Analysis of raid-combat death logs: restrict a fight's death events to the
//! tracked roster, order them deterministically, classify each against a
//! configured set of avoidable abilities, and fold the results across fights
//! and reports into stable per-player statistics.

pub mod aggregate;
pub mod config;
pub mod dates;
pub mod fetch_plan;
pub mod model;
pub mod ranker;
pub mod summary;
pub mod text;
