//! Fantasy-football stat aggregation and scoring.
//!
//! The crate turns a batch of play-by-play records into per-player fantasy
//! point totals. Plays are bucketed into six statistical categories
//! (passing, receiving, rushing, fumbling, kicking, returning), the six
//! category tables are merged into one row per (game, team, player), and a
//! configurable linear formula with threshold bonuses turns each merged row
//! into a point total. Points are exact fixed-point values in hundredths of
//! a point (centipoints), so `18.4` points is the integer `1840`.

use vstd::prelude::*;

pub mod error;
pub mod filter;
pub mod laws;
pub mod merge;
pub mod pbp;
pub mod play;
pub mod roster;
pub mod scoring;
pub mod stats;

verus! {

/// Largest yardage magnitude a single play may carry (well-formed input).
pub const MAX_PLAY_YARDS: i64 = 1_000;

/// Largest number of plays a single invocation processes; keeps every
/// 64-bit sum in the pipeline far from overflow.
pub const MAX_PLAYS: usize = 100_000;

/// Bound on any summed yardage counter: `MAX_PLAYS * MAX_PLAY_YARDS`.
pub const MAX_YARD_STAT: i64 = 100_000_000;

/// Bound on any summed event counter: `MAX_PLAYS`.
pub const MAX_COUNT_STAT: i64 = 100_000;

/// Bound on the magnitude of a scoring coefficient, in centipoints.
pub const MAX_COEFFICIENT: i64 = 100_000;

/// Bound on the magnitude of one row's fantasy points, in centipoints.
pub const MAX_ROW_POINTS: i64 = 1_000_000_000_000;

/// Largest number of stat rows a scoring aggregation accepts.
pub const MAX_SCORED_ROWS: usize = 1_000_000;

/// Fantasy-relevant roster positions. `Flex` stands for any of `Rb`, `Wr`
/// and `Te`.
#[derive(Clone, Copy, Debug, PartialEq, Eq, Structural)]
pub enum Position {
    Qb,
    Rb,
    Wr,
    Te,
    Flex,
    K,
}

} // verus!
