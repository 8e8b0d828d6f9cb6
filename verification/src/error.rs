//! Error conditions the scoring pipeline can surface.

use vstd::prelude::*;

verus! {

/// A failure surfaced to the caller. The pipeline's own computations are
/// total; only a request that presupposes a single game can be refused.
#[derive(Debug)]
pub enum Error {
    /// A single-game operation found zero or several distinct game ids;
    /// the list carries every distinct id seen, in first-appearance order.
    NotASingleGame(Vec<String>),
}

} // verus!
