//! Input-event statistics: a polling edge detector over device snapshots and
//! the aggregate stores it feeds, with their invariants proved.

pub mod edge;
pub mod freq;
pub mod stats;
pub mod tracker;

use vstd::prelude::*;

verus! {

/// An integer screen coordinate pair.
#[derive(Clone, Copy, PartialEq, Eq, Structural, Debug, Default)]
pub struct Position {
    pub x: i32,
    pub y: i32,
}

} // verus!
