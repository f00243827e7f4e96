//! A position on the unsigned grid that movement works in.
use vstd::prelude::*;

verus! {

/// A position with non-negative coordinates.
#[derive(Clone, Copy, Debug, PartialEq, Eq, Structural)]
pub struct Position {
    pub x: u32,
    pub y: u32,
}

} // verus!
