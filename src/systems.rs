//! Movement on the unsigned grid.
use vstd::prelude::*;
use crate::components::Position;

verus! {

/// A coordinate moved by `d` and held at zero from below: the coordinate is
/// read as an `i32`, as its bits give it.
pub open spec fn moved(c: u32, d: i32) -> u32 {
    let m = (c as i32) + d;
    if m < 0 {
        0
    } else {
        m as u32
    }
}

/// Moves positions by a step.
pub struct MovementSystem;

impl MovementSystem {
    /// `pos` moved by (`dx`, `dy`), each coordinate held at zero from below.
    pub fn update(pos: &Position, dx: i32, dy: i32) -> (r: Position)
        requires
            i32::MIN <= (pos.x as i32) + dx <= i32::MAX,
            i32::MIN <= (pos.y as i32) + dy <= i32::MAX,
        ensures
            r == (Position { x: moved(pos.x, dx), y: moved(pos.y, dy) }),
    {
        Position { x: clamp_at_zero(pos.x as i32 + dx), y: clamp_at_zero(pos.y as i32 + dy) }
    }
}

fn clamp_at_zero(m: i32) -> (r: u32)
    ensures
        r == if m < 0 {
            0u32
        } else {
            m as u32
        },
{
    if m < 0 {
        0
    } else {
        m as u32
    }
}

} // verus!
