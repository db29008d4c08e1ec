//! Inhabitants of the one-dimensional world: a validated position and height.

use vstd::prelude::*;

use crate::error::InputError;

verus! {

/// Lowest admissible position on the ground line.
pub const MIN_X: i32 = 0;

/// Highest admissible position on the ground line.
pub const MAX_X: i32 = 300_000;

/// Lowest admissible height; an inhabitant is never flat on the ground.
pub const MIN_H: u32 = 1;

/// Highest admissible height.
pub const MAX_H: u32 = 1000;

/// An inhabitant of the flat world: an immutable, validated pair of a
/// horizontal position and a strictly positive height.
#[derive(Debug, Clone, Copy)]
pub struct Flatlander {
    x: i32,
    hight: u32,
}

impl Flatlander {
    /// The stored position, as a mathematical integer.
    pub closed spec fn pos(self) -> int {
        self.x as int
    }

    /// The stored height, as a mathematical integer.
    pub closed spec fn hight_spec(self) -> int {
        self.hight as int
    }

    /// Both fields lie inside their declared bounds. Construction enforces
    /// this, so every value handed out by `new` satisfies it.
    pub open spec fn wf(self) -> bool {
        &&& MIN_X <= self.pos() <= MAX_X
        &&& MIN_H <= self.hight_spec() <= MAX_H
    }

    /// Creates an inhabitant, accepting exactly the positions in
    /// `[MIN_X, MAX_X]` and the heights in `[MIN_H, MAX_H]`; any other
    /// input is rejected with `OutOfRange` and nothing is constructed.
    pub fn new(x: i32, hight: u32) -> (r: Result<Self, InputError>)
        ensures
            r is Ok <==> (MIN_X <= x <= MAX_X && MIN_H <= hight <= MAX_H),
            r matches Ok(f) ==> f.pos() == x && f.hight_spec() == hight && f.wf(),
            r matches Err(e) ==> e == InputError::OutOfRange,
    {
        if x < MIN_X || x > MAX_X {
            return Err(InputError::OutOfRange);
        }
        if hight < MIN_H || hight > MAX_H {
            return Err(InputError::OutOfRange);
        }
        Ok(Self { x, hight })
    }

    /// Returns exactly the position stored at construction.
    pub fn get_pos(&self) -> (r: i32)
        ensures
            r == self.pos(),
    {
        self.x
    }

    /// Returns exactly the height stored at construction.
    pub fn get_hight(&self) -> (r: u32)
        ensures
            r == self.hight_spec(),
    {
        self.hight
    }
}

} // verus!
