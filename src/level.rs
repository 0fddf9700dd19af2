use vstd::prelude::*;

verus! {

/// A player's level and the experience needed to pass it.
#[derive(Debug, Copy, Clone, Default, PartialEq, Eq, Structural)]
pub struct Level {
    pub value: i32,
    pub exp_max: i32,
}

} // verus!
