use vstd::prelude::*;

verus! {

/// Most damaging projectiles that may be in flight before firing pauses.
pub const MAX_BULLETS: usize = 100;

/// Whether another shuriken or missile may be fired while `in_flight` are
/// already out.
pub fn may_fire(in_flight: usize) -> (r: bool)
    ensures
        r == (in_flight <= MAX_BULLETS),
{
    in_flight <= MAX_BULLETS
}

/// Whether a grenade may be thrown while `in_flight` damaging projectiles
/// are out: only when none is.
pub fn may_throw_granade(in_flight: usize) -> (r: bool)
    ensures
        r == (in_flight == 0),
{
    in_flight == 0
}

/// Shuriken thrown per shot: one, plus one more for every five levels.
pub fn bullets_per_shot(level: i32) -> (r: i32)
    requires
        level >= 0,
    ensures
        r == level / 5 + 1,
        r >= 1,
{
    level / 5 + 1
}

} // verus!
