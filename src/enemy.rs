use rand::Rng;
use vstd::prelude::*;

verus! {

/// Most enemies that may be on the field before spawning pauses.
pub const MAX_ENEMIES: usize = 50;

/// Whether another enemy may spawn while `enemy_count` are on the field.
pub fn may_spawn(enemy_count: usize) -> (r: bool)
    ensures
        r == (enemy_count <= MAX_ENEMIES),
{
    enemy_count <= MAX_ENEMIES
}

/// Relies on rand's `Rng::gen_range` over a half-open integer range, drawing
/// from `rand::thread_rng`: a value in `[low, high)`. It panics on an empty
/// range, which `requires` rules out.
#[verifier::external_body]
fn random_between(low: i32, high: i32) -> (r: i32)
    requires
        low < high,
    ensures
        low <= r < high,
{
    rand::thread_rng().gen_range(low..high)
}

/// A level for a new enemy, drawn at random from one below the player's
/// level up to two above it.
pub fn new_enemy_level(player_level: i32) -> (r: i32)
    requires
        i32::MIN < player_level <= i32::MAX - 3,
    ensures
        player_level - 1 <= r < player_level + 3,
{
    random_between(player_level - 1, player_level + 3)
}

} // verus!
