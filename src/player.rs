use rand::seq::SliceRandom;
use vstd::prelude::*;

use crate::leaderboard::{board_after, Leaderboard, PlayerName, Score};
use crate::level::Level;

verus! {

/// Experience points, gained by hitting enemies.
#[derive(Debug, Copy, Clone, Default, PartialEq, Eq, Structural)]
pub struct Experience(pub i32);

/// Progress of the player character: its level and the experience gathered
/// towards the next one.
#[derive(Debug, Copy, Clone, PartialEq, Eq, Structural)]
pub struct Player {
    pub level: Level,
    pub exp: Experience,
}

/// Level a new player starts at.
pub const START_LEVEL: i32 = 1;

/// Experience needed to leave the starting level.
pub const START_EXP_MAX: i32 = 10;

/// How much more experience each further level needs.
pub const EXP_MAX_STEP: i32 = 5;

/// Whether adding `gain` to `p`'s experience fills the current level.
pub open spec fn levels_up(p: Player, gain: i32) -> bool {
    p.exp.0 + gain >= p.level.exp_max
}

/// `p` after adding `gain` experience: on filling the level, the next level
/// with experience back at zero; otherwise the same level with the sum.
pub open spec fn after_experience(p: Player, gain: i32) -> Player {
    if levels_up(p, gain) {
        Player {
            level: Level {
                value: (p.level.value + 1) as i32,
                exp_max: (p.level.exp_max + EXP_MAX_STEP) as i32,
            },
            exp: Experience(0),
        }
    } else {
        Player { level: p.level, exp: Experience((p.exp.0 + gain) as i32) }
    }
}

/// What adding `gain` experience to `p` needs to stay within `i32`.
pub open spec fn experience_fits(p: Player, gain: i32) -> bool {
    &&& i32::MIN <= p.exp.0 + gain <= i32::MAX
    &&& levels_up(p, gain) ==> p.level.value < i32::MAX && p.level.exp_max <= i32::MAX
        - EXP_MAX_STEP
}

impl Player {
    /// A fresh player: the starting level, no experience.
    pub fn default() -> (r: Self)
        ensures
            r.level == (Level { value: START_LEVEL, exp_max: START_EXP_MAX }),
            r.exp.0 == 0,
    {
        Player { level: Level { value: START_LEVEL, exp_max: START_EXP_MAX }, exp: Experience(0) }
    }

    /// Moves to the next level, which needs more experience than this one.
    pub fn level_up(&mut self)
        requires
            old(self).level.value < i32::MAX,
            old(self).level.exp_max <= i32::MAX - EXP_MAX_STEP,
        ensures
            final(self).level.value == old(self).level.value + 1,
            final(self).level.exp_max == old(self).level.exp_max + EXP_MAX_STEP,
            final(self).exp == old(self).exp,
    {
        self.level.value = self.level.value + 1;
        self.level.exp_max = self.level.exp_max + EXP_MAX_STEP;
    }

    /// Adds experience; filling the level moves to the next one and starts
    /// its experience from zero.
    pub fn add_experience(&mut self, experience: Experience)
        requires
            experience_fits(*old(self), experience.0),
        ensures
            *final(self) == after_experience(*old(self), experience.0),
    {
        self.exp.0 = self.exp.0 + experience.0;
        if self.exp.0 >= self.level.exp_max {
            self.level_up();
            self.exp = Experience(0);
        }
    }
}

/// A hit on an enemy is worth one point and one experience point.
pub fn record_hit(score: &mut Score, player: &mut Player)
    requires
        old(score).score < i32::MAX,
        experience_fits(*old(player), 1),
    ensures
        final(score).score == old(score).score + 1,
        *final(player) == after_experience(*old(player), 1),
{
    score.score = score.score + 1;
    player.add_experience(Experience(1));
}

/// The name that goes on the board: the typed one, or a stand-in when none
/// was typed.
pub open spec fn name_on_board(typed: Seq<char>) -> Seq<char> {
    if typed.len() == 0 {
        "Anonymous"@
    } else {
        typed
    }
}

/// The name under which a finished round is recorded.
pub fn board_name(player_name: &PlayerName) -> (r: String)
    ensures
        r@ == name_on_board(player_name.0@),
{
    if player_name.0.as_str().is_empty() {
        "Anonymous".to_owned()
    } else {
        player_name.0.clone()
    }
}

/// Ends a round: the round's score goes on the board under the player's name
/// and the running score starts again from zero.
pub fn finish_level(leaderboard: &mut Leaderboard, player_name: &PlayerName, score: &mut Score)
    requires
        old(leaderboard).wf(),
    ensures
        final(leaderboard).wf(),
        final(leaderboard)@ == board_after(
            old(leaderboard)@,
            (name_on_board(player_name.0@), old(score).score),
        ),
        final(score).score == 0,
{
    let name = board_name(player_name);
    leaderboard.add_score(name, score.score);
    score.score = 0;
}

/// The lines a player may be shown on being caught.
pub open spec fn death_messages() -> Seq<Seq<char>> {
    seq![
        "The ninjas got to you!"@,
        "Oh no you got hit again :("@,
        "Did you try running away from the ninjas?"@,
        "Press Space to throw your shuriken!"@,
        "That was great, but you can do better!"@,
        "You need to practice turning into a cactus when you are still."@,
    ]
}

/// Relies on rand's `SliceRandom::choose` for slices, drawing from
/// `rand::thread_rng`: `None` exactly when the slice is empty, otherwise a
/// reference to one of its elements.
#[verifier::external_body]
fn choose_one<'a>(items: &'a [String]) -> (r: Option<&'a String>)
    ensures
        r is None <==> items@.len() == 0,
        r matches Some(x) ==> items@.contains(*x),
{
    items.choose(&mut rand::thread_rng())
}

/// One of the death messages, picked at random.
pub fn death_message() -> (r: String)
    ensures
        death_messages().contains(r@),
{
    let mut msgs: Vec<String> = Vec::new();
    msgs.push("The ninjas got to you!".to_owned());
    msgs.push("Oh no you got hit again :(".to_owned());
    msgs.push("Did you try running away from the ninjas?".to_owned());
    msgs.push("Press Space to throw your shuriken!".to_owned());
    msgs.push("That was great, but you can do better!".to_owned());
    msgs.push("You need to practice turning into a cactus when you are still.".to_owned());
    let picked = choose_one(msgs.as_slice());
    let m = picked.unwrap();
    proof {
        let j = choose|j: int| 0 <= j < msgs@.len() && msgs@[j] == *m;
        assert(death_messages()[j] == m@);
    }
    m.clone()
}

} // verus!
