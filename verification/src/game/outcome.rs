use vstd::prelude::*;

use crate::game::player::Player;

verus! {

/// The result of a finished game.
#[derive(Debug, PartialEq, Eq, Structural, Clone, Copy)]
pub enum Outcome {
    Player1Win,
    Player2Win,
    Draw,
}

impl Outcome {
    /// The outcome in which the given player wins.
    pub open spec fn win_spec(player: Player) -> Outcome {
        match player {
            Player::Player1 => Outcome::Player1Win,
            Player::Player2 => Outcome::Player2Win,
        }
    }

    /// Returns the winning outcome for the given player.
    pub fn win(player: Player) -> (r: Outcome)
        ensures
            r == Outcome::win_spec(player),
    {
        match player {
            Player::Player1 => Outcome::Player1Win,
            Player::Player2 => Outcome::Player2Win,
        }
    }
}

} // verus!
